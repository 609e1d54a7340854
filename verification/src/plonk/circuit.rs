use vstd::prelude::*;

use crate::bytes::spec_read_padded;
use crate::config::Config;
use crate::decoder::spec_tail;
use crate::element::decoded_value;
use crate::error::Error;
use crate::plonk::constraint::{Constraint, ConstraintView, spec_constraint_len};
use crate::plonk::element::Element;
use crate::plonk::fixed_text::FixedText;
use crate::plonk::preamble::Preamble;
use crate::plonk::sort::{Identified, sort_by_id, spec_sort_by, spec_views};
use crate::plonk::witness::{Witness, WitnessView, spec_witness_len};

verus! {

impl Identified for Witness {
    open spec fn spec_id(v: WitnessView) -> int {
        v.id as int
    }

    fn id_key(&self) -> (k: u64) {
        self.id() as u64
    }
}

impl Identified for Constraint {
    open spec fn spec_id(v: ConstraintView) -> int {
        v.id as int
    }

    fn id_key(&self) -> (k: u64) {
        self.id()
    }
}

/// Ordering key of witnesses: their id.
pub open spec fn spec_witness_key() -> spec_fn(WitnessView) -> int {
    |v: WitnessView| Witness::spec_id(v)
}

/// Ordering key of constraints: their id.
pub open spec fn spec_constraint_key() -> spec_fn(ConstraintView) -> int {
    |v: ConstraintView| Constraint::spec_id(v)
}

/// The first failure of `check` over `s`, in order; `Ok` if none fails.
pub open spec fn spec_first_error<A>(s: Seq<A>, check: spec_fn(A) -> Result<(), Error>) -> Result<(), Error>
    decreases s.len(),
{
    if s.len() == 0 {
        Ok(())
    } else {
        match spec_first_error(s.drop_last(), check) {
            Err(e) => Err(e),
            Ok(_) => check(s.last()),
        }
    }
}

/// Each key of `s` is the previous one plus one, saturating at `max`.
pub open spec fn spec_dense<A>(s: Seq<A>, key: spec_fn(A) -> int, max: int) -> bool {
    forall|i: int|
        0 <= i < s.len() - 1 ==> (if key(#[trigger] s[i]) >= max {
            max
        } else {
            key(s[i]) + 1
        }) == key(s[i + 1])
}

/// Outcome of checking that witnesses and constraints form a valid circuit description:
/// both sets sorted by id must start at the id zero, validate against the preamble that
/// counts them, and hold each id from zero on once. On success, the preamble and the sorted
/// sets.
pub open spec fn spec_into_valid_cdf(p: Preamble, ws: Seq<WitnessView>, cs: Seq<ConstraintView>) -> Result<
    (Preamble, Seq<WitnessView>, Seq<ConstraintView>),
    Error,
> {
    let sw = spec_sort_by(ws, spec_witness_key());
    let sc = spec_sort_by(cs, spec_constraint_key());
    let q = Preamble { witnesses: ws.len() as usize, constraints: cs.len() as usize, config: p.config };
    if sw.len() > 0 && sw[0].id != 0 {
        Err(Error::WitnessesNotFromZero)
    } else if sc.len() > 0 && sc[0].id != 0 {
        Err(Error::ConstraintsNotFromZero)
    } else if spec_first_error(sw, |w: WitnessView| w.spec_validate(q)) is Err {
        Err(spec_first_error(sw, |w: WitnessView| w.spec_validate(q))->Err_0)
    } else if spec_first_error(sc, |c: ConstraintView| c.spec_validate(q)) is Err {
        Err(spec_first_error(sc, |c: ConstraintView| c.spec_validate(q))->Err_0)
    } else if !spec_dense(sw, spec_witness_key(), usize::MAX as int) {
        Err(Error::WitnessesNotDense)
    } else if !spec_dense(sc, spec_constraint_key(), u64::MAX as int) {
        Err(Error::ConstraintsNotDense)
    } else {
        Ok((q, sw, sc))
    }
}

/// In a dense sequence that starts at the key zero, the key of each element is its position.
proof fn lemma_dense_at<A>(s: Seq<A>, key: spec_fn(A) -> int, max: int, i: int)
    requires
        0 <= i < s.len(),
        s.len() <= max,
        key(s[0]) == 0,
        spec_dense(s, key, max),
    ensures
        key(s[i]) == i,
    decreases i,
{
    if i > 0 {
        lemma_dense_at(s, key, max, i - 1);
        assert((if key(s[i - 1]) >= max {
            max
        } else {
            key(s[i - 1]) + 1
        }) == key(s[i]));
    }
}

/// A successful validation gives each set sorted by id with the ids from zero on, one per
/// item, holding the items that were given, and a preamble that counts them.
pub proof fn lemma_valid_cdf_sound(p: Preamble, ws: Seq<WitnessView>, cs: Seq<ConstraintView>)
    requires
        ws.len() <= usize::MAX,
        cs.len() <= usize::MAX,
        spec_into_valid_cdf(p, ws, cs) is Ok,
    ensures
        ({
            let (q, sw, sc) = spec_into_valid_cdf(p, ws, cs)->Ok_0;
            &&& q == (Preamble { witnesses: ws.len() as usize, constraints: cs.len() as usize, config: p.config })
            &&& sw.len() == ws.len()
            &&& sc.len() == cs.len()
            &&& sw.to_multiset() == ws.to_multiset()
            &&& sc.to_multiset() == cs.to_multiset()
            &&& forall|i: int| 0 <= i < sw.len() ==> (#[trigger] sw[i]).id == i
            &&& forall|j: int| 0 <= j < sc.len() ==> (#[trigger] sc[j]).id == j
        }),
{
    crate::plonk::sort::lemma_sort_by(ws, spec_witness_key());
    crate::plonk::sort::lemma_sort_by(cs, spec_constraint_key());
    let sw = spec_sort_by(ws, spec_witness_key());
    let sc = spec_sort_by(cs, spec_constraint_key());
    assert forall|i: int| 0 <= i < sw.len() implies (#[trigger] sw[i]).id == i by {
        lemma_dense_at(sw, spec_witness_key(), usize::MAX as int, i);
    }
    assert forall|j: int| 0 <= j < sc.len() implies (#[trigger] sc[j]).id == j by {
        lemma_dense_at(sc, spec_constraint_key(), u64::MAX as int, j);
    }
}

/// A check that passes on every element passes on the sequence.
proof fn lemma_first_error_ok<A>(s: Seq<A>, check: spec_fn(A) -> Result<(), Error>)
    requires
        forall|i: int| 0 <= i < s.len() ==> check(#[trigger] s[i]) is Ok,
    ensures
        spec_first_error(s, check) is Ok,
    decreases s.len(),
{
    if s.len() > 0 {
        lemma_first_error_ok(s.drop_last(), check);
        assert(check(s[s.len() - 1]) is Ok);
    }
}

/// Validation succeeds on witnesses and constraints whose ids are unique and below their
/// counts, when every constraint validates against the preamble that counts them.
pub proof fn lemma_valid_cdf_complete(p: Preamble, ws: Seq<WitnessView>, cs: Seq<ConstraintView>)
    requires
        ws.len() <= usize::MAX,
        cs.len() <= usize::MAX,
        forall|i: int| 0 <= i < ws.len() ==> (#[trigger] ws[i]).id < ws.len(),
        forall|i: int, j: int| 0 <= i < ws.len() && 0 <= j < ws.len() && i != j ==> (#[trigger] ws[i]).id != (#[trigger] ws[j]).id,
        forall|i: int| 0 <= i < cs.len() ==> (#[trigger] cs[i]).id < cs.len(),
        forall|i: int, j: int| 0 <= i < cs.len() && 0 <= j < cs.len() && i != j ==> (#[trigger] cs[i]).id != (#[trigger] cs[j]).id,
        forall|i: int|
            0 <= i < cs.len() ==> (#[trigger] cs[i]).spec_validate(
                Preamble { witnesses: ws.len() as usize, constraints: cs.len() as usize, config: p.config },
            ) is Ok,
    ensures
        spec_into_valid_cdf(p, ws, cs) is Ok,
{
    broadcast use vstd::seq_lib::group_to_multiset_ensures;

    let q = Preamble { witnesses: ws.len() as usize, constraints: cs.len() as usize, config: p.config };
    let wk = spec_witness_key();
    let ck = spec_constraint_key();
    assert forall|i: int| 0 <= i < ws.len() implies 0 <= wk(#[trigger] ws[i]) < ws.len() by {
    }
    assert forall|i: int, j: int| 0 <= i < ws.len() && 0 <= j < ws.len() && i != j implies wk(#[trigger] ws[i]) != wk(
        #[trigger] ws[j],
    ) by {
    }
    assert forall|i: int| 0 <= i < cs.len() implies 0 <= ck(#[trigger] cs[i]) < cs.len() by {
    }
    assert forall|i: int, j: int| 0 <= i < cs.len() && 0 <= j < cs.len() && i != j implies ck(#[trigger] cs[i]) != ck(
        #[trigger] cs[j],
    ) by {
    }
    crate::plonk::sort::lemma_sort_unique_keys(ws, wk);
    crate::plonk::sort::lemma_sort_unique_keys(cs, ck);
    let sw = spec_sort_by(ws, wk);
    let sc = spec_sort_by(cs, ck);
    if sw.len() > 0 {
        assert(wk(sw[0]) == 0);
    }
    if sc.len() > 0 {
        assert(ck(sc[0]) == 0);
    }
    lemma_first_error_ok(sw, |w: WitnessView| w.spec_validate(q));
    assert forall|i: int| 0 <= i < sc.len() implies (|c: ConstraintView| c.spec_validate(q))(#[trigger] sc[i]) is Ok by {
        assert(sc.to_multiset().count(sc[i]) > 0);
        assert(cs.contains(sc[i]));
        let a = choose|a: int| 0 <= a < cs.len() && cs[a] == sc[i];
        assert(cs[a].spec_validate(q) is Ok);
    }
    lemma_first_error_ok(sc, |c: ConstraintView| c.spec_validate(q));
    assert forall|i: int| 0 <= i < sw.len() - 1 implies (if wk(#[trigger] sw[i]) >= usize::MAX as int {
        usize::MAX as int
    } else {
        wk(sw[i]) + 1
    }) == wk(sw[i + 1]) by {
        assert(wk(sw[i]) == i && wk(sw[i + 1]) == i + 1);
    }
    assert forall|i: int| 0 <= i < sc.len() - 1 implies (if ck(#[trigger] sc[i]) >= u64::MAX as int {
        u64::MAX as int
    } else {
        ck(sc[i]) + 1
    }) == ck(sc[i + 1]) by {
        assert(ck(sc[i]) == i && ck(sc[i + 1]) == i + 1);
    }
}

/// Bytes of the witnesses `ws`, in order.
pub open spec fn spec_witnesses_bytes(ws: Seq<WitnessView>, config: Config) -> Seq<u8>
    decreases ws.len(),
{
    if ws.len() == 0 {
        Seq::empty()
    } else {
        spec_witnesses_bytes(ws.drop_last(), config) + ws.last().spec_encode(config)
    }
}

/// Bytes of the constraints `cs`, in order.
pub open spec fn spec_constraints_bytes(cs: Seq<ConstraintView>, config: Config) -> Seq<u8>
    decreases cs.len(),
{
    if cs.len() == 0 {
        Seq::empty()
    } else {
        spec_constraints_bytes(cs.drop_last(), config) + cs.last().spec_encode(config)
    }
}

/// Bytes of a file of the preamble `p`, the witnesses `ws` and the constraints `cs`.
pub open spec fn spec_file_bytes(p: Preamble, ws: Seq<WitnessView>, cs: Seq<ConstraintView>) -> Seq<u8> {
    p.spec_encode(p.config) + spec_witnesses_bytes(ws, p.config) + spec_constraints_bytes(cs, p.config)
}

/// Length of a file of `w` witnesses and `c` constraints under `config`.
pub open spec fn spec_items_len(config: Config, w: int, c: int) -> int {
    17 + w * spec_witness_len(config) + c * spec_constraint_len(config)
}

/// A failure in a prefix of `s` is the first failure of `s`.
proof fn lemma_first_error_prefix<A>(s: Seq<A>, check: spec_fn(A) -> Result<(), Error>, k: int)
    requires
        0 <= k <= s.len(),
        spec_first_error(s.take(k), check) is Err,
    ensures
        spec_first_error(s, check) == spec_first_error(s.take(k), check),
    decreases s.len(),
{
    if k == s.len() {
        assert(s.take(k) =~= s);
    } else {
        assert(s.drop_last().take(k) =~= s.take(k));
        lemma_first_error_prefix(s.drop_last(), check, k);
    }
}

/// Check every item of `items` against `check` in order, returning the first failure.
fn validate_all<T: Element>(items: &Vec<T>, preamble: &Preamble) -> (r: Result<(), Error>)
    ensures
        r == spec_first_error(items@, |t: T| t.spec_validate(*preamble)),
{
    let ghost check = |t: T| t.spec_validate(*preamble);
    let n = items.len();
    let mut i: usize = 0;
    assert(items@.take(0) =~= Seq::<T>::empty());
    while i < n
        invariant
            n == items@.len(),
            i <= n,
            check == (|t: T| t.spec_validate(*preamble)),
            spec_first_error(items@.take(i as int), check) == Ok::<(), Error>(()),
        decreases n - i,
    {
        let r = items[i].validate(preamble);
        proof {
            assert(r == items@[i as int].spec_validate(*preamble));
            assert(check(items@[i as int]) == items@[i as int].spec_validate(*preamble));
            let t = items@.take(i + 1);
            assert(t.drop_last() =~= items@.take(i as int));
            assert(t.last() == items@[i as int]);
        }
        match r {
            Ok(u) => {
                assert(r == Ok::<(), Error>(u));
                assert(u == ());
                assert(check(items@[i as int]) == Ok::<(), Error>(()));
                assert(spec_first_error(items@.take(i + 1).drop_last(), check) == Ok::<(), Error>(()));
                assert(spec_first_error(items@.take(i + 1), check) == Ok::<(), Error>(()));
            },
            Err(e) => {
                proof {
                    lemma_first_error_prefix(items@, check, i + 1);
                }
                return Err(e);
            },
        }
        i = i + 1;
    }
    assert(items@.take(n as int) =~= items@);
    Ok(())
}

/// The first failure of a check over views is the first failure over the items.
proof fn lemma_first_error_views<T: Element>(items: Seq<T>, preamble: Preamble, check: spec_fn(T::V) -> Result<(), Error>)
    requires
        forall|t: T| #[trigger] t.spec_validate(preamble) == check(t.deep_view()),
    ensures
        spec_first_error(items, |t: T| t.spec_validate(preamble)) == spec_first_error(spec_views(items), check),
    decreases items.len(),
{
    if items.len() > 0 {
        lemma_first_error_views(items.drop_last(), preamble, check);
        assert(spec_views(items).drop_last() =~= spec_views(items.drop_last()));
        assert(spec_views(items).last() == items.last().deep_view());
    }
}

/// Check that each witness id is the previous one plus one, saturating.
fn witnesses_dense(witnesses: &Vec<Witness>) -> (b: bool)
    ensures
        b == spec_dense(spec_views(witnesses@), spec_witness_key(), usize::MAX as int),
{
    let ghost sw = spec_views(witnesses@);
    let n = witnesses.len();
    assert(sw.len() == n);
    let mut i: usize = 0;
    while n > 0 && i < n - 1
        invariant
            n == witnesses@.len(),
            i < n || n == 0,
            sw == spec_views(witnesses@),
            sw.len() == n,
            forall|k: int|
                0 <= k < i ==> (if spec_witness_key()(#[trigger] sw[k]) >= usize::MAX as int {
                    usize::MAX as int
                } else {
                    spec_witness_key()(sw[k]) + 1
                }) == spec_witness_key()(sw[k + 1]),
        decreases n - i,
    {
        let a = witnesses[i].id();
        let b = witnesses[i + 1].id();
        proof {
            assert(sw[i as int] == witnesses@[i as int].deep_view());
            assert(sw[i + 1] == witnesses@[i + 1].deep_view());
        }
        if a.saturating_add(1) != b {
            proof {
                if spec_dense(sw, spec_witness_key(), usize::MAX as int) {
                    assert((if spec_witness_key()(sw[i as int]) >= usize::MAX as int {
                        usize::MAX as int
                    } else {
                        spec_witness_key()(sw[i as int]) + 1
                    }) == spec_witness_key()(sw[i + 1]));
                }
            }
            return false;
        }
        i = i + 1;
    }
    true
}

/// Check that each constraint id is the previous one plus one, saturating.
fn constraints_dense(constraints: &Vec<Constraint>) -> (b: bool)
    ensures
        b == spec_dense(spec_views(constraints@), spec_constraint_key(), u64::MAX as int),
{
    let ghost sc = spec_views(constraints@);
    let n = constraints.len();
    assert(sc.len() == n);
    let mut i: usize = 0;
    while n > 0 && i < n - 1
        invariant
            n == constraints@.len(),
            i < n || n == 0,
            sc == spec_views(constraints@),
            sc.len() == n,
            forall|k: int|
                0 <= k < i ==> (if spec_constraint_key()(#[trigger] sc[k]) >= u64::MAX as int {
                    u64::MAX as int
                } else {
                    spec_constraint_key()(sc[k]) + 1
                }) == spec_constraint_key()(sc[k + 1]),
        decreases n - i,
    {
        let a = constraints[i].id();
        let b = constraints[i + 1].id();
        proof {
            assert(sc[i as int] == constraints@[i as int].deep_view());
            assert(sc[i + 1] == constraints@[i + 1].deep_view());
        }
        if a.saturating_add(1) != b {
            proof {
                if spec_dense(sc, spec_constraint_key(), u64::MAX as int) {
                    assert((if spec_constraint_key()(sc[i as int]) >= u64::MAX as int {
                        u64::MAX as int
                    } else {
                        spec_constraint_key()(sc[i as int]) + 1
                    }) == spec_constraint_key()(sc[i + 1]));
                }
            }
            return false;
        }
        i = i + 1;
    }
    true
}

/// Bytes of the items `items`, in order.
pub open spec fn spec_concat_encodings<T: Element>(items: Seq<T>, config: Config) -> Seq<u8>
    decreases items.len(),
{
    if items.len() == 0 {
        Seq::empty()
    } else {
        spec_concat_encodings(items.drop_last(), config) + items.last().spec_encode(config)
    }
}

/// The encodings of items take the serialized length each.
proof fn lemma_concat_len<T: Element>(items: Seq<T>, config: Config)
    ensures
        spec_concat_encodings(items, config).len() == items.len() * T::spec_len(config),
    decreases items.len(),
{
    if items.len() > 0 {
        let l = T::spec_len(config) as int;
        let n = items.len() as int;
        lemma_concat_len(items.drop_last(), config);
        items.last().lemma_encode_len(config);
        assert(n * l == (n - 1) * l + l) by (nonlinear_arith);
    }
}

/// The encodings of items follow each other: item `i` stands at `i` times the serialized
/// length.
proof fn lemma_concat_at<T: Element>(items: Seq<T>, config: Config, i: int)
    requires
        0 <= i < items.len(),
    ensures
        (i + 1) * T::spec_len(config) <= spec_concat_encodings(items, config).len(),
        spec_concat_encodings(items, config).subrange(i * T::spec_len(config), (i + 1) * T::spec_len(config))
            == items[i].spec_encode(config),
    decreases items.len(),
{
    let l = T::spec_len(config) as int;
    let n = items.len() as int;
    let init = items.drop_last();
    lemma_concat_len(items, config);
    lemma_concat_len(init, config);
    items.last().lemma_encode_len(config);
    assert((i + 1) * l <= n * l) by (nonlinear_arith)
        requires
            i + 1 <= n,
            l >= 0,
    ;
    assert((i + 1) * l == i * l + l) by (nonlinear_arith);
    let c = spec_concat_encodings(init, config);
    if i < n - 1 {
        lemma_concat_at(init, config, i);
        assert(spec_concat_encodings(items, config).subrange(i * l, (i + 1) * l) =~= c.subrange(i * l, (i + 1) * l));
    } else {
        assert((n - 1) * l + l == n * l) by (nonlinear_arith);
        assert(spec_concat_encodings(items, config).subrange(i * l, (i + 1) * l) =~= items.last().spec_encode(config));
    }
}

/// A read of `len` bytes at `off`, within the bytes, reads the bytes there.
proof fn lemma_read_within(bytes: Seq<u8>, off: int, len: nat)
    requires
        0 <= off,
        off + len <= bytes.len(),
    ensures
        spec_read_padded(spec_tail(bytes, off), len) == bytes.subrange(off, off + len),
{
    assert(spec_read_padded(spec_tail(bytes, off), len) =~= bytes.subrange(off, off + len));
}

/// A range within the middle part of three concatenated parts.
proof fn lemma_middle_range(a: Seq<u8>, b: Seq<u8>, c: Seq<u8>, x: int, y: int)
    requires
        0 <= x <= y <= b.len(),
    ensures
        (a + b + c).subrange(a.len() + x, a.len() + y) == b.subrange(x, y),
{
    assert((a + b + c).subrange(a.len() + x, a.len() + y) =~= b.subrange(x, y));
}

/// The bytes of witnesses are the concatenation of their encodings.
proof fn lemma_witnesses_bytes(ws: Seq<Witness>, config: Config)
    ensures
        spec_witnesses_bytes(spec_views(ws), config) == spec_concat_encodings(ws, config),
    decreases ws.len(),
{
    if ws.len() > 0 {
        lemma_witnesses_bytes(ws.drop_last(), config);
        assert(spec_views(ws).drop_last() =~= spec_views(ws.drop_last()));
    }
}

/// The bytes of constraints are the concatenation of their encodings.
proof fn lemma_constraints_bytes(cs: Seq<Constraint>, config: Config)
    ensures
        spec_constraints_bytes(spec_views(cs), config) == spec_concat_encodings(cs, config),
    decreases cs.len(),
{
    if cs.len() > 0 {
        lemma_constraints_bytes(cs.drop_last(), config);
        assert(spec_views(cs).drop_last() =~= spec_views(cs.drop_last()));
    }
}

/// Model of a circuit description.
pub struct CircuitDescriptionView {
    /// Preamble read from the front of the file.
    pub preamble: Preamble,
    /// Bytes of the file.
    pub bytes: Seq<u8>,
}

/// Preamble read from the front of a file: missing bytes read as zeroes.
pub open spec fn spec_read_preamble(bytes: Seq<u8>) -> Preamble {
    Preamble::spec_decode_into(Preamble::spec_default(), Config::spec_default(), spec_read_padded(bytes, 17))->Ok_0
}

impl CircuitDescriptionView {
    /// Result of fetching the witness at `idx`.
    pub open spec fn spec_fetch_witness(&self, idx: int) -> Result<WitnessView, Error> {
        if idx < 0 || idx >= self.preamble.witnesses {
            Err(Error::InvalidWitness)
        } else if self.preamble.spec_witness_offset(idx) > usize::MAX {
            Err(Error::OffsetOverflow)
        } else {
            Witness::spec_decode_into(
                Witness::spec_default(),
                self.preamble.config,
                spec_read_padded(
                    spec_tail(self.bytes, self.preamble.spec_witness_offset(idx)),
                    spec_witness_len(self.preamble.config),
                ),
            )
        }
    }

    /// Result of fetching the path at `idx` of the source cache stored after all constraints.
    pub open spec fn spec_fetch_source(&self, idx: int) -> Result<Seq<char>, Error> {
        if self.preamble.spec_source_cache_offset(idx) > usize::MAX {
            Err(Error::OffsetOverflow)
        } else {
            FixedText::<1024>::spec_decode_into(
                Seq::empty(),
                self.preamble.config,
                spec_read_padded(spec_tail(self.bytes, self.preamble.spec_source_cache_offset(idx)), 1024),
            )
        }
    }

    /// Result of fetching the constraint at `idx`.
    pub open spec fn spec_fetch_constraint(&self, idx: int) -> Result<ConstraintView, Error> {
        if idx < 0 || idx >= self.preamble.constraints {
            Err(Error::InvalidConstraint)
        } else if self.preamble.spec_constraint_offset(idx) > usize::MAX {
            Err(Error::OffsetOverflow)
        } else {
            Constraint::spec_decode_into(
                Constraint::spec_default(),
                self.preamble.config,
                spec_read_padded(
                    spec_tail(self.bytes, self.preamble.spec_constraint_offset(idx)),
                    spec_constraint_len(self.preamble.config),
                ),
            )
        }
    }
}

/// Reading back a file of the preamble `p`, the witnesses `ws` and the constraints `cs` as
/// written: the preamble reads back, and fetching the witness at `i` gives back `ws[i]` as its
/// decoding gives it (scalars zeroed when the configuration skips them).
#[verifier::spinoff_prover]
#[verifier::rlimit(40)]
pub proof fn lemma_written_witness(p: Preamble, ws: Seq<Witness>, cs: Seq<Constraint>, i: int)
    requires
        p.witnesses == ws.len(),
        p.constraints == cs.len(),
        spec_items_len(p.config, ws.len() as int, cs.len() as int) <= usize::MAX,
        0 <= i < ws.len(),
    ensures
        spec_read_preamble(spec_file_bytes(p, spec_views(ws), spec_views(cs))) == p,
        (CircuitDescriptionView { preamble: p, bytes: spec_file_bytes(p, spec_views(ws), spec_views(cs)) }).spec_fetch_witness(i)
            == Ok::<WitnessView, Error>(ws[i].spec_normalize(p.config)),
{
    let config = p.config;
    let bytes = spec_file_bytes(p, spec_views(ws), spec_views(cs));
    lemma_file_preamble(p, ws, cs);
    lemma_witnesses_bytes(ws, config);
    lemma_constraints_bytes(cs, config);
    lemma_concat_at(ws, config, i);
    lemma_concat_len(ws, config);
    lemma_concat_len(cs, config);
    let wl = spec_witness_len(config) as int;
    let wb = spec_concat_encodings(ws, config);
    let cb = spec_concat_encodings(cs, config);
    let head = p.spec_encode(config);
    p.lemma_encode_len(config);
    assert(Witness::spec_len(config) == wl);
    let off = p.spec_witness_offset(i);
    assert(off == 17 + i * wl);
    assert(i * wl >= 0) by (nonlinear_arith)
        requires
            i >= 0,
            wl >= 0,
    ;
    assert(bytes == head + wb + cb);
    assert((i + 1) * Witness::spec_len(config) <= wb.len());
    assert((i + 1) * wl <= wb.len());
    assert((i + 1) * wl == i * wl + wl) by (nonlinear_arith);
    lemma_middle_range(head, wb, cb, i * wl, (i + 1) * wl);
    lemma_read_within(bytes, off, wl as nat);
    ws[i].lemma_roundtrip(config);
}

/// Reading back a file of the preamble `p`, the witnesses `ws` and the constraints `cs` as
/// written: fetching the constraint at `j` gives back `cs[j]` as its decoding gives it
/// (scalars zeroed when the configuration skips them).
#[verifier::spinoff_prover]
#[verifier::rlimit(40)]
pub proof fn lemma_written_constraint(p: Preamble, ws: Seq<Witness>, cs: Seq<Constraint>, j: int)
    requires
        p.witnesses == ws.len(),
        p.constraints == cs.len(),
        spec_items_len(p.config, ws.len() as int, cs.len() as int) <= usize::MAX,
        0 <= j < cs.len(),
    ensures
        (CircuitDescriptionView { preamble: p, bytes: spec_file_bytes(p, spec_views(ws), spec_views(cs)) }).spec_fetch_constraint(j)
            == Ok::<ConstraintView, Error>(cs[j].spec_normalize(p.config)),
{
    let config = p.config;
    let bytes = spec_file_bytes(p, spec_views(ws), spec_views(cs));
    lemma_witnesses_bytes(ws, config);
    lemma_constraints_bytes(cs, config);
    lemma_concat_at(cs, config, j);
    lemma_concat_len(ws, config);
    lemma_concat_len(cs, config);
    let wl = spec_witness_len(config) as int;
    let cl = spec_constraint_len(config) as int;
    let wb = spec_concat_encodings(ws, config);
    let cb = spec_concat_encodings(cs, config);
    let head = p.spec_encode(config);
    p.lemma_encode_len(config);
    assert(Witness::spec_len(config) == wl);
    assert(Constraint::spec_len(config) == cl);
    let off = p.spec_constraint_offset(j);
    assert(off == 17 + ws.len() * wl + j * cl);
    assert(j * cl >= 0) by (nonlinear_arith)
        requires
            j >= 0,
            cl >= 0,
    ;
    assert(bytes =~= (head + wb) + cb + Seq::<u8>::empty());
    assert((j + 1) * Constraint::spec_len(config) <= cb.len());
    assert((j + 1) * cl <= cb.len());
    assert((j + 1) * cl == j * cl + cl) by (nonlinear_arith);
    assert(wb.len() == ws.len() * wl);
    lemma_middle_range(head + wb, cb, Seq::<u8>::empty(), j * cl, (j + 1) * cl);
    lemma_read_within(bytes, off, cl as nat);
    cs[j].lemma_roundtrip(config);
}

/// The preamble of a written file reads back.
proof fn lemma_file_preamble(p: Preamble, ws: Seq<Witness>, cs: Seq<Constraint>)
    ensures
        spec_read_preamble(spec_file_bytes(p, spec_views(ws), spec_views(cs))) == p,
{
    let bytes = spec_file_bytes(p, spec_views(ws), spec_views(cs));
    let head = p.spec_encode(p.config);
    p.lemma_encode_len(p.config);
    p.lemma_roundtrip(Config::spec_default());
    assert(spec_read_padded(bytes, 17) =~= head);
    Preamble::lemma_decode_prefix(Preamble::spec_default(), Config::spec_default(), head);
    assert(head.take(17) =~= head);
}

/// A circuit description file.
///
/// Witnesses and constraints are decoded on demand from the bytes of the file.
#[derive(Debug)]
pub struct CircuitDescription {
    source: Vec<u8>,
    preamble: Preamble,
}

impl View for CircuitDescription {
    type V = CircuitDescriptionView;

    closed spec fn view(&self) -> CircuitDescriptionView {
        CircuitDescriptionView { preamble: self.preamble, bytes: self.source@ }
    }
}

/// Bytes from `at` on; none when `at` is past the end.
fn tail_from(bytes: &[u8], at: usize) -> (t: &[u8])
    ensures
        t@ == spec_tail(bytes@, at as int),
{
    if at <= bytes.len() {
        let (_, t) = bytes.split_at(at);
        t
    } else {
        let t: &[u8] = &[];
        assert(t@ =~= Seq::<u8>::empty());
        t
    }
}

impl CircuitDescription {
    /// Create a new circuit description from the bytes of a file, reading its preamble.
    pub fn from_reader(source: Vec<u8>) -> (r: Result<CircuitDescription, Error>)
        ensures
            r is Ok,
            r.unwrap()@ == (CircuitDescriptionView { preamble: spec_read_preamble(source@), bytes: source@ }),
    {
        let config = Config::new();
        let preamble = match Preamble::try_from_reader(source.as_slice(), &config) {
            Ok(p) => p,
            Err(e) => return Err(e),
        };
        Ok(CircuitDescription { source, preamble })
    }

    /// Attempt to read an indexed constraint from the file.
    pub fn fetch_constraint(&self, idx: usize) -> (r: Result<Constraint, Error>)
        ensures
            decoded_value(self@.spec_fetch_constraint(idx as int), r),
    {
        if idx >= self.preamble.constraints {
            return Err(Error::InvalidConstraint);
        }
        let wl: u128 = if self.preamble.config.zeroed_scalar_values { 1048 } else { 1080 };
        let cl: u128 = if self.preamble.config.zeroed_scalar_values { 1117 } else { 1501 };
        proof {
            assert(self.preamble.witnesses * wl <= 0xffff_ffff_ffff_ffff * 1501) by (nonlinear_arith)
                requires
                    self.preamble.witnesses <= 0xffff_ffff_ffff_ffff,
                    wl <= 1501,
            ;
            assert(idx * cl <= 0xffff_ffff_ffff_ffff * 1501) by (nonlinear_arith)
                requires
                    idx <= 0xffff_ffff_ffff_ffff,
                    cl <= 1501,
            ;
        }
        let ofs: u128 = 17 + self.preamble.witnesses as u128 * wl + idx as u128 * cl;
        if ofs > usize::MAX as u128 {
            return Err(Error::OffsetOverflow);
        }
        let tail = tail_from(self.source.as_slice(), ofs as usize);
        Constraint::try_from_reader(tail, &self.preamble.config)
    }

    /// Attempt to read an indexed witness from the file.
    pub fn fetch_witness(&self, idx: usize) -> (r: Result<Witness, Error>)
        ensures
            decoded_value(self@.spec_fetch_witness(idx as int), r),
    {
        if idx >= self.preamble.witnesses {
            return Err(Error::InvalidWitness);
        }
        let wl: u128 = if self.preamble.config.zeroed_scalar_values { 1048 } else { 1080 };
        proof {
            assert(idx * wl <= 0xffff_ffff_ffff_ffff * 1080) by (nonlinear_arith)
                requires
                    idx <= 0xffff_ffff_ffff_ffff,
                    wl <= 1080,
            ;
        }
        let ofs: u128 = 17 + idx as u128 * wl;
        if ofs > usize::MAX as u128 {
            return Err(Error::OffsetOverflow);
        }
        let tail = tail_from(self.source.as_slice(), ofs as usize);
        Witness::try_from_reader(tail, &self.preamble.config)
    }

    /// Assert the witnesses and constraints form a valid circuit description, returning them
    /// sorted by id with the preamble that counts them; see [`spec_into_valid_cdf`].
    pub fn into_valid_cdf(
        preamble: Preamble,
        witnesses: Vec<Witness>,
        constraints: Vec<Constraint>,
    ) -> (r: Result<(Preamble, Vec<Witness>, Vec<Constraint>), Error>)
        ensures
            match spec_into_valid_cdf(preamble, spec_views(witnesses@), spec_views(constraints@)) {
                Ok((q, sw, sc)) => r is Ok && r.unwrap().0 == q && spec_views(r.unwrap().1@) == sw && spec_views(
                    r.unwrap().2@,
                ) == sc,
                Err(e) => r is Err && r->Err_0 == e,
            },
    {
        let ghost ws = spec_views(witnesses@);
        let ghost cs = spec_views(constraints@);
        let nw = witnesses.len();
        let nc = constraints.len();
        let witnesses = sort_by_id(witnesses);
        let constraints = sort_by_id(constraints);
        let ghost sw = spec_sort_by(ws, spec_witness_key());
        let ghost sc = spec_sort_by(cs, spec_constraint_key());
        proof {
            assert(spec_views(witnesses@) == sw);
            assert(spec_views(constraints@) == sc);
            crate::plonk::sort::lemma_sort_by(ws, spec_witness_key());
            crate::plonk::sort::lemma_sort_by(cs, spec_constraint_key());
            assert(spec_views(witnesses@).len() == witnesses@.len());
            assert(spec_views(constraints@).len() == constraints@.len());
        }
        if witnesses.len() > 0 && witnesses[0].id() != 0 {
            proof {
                assert(sw[0] == witnesses@[0].deep_view());
            }
            return Err(Error::WitnessesNotFromZero);
        }
        proof {
            if witnesses@.len() > 0 {
                assert(sw[0] == witnesses@[0].deep_view());
            }
        }
        if constraints.len() > 0 && constraints[0].id() != 0 {
            proof {
                assert(sc[0] == constraints@[0].deep_view());
            }
            return Err(Error::ConstraintsNotFromZero);
        }
        proof {
            if constraints@.len() > 0 {
                assert(sc[0] == constraints@[0].deep_view());
            }
        }
        let q = Preamble { witnesses: nw, constraints: nc, config: preamble.config };
        proof {
            lemma_first_error_views(witnesses@, q, |w: WitnessView| w.spec_validate(q));
            lemma_first_error_views(constraints@, q, |c: ConstraintView| c.spec_validate(q));
        }
        match validate_all(&witnesses, &q) {
            Ok(()) => {},
            Err(e) => return Err(e),
        }
        match validate_all(&constraints, &q) {
            Ok(()) => {},
            Err(e) => return Err(e),
        }
        if !witnesses_dense(&witnesses) {
            return Err(Error::WitnessesNotDense);
        }
        if !constraints_dense(&constraints) {
            return Err(Error::ConstraintsNotDense);
        }
        Ok((q, witnesses, constraints))
    }

    /// Write the preamble and all items without checking the consistency of the file,
    /// returning the count of written bytes.
    ///
    /// The items are expected to comply with the rules that [`Self::into_valid_cdf`] checks.
    pub fn write_all_unchecked(
        writer: &mut Vec<u8>,
        preamble: Preamble,
        witnesses: &Vec<Witness>,
        constraints: &Vec<Constraint>,
    ) -> (n: usize)
        requires
            spec_items_len(preamble.config, witnesses@.len() as int, constraints@.len() as int) <= usize::MAX,
        ensures
            final(writer)@ == old(writer)@ + spec_file_bytes(preamble, spec_views(witnesses@), spec_views(constraints@)),
            n == spec_items_len(preamble.config, witnesses@.len() as int, constraints@.len() as int),
    {
        let ghost config = preamble.config;
        let ghost ws = spec_views(witnesses@);
        let ghost cs = spec_views(constraints@);
        let wl: usize = if preamble.config.zeroed_scalar_values { 1048 } else { 1080 };
        let cl: usize = if preamble.config.zeroed_scalar_values { 1117 } else { 1501 };
        let mut n = preamble.try_to_writer(writer, &preamble.config);
        let ghost head = writer@;
        let nw = witnesses.len();
        let mut i: usize = 0;
        assert(ws.take(0) =~= Seq::<WitnessView>::empty());
        while i < nw
            invariant
                nw == witnesses@.len(),
                ws == spec_views(witnesses@),
                i <= nw,
                wl == spec_witness_len(config),
                cl == spec_constraint_len(config),
                config == preamble.config,
                head == old(writer)@ + preamble.spec_encode(config),
                writer@ == head + spec_witnesses_bytes(ws.take(i as int), config),
                n == 17 + i * wl,
                spec_items_len(config, nw as int, constraints@.len() as int) <= usize::MAX,
            decreases nw - i,
        {
            proof {
                assert((i + 1) * wl <= nw * wl) by (nonlinear_arith)
                    requires
                        i < nw,
                ;
                assert(constraints@.len() * cl >= 0) by (nonlinear_arith)
                    requires
                        cl >= 0,
                ;
                assert((i + 1) * wl == i * wl + wl) by (nonlinear_arith);
            }
            let x = witnesses[i].try_to_writer(writer, &preamble.config);
            proof {
                let t = ws.take(i + 1);
                assert(t.drop_last() =~= ws.take(i as int));
                assert(t.last() == witnesses@[i as int].deep_view());
                assert(writer@ =~= head + spec_witnesses_bytes(t, config));
            }
            n = n + x;
            i = i + 1;
        }
        proof {
            assert(ws.take(nw as int) =~= ws);
        }
        let ghost mid = writer@;
        let nc = constraints.len();
        let mut j: usize = 0;
        assert(cs.take(0) =~= Seq::<ConstraintView>::empty());
        while j < nc
            invariant
                nc == constraints@.len(),
                cs == spec_views(constraints@),
                j <= nc,
                cl == spec_constraint_len(config),
                config == preamble.config,
                mid == old(writer)@ + preamble.spec_encode(config) + spec_witnesses_bytes(ws, config),
                writer@ == mid + spec_constraints_bytes(cs.take(j as int), config),
                n == 17 + nw * spec_witness_len(config) + j * cl,
                spec_items_len(config, nw as int, nc as int) <= usize::MAX,
            decreases nc - j,
        {
            proof {
                assert((j + 1) * cl <= nc * cl) by (nonlinear_arith)
                    requires
                        j < nc,
                ;
                assert((j + 1) * cl == j * cl + cl) by (nonlinear_arith);
            }
            let x = constraints[j].try_to_writer(writer, &preamble.config);
            proof {
                let t = cs.take(j + 1);
                assert(t.drop_last() =~= cs.take(j as int));
                assert(t.last() == constraints@[j as int].deep_view());
                assert(writer@ =~= mid + spec_constraints_bytes(t, config));
            }
            n = n + x;
            j = j + 1;
        }
        proof {
            assert(cs.take(nc as int) =~= cs);
            assert(writer@ =~= old(writer)@ + spec_file_bytes(preamble, ws, cs));
        }
        n
    }

    /// Write all items, asserting the consistency of the file with [`Self::into_valid_cdf`]
    /// against `preamble`, and returning the count of written bytes.
    pub fn write_all(
        writer: &mut Vec<u8>,
        preamble: Preamble,
        witnesses: Vec<Witness>,
        constraints: Vec<Constraint>,
    ) -> (r: Result<usize, Error>)
        requires
            spec_items_len(preamble.config, witnesses@.len() as int, constraints@.len() as int) <= usize::MAX,
        ensures
            match spec_into_valid_cdf(preamble, spec_views(witnesses@), spec_views(constraints@)) {
                Ok((q, sw, sc)) => r == Ok::<usize, Error>(
                    spec_items_len(q.config, sw.len() as int, sc.len() as int) as usize,
                ) && final(writer)@ == old(writer)@ + spec_file_bytes(q, sw, sc),
                Err(e) => r == Err::<usize, Error>(e) && final(writer)@ == old(writer)@,
            },
    {
        proof {
            crate::plonk::sort::lemma_sort_by(spec_views(witnesses@), spec_witness_key());
            crate::plonk::sort::lemma_sort_by(spec_views(constraints@), spec_constraint_key());
            assert(spec_views(witnesses@).len() == witnesses@.len());
            assert(spec_views(constraints@).len() == constraints@.len());
        }
        match Self::into_valid_cdf(preamble, witnesses, constraints) {
            Ok((preamble, witnesses, constraints)) => {
                proof {
                    assert(spec_views(witnesses@).len() == witnesses@.len());
                    assert(spec_views(constraints@).len() == constraints@.len());
                }
                Ok(Self::write_all_unchecked(writer, preamble, &witnesses, &constraints))
            },
            Err(e) => Err(e),
        }
    }

    /// Attempt to read the path at `idx` of the source cache stored after all constraints.
    pub fn fetch_source(&self, idx: usize) -> (r: Result<FixedText<1024>, Error>)
        ensures
            decoded_value(self@.spec_fetch_source(idx as int), r),
    {
        let wl: u128 = if self.preamble.config.zeroed_scalar_values { 1048 } else { 1080 };
        let cl: u128 = if self.preamble.config.zeroed_scalar_values { 1117 } else { 1501 };
        proof {
            assert(self.preamble.witnesses * wl <= 0xffff_ffff_ffff_ffff * 1501) by (nonlinear_arith)
                requires
                    self.preamble.witnesses <= 0xffff_ffff_ffff_ffff,
                    wl <= 1501,
            ;
            assert(self.preamble.constraints * cl <= 0xffff_ffff_ffff_ffff * 1501) by (nonlinear_arith)
                requires
                    self.preamble.constraints <= 0xffff_ffff_ffff_ffff,
                    cl <= 1501,
            ;
            assert(idx * 1024 <= 0xffff_ffff_ffff_ffff * 1024) by (nonlinear_arith)
                requires
                    idx <= 0xffff_ffff_ffff_ffff,
            ;
        }
        let ofs: u128 = 17 + self.preamble.witnesses as u128 * wl + self.preamble.constraints as u128 * cl
            + idx as u128 * 1024;
        if ofs > usize::MAX as u128 {
            return Err(Error::OffsetOverflow);
        }
        let tail = tail_from(self.source.as_slice(), ofs as usize);
        FixedText::<1024>::try_from_reader(tail, &self.preamble.config)
    }

    /// Mutable access to the bytes of the file.
    pub fn source_mut(&mut self) -> (s: &mut Vec<u8>)
        ensures
            s@ == old(self)@.bytes,
            final(self)@ == (CircuitDescriptionView { preamble: old(self)@.preamble, bytes: final(s)@ }),
    {
        &mut self.source
    }

    /// Return the bytes of the file.
    pub fn into_inner(self) -> (b: Vec<u8>)
        ensures
            b@ == self@.bytes,
    {
        self.source
    }

    /// Metadata of the file.
    pub fn preamble(&self) -> (p: &Preamble)
        ensures
            *p == self@.preamble,
    {
        &self.preamble
    }
}

} // verus!
