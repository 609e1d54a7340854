use vstd::prelude::*;

use crate::bytes::spec_read_padded;
use crate::config::Config;
use crate::constraint::{ConstraintView, EncodableConstraint, lemma_constraint_roundtrip, spec_constraint_len};
use crate::context::spec_add_path;
use crate::context::DecoderContextView;
use crate::decoder::{CircuitDescriptionView, spec_read_preamble, spec_tail};
use crate::element::{Codec, DecodableElement, Element, EncodableElement};
use crate::bytes::{lemma_write_at_within, spec_write_at};
use vstd::set_lib::{lemma_int_range, lemma_len_subset, set_int_range};
use crate::encoder::{
    spec_constraint_id_used, spec_file_front, spec_place_constraints, spec_place_witnesses, spec_source_cache_bytes, spec_witness_id_used,
    spec_write_file, spec_write_items,
};
use crate::error::Error;
use crate::msgpack::spec_msgpack_fits;
use crate::preamble::Preamble;
use crate::witness::{EncodableWitness, WitnessView, lemma_witness_roundtrip, spec_witness_len};

verus! {

/// Writing items takes the serialized length once per item.
proof fn lemma_write_items_len<T: EncodableElement>(items: Seq<T>, config: Config, paths: Seq<Seq<char>>)
    ensures
        spec_write_items(items, config, paths).0.len() == items.len() * T::spec_len(config),
    decreases items.len(),
{
    if items.len() > 0 {
        lemma_write_items_len(items.drop_last(), config, paths);
        let (_, before) = spec_write_items(items.drop_last(), config, paths);
        let after = items.last().spec_register(before);
        items.last().lemma_encode_len(config, after);
        assert(items.len() * T::spec_len(config) == (items.len() - 1) * T::spec_len(config) + T::spec_len(config))
            by (nonlinear_arith);
    }
}

/// Writing the first `k` items writes the front of what writing all of them writes, and
/// leaves a path cache that the later items only extend.
proof fn lemma_write_items_take<T: EncodableElement>(items: Seq<T>, config: Config, paths: Seq<Seq<char>>, k: int)
    requires
        0 <= k <= items.len(),
    ensures
        spec_write_items(items, config, paths).0.subrange(0, k * T::spec_len(config)) == spec_write_items(
            items.take(k),
            config,
            paths,
        ).0,
        spec_write_items(items.take(k), config, paths).1.is_prefix_of(spec_write_items(items, config, paths).1),
    decreases items.len(),
{
    let l = T::spec_len(config) as int;
    if k == items.len() {
        assert(items.take(k) =~= items);
        lemma_write_items_len(items, config, paths);
        let all = spec_write_items(items, config, paths);
        assert(all.0.subrange(0, k * l) =~= all.0);
        assert(all.1.is_prefix_of(all.1));
    } else {
        let init = items.drop_last();
        lemma_write_items_take(init, config, paths, k);
        assert(init.take(k) =~= items.take(k));
        lemma_write_items_len(init, config, paths);
        let (bytes0, before) = spec_write_items(init, config, paths);
        let after = items.last().spec_register(before);
        items.last().lemma_register_extends(before);
        assert(k * l <= init.len() * l) by (nonlinear_arith)
            requires
                k <= init.len(),
                l >= 0,
        ;
        let all = spec_write_items(items, config, paths);
        assert(all.0 == bytes0 + items.last().spec_encode(config, after));
        assert(all.0.subrange(0, k * l) =~= bytes0.subrange(0, k * l));
        let front = spec_write_items(items.take(k), config, paths).1;
        assert(front.is_prefix_of(after)) by {
            assert(front =~= before.subrange(0, front.len() as int));
            assert(before =~= after.subrange(0, before.len() as int));
            assert(front =~= after.subrange(0, front.len() as int));
        }
    }
}

/// Where each item registers one path, writing items keeps a cache without duplicates
/// free of them, grows it by at most one path per item, and holds each item's path once
/// that item is written.
proof fn lemma_write_items_paths<T: EncodableElement>(
    items: Seq<T>,
    config: Config,
    paths: Seq<Seq<char>>,
    path_of: spec_fn(T) -> Seq<char>,
)
    requires
        paths.no_duplicates(),
        forall|x: T, p: Seq<Seq<char>>| #[trigger] x.spec_register(p) == spec_add_path(p, path_of(x)),
    ensures
        spec_write_items(items, config, paths).1.no_duplicates(),
        spec_write_items(items, config, paths).1.len() <= paths.len() + items.len(),
        forall|k: int| 0 <= k < items.len() ==> #[trigger] spec_write_items(items.take(k + 1), config, paths).1.contains(path_of(items[k])),
    decreases items.len(),
{
    if items.len() > 0 {
        let init = items.drop_last();
        lemma_write_items_paths(init, config, paths, path_of);
        let (_, before) = spec_write_items(init, config, paths);
        let x = items.last();
        let after = x.spec_register(before);
        assert(after == spec_add_path(before, path_of(x)));
        if !before.contains(path_of(x)) {
            assert forall|i: int, j: int| 0 <= i < after.len() && 0 <= j < after.len() && i != j implies after[i] != after[j] by {
                if i < before.len() && j < before.len() {
                } else if i < before.len() {
                    assert(after[j] == path_of(x));
                    assert(before.contains(after[i]));
                } else {
                    assert(after[i] == path_of(x));
                    assert(before.contains(after[j]));
                }
            }
            assert(after[before.len() as int] == path_of(x));
        }
        assert(after.contains(path_of(x)));
        assert forall|k: int| 0 <= k < items.len() implies #[trigger] spec_write_items(items.take(k + 1), config, paths).1.contains(path_of(items[k])) by {
            if k < init.len() {
                assert(init.take(k + 1) =~= items.take(k + 1));
                assert(init[k] == items[k]);
            } else {
                assert(items.take(k + 1) =~= items);
            }
        }
    }
}

/// A path held in a prefix of a cache without duplicates has the same index in both.
proof fn lemma_index_of_prefix(a: Seq<Seq<char>>, b: Seq<Seq<char>>, x: Seq<char>)
    requires
        a.is_prefix_of(b),
        b.no_duplicates(),
        a.contains(x),
    ensures
        b.contains(x),
        a.index_of(x) == b.index_of(x),
        0 <= a.index_of(x) < a.len(),
{
    let i = a.index_of(x);
    assert(a[i] == b[i]);
    let j = b.index_of(x);
    assert(b[j] == x);
}

/// Bytes of a file that holds the preamble `p`, the witnesses `ws` and the constraints `cs`
/// in order, then a source cache of `names` and `contents`.
pub open spec fn spec_file_bytes(
    p: Preamble,
    ws: Seq<EncodableWitness>,
    cs: Seq<EncodableConstraint>,
    names: Seq<Seq<char>>,
    contents: Seq<Seq<char>>,
) -> Seq<u8> {
    spec_write_file(p, ws, cs, Seq::empty(), Seq::empty()).0 + spec_source_cache_bytes(names, contents)
}

/// Source paths registered by writing the witnesses `ws` and the constraints `cs`, in index
/// order.
pub open spec fn spec_file_paths(p: Preamble, ws: Seq<EncodableWitness>, cs: Seq<EncodableConstraint>) -> Seq<Seq<char>> {
    spec_write_file(p, ws, cs, Seq::empty(), Seq::empty()).1
}

/// The file is one that an encoder writes: the preamble counts the items and its offsets fit
/// in memory addresses, the ids of the witnesses and of the constraints each run over the
/// preamble's range without repeats, and the source cache holds a name and contents for each
/// registered path, which MessagePack can frame.
pub open spec fn spec_file_valid(
    p: Preamble,
    ws: Seq<EncodableWitness>,
    cs: Seq<EncodableConstraint>,
    names: Seq<Seq<char>>,
    contents: Seq<Seq<char>>,
) -> bool {
    &&& p.spec_fits()
    &&& ws.len() == p.witnesses
    &&& cs.len() == p.constraints
    &&& spec_write_file(p, ws, cs, Seq::empty(), Seq::empty()).2 is Ok
    &&& names.len() == spec_file_paths(p, ws, cs).len()
    &&& contents.len() == spec_file_paths(p, ws, cs).len()
    &&& spec_msgpack_fits(names)
    &&& spec_msgpack_fits(contents)
}

/// The circuit description that reading a written file gives.
pub open spec fn spec_file_view(
    p: Preamble,
    ws: Seq<EncodableWitness>,
    cs: Seq<EncodableConstraint>,
    names: Seq<Seq<char>>,
    contents: Seq<Seq<char>>,
) -> CircuitDescriptionView {
    CircuitDescriptionView { preamble: p, names, contents, bytes: spec_file_bytes(p, ws, cs, names, contents) }
}

/// Placing witnesses never counts more than there are.
proof fn lemma_place_witnesses_count(p: Preamble, ws: Seq<EncodableWitness>, paths: Seq<Seq<char>>, t: Seq<u8>)
    ensures
        spec_place_witnesses(p, ws, paths, t).1 <= ws.len(),
    decreases ws.len(),
{
    if ws.len() > 0 {
        lemma_place_witnesses_count(p, ws.drop_last(), paths, t);
    }
}

/// Placing constraints never counts more than there are.
proof fn lemma_place_constraints_count(p: Preamble, cs: Seq<EncodableConstraint>, paths: Seq<Seq<char>>, t: Seq<u8>)
    ensures
        spec_place_constraints(p, cs, paths, t).1 <= cs.len(),
    decreases cs.len(),
{
    if cs.len() > 0 {
        lemma_place_constraints_count(p, cs.drop_last(), paths, t);
    }
}

/// Two slots of `l` bytes at distinct indices below `n` don't overlap, and lie within the
/// `n` slots.
proof fn lemma_slots_apart(a: int, b: int, n: int, l: int)
    requires
        0 <= a < n,
        0 <= b < n,
        a != b,
        l >= 0,
    ensures
        a * l + l <= b * l || b * l + l <= a * l,
        0 <= a * l,
        a * l + l <= n * l,
{
    if a < b {
        assert(a * l + l <= b * l) by (nonlinear_arith)
            requires
                a < b,
                l >= 0,
        ;
    } else {
        assert(b * l + l <= a * l) by (nonlinear_arith)
            requires
                b < a,
                l >= 0,
        ;
    }
    assert(0 <= a * l) by (nonlinear_arith)
        requires
            a >= 0,
            l >= 0,
    ;
    assert(a * l + l <= n * l) by (nonlinear_arith)
        requires
            a < n,
            l >= 0,
    ;
}

/// Placing all witnesses puts each at the offset of its id, encoded against the path cache
/// as it stands once that witness is registered, and keeps the preamble's and the
/// constraints' room.
proof fn lemma_witnesses_placed(p: Preamble, ws: Seq<EncodableWitness>, paths: Seq<Seq<char>>, t: Seq<u8>)
    requires
        p.spec_fits(),
        t.len() == p.spec_source_cache_offset(),
        spec_place_witnesses(p, ws, paths, t).1 == ws.len(),
    ensures
        ({
            let t2 = spec_place_witnesses(p, ws, paths, t).0;
            let wl = spec_witness_len(p.config) as int;
            let cstart = 17 + p.witnesses * wl;
            &&& t2.len() == t.len()
            &&& forall|k: int| 0 <= k < ws.len() ==> (#[trigger] ws[k]).deep_view().id < p.witnesses
            &&& forall|k: int, l: int|
                0 <= k < l < ws.len() ==> (#[trigger] ws[k]).deep_view().id != (#[trigger] ws[l]).deep_view().id
            &&& forall|k: int|
                0 <= k < ws.len() ==> t2.subrange(
                    p.spec_witness_offset(ws[k].deep_view().id as int),
                    p.spec_witness_offset(ws[k].deep_view().id as int) + wl,
                ) == (#[trigger] ws[k]).spec_encode(p.config, spec_write_items(ws.take(k + 1), p.config, paths).1)
            &&& t2.subrange(0, 17) == t.subrange(0, 17)
            &&& t2.subrange(cstart, t.len() as int) == t.subrange(cstart, t.len() as int)
        }),
    decreases ws.len(),
{
    let config = p.config;
    let wl = spec_witness_len(config) as int;
    let cl = spec_constraint_len(config) as int;
    let cstart = 17 + p.witnesses * wl;
    assert(p.constraints * cl >= 0) by (nonlinear_arith)
        requires
            cl >= 0,
    ;
    assert(p.witnesses * wl >= 0) by (nonlinear_arith)
        requires
            wl >= 0,
    ;
    if ws.len() == 0 {
        assert(t.subrange(0, 17) == t.subrange(0, 17));
    } else {
        let init = ws.drop_last();
        lemma_place_witnesses_count(p, init, paths, t);
        let (t1, k) = spec_place_witnesses(p, init, paths, t);
        assert(k == init.len());
        lemma_witnesses_placed(p, init, paths, t);
        let last = ws.last();
        let n = ws.len() - 1;
        let id = last.deep_view().id as int;
        assert(id < p.witnesses && !spec_witness_id_used(init, id));
        let enc = last.spec_encode(config, spec_write_items(ws, config, paths).1);
        last.lemma_encode_len(config, spec_write_items(ws, config, paths).1);
        let at = p.spec_witness_offset(id);
        assert(id * wl + wl <= p.witnesses * wl && 0 <= id * wl) by (nonlinear_arith)
            requires
                0 <= id < p.witnesses,
                wl >= 0,
        ;
        lemma_write_at_within(t1, at, enc);
        let t2 = spec_write_at(t1, at, enc);
        assert(ws.take(n + 1) =~= ws);
        assert forall|k: int| 0 <= k < ws.len() implies t2.subrange(
            p.spec_witness_offset(ws[k].deep_view().id as int),
            p.spec_witness_offset(ws[k].deep_view().id as int) + wl,
        ) == (#[trigger] ws[k]).spec_encode(config, spec_write_items(ws.take(k + 1), config, paths).1) by {
            if k < n {
                assert(init[k] == ws[k]);
                assert(init.take(k + 1) =~= ws.take(k + 1));
                let other = ws[k].deep_view().id as int;
                assert(other != id);
                assert(other < p.witnesses);
                lemma_slots_apart(other, id, p.witnesses as int, wl);
            }
        }
        assert forall|k: int| 0 <= k < ws.len() implies (#[trigger] ws[k]).deep_view().id < p.witnesses by {
            if k < n {
                assert(init[k] == ws[k]);
            }
        }
        assert forall|k: int, l: int| 0 <= k < l < ws.len() implies (#[trigger] ws[k]).deep_view().id != (
        #[trigger] ws[l]).deep_view().id by {
            assert(init[k] == ws[k]);
            if l < n {
                assert(init[l] == ws[l]);
            } else {
                assert(init[k].deep_view().id != id);
            }
        }
    }
}

/// Placing all constraints puts each at the offset of its id, encoded against the path cache
/// as it stands once that constraint is registered, and keeps the room before the
/// constraints.
proof fn lemma_constraints_placed(p: Preamble, cs: Seq<EncodableConstraint>, paths: Seq<Seq<char>>, t: Seq<u8>)
    requires
        p.spec_fits(),
        t.len() == p.spec_source_cache_offset(),
        spec_place_constraints(p, cs, paths, t).1 == cs.len(),
    ensures
        ({
            let t2 = spec_place_constraints(p, cs, paths, t).0;
            let wl = spec_witness_len(p.config) as int;
            let cl = spec_constraint_len(p.config) as int;
            let cstart = 17 + p.witnesses * wl;
            &&& t2.len() == t.len()
            &&& forall|k: int| 0 <= k < cs.len() ==> (#[trigger] cs[k]).deep_view().id < p.constraints
            &&& forall|k: int, l: int|
                0 <= k < l < cs.len() ==> (#[trigger] cs[k]).deep_view().id != (#[trigger] cs[l]).deep_view().id
            &&& forall|k: int|
                0 <= k < cs.len() ==> t2.subrange(
                    p.spec_constraint_offset(cs[k].deep_view().id as int),
                    p.spec_constraint_offset(cs[k].deep_view().id as int) + cl,
                ) == (#[trigger] cs[k]).spec_encode(p.config, spec_write_items(cs.take(k + 1), p.config, paths).1)
            &&& t2.subrange(0, cstart) == t.subrange(0, cstart)
        }),
    decreases cs.len(),
{
    let config = p.config;
    let wl = spec_witness_len(config) as int;
    let cl = spec_constraint_len(config) as int;
    let cstart = 17 + p.witnesses * wl;
    assert(p.witnesses * wl >= 0) by (nonlinear_arith)
        requires
            wl >= 0,
    ;
    if cs.len() == 0 {
        assert(t.subrange(0, cstart) == t.subrange(0, cstart));
    } else {
        let init = cs.drop_last();
        lemma_place_constraints_count(p, init, paths, t);
        let (t1, k) = spec_place_constraints(p, init, paths, t);
        assert(k == init.len());
        lemma_constraints_placed(p, init, paths, t);
        let last = cs.last();
        let n = cs.len() - 1;
        let id = last.deep_view().id as int;
        assert(id < p.constraints && !spec_constraint_id_used(init, id));
        let enc = last.spec_encode(config, spec_write_items(cs, config, paths).1);
        last.lemma_encode_len(config, spec_write_items(cs, config, paths).1);
        let at = p.spec_constraint_offset(id);
        assert(id * cl + cl <= p.constraints * cl && 0 <= id * cl) by (nonlinear_arith)
            requires
                0 <= id < p.constraints,
                cl >= 0,
        ;
        lemma_write_at_within(t1, at, enc);
        let t2 = spec_write_at(t1, at, enc);
        assert(cs.take(n + 1) =~= cs);
        assert forall|k: int| 0 <= k < cs.len() implies t2.subrange(
            p.spec_constraint_offset(cs[k].deep_view().id as int),
            p.spec_constraint_offset(cs[k].deep_view().id as int) + cl,
        ) == (#[trigger] cs[k]).spec_encode(config, spec_write_items(cs.take(k + 1), config, paths).1) by {
            if k < n {
                assert(init[k] == cs[k]);
                assert(init.take(k + 1) =~= cs.take(k + 1));
                let other = cs[k].deep_view().id as int;
                assert(other != id);
                assert(other < p.constraints);
                lemma_slots_apart(other, id, p.constraints as int, cl);
            }
        }
        assert forall|k: int| 0 <= k < cs.len() implies (#[trigger] cs[k]).deep_view().id < p.constraints by {
            if k < n {
                assert(init[k] == cs[k]);
            }
        }
        assert forall|k: int, l: int| 0 <= k < l < cs.len() implies (#[trigger] cs[k]).deep_view().id != (
        #[trigger] cs[l]).deep_view().id by {
            assert(init[k] == cs[k]);
            if l < n {
                assert(init[l] == cs[l]);
            } else {
                assert(init[k].deep_view().id != id);
            }
        }
    }
}

/// Layout facts of a written file: where its parts stand, and that its path cache holds
/// every item's path once.
#[verifier::rlimit(30)]
proof fn lemma_file_layout(
    p: Preamble,
    ws: Seq<EncodableWitness>,
    cs: Seq<EncodableConstraint>,
    names: Seq<Seq<char>>,
    contents: Seq<Seq<char>>,
)
    requires
        spec_file_valid(p, ws, cs, names, contents),
    ensures
        ({
            let config = p.config;
            let empty = Seq::<Seq<char>>::empty();
            let wl = spec_witness_len(config) as int;
            let cl = spec_constraint_len(config) as int;
            let wp = spec_write_items(ws, config, empty).1;
            let cp = spec_write_items(cs, config, wp).1;
            let items = spec_write_file(p, ws, cs, empty, Seq::empty()).0;
            &&& cp == spec_file_paths(p, ws, cs)
            &&& spec_file_bytes(p, ws, cs, names, contents) == items + spec_source_cache_bytes(names, contents)
            &&& items.len() == p.spec_source_cache_offset()
            &&& items.subrange(0, 17) == p.spec_encode(config, empty)
            &&& forall|k: int| 0 <= k < ws.len() ==> (#[trigger] ws[k]).deep_view().id < p.witnesses
            &&& forall|k: int, l: int|
                0 <= k < l < ws.len() ==> (#[trigger] ws[k]).deep_view().id != (#[trigger] ws[l]).deep_view().id
            &&& forall|k: int|
                0 <= k < ws.len() ==> items.subrange(
                    p.spec_witness_offset(ws[k].deep_view().id as int),
                    p.spec_witness_offset(ws[k].deep_view().id as int) + wl,
                ) == (#[trigger] ws[k]).spec_encode(config, spec_write_items(ws.take(k + 1), config, empty).1)
            &&& forall|k: int| 0 <= k < cs.len() ==> (#[trigger] cs[k]).deep_view().id < p.constraints
            &&& forall|k: int, l: int|
                0 <= k < l < cs.len() ==> (#[trigger] cs[k]).deep_view().id != (#[trigger] cs[l]).deep_view().id
            &&& forall|k: int|
                0 <= k < cs.len() ==> items.subrange(
                    p.spec_constraint_offset(cs[k].deep_view().id as int),
                    p.spec_constraint_offset(cs[k].deep_view().id as int) + cl,
                ) == (#[trigger] cs[k]).spec_encode(config, spec_write_items(cs.take(k + 1), config, wp).1)
            &&& wp.is_prefix_of(cp)
            &&& cp.no_duplicates()
            &&& wp.no_duplicates()
            &&& cp.len() <= u32::MAX
        }),
{
    let config = p.config;
    let empty = Seq::<Seq<char>>::empty();
    let wl = spec_witness_len(config) as int;
    let cl = spec_constraint_len(config) as int;
    let cstart = 17 + p.witnesses * wl;
    let sco = p.spec_source_cache_offset();
    assert(p.witnesses * wl >= 0 && p.constraints * cl >= 0) by (nonlinear_arith)
        requires
            wl >= 0,
            cl >= 0,
    ;
    let head = p.spec_encode(config, empty);
    p.lemma_encode_len(config, empty);
    let zeros = Seq::new(sco as nat, |i: int| 0u8);
    lemma_write_at_within(zeros, 0, head);
    let t0 = spec_file_front(p, empty);
    assert(t0 == spec_write_at(zeros, 0, head));
    let wp = spec_write_items(ws, config, empty).1;
    let (t1, k1) = spec_place_witnesses(p, ws, empty, t0);
    lemma_place_witnesses_count(p, ws, empty, t0);
    assert(k1 == ws.len());
    lemma_witnesses_placed(p, ws, empty, t0);
    let (t2, k2) = spec_place_constraints(p, cs, wp, t1);
    lemma_place_constraints_count(p, cs, wp, t1);
    assert(k2 == cs.len());
    lemma_constraints_placed(p, cs, wp, t1);
    assert(spec_write_file(p, ws, cs, empty, Seq::empty()).0 == t2);
    assert(t2.subrange(0, 17) =~= t2.subrange(0, cstart).subrange(0, 17));
    assert(t1.subrange(0, 17) =~= t1.subrange(0, cstart).subrange(0, 17));
    assert forall|k: int| 0 <= k < ws.len() implies t2.subrange(
        p.spec_witness_offset(ws[k].deep_view().id as int),
        p.spec_witness_offset(ws[k].deep_view().id as int) + wl,
    ) == (#[trigger] ws[k]).spec_encode(config, spec_write_items(ws.take(k + 1), config, empty).1) by {
        let id = ws[k].deep_view().id as int;
        assert(id * wl + wl <= p.witnesses * wl && 0 <= id * wl) by (nonlinear_arith)
            requires
                0 <= id < p.witnesses,
                wl >= 0,
        ;
        let at = p.spec_witness_offset(id);
        assert(t2.subrange(at, at + wl) =~= t2.subrange(0, cstart).subrange(at, at + wl));
        assert(t1.subrange(at, at + wl) =~= t1.subrange(0, cstart).subrange(at, at + wl));
    }
    lemma_write_items_paths(ws, config, empty, |w: EncodableWitness| w.deep_view().source.path);
    lemma_write_items_paths(cs, config, wp, |c: EncodableConstraint| c.deep_view().source.path);
    lemma_write_items_take(cs, config, wp, 0);
    assert(cs.take(0) =~= Seq::<EncodableConstraint>::empty());
}

/// The preamble of a written file reads back, and its source cache stands at the offset
/// that the preamble gives.
pub proof fn lemma_file_cache(
    p: Preamble,
    ws: Seq<EncodableWitness>,
    cs: Seq<EncodableConstraint>,
    names: Seq<Seq<char>>,
    contents: Seq<Seq<char>>,
)
    requires
        spec_file_valid(p, ws, cs, names, contents),
    ensures
        spec_read_preamble(spec_file_bytes(p, ws, cs, names, contents)) == p,
        spec_tail(spec_file_bytes(p, ws, cs, names, contents), p.spec_source_cache_offset())
            == spec_source_cache_bytes(names, contents),
{
    lemma_file_layout(p, ws, cs, names, contents);
    let config = p.config;
    let empty = Seq::<Seq<char>>::empty();
    let bytes = spec_file_bytes(p, ws, cs, names, contents);
    let items = spec_write_file(p, ws, cs, empty, Seq::empty()).0;
    let head = p.spec_encode(config, empty);
    let ctx = DecoderContextView { config, names, contents };
    p.lemma_roundtrip(ctx, empty);
    p.lemma_encode_len(config, empty);
    assert(spec_read_padded(bytes, 17) =~= head) by {
        assert forall|k: int| 0 <= k < 17 implies #[trigger] spec_read_padded(bytes, 17)[k] == head[k] by {
            assert(bytes[k] == items[k]);
            assert(items[k] == items.subrange(0, 17)[k]);
        }
    }
    let ofs = p.spec_source_cache_offset();
    assert(spec_tail(bytes, ofs) =~= spec_source_cache_bytes(names, contents));
}

/// Fetching the witness at the id of a written witness gives back that witness, with the
/// name and contents that the source cache holds for its path.
pub proof fn lemma_fetch_written_witness(
    p: Preamble,
    ws: Seq<EncodableWitness>,
    cs: Seq<EncodableConstraint>,
    names: Seq<Seq<char>>,
    contents: Seq<Seq<char>>,
    i: int,
)
    requires
        spec_file_valid(p, ws, cs, names, contents),
        0 <= i < ws.len(),
    ensures
        spec_file_view(p, ws, cs, names, contents).spec_fetch_witness(ws[i].deep_view().id as int) == Ok::<
            WitnessView,
            Error,
        >(ws[i].spec_decoded(spec_file_view(p, ws, cs, names, contents).ctx(), spec_file_paths(p, ws, cs))),
{
    lemma_file_layout(p, ws, cs, names, contents);
    let config = p.config;
    let empty = Seq::<Seq<char>>::empty();
    let wp = spec_write_items(ws, config, empty).1;
    let cp = spec_write_items(cs, config, wp).1;
    let items = spec_write_file(p, ws, cs, empty, Seq::empty()).0;
    let v = spec_file_view(p, ws, cs, names, contents);
    let bytes = v.bytes;
    let wl = spec_witness_len(config) as int;
    lemma_write_items_take(ws, config, empty, i + 1);
    let path_of = |w: EncodableWitness| w.deep_view().source.path;
    lemma_write_items_paths(ws, config, empty, path_of);
    let pi = spec_write_items(ws.take(i + 1), config, empty).1;
    let path = ws[i].deep_view().source.path;
    assert(pi.contains(path_of(ws[i])));
    assert(pi.is_prefix_of(cp)) by {
        assert(pi =~= wp.subrange(0, pi.len() as int));
        assert(wp =~= cp.subrange(0, wp.len() as int));
        assert(pi =~= cp.subrange(0, pi.len() as int));
    }
    lemma_index_of_prefix(pi, cp, path);
    let enc = ws[i].spec_encode(config, cp);
    assert(ws[i].spec_encode(config, pi) == enc);
    let id = ws[i].deep_view().id as int;
    assert(id * wl + wl <= p.witnesses * wl && 0 <= id * wl) by (nonlinear_arith)
        requires
            0 <= id < p.witnesses,
            wl >= 0,
    ;
    let off = p.spec_witness_offset(id);
    assert(spec_read_padded(spec_tail(bytes, off), wl as nat) =~= items.subrange(off, off + wl)) by {
        assert forall|k: int| 0 <= k < wl implies #[trigger] spec_read_padded(spec_tail(bytes, off), wl as nat)[k]
            == items.subrange(off, off + wl)[k] by {
            assert(bytes[off + k] == items[off + k]);
        }
    }
    lemma_witness_roundtrip(ws[i], v.ctx(), cp);
}

/// Fetching the constraint at the id of a written constraint gives back that constraint,
/// with the name and contents that the source cache holds for its path.
pub proof fn lemma_fetch_written_constraint(
    p: Preamble,
    ws: Seq<EncodableWitness>,
    cs: Seq<EncodableConstraint>,
    names: Seq<Seq<char>>,
    contents: Seq<Seq<char>>,
    j: int,
)
    requires
        spec_file_valid(p, ws, cs, names, contents),
        0 <= j < cs.len(),
    ensures
        spec_file_view(p, ws, cs, names, contents).spec_fetch_constraint(cs[j].deep_view().id as int) == Ok::<
            ConstraintView,
            Error,
        >(cs[j].spec_decoded(spec_file_view(p, ws, cs, names, contents).ctx(), spec_file_paths(p, ws, cs))),
{
    lemma_file_layout(p, ws, cs, names, contents);
    let config = p.config;
    let empty = Seq::<Seq<char>>::empty();
    let wp = spec_write_items(ws, config, empty).1;
    let cp = spec_write_items(cs, config, wp).1;
    let items = spec_write_file(p, ws, cs, empty, Seq::empty()).0;
    let v = spec_file_view(p, ws, cs, names, contents);
    let bytes = v.bytes;
    let wl = spec_witness_len(config) as int;
    let cl = spec_constraint_len(config) as int;
    lemma_write_items_take(cs, config, wp, j + 1);
    let path_of = |c: EncodableConstraint| c.deep_view().source.path;
    lemma_write_items_paths(cs, config, wp, path_of);
    let pj = spec_write_items(cs.take(j + 1), config, wp).1;
    let path = cs[j].deep_view().source.path;
    assert(pj.contains(path_of(cs[j])));
    lemma_index_of_prefix(pj, cp, path);
    let enc = cs[j].spec_encode(config, cp);
    assert(cs[j].spec_encode(config, pj) == enc);
    let id = cs[j].deep_view().id as int;
    assert(id * cl + cl <= p.constraints * cl && 0 <= id * cl && 0 <= p.witnesses * wl) by (nonlinear_arith)
        requires
            0 <= id < p.constraints,
            cl >= 0,
            wl >= 0,
    ;
    let off = p.spec_constraint_offset(id);
    assert(spec_read_padded(spec_tail(bytes, off), cl as nat) =~= items.subrange(off, off + cl)) by {
        assert forall|k: int| 0 <= k < cl implies #[trigger] spec_read_padded(spec_tail(bytes, off), cl as nat)[k]
            == items.subrange(off, off + cl)[k] by {
            assert(bytes[off + k] == items[off + k]);
        }
    }
    lemma_constraint_roundtrip(cs[j], v.ctx(), cp);
}

/// Distinct ids below `n`, as many as `n`, take every index below `n`.
proof fn lemma_ids_cover(ids: Seq<int>, n: int, x: int)
    requires
        ids.len() == n,
        forall|k: int, l: int| 0 <= k < l < n ==> ids[k] != ids[l],
        forall|k: int| 0 <= k < n ==> 0 <= #[trigger] ids[k] < n,
        0 <= x < n,
    ensures
        ids.contains(x),
{
    if !ids.contains(x) {
        assert(ids.no_duplicates()) by {
            assert forall|k: int, l: int| 0 <= k < ids.len() && 0 <= l < ids.len() && k != l implies ids[k] != ids[l] by {
                if k > l {
                    assert(ids[l] != ids[k]);
                }
            }
        }
        ids.unique_seq_to_set();
        lemma_int_range(0, n);
        let r = set_int_range(0, n).remove(x);
        assert(r.len() == n - 1);
        assert(ids.to_set().subset_of(r)) by {
            assert forall|y: int| ids.to_set().contains(y) implies r.contains(y) by {
                let k = choose|k: int| 0 <= k < ids.len() && ids[k] == y;
                assert(0 <= ids[k] < n);
            }
        }
        lemma_len_subset(ids.to_set(), r);
    }
}

/// Ids of the witnesses of `ws`, in order.
spec fn spec_witness_ids(ws: Seq<EncodableWitness>) -> Seq<int> {
    ws.map_values(|w: EncodableWitness| w.deep_view().id as int)
}

/// Ids of the constraints of `cs`, in order.
spec fn spec_constraint_ids(cs: Seq<EncodableConstraint>) -> Seq<int> {
    cs.map_values(|c: EncodableConstraint| c.deep_view().id as int)
}

/// In a written file, fetching a witness succeeds exactly at the indices below the count of
/// the preamble, and at each such index gives back the written witness with that id.
pub proof fn lemma_written_witness_indices(
    p: Preamble,
    ws: Seq<EncodableWitness>,
    cs: Seq<EncodableConstraint>,
    names: Seq<Seq<char>>,
    contents: Seq<Seq<char>>,
    idx: int,
)
    requires
        spec_file_valid(p, ws, cs, names, contents),
    ensures
        spec_file_view(p, ws, cs, names, contents).spec_fetch_witness(idx) is Ok <==> 0 <= idx < p.witnesses,
        0 <= idx < p.witnesses ==> exists|i: int|
            0 <= i < ws.len() && ws[i].deep_view().id == idx && spec_file_view(p, ws, cs, names, contents).spec_fetch_witness(
                idx,
            ) == Ok::<WitnessView, Error>(
                ws[i].spec_decoded(spec_file_view(p, ws, cs, names, contents).ctx(), spec_file_paths(p, ws, cs)),
            ),
{
    if 0 <= idx < p.witnesses {
        lemma_file_layout(p, ws, cs, names, contents);
        let ids = spec_witness_ids(ws);
        let n = p.witnesses as int;
        assert forall|k: int, l: int| 0 <= k < l < n implies ids[k] != ids[l] by {
            assert(ws[k].deep_view().id != ws[l].deep_view().id);
        }
        assert forall|k: int| 0 <= k < n implies 0 <= #[trigger] ids[k] < n by {
            assert(ws[k].deep_view().id < p.witnesses);
        }
        lemma_ids_cover(ids, n, idx);
        let i = choose|i: int| 0 <= i < ids.len() && ids[i] == idx;
        lemma_fetch_written_witness(p, ws, cs, names, contents, i);
    }
}

/// In a written file, fetching a constraint succeeds exactly at the indices below the count
/// of the preamble, and at each such index gives back the written constraint with that id.
pub proof fn lemma_written_constraint_indices(
    p: Preamble,
    ws: Seq<EncodableWitness>,
    cs: Seq<EncodableConstraint>,
    names: Seq<Seq<char>>,
    contents: Seq<Seq<char>>,
    idx: int,
)
    requires
        spec_file_valid(p, ws, cs, names, contents),
    ensures
        spec_file_view(p, ws, cs, names, contents).spec_fetch_constraint(idx) is Ok <==> 0 <= idx < p.constraints,
        0 <= idx < p.constraints ==> exists|j: int|
            0 <= j < cs.len() && cs[j].deep_view().id == idx && spec_file_view(p, ws, cs, names, contents).spec_fetch_constraint(
                idx,
            ) == Ok::<ConstraintView, Error>(
                cs[j].spec_decoded(spec_file_view(p, ws, cs, names, contents).ctx(), spec_file_paths(p, ws, cs)),
            ),
{
    if 0 <= idx < p.constraints {
        lemma_file_layout(p, ws, cs, names, contents);
        let ids = spec_constraint_ids(cs);
        let n = p.constraints as int;
        assert forall|k: int, l: int| 0 <= k < l < n implies ids[k] != ids[l] by {
            assert(cs[k].deep_view().id != cs[l].deep_view().id);
        }
        assert forall|k: int| 0 <= k < n implies 0 <= #[trigger] ids[k] < n by {
            assert(cs[k].deep_view().id < p.constraints);
        }
        lemma_ids_cover(ids, n, idx);
        let j = choose|j: int| 0 <= j < ids.len() && ids[j] == idx;
        lemma_fetch_written_constraint(p, ws, cs, names, contents, j);
    }
}

} // verus!
