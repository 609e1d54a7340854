use vstd::prelude::*;

use crate::config::Config;
use crate::error::Error;
use crate::plonk::circuit::{CircuitDescriptionView, spec_items_len, spec_read_preamble};
use crate::plonk::constraint::{Constraint, ConstraintView, spec_constraint_len};
use crate::plonk::element::Element;
use crate::plonk::preamble::Preamble;
use crate::plonk::sort::spec_views;
use crate::bytes::{lemma_write_at_within, spec_read_padded, spec_write_at, write_at};
use crate::decoder::spec_tail;
use crate::plonk::witness::{Witness, WitnessView, spec_witness_len};

verus! {

/// Bytes after writing each witness of `ws` in order at the offset of its id, and whether
/// every id had an offset; the writing stops at the first that has none.
pub open spec fn spec_write_witnesses_at(p: Preamble, t: Seq<u8>, ws: Seq<WitnessView>) -> (Seq<u8>, bool)
    decreases ws.len(),
{
    if ws.len() == 0 {
        (t, true)
    } else {
        let (t1, ok) = spec_write_witnesses_at(p, t, ws.drop_last());
        let w = ws.last();
        if !ok {
            (t1, false)
        } else if w.id < p.witnesses {
            (spec_write_at(t1, p.spec_witness_offset(w.id as int), w.spec_encode(p.config)), true)
        } else {
            (t1, false)
        }
    }
}

/// Bytes after writing each constraint of `cs` in order at the offset of its id, and whether
/// every id had an offset; the writing stops at the first that has none.
pub open spec fn spec_write_constraints_at(p: Preamble, t: Seq<u8>, cs: Seq<ConstraintView>) -> (Seq<u8>, bool)
    decreases cs.len(),
{
    if cs.len() == 0 {
        (t, true)
    } else {
        let (t1, ok) = spec_write_constraints_at(p, t, cs.drop_last());
        let c = cs.last();
        if !ok {
            (t1, false)
        } else if (c.id as usize) < p.constraints {
            (spec_write_at(t1, p.spec_constraint_offset((c.id as usize) as int), c.spec_encode(p.config)), true)
        } else {
            (t1, false)
        }
    }
}

/// Model of an encoder.
pub struct EncoderView {
    /// Preamble of the file.
    pub preamble: Preamble,
    /// Witnesses to write.
    pub witnesses: Seq<WitnessView>,
    /// Constraints to write.
    pub constraints: Seq<ConstraintView>,
    /// Bytes of the target.
    pub target: Seq<u8>,
}

impl EncoderView {
    /// Bytes of the target after writing everything, and the outcome: the preamble at the
    /// front, then each witness and each constraint at the offset of its id; the count of
    /// written bytes, or the failure of an item whose id has no offset.
    pub open spec fn spec_write_all(&self) -> (Seq<u8>, Result<usize, Error>) {
        let p = self.preamble;
        let t0 = spec_write_at(self.target, 0, p.spec_encode(p.config));
        let (t1, ok1) = spec_write_witnesses_at(p, t0, self.witnesses);
        if !ok1 {
            (t1, Err(Error::OffsetUnavailable))
        } else {
            let (t2, ok2) = spec_write_constraints_at(p, t1, self.constraints);
            if !ok2 {
                (t2, Err(Error::OffsetUnavailable))
            } else {
                (
                    t2,
                    Ok(
                        spec_items_len(
                            p.config,
                            self.witnesses.len() as int,
                            self.constraints.len() as int,
                        ) as usize,
                    ),
                )
            }
        }
    }
}

/// An encoder for the circuit description format.
#[derive(Debug)]
pub struct Encoder {
    preamble: Preamble,
    witnesses: Vec<Witness>,
    constraints: Vec<Constraint>,
    target: Vec<u8>,
}

impl View for Encoder {
    type V = EncoderView;

    closed spec fn view(&self) -> EncoderView {
        EncoderView {
            preamble: self.preamble,
            witnesses: spec_views(self.witnesses@),
            constraints: spec_views(self.constraints@),
            target: self.target@,
        }
    }
}

impl Encoder {
    /// The preamble counts the items and the offsets fit in memory addresses.
    #[verifier::type_invariant]
    closed spec fn wf(&self) -> bool {
        &&& self.preamble.witnesses == self.witnesses@.len()
        &&& self.preamble.constraints == self.constraints@.len()
        &&& self.preamble.spec_fits()
    }

    /// Create a new encoder.
    pub(crate) fn new(preamble: Preamble, witnesses: Vec<Witness>, constraints: Vec<Constraint>, target: Vec<u8>) -> (e: Encoder)
        requires
            preamble.witnesses == witnesses@.len(),
            preamble.constraints == constraints@.len(),
            preamble.spec_fits(),
        ensures
            e@ == (EncoderView {
                preamble,
                witnesses: spec_views(witnesses@),
                constraints: spec_views(constraints@),
                target: target@,
            }),
    {
        Encoder { preamble, witnesses, constraints, target }
    }

    /// Return the inner target.
    pub fn into_inner(self) -> (t: Vec<u8>)
        ensures
            t@ == self@.target,
    {
        self.target
    }

    /// Initialize a preamble for a configuration and the items.
    pub fn init_preamble(config: Config, witnesses: &Vec<Witness>, constraints: &Vec<Constraint>) -> (p: Preamble)
        ensures
            p.witnesses == witnesses@.len(),
            p.constraints == constraints@.len(),
            p.config == config,
    {
        *Preamble::new().with_config(config).with_witnesses(witnesses.len()).with_constraints(constraints.len())
    }

    /// Initialize the encoder with an in-memory target filled with the bytes that the file
    /// takes.
    pub fn init_cursor(config: Config, witnesses: Vec<Witness>, constraints: Vec<Constraint>) -> (e: Encoder)
        requires
            (Preamble {
                witnesses: witnesses@.len() as usize,
                constraints: constraints@.len() as usize,
                config,
            }).spec_fits(),
        ensures
            e@ == (EncoderView {
                preamble: Preamble {
                    witnesses: witnesses@.len() as usize,
                    constraints: constraints@.len() as usize,
                    config,
                },
                witnesses: spec_views(witnesses@),
                constraints: spec_views(constraints@),
                target: Seq::new(e@.preamble.spec_total_len() as nat, |i: int| 0u8),
            }),
    {
        let preamble = Self::init_preamble(config, &witnesses, &constraints);
        let len = preamble.total_len();
        let bytes = vec![0u8; len];
        proof {
            assert(bytes@ =~= Seq::new(len as nat, |i: int| 0u8));
        }
        Self::new(preamble, witnesses, constraints, bytes)
    }

    /// Write the preamble at the front of the target, then every witness and every constraint
    /// at the offset of its id, returning the count of written bytes; see
    /// [`EncoderView::spec_write_all`].
    pub fn write_all(&mut self) -> (r: Result<usize, Error>)
        ensures
            final(self)@.preamble == old(self)@.preamble,
            final(self)@.witnesses == old(self)@.witnesses,
            final(self)@.constraints == old(self)@.constraints,
            (final(self)@.target, r) == old(self)@.spec_write_all(),
    {
        proof {
            use_type_invariant(&*self);
        }
        let ghost p = self.preamble;
        let ghost ws = spec_views(self.witnesses@);
        let ghost cs = spec_views(self.constraints@);
        let config = self.preamble.config;
        let wl: usize = if config.zeroed_scalar_values { 1048 } else { 1080 };
        let cl: usize = if config.zeroed_scalar_values { 1117 } else { 1501 };
        let mut target: Vec<u8> = Vec::new();
        std::mem::swap(&mut target, &mut self.target);
        let head = self.preamble.to_vec(&config);
        proof {
            self.preamble.lemma_encode_len(config);
        }
        write_at(&mut target, 0, head.as_slice());
        let mut n: usize = 17;
        let nw = self.witnesses.len();
        let mut i: usize = 0;
        assert(ws.take(0) =~= Seq::<WitnessView>::empty());
        while i < nw
            invariant
                nw == self.witnesses@.len(),
                self.witnesses == old(self).witnesses,
                self.constraints == old(self).constraints,
                self.preamble == old(self).preamble,
                p.constraints == self.constraints@.len(),
                ws == spec_views(self.witnesses@),
                i <= nw,
                p == self.preamble,
                config == p.config,
                p.witnesses == nw,
                p.spec_fits(),
                wl == spec_witness_len(config),
                spec_write_witnesses_at(p, spec_write_at(old(self)@.target, 0, p.spec_encode(config)), ws.take(i as int))
                    == (target@, true),
                n == 17 + i * wl,
            decreases nw - i,
        {
            let w = &self.witnesses[i];
            let ghost t = ws.take(i + 1);
            proof {
                assert(t.drop_last() =~= ws.take(i as int));
                assert(t.last() == w.deep_view());
            }
            let ofs = match self.preamble.witness_offset(w.id()) {
                Some(o) => o,
                None => {
                    proof {
                        lemma_witnesses_stop(p, spec_write_at(old(self)@.target, 0, p.spec_encode(config)), ws, i + 1);
                    }
                    self.target = target;
                    return Err(Error::OffsetUnavailable);
                },
            };
            let bytes = w.to_vec(&config);
            proof {
                w.lemma_encode_len(config);
                assert(w.deep_view().id < p.witnesses);
                assert(w.deep_view().id * wl <= p.witnesses * wl) by (nonlinear_arith)
                    requires
                        w.deep_view().id < p.witnesses,
                ;
                assert(p.constraints * spec_constraint_len(config) >= 0) by (nonlinear_arith);
                assert((i + 1) * wl <= nw * wl) by (nonlinear_arith)
                    requires
                        i < nw,
                ;
                assert((i + 1) * wl == i * wl + wl) by (nonlinear_arith);
            }
            write_at(&mut target, ofs, bytes.as_slice());
            n = n + wl;
            i = i + 1;
        }
        proof {
            assert(ws.take(nw as int) =~= ws);
        }
        let ghost t1 = target@;
        let nc = self.constraints.len();
        assert(p.constraints == nc);
        let mut j: usize = 0;
        assert(cs.take(0) =~= Seq::<ConstraintView>::empty());
        while j < nc
            invariant
                nc == self.constraints@.len(),
                self.witnesses == old(self).witnesses,
                self.constraints == old(self).constraints,
                self.preamble == old(self).preamble,
                cs == spec_views(self.constraints@),
                ws == spec_views(self.witnesses@),
                nw == self.witnesses@.len(),
                spec_write_witnesses_at(p, spec_write_at(old(self)@.target, 0, p.spec_encode(config)), ws) == (t1, true),
                j <= nc,
                p == self.preamble,
                config == p.config,
                p.witnesses == nw,
                p.constraints == nc,
                p.spec_fits(),
                wl == spec_witness_len(config),
                cl == spec_constraint_len(config),
                spec_write_constraints_at(p, t1, cs.take(j as int)) == (target@, true),
                n == 17 + nw * wl + j * cl,
            decreases nc - j,
        {
            let c = &self.constraints[j];
            let ghost t = cs.take(j + 1);
            proof {
                assert(t.drop_last() =~= cs.take(j as int));
                assert(t.last() == c.deep_view());
            }
            let ofs = match self.preamble.constraint_offset(#[verifier::truncate] (c.id() as usize)) {
                Some(o) => o,
                None => {
                    proof {
                        lemma_constraints_stop(p, t1, cs, j + 1);
                    }
                    self.target = target;
                    return Err(Error::OffsetUnavailable);
                },
            };
            let bytes = c.to_vec(&config);
            proof {
                c.lemma_encode_len(config);
                let id = (c.deep_view().id as usize) as int;
                assert(id * cl <= p.constraints * cl) by (nonlinear_arith)
                    requires
                        id < p.constraints,
                ;
                assert(p.witnesses * wl >= 0) by (nonlinear_arith);
                assert((j + 1) * cl <= nc * cl) by (nonlinear_arith)
                    requires
                        j < nc,
                ;
                assert((j + 1) * cl == j * cl + cl) by (nonlinear_arith);
            }
            write_at(&mut target, ofs, bytes.as_slice());
            n = n + cl;
            j = j + 1;
        }
        proof {
            assert(cs.take(nc as int) =~= cs);
        }
        self.target = target;
        Ok(n)
    }
}

/// Once writing the witnesses of a prefix stops, writing all of them stops with the same
/// bytes.
proof fn lemma_witnesses_stop(p: Preamble, t: Seq<u8>, ws: Seq<WitnessView>, k: int)
    requires
        0 <= k <= ws.len(),
        !spec_write_witnesses_at(p, t, ws.take(k)).1,
    ensures
        spec_write_witnesses_at(p, t, ws) == spec_write_witnesses_at(p, t, ws.take(k)),
    decreases ws.len(),
{
    if k == ws.len() {
        assert(ws.take(k) =~= ws);
    } else {
        assert(ws.drop_last().take(k) =~= ws.take(k));
        lemma_witnesses_stop(p, t, ws.drop_last(), k);
    }
}

/// Once writing the constraints of a prefix stops, writing all of them stops with the same
/// bytes.
proof fn lemma_constraints_stop(p: Preamble, t: Seq<u8>, cs: Seq<ConstraintView>, k: int)
    requires
        0 <= k <= cs.len(),
        !spec_write_constraints_at(p, t, cs.take(k)).1,
    ensures
        spec_write_constraints_at(p, t, cs) == spec_write_constraints_at(p, t, cs.take(k)),
    decreases cs.len(),
{
    if k == cs.len() {
        assert(cs.take(k) =~= cs);
    } else {
        assert(cs.drop_last().take(k) =~= cs.take(k));
        lemma_constraints_stop(p, t, cs.drop_last(), k);
    }
}

/// The ids of the items modelled by `ids` are below `n` and unique.
pub open spec fn spec_ids_unique_below(ids: Seq<int>, n: int) -> bool {
    &&& forall|i: int| 0 <= i < ids.len() ==> 0 <= #[trigger] ids[i] < n
    &&& forall|i: int, j: int| 0 <= i < ids.len() && 0 <= j < ids.len() && i != j ==> #[trigger] ids[i] != #[trigger] ids[j]
}

/// Ids of witnesses.
pub open spec fn spec_witness_ids(ws: Seq<Witness>) -> Seq<int> {
    ws.map_values(|w: Witness| w.deep_view().id as int)
}

/// Ids of constraints.
pub open spec fn spec_constraint_ids(cs: Seq<Constraint>) -> Seq<int> {
    cs.map_values(|c: Constraint| c.deep_view().id as int)
}

/// Writing witnesses with unique ids below the count places each at the offset of its id, and
/// leaves the preamble and the constraints' room as they were.
proof fn lemma_witnesses_placed(p: Preamble, t: Seq<u8>, ws: Seq<Witness>)
    requires
        t.len() == p.spec_total_len(),
        spec_ids_unique_below(spec_witness_ids(ws), p.witnesses as int),
    ensures
        ({
            let (t2, ok) = spec_write_witnesses_at(p, t, spec_views(ws));
            let wl = spec_witness_len(p.config) as int;
            let cstart = 17 + p.witnesses * wl;
            &&& ok
            &&& t2.len() == t.len()
            &&& forall|k: int|
                0 <= k < ws.len() ==> t2.subrange(
                    p.spec_witness_offset(ws[k].deep_view().id as int),
                    p.spec_witness_offset(ws[k].deep_view().id as int) + wl,
                ) == (#[trigger] ws[k]).spec_encode(p.config)
            &&& t2.subrange(0, 17) == t.subrange(0, 17)
            &&& t2.subrange(cstart, t.len() as int) == t.subrange(cstart, t.len() as int)
        }),
    decreases ws.len(),
{
    let wl = spec_witness_len(p.config) as int;
    let cl = spec_constraint_len(p.config) as int;
    let cstart = 17 + p.witnesses * wl;
    assert(p.constraints * cl >= 0) by (nonlinear_arith)
        requires
            cl >= 0,
    ;
    if ws.len() > 0 {
        let init = ws.drop_last();
        assert(spec_witness_ids(init) =~= spec_witness_ids(ws).drop_last());
        lemma_witnesses_placed(p, t, init);
        assert(spec_views(ws).drop_last() =~= spec_views(init));
        let (t1, ok) = spec_write_witnesses_at(p, t, spec_views(init));
        let last = ws.last();
        let n = ws.len() - 1;
        assert(spec_views(ws).last() == last.deep_view());
        let id = last.deep_view().id as int;
        assert(spec_witness_ids(ws)[n] == id);
        let at = p.spec_witness_offset(id);
        last.lemma_encode_len(p.config);
        assert(last.spec_encode(p.config) == last.deep_view().spec_encode(p.config));
        assert(id * wl + wl <= p.witnesses * wl) by (nonlinear_arith)
            requires
                0 <= id < p.witnesses,
                wl >= 0,
        ;
        assert(id * wl >= 0) by (nonlinear_arith)
            requires
                id >= 0,
                wl >= 0,
        ;
        lemma_write_at_within(t1, at, last.spec_encode(p.config));
        let t2 = spec_write_at(t1, at, last.spec_encode(p.config));
        assert forall|k: int| 0 <= k < ws.len() implies t2.subrange(
            p.spec_witness_offset(ws[k].deep_view().id as int),
            p.spec_witness_offset(ws[k].deep_view().id as int) + wl,
        ) == (#[trigger] ws[k]).spec_encode(p.config) by {
            if k < n {
                assert(init[k] == ws[k]);
                let other = ws[k].deep_view().id as int;
                assert(spec_witness_ids(ws)[k] == other);
                assert(other != id);
                if other < id {
                    assert(other * wl + wl <= id * wl) by (nonlinear_arith)
                        requires
                            other < id,
                            wl >= 0,
                    ;
                } else {
                    assert(id * wl + wl <= other * wl) by (nonlinear_arith)
                        requires
                            id < other,
                            wl >= 0,
                    ;
                }
                assert(0 <= other < p.witnesses);
                assert(other * wl + wl <= p.witnesses * wl) by (nonlinear_arith)
                    requires
                        0 <= other < p.witnesses,
                        wl >= 0,
                ;
                assert(other * wl >= 0) by (nonlinear_arith)
                    requires
                        other >= 0,
                        wl >= 0,
                ;
            }
        }
    }
}

/// Writing constraints with unique ids below the count places each at the offset of its id,
/// and leaves the preamble and the witnesses' room as they were.
proof fn lemma_constraints_placed(p: Preamble, t: Seq<u8>, cs: Seq<Constraint>)
    requires
        t.len() == p.spec_total_len(),
        spec_ids_unique_below(spec_constraint_ids(cs), p.constraints as int),
    ensures
        ({
            let (t2, ok) = spec_write_constraints_at(p, t, spec_views(cs));
            let wl = spec_witness_len(p.config) as int;
            let cl = spec_constraint_len(p.config) as int;
            let cstart = 17 + p.witnesses * wl;
            &&& ok
            &&& t2.len() == t.len()
            &&& forall|k: int|
                0 <= k < cs.len() ==> t2.subrange(
                    p.spec_constraint_offset(cs[k].deep_view().id as int),
                    p.spec_constraint_offset(cs[k].deep_view().id as int) + cl,
                ) == (#[trigger] cs[k]).spec_encode(p.config)
            &&& t2.subrange(0, cstart) == t.subrange(0, cstart)
        }),
    decreases cs.len(),
{
    let wl = spec_witness_len(p.config) as int;
    let cl = spec_constraint_len(p.config) as int;
    let cstart = 17 + p.witnesses * wl;
    assert(p.witnesses * wl >= 0) by (nonlinear_arith)
        requires
            wl >= 0,
    ;
    if cs.len() > 0 {
        let init = cs.drop_last();
        assert(spec_constraint_ids(init) =~= spec_constraint_ids(cs).drop_last());
        lemma_constraints_placed(p, t, init);
        assert(spec_views(cs).drop_last() =~= spec_views(init));
        let (t1, ok) = spec_write_constraints_at(p, t, spec_views(init));
        let last = cs.last();
        let n = cs.len() - 1;
        assert(spec_views(cs).last() == last.deep_view());
        let id = last.deep_view().id as int;
        assert(spec_constraint_ids(cs)[n] == id);
        assert((last.deep_view().id as usize) as int == id);
        let at = p.spec_constraint_offset(id);
        last.lemma_encode_len(p.config);
        assert(last.spec_encode(p.config) == last.deep_view().spec_encode(p.config));
        assert(id * cl + cl <= p.constraints * cl) by (nonlinear_arith)
            requires
                0 <= id < p.constraints,
                cl >= 0,
        ;
        assert(id * cl >= 0) by (nonlinear_arith)
            requires
                id >= 0,
                cl >= 0,
        ;
        lemma_write_at_within(t1, at, last.spec_encode(p.config));
        let t2 = spec_write_at(t1, at, last.spec_encode(p.config));
        assert forall|k: int| 0 <= k < cs.len() implies t2.subrange(
            p.spec_constraint_offset(cs[k].deep_view().id as int),
            p.spec_constraint_offset(cs[k].deep_view().id as int) + cl,
        ) == (#[trigger] cs[k]).spec_encode(p.config) by {
            if k < n {
                assert(init[k] == cs[k]);
                let other = cs[k].deep_view().id as int;
                assert(spec_constraint_ids(cs)[k] == other);
                assert(other != id);
                if other < id {
                    assert(other * cl + cl <= id * cl) by (nonlinear_arith)
                        requires
                            other < id,
                            cl >= 0,
                    ;
                } else {
                    assert(id * cl + cl <= other * cl) by (nonlinear_arith)
                        requires
                            id < other,
                            cl >= 0,
                    ;
                }
                assert(0 <= other < p.constraints);
                assert(other * cl + cl <= p.constraints * cl) by (nonlinear_arith)
                    requires
                        0 <= other < p.constraints,
                        cl >= 0,
                ;
                assert(other * cl >= 0) by (nonlinear_arith)
                    requires
                        other >= 0,
                        cl >= 0,
                ;
            }
        }
    }
}

/// An encoder made by `init_cursor`, whose witnesses and constraints have unique ids below
/// their counts, writes every item at the offset of its id: the file then reads back the
/// preamble, and fetching an item by its id gives it back as its decoding gives it (scalars
/// zeroed when the configuration skips them).
pub proof fn lemma_encoder_places_items(p: Preamble, ws: Seq<Witness>, cs: Seq<Constraint>)
    requires
        p.witnesses == ws.len(),
        p.constraints == cs.len(),
        p.spec_fits(),
        spec_ids_unique_below(spec_witness_ids(ws), ws.len() as int),
        spec_ids_unique_below(spec_constraint_ids(cs), cs.len() as int),
    ensures
        ({
            let e = EncoderView {
                preamble: p,
                witnesses: spec_views(ws),
                constraints: spec_views(cs),
                target: Seq::new(p.spec_total_len() as nat, |i: int| 0u8),
            };
            let (t, r) = e.spec_write_all();
            let v = CircuitDescriptionView { preamble: spec_read_preamble(t), bytes: t };
            &&& r == Ok::<usize, Error>(spec_items_len(p.config, ws.len() as int, cs.len() as int) as usize)
            &&& spec_read_preamble(t) == p
            &&& forall|k: int|
                0 <= k < ws.len() ==> v.spec_fetch_witness((#[trigger] ws[k]).deep_view().id as int)
                    == Ok::<WitnessView, Error>(ws[k].spec_normalize(p.config))
            &&& forall|k: int|
                0 <= k < cs.len() ==> v.spec_fetch_constraint((#[trigger] cs[k]).deep_view().id as int)
                    == Ok::<ConstraintView, Error>(cs[k].spec_normalize(p.config))
        }),
{
    let config = p.config;
    let wl = spec_witness_len(config) as int;
    let cl = spec_constraint_len(config) as int;
    let total = p.spec_total_len();
    let zeros = Seq::new(total as nat, |i: int| 0u8);
    let head = p.spec_encode(config);
    p.lemma_encode_len(config);
    assert(p.witnesses * wl >= 0 && p.constraints * cl >= 0) by (nonlinear_arith)
        requires
            wl >= 0,
            cl >= 0,
    ;
    lemma_write_at_within(zeros, 0, head);
    let t0 = spec_write_at(zeros, 0, head);
    lemma_witnesses_placed(p, t0, ws);
    let (t1, ok1) = spec_write_witnesses_at(p, t0, spec_views(ws));
    lemma_constraints_placed(p, t1, cs);
    let (t2, ok2) = spec_write_constraints_at(p, t1, spec_views(cs));
    let cstart = 17 + p.witnesses * wl;
    assert(t2.subrange(0, 17) == head) by {
        assert(t2.subrange(0, cstart).subrange(0, 17) =~= t2.subrange(0, 17));
        assert(t1.subrange(0, cstart).subrange(0, 17) =~= t1.subrange(0, 17));
    }
    assert(spec_read_padded(t2, 17) =~= t2.subrange(0, 17));
    p.lemma_roundtrip(Config::spec_default());
    Preamble::lemma_decode_prefix(Preamble::spec_default(), Config::spec_default(), head);
    assert(head.take(17) =~= head);
    let v = CircuitDescriptionView { preamble: p, bytes: t2 };
    assert forall|k: int| 0 <= k < ws.len() implies v.spec_fetch_witness((#[trigger] ws[k]).deep_view().id as int)
        == Ok::<WitnessView, Error>(ws[k].spec_normalize(config)) by {
        let id = ws[k].deep_view().id as int;
        assert(spec_witness_ids(ws)[k] == id);
        let at = p.spec_witness_offset(id);
        assert(id * wl + wl <= p.witnesses * wl) by (nonlinear_arith)
            requires
                0 <= id < p.witnesses,
                wl >= 0,
        ;
        assert(id * wl >= 0) by (nonlinear_arith)
            requires
                id >= 0,
                wl >= 0,
        ;
        assert(t2.subrange(at, at + wl) == t1.subrange(at, at + wl)) by {
            assert(t2.subrange(0, cstart).subrange(at, at + wl) =~= t2.subrange(at, at + wl));
            assert(t1.subrange(0, cstart).subrange(at, at + wl) =~= t1.subrange(at, at + wl));
        }
        assert(spec_read_padded(spec_tail(t2, at), wl as nat) =~= t2.subrange(at, at + wl));
        ws[k].lemma_roundtrip(config);
    }
    assert forall|k: int| 0 <= k < cs.len() implies v.spec_fetch_constraint((#[trigger] cs[k]).deep_view().id as int)
        == Ok::<ConstraintView, Error>(cs[k].spec_normalize(config)) by {
        let id = cs[k].deep_view().id as int;
        assert(spec_constraint_ids(cs)[k] == id);
        let at = p.spec_constraint_offset(id);
        assert(id * cl + cl <= p.constraints * cl) by (nonlinear_arith)
            requires
                0 <= id < p.constraints,
                cl >= 0,
        ;
        assert(id * cl >= 0) by (nonlinear_arith)
            requires
                id >= 0,
                cl >= 0,
        ;
        assert(spec_read_padded(spec_tail(t2, at), cl as nat) =~= t2.subrange(at, at + cl));
        cs[k].lemma_roundtrip(config);
    }
}

} // verus!
