use vstd::prelude::*;

use crate::constraint::Constraint;
use crate::text::{contains_str, spec_contains};

verus! {

/// Model of a breakpoint.
pub struct BreakpointView {
    /// Source pattern that triggers the breakpoint.
    pub source: Seq<char>,
    /// Line that triggers the breakpoint; any line if `None`.
    pub line: Option<u64>,
}

/// The breakpoint modelled by `bp` triggers at `line` of the source named `source`: the
/// pattern occurs in the name and the line, if set, is the same.
pub open spec fn spec_matches(bp: BreakpointView, source: Seq<char>, line: u64) -> bool {
    &&& spec_contains(source, bp.source)
    &&& match bp.line {
        Some(l) => l == line,
        None => true,
    }
}

/// A single breakpoint in code: a source pattern which triggers it, and a line.
#[derive(Debug, Default, Clone, PartialEq, Eq, Hash)]
pub struct Breakpoint {
    /// Source pattern that will trigger the breakpoint.
    pub source: String,
    /// Line of the source that will trigger the breakpoint. If `None`, any incidence of
    /// `source` will trigger the breakpoint, regardless of the line.
    pub line: Option<u64>,
}

impl View for Breakpoint {
    type V = BreakpointView;

    open spec fn view(&self) -> BreakpointView {
        BreakpointView { source: self.source@, line: self.line }
    }
}

impl Breakpoint {
    /// Check if the source and line number matches with the breakpoint.
    pub fn matches(&self, source: &str, line: u64) -> (b: bool)
        ensures
            b == spec_matches(self@, source@, line),
    {
        contains_str(source, self.source.as_str()) && match self.line {
            Some(l) => l == line,
            None => true,
        }
    }

    /// Copy of the breakpoint.
    pub fn duplicate(&self) -> (b: Breakpoint)
        ensures
            b@ == self@,
    {
        Breakpoint { source: self.source.clone(), line: self.line }
    }
}

/// Model of a collection of breakpoints: the id the next new breakpoint gets, and each
/// breakpoint with its id.
pub struct BreakpointsView {
    /// Id of the next breakpoint added.
    pub next_id: usize,
    /// Breakpoints with their ids, in the order they were added.
    pub entries: Seq<(BreakpointView, usize)>,
}

impl BreakpointsView {
    /// The breakpoint `bp` is in the collection.
    pub open spec fn has(&self, bp: BreakpointView) -> bool {
        exists|i: int| 0 <= i < self.entries.len() && (#[trigger] self.entries[i]).0 == bp
    }

    /// Some breakpoint has the id `id`.
    pub open spec fn has_id(&self, id: usize) -> bool {
        exists|i: int| 0 <= i < self.entries.len() && (#[trigger] self.entries[i]).1 == id
    }

    /// The id of `bp`, if it is in the collection.
    pub open spec fn id_of(&self, bp: BreakpointView) -> usize {
        self.entries[choose|i: int| 0 <= i < self.entries.len() && (#[trigger] self.entries[i]).0 == bp].1
    }

    /// The breakpoint with the id `id`, if some breakpoint has it.
    pub open spec fn with_id(&self, id: usize) -> BreakpointView {
        self.entries[choose|i: int| 0 <= i < self.entries.len() && (#[trigger] self.entries[i]).1 == id].0
    }

    /// Every breakpoint is held once, with its own id, and ids are below the next one.
    pub open spec fn wf(&self) -> bool {
        &&& self.next_id >= 1
        &&& forall|i: int, j: int|
            0 <= i < self.entries.len() && 0 <= j < self.entries.len() && i != j ==> (#[trigger] self.entries[i]).0
                != (#[trigger] self.entries[j]).0 && self.entries[i].1 != self.entries[j].1
        &&& forall|i: int| 0 <= i < self.entries.len() ==> 1 <= (#[trigger] self.entries[i]).1 < self.next_id
    }

    /// Position of the breakpoint with the id `id`, if some breakpoint has it.
    pub open spec fn index_of_id(&self, id: usize) -> int {
        choose|i: int| 0 <= i < self.entries.len() && (#[trigger] self.entries[i]).1 == id
    }

    /// The collection after adding `bp`, and the id that `bp` has there: a breakpoint
    /// already held keeps its id; a new one gets the next id.
    pub open spec fn spec_add(&self, bp: BreakpointView) -> (BreakpointsView, usize) {
        if self.has(bp) {
            (*self, self.id_of(bp))
        } else {
            (
                BreakpointsView { next_id: (self.next_id + 1) as usize, entries: self.entries.push((bp, self.next_id)) },
                self.next_id,
            )
        }
    }

    /// The collection after removing the breakpoint with the id `id`, and that breakpoint;
    /// the collection unchanged and `None` if no breakpoint has the id.
    pub open spec fn spec_remove(&self, id: usize) -> (BreakpointsView, Option<BreakpointView>) {
        if self.has_id(id) {
            let i = self.index_of_id(id);
            (BreakpointsView { next_id: self.next_id, entries: self.entries.remove(i) }, Some(self.entries[i].0))
        } else {
            (*self, None)
        }
    }
}

/// Adding a breakpoint keeps the collection well formed, and the breakpoint is then found by
/// the id that the addition returned.
pub proof fn lemma_add_then_fetch(v: BreakpointsView, bp: BreakpointView)
    requires
        v.wf(),
        v.next_id < usize::MAX || v.has(bp),
    ensures
        v.spec_add(bp).0.wf(),
        v.spec_add(bp).0.has_id(v.spec_add(bp).1),
        v.spec_add(bp).0.with_id(v.spec_add(bp).1) == bp,
        v.spec_add(bp).0.has(bp),
        v.spec_add(bp).0.id_of(bp) == v.spec_add(bp).1,
{
    let (w, id) = v.spec_add(bp);
    if v.has(bp) {
        let i = choose|i: int| 0 <= i < v.entries.len() && (#[trigger] v.entries[i]).0 == bp;
        assert(v.entries[i].1 == id);
        assert(w.has_id(id));
        let j = choose|j: int| 0 <= j < w.entries.len() && (#[trigger] w.entries[j]).1 == id;
        assert(j == i);
    } else {
        let n = v.entries.len() as int;
        assert(w.entries[n] == (bp, id));
        assert(w.has_id(id));
        assert(w.has(bp));
        assert forall|p: int, q: int|
            0 <= p < w.entries.len() && 0 <= q < w.entries.len() && p != q implies (#[trigger] w.entries[p]).0
                != (#[trigger] w.entries[q]).0 && w.entries[p].1 != w.entries[q].1 by {
            if p < n && q < n {
                assert(w.entries[p] == v.entries[p]);
                assert(w.entries[q] == v.entries[q]);
            } else if p < n {
                assert(w.entries[p] == v.entries[p]);
            } else {
                assert(w.entries[q] == v.entries[q]);
            }
        }
        let j = choose|j: int| 0 <= j < w.entries.len() && (#[trigger] w.entries[j]).1 == id;
        assert(j == n);
        let k = choose|k: int| 0 <= k < w.entries.len() && (#[trigger] w.entries[k]).0 == bp;
        assert(k == n);
    }
}

/// Adding a breakpoint that is already held changes nothing and gives its id again.
pub proof fn lemma_add_idempotent(v: BreakpointsView, bp: BreakpointView)
    requires
        v.wf(),
        v.next_id < usize::MAX || v.has(bp),
    ensures
        v.spec_add(bp).0.spec_add(bp) == v.spec_add(bp),
{
    lemma_add_then_fetch(v, bp);
}

/// Removing the breakpoint that an addition of a new breakpoint gave an id gives that
/// breakpoint back, and leaves the breakpoints as they were before the addition.
pub proof fn lemma_add_then_remove(v: BreakpointsView, bp: BreakpointView)
    requires
        v.wf(),
        v.next_id < usize::MAX,
        !v.has(bp),
    ensures
        v.spec_add(bp).0.spec_remove(v.spec_add(bp).1).1 == Some(bp),
        v.spec_add(bp).0.spec_remove(v.spec_add(bp).1).0.entries == v.entries,
{
    lemma_add_then_fetch(v, bp);
    let (w, id) = v.spec_add(bp);
    let n = v.entries.len() as int;
    assert(w.entries[n] == (bp, id));
    let j = choose|j: int| 0 <= j < w.entries.len() && (#[trigger] w.entries[j]).1 == id;
    assert(j == n);
    assert(w.index_of_id(id) == n);
    assert(w.entries.remove(n) =~= v.entries);
}

/// An operation on a collection of breakpoints.
pub enum BreakpointEvent {
    /// Add the breakpoint.
    Add(BreakpointView),
    /// Remove the breakpoint with the id.
    Remove(usize),
    /// Clear the breakpoints whose pattern occurs in the source.
    Clear(Seq<char>),
}

/// The collection after the operations `ops`, in order.
pub open spec fn spec_apply(v: BreakpointsView, ops: Seq<BreakpointEvent>) -> BreakpointsView
    decreases ops.len(),
{
    if ops.len() == 0 {
        v
    } else {
        let w = spec_apply(v, ops.drop_last());
        match ops.last() {
            BreakpointEvent::Add(bp) => w.spec_add(bp).0,
            BreakpointEvent::Remove(id) => w.spec_remove(id).0,
            BreakpointEvent::Clear(source) => BreakpointsView { next_id: w.next_id, entries: spec_cleared(w.entries, source) },
        }
    }
}

/// Removing keeps the collection well formed, takes the removed id out, and keeps every
/// other breakpoint with its id.
pub proof fn lemma_remove_keeps(v: BreakpointsView, id: usize, other: usize)
    requires
        v.wf(),
    ensures
        v.spec_remove(id).0.wf(),
        v.spec_remove(id).0.next_id == v.next_id,
        !v.spec_remove(id).0.has_id(id),
        other != id && v.has_id(other) ==> v.spec_remove(id).0.has_id(other) && v.spec_remove(id).0.with_id(other)
            == v.with_id(other),
{
    let w = v.spec_remove(id).0;
    if v.has_id(id) {
        let i = v.index_of_id(id);
        assert(w.entries == v.entries.remove(i));
        assert forall|p: int, q: int|
            0 <= p < w.entries.len() && 0 <= q < w.entries.len() && p != q implies (#[trigger] w.entries[p]).0
                != (#[trigger] w.entries[q]).0 && w.entries[p].1 != w.entries[q].1 by {
            let pp = if p < i { p } else { p + 1 };
            let qq = if q < i { q } else { q + 1 };
            assert(w.entries[p] == v.entries[pp]);
            assert(w.entries[q] == v.entries[qq]);
        }
        assert forall|p: int| 0 <= p < w.entries.len() implies 1 <= (#[trigger] w.entries[p]).1 < w.next_id by {
            let pp = if p < i { p } else { p + 1 };
            assert(w.entries[p] == v.entries[pp]);
        }
        if w.has_id(id) {
            let p = choose|p: int| 0 <= p < w.entries.len() && (#[trigger] w.entries[p]).1 == id;
            let pp = if p < i { p } else { p + 1 };
            assert(w.entries[p] == v.entries[pp]);
        }
        if other != id && v.has_id(other) {
            let j = v.index_of_id(other);
            assert(j != i);
            let jj = if j < i { j } else { j - 1 };
            assert(w.entries[jj] == v.entries[j]);
            assert(w.has_id(other));
            let k = w.index_of_id(other);
            let kk = if k < i { k } else { k + 1 };
            assert(w.entries[k] == v.entries[kk]);
        }
    }
}

/// Adding keeps every breakpoint held with its id.
pub proof fn lemma_add_keeps(v: BreakpointsView, bp: BreakpointView, other: usize)
    requires
        v.wf(),
        v.next_id < usize::MAX || v.has(bp),
        v.has_id(other),
    ensures
        v.spec_add(bp).0.has_id(other),
        v.spec_add(bp).0.with_id(other) == v.with_id(other),
{
    lemma_add_then_fetch(v, bp);
    let w = v.spec_add(bp).0;
    if !v.has(bp) {
        let j = v.index_of_id(other);
        assert(w.entries[j] == v.entries[j]);
        let k = w.index_of_id(other);
        if k < v.entries.len() {
            assert(w.entries[k] == v.entries[k]);
        }
    }
}

/// Clearing a source keeps the collection well formed; a breakpoint held stays, with its
/// id, exactly when its pattern doesn't occur in the source.
pub proof fn lemma_clear_keeps(v: BreakpointsView, source: Seq<char>, other: usize)
    requires
        v.wf(),
    ensures
        ({
            let w = BreakpointsView { next_id: v.next_id, entries: spec_cleared(v.entries, source) };
            &&& w.wf()
            &&& v.has_id(other) ==> (w.has_id(other) <==> !spec_contains(source, v.with_id(other).source))
            &&& v.has_id(other) && w.has_id(other) ==> w.with_id(other) == v.with_id(other)
            &&& !v.has_id(other) ==> !w.has_id(other)
        }),
{
    let keep = |e: (BreakpointView, usize)| !spec_contains(source, e.0.source);
    let f = v.entries.filter(keep);
    let w = BreakpointsView { next_id: v.next_id, entries: f };
    assert forall|p: int| 0 <= p < f.len() implies v.entries.contains(#[trigger] f[p]) by {
        assert(f.contains(f[p]));
        v.entries.lemma_filter_contains_rev(keep, f[p]);
    }
    assert forall|p: int, q: int|
        0 <= p < f.len() && 0 <= q < f.len() && p != q implies (#[trigger] f[p]).0 != (#[trigger] f[q]).0 && f[p].1
            != f[q].1 by {
        lemma_filter_distinct(v, keep, p, q);
    }
    assert forall|p: int| 0 <= p < f.len() implies 1 <= (#[trigger] f[p]).1 < w.next_id by {
        assert(v.entries.contains(f[p]));
    }
    if v.has_id(other) {
        let j = v.index_of_id(other);
        let e = v.entries[j];
        if !spec_contains(source, e.0.source) {
            v.entries.lemma_filter_contains(keep, j);
            let k = choose|k: int| 0 <= k < f.len() && f[k] == e;
            assert(w.has_id(other));
            let k2 = w.index_of_id(other);
            assert(v.entries.contains(f[k2]));
            let j2 = choose|j2: int| 0 <= j2 < v.entries.len() && v.entries[j2] == f[k2];
            assert(j2 == j);
        } else if w.has_id(other) {
            let k = w.index_of_id(other);
            assert(v.entries.contains(f[k]));
            let j2 = choose|j2: int| 0 <= j2 < v.entries.len() && v.entries[j2] == f[k];
            assert(j2 == j);
            v.entries.lemma_filter_pred(keep, k);
        }
    } else if w.has_id(other) {
        let k = w.index_of_id(other);
        assert(v.entries.contains(f[k]));
    }
}

/// Distinct positions of a filtered well-formed collection hold distinct breakpoints and ids.
proof fn lemma_filter_distinct(
    v: BreakpointsView,
    keep: spec_fn((BreakpointView, usize)) -> bool,
    p: int,
    q: int,
)
    requires
        v.wf(),
        0 <= p < v.entries.filter(keep).len(),
        0 <= q < v.entries.filter(keep).len(),
        p != q,
    ensures
        v.entries.filter(keep)[p].0 != v.entries.filter(keep)[q].0,
        v.entries.filter(keep)[p].1 != v.entries.filter(keep)[q].1,
    decreases v.entries.len(),
{
    let f = v.entries.filter(keep);
    reveal(Seq::filter);
    let init = BreakpointsView { next_id: v.next_id, entries: v.entries.drop_last() };
    assert(init.wf()) by {
        assert forall|i: int, j: int|
            0 <= i < init.entries.len() && 0 <= j < init.entries.len() && i != j implies (#[trigger] init.entries[i]).0
                != (#[trigger] init.entries[j]).0 && init.entries[i].1 != init.entries[j].1 by {
            assert(init.entries[i] == v.entries[i] && init.entries[j] == v.entries[j]);
        }
        assert forall|i: int| 0 <= i < init.entries.len() implies 1 <= (#[trigger] init.entries[i]).1 < init.next_id by {
            assert(init.entries[i] == v.entries[i]);
        }
    }
    let g = init.entries.filter(keep);
    let last = v.entries.last();
    let n = v.entries.len() - 1;
    if keep(last) {
        assert(f == g.push(last));
        if p < g.len() && q < g.len() {
            lemma_filter_distinct(init, keep, p, q);
        } else {
            let r = if p < g.len() { p } else { q };
            assert(init.entries.contains(g[r])) by {
                assert(g.contains(g[r]));
                init.entries.lemma_filter_contains_rev(keep, g[r]);
            }
            let i = choose|i: int| 0 <= i < init.entries.len() && init.entries[i] == g[r];
            assert(v.entries[i] == g[r]);
            assert(v.entries[n] == last);
        }
    } else {
        assert(f == g);
        lemma_filter_distinct(init, keep, p, q);
    }
}

/// A breakpoint added is found by its id after any later operations that neither remove
/// that id nor clear a source where its pattern occurs, and the collection stays well
/// formed.
pub proof fn lemma_history(v: BreakpointsView, bp: BreakpointView, ops: Seq<BreakpointEvent>)
    requires
        v.wf(),
        v.next_id + ops.len() + 1 < usize::MAX,
        forall|i: int|
            0 <= i < ops.len() ==> match #[trigger] ops[i] {
                BreakpointEvent::Remove(id) => id != v.spec_add(bp).1,
                BreakpointEvent::Clear(source) => !spec_contains(source, bp.source),
                BreakpointEvent::Add(_) => true,
            },
    ensures
        spec_apply(v.spec_add(bp).0, ops).wf(),
        spec_apply(v.spec_add(bp).0, ops).next_id <= v.next_id + ops.len() + 1,
        spec_apply(v.spec_add(bp).0, ops).has_id(v.spec_add(bp).1),
        spec_apply(v.spec_add(bp).0, ops).with_id(v.spec_add(bp).1) == bp,
    decreases ops.len(),
{
    let (w0, id) = v.spec_add(bp);
    lemma_add_then_fetch(v, bp);
    if ops.len() > 0 {
        let init = ops.drop_last();
        assert forall|i: int| 0 <= i < init.len() implies match #[trigger] init[i] {
            BreakpointEvent::Remove(x) => x != id,
            BreakpointEvent::Clear(source) => !spec_contains(source, bp.source),
            BreakpointEvent::Add(_) => true,
        } by {
            assert(init[i] == ops[i]);
        }
        lemma_history(v, bp, init);
        let w = spec_apply(w0, init);
        let last = ops.last();
        assert(last == ops[ops.len() - 1]);
        match last {
            BreakpointEvent::Add(b2) => {
                lemma_add_then_fetch(w, b2);
                lemma_add_keeps(w, b2, id);
            },
            BreakpointEvent::Remove(x) => {
                lemma_remove_keeps(w, x, id);
            },
            BreakpointEvent::Clear(source) => {
                lemma_clear_keeps(w, source, id);
            },
        }
    }
}

/// No breakpoint has an id that was never given out: zero, or one from the next on.
pub proof fn lemma_unused_ids(v: BreakpointsView, id: usize)
    requires
        v.wf(),
        id == 0 || id >= v.next_id,
    ensures
        !v.has_id(id),
{
    if v.has_id(id) {
        let i = v.index_of_id(id);
        assert(1 <= v.entries[i].1 < v.next_id);
    }
}

/// Id of the first breakpoint of `entries` that triggers at `line` of `source`.
pub open spec fn spec_find_entry(entries: Seq<(BreakpointView, usize)>, source: Seq<char>, line: u64) -> Option<usize>
    decreases entries.len(),
{
    if entries.len() == 0 {
        None
    } else if spec_matches(entries[0].0, source, line) {
        Some(entries[0].1)
    } else {
        spec_find_entry(entries.drop_first(), source, line)
    }
}

/// A breakpoint is found at a line of a source exactly when one of the breakpoints held
/// triggers there, and the id found is that of such a breakpoint: the first one held.
pub proof fn lemma_find_entry(entries: Seq<(BreakpointView, usize)>, source: Seq<char>, line: u64)
    ensures
        spec_find_entry(entries, source, line) is Some <==> exists|i: int|
            0 <= i < entries.len() && spec_matches((#[trigger] entries[i]).0, source, line),
        spec_find_entry(entries, source, line) is Some ==> exists|i: int|
            0 <= i < entries.len() && spec_matches((#[trigger] entries[i]).0, source, line) && entries[i].1
                == spec_find_entry(entries, source, line)->Some_0 && forall|j: int|
                0 <= j < i ==> !spec_matches((#[trigger] entries[j]).0, source, line),
    decreases entries.len(),
{
    if entries.len() > 0 {
        let rest = entries.drop_first();
        lemma_find_entry(rest, source, line);
        if spec_matches(entries[0].0, source, line) {
            assert(spec_matches(entries[0].0, source, line));
        } else {
            if exists|i: int| 0 <= i < entries.len() && spec_matches((#[trigger] entries[i]).0, source, line) {
                let i = choose|i: int| 0 <= i < entries.len() && spec_matches((#[trigger] entries[i]).0, source, line);
                assert(rest[i - 1] == entries[i]);
            }
            if spec_find_entry(rest, source, line) is Some {
                let i = choose|i: int|
                    0 <= i < rest.len() && spec_matches((#[trigger] rest[i]).0, source, line) && rest[i].1
                        == spec_find_entry(rest, source, line)->Some_0 && forall|j: int|
                        0 <= j < i ==> !spec_matches((#[trigger] rest[j]).0, source, line);
                assert(entries[i + 1] == rest[i]);
                assert forall|j: int| 0 <= j < i + 1 implies !spec_matches((#[trigger] entries[j]).0, source, line) by {
                    if j > 0 {
                        assert(entries[j] == rest[j - 1]);
                    }
                }
            }
        }
    }
}

/// Breakpoints of `entries` left after clearing `source`: those whose pattern doesn't occur
/// in it, in order.
pub open spec fn spec_cleared(entries: Seq<(BreakpointView, usize)>, source: Seq<char>) -> Seq<(BreakpointView, usize)> {
    entries.filter(|e: (BreakpointView, usize)| !spec_contains(source, e.0.source))
}

/// After clearing a source, no breakpoint held has a pattern that occurs in it, and every
/// breakpoint that doesn't is still held.
pub proof fn lemma_clear_removes(entries: Seq<(BreakpointView, usize)>, source: Seq<char>)
    ensures
        forall|i: int|
            0 <= i < spec_cleared(entries, source).len() ==> !spec_contains(
                source,
                (#[trigger] spec_cleared(entries, source)[i]).0.source,
            ),
        forall|i: int|
            0 <= i < entries.len() && !spec_contains(source, (#[trigger] entries[i]).0.source) ==> spec_cleared(
                entries,
                source,
            ).contains(entries[i]),
{
    let keep = |e: (BreakpointView, usize)| !spec_contains(source, e.0.source);
    let f = entries.filter(keep);
    assert forall|i: int| 0 <= i < f.len() implies !spec_contains(source, (#[trigger] f[i]).0.source) by {
        entries.lemma_filter_pred(keep, i);
    }
    assert forall|i: int| 0 <= i < entries.len() && !spec_contains(source, (#[trigger] entries[i]).0.source) implies f.contains(
        entries[i],
    ) by {
        entries.lemma_filter_contains_rev(keep, entries[i]);
    }
}

/// A collection of breakpoints, each with a unique id.
#[derive(Debug, Clone, PartialEq, Eq)]
pub struct Breakpoints {
    next_id: usize,
    breakpoints: Vec<(Breakpoint, usize)>,
}

impl View for Breakpoints {
    type V = BreakpointsView;

    closed spec fn view(&self) -> BreakpointsView {
        BreakpointsView {
            next_id: self.next_id,
            entries: self.breakpoints@.map_values(|e: (Breakpoint, usize)| (e.0@, e.1)),
        }
    }
}

impl Breakpoints {
    /// An empty collection, where the first breakpoint gets the id 1.
    pub fn new() -> (b: Breakpoints)
        ensures
            b@.next_id == 1,
            b@.entries == Seq::<(BreakpointView, usize)>::empty(),
            b@.wf(),
    {
        let b = Breakpoints { next_id: 1, breakpoints: Vec::new() };
        assert(b@.entries =~= Seq::<(BreakpointView, usize)>::empty());
        b
    }

    /// Count of breakpoints.
    pub fn len(&self) -> (n: usize)
        ensures
            n == self@.entries.len(),
    {
        self.breakpoints.len()
    }

    /// Id the next new breakpoint gets.
    pub fn next_id(&self) -> (n: usize)
        ensures
            n == self@.next_id,
    {
        self.next_id
    }

    /// Breakpoint and id at position `i`, in the order they were added.
    pub fn entry(&self, i: usize) -> (e: (&Breakpoint, usize))
        requires
            i < self@.entries.len(),
        ensures
            (e.0@, e.1) == self@.entries[i as int],
    {
        let e = &self.breakpoints[i];
        (&e.0, e.1)
    }

    /// Add a breakpoint to the collection, returning its id: a breakpoint already in the
    /// collection keeps its id; a new one gets the next id.
    pub fn add(&mut self, source: String, line: Option<u64>) -> (id: usize)
        requires
            old(self)@.wf(),
            old(self)@.next_id < usize::MAX || old(self)@.has(BreakpointView { source: source@, line }),
        ensures
            final(self)@.wf(),
            (final(self)@, id) == old(self)@.spec_add(BreakpointView { source: source@, line }),
    {
        let breakpoint = Breakpoint { source, line };
        let ghost bp = breakpoint@;
        let n = self.breakpoints.len();
        let mut i: usize = 0;
        while i < n
            invariant
                n == self.breakpoints@.len(),
                i <= n,
                self@ == old(self)@,
                old(self)@.wf(),
                bp == breakpoint@,
                bp == (BreakpointView { source: source@, line }),
                forall|k: int| 0 <= k < i ==> (#[trigger] self@.entries[k]).0 != bp,
            decreases n - i,
        {
            let same = self.breakpoints[i].0.line == breakpoint.line
                && self.breakpoints[i].0.source == breakpoint.source;
            if same {
                let id = self.breakpoints[i].1;
                proof {
                    assert(self@.entries[i as int].0 == bp);
                    assert(self@.has(bp));
                    let j = choose|j: int| 0 <= j < self@.entries.len() && (#[trigger] self@.entries[j]).0 == bp;
                    assert(j == i);
                    assert(old(self)@.has(bp));
                    assert(id == old(self)@.id_of(bp));
                }
                return id;
            }
            proof {
                assert(self@.entries[i as int].0 != bp);
            }
            i = i + 1;
        }
        proof {
            if self@.has(bp) {
                let j = choose|j: int| 0 <= j < self@.entries.len() && (#[trigger] self@.entries[j]).0 == bp;
                assert(self@.entries[j].0 != bp);
            }
        }
        let id = self.next_id;
        let ghost old_entries = self@.entries;
        self.breakpoints.push((breakpoint, id));
        self.next_id = self.next_id + 1;
        proof {
            assert(self@.entries =~= old_entries.push((bp, id)));
            assert(!old(self)@.has(bp));
        }
        id
    }

    /// Remove the breakpoint with the id `id`, returning it; `None` if no breakpoint has it.
    pub fn remove(&mut self, id: usize) -> (removed: Option<Breakpoint>)
        requires
            old(self)@.wf(),
        ensures
            final(self)@.wf(),
            final(self)@ == old(self)@.spec_remove(id).0,
            match removed {
                Some(b) => old(self)@.spec_remove(id).1 == Some(b@),
                None => old(self)@.spec_remove(id).1 is None,
            },
    {
        let n = self.breakpoints.len();
        let mut i: usize = 0;
        while i < n
            invariant
                n == self.breakpoints@.len(),
                i <= n,
                self@ == old(self)@,
                old(self)@.wf(),
                forall|k: int| 0 <= k < i ==> (#[trigger] self@.entries[k]).1 != id,
            decreases n - i,
        {
            if self.breakpoints[i].1 == id {
                let ghost before = self@;
                let (b, _) = self.breakpoints.remove(i);
                proof {
                    assert(before.entries[i as int].1 == id);
                    assert(before.has_id(id));
                    let j = choose|j: int| 0 <= j < before.entries.len() && (#[trigger] before.entries[j]).1 == id;
                    assert(j == i);
                    assert(before.index_of_id(id) == i);
                    assert(self@.entries =~= before.entries.remove(i as int));
                    assert forall|p: int, q: int|
                        0 <= p < self@.entries.len() && 0 <= q < self@.entries.len() && p != q implies (#[trigger] self@.entries[p]).0
                            != (#[trigger] self@.entries[q]).0 && self@.entries[p].1 != self@.entries[q].1 by {
                        let pp = if p < i { p } else { p + 1 };
                        let qq = if q < i { q } else { q + 1 };
                        assert(self@.entries[p] == before.entries[pp]);
                        assert(self@.entries[q] == before.entries[qq]);
                    }
                    assert forall|p: int| 0 <= p < self@.entries.len() implies 1 <= (#[trigger] self@.entries[p]).1 < self@.next_id by {
                        let pp = if p < i { p } else { p + 1 };
                        assert(self@.entries[p] == before.entries[pp]);
                    }
                }
                assert(self@ =~= before.spec_remove(id).0);
                return Some(b);
            }
            i = i + 1;
        }
        proof {
            assert(!old(self)@.has_id(id));
        }
        None
    }

    /// Find the breakpoint that triggers at the source and line of `constraint`, returning
    /// its id.
    pub fn find_breakpoint(&self, constraint: &Constraint) -> (id: Option<usize>)
        ensures
            id == spec_find_entry(self@.entries, constraint.deep_view().source.name, constraint.deep_view().source.line),
    {
        self.find(constraint.name(), constraint.line())
    }

    /// Find the breakpoint that triggers at `line` of `source`, returning its id.
    pub fn find(&self, source: &str, line: u64) -> (id: Option<usize>)
        ensures
            id == spec_find_entry(self@.entries, source@, line),
    {
        let n = self.breakpoints.len();
        let mut i: usize = 0;
        assert(self@.entries.skip(0) =~= self@.entries);
        while i < n
            invariant
                n == self.breakpoints@.len(),
                i <= n,
                spec_find_entry(self@.entries, source@, line) == spec_find_entry(self@.entries.skip(i as int), source@, line),
            decreases n - i,
        {
            let ghost rest = self@.entries.skip(i as int);
            assert(rest.drop_first() =~= self@.entries.skip(i + 1));
            if self.breakpoints[i].0.matches(source, line) {
                return Some(self.breakpoints[i].1);
            }
            i = i + 1;
        }
        None
    }

    /// Find a breakpoint by its id.
    pub fn find_breakpoint_from_id(&self, id: usize) -> (b: Option<&Breakpoint>)
        requires
            self@.wf(),
        ensures
            b is Some <==> self@.has_id(id),
            b is Some ==> b.unwrap()@ == self@.with_id(id),
    {
        let n = self.breakpoints.len();
        let mut i: usize = 0;
        while i < n
            invariant
                n == self.breakpoints@.len(),
                i <= n,
                self@.wf(),
                forall|k: int| 0 <= k < i ==> (#[trigger] self@.entries[k]).1 != id,
            decreases n - i,
        {
            if self.breakpoints[i].1 == id {
                proof {
                    assert(self@.entries[i as int].1 == id);
                    let j = choose|j: int| 0 <= j < self@.entries.len() && (#[trigger] self@.entries[j]).1 == id;
                    assert(j == i);
                }
                return Some(&self.breakpoints[i].0);
            }
            i = i + 1;
        }
        None
    }

    /// Clear all breakpoints whose source pattern occurs in `source`.
    pub fn clear(&mut self, source: &str)
        requires
            old(self)@.wf(),
        ensures
            final(self)@.wf(),
            final(self)@.next_id == old(self)@.next_id,
            final(self)@.entries == spec_cleared(old(self)@.entries, source@),
    {
        let ghost keep = |e: (BreakpointView, usize)| !spec_contains(source@, e.0.source);
        let ghost entries = self@.entries;
        let ghost mut idx: Seq<int> = Seq::empty();
        let mut kept: Vec<(Breakpoint, usize)> = Vec::new();
        let n = self.breakpoints.len();
        let mut i: usize = 0;
        while i < n
            invariant
                n == self.breakpoints@.len(),
                i <= n,
                entries == self@.entries,
                keep == (|e: (BreakpointView, usize)| !spec_contains(source@, e.0.source)),
                self@ == old(self)@,
                old(self)@.wf(),
                kept@.map_values(|e: (Breakpoint, usize)| (e.0@, e.1)) == entries.take(i as int).filter(keep),
                idx.len() == kept@.len(),
                forall|p: int| 0 <= p < idx.len() ==> 0 <= #[trigger] idx[p] < i && kept@[p].0@ == entries[idx[p]].0
                    && kept@[p].1 == entries[idx[p]].1,
                forall|p: int, q: int| 0 <= p < q < idx.len() ==> #[trigger] idx[p] < #[trigger] idx[q],
            decreases n - i,
        {
            let ghost before = kept@.map_values(|e: (Breakpoint, usize)| (e.0@, e.1));
            proof {
                assert(entries.take(i + 1).drop_last() =~= entries.take(i as int));
                entries.take(i as int).lemma_filter_push(entries[i as int], keep);
                assert(entries.take(i as int).push(entries[i as int]) =~= entries.take(i + 1));
            }
            let c = contains_str(source, self.breakpoints[i].0.source.as_str());
            proof {
                assert(entries[i as int].0.source == self.breakpoints@[i as int].0.source@);
                assert(keep(entries[i as int]) == !spec_contains(source@, entries[i as int].0.source));
                assert(c == spec_contains(source@, self.breakpoints@[i as int].0.source@));
                assert(keep(entries[i as int]) == !c);
            }
            if !c {
                let e = (self.breakpoints[i].0.duplicate(), self.breakpoints[i].1);
                kept.push(e);
                proof {
                    idx = idx.push(i as int);
                    assert(kept@.map_values(|e: (Breakpoint, usize)| (e.0@, e.1)) =~= before.push(entries[i as int]));
                }
            } else {
                proof {
                    assert(kept@.map_values(|e: (Breakpoint, usize)| (e.0@, e.1)) =~= before);
                }
            }
            i = i + 1;
        }
        proof {
            assert(entries.take(n as int) =~= entries);
        }
        self.breakpoints = kept;
        proof {
            let f = self@.entries;
            assert(f == entries.filter(keep));
            assert forall|p: int, q: int|
                0 <= p < f.len() && 0 <= q < f.len() && p != q implies (#[trigger] f[p]).0 != (#[trigger] f[q]).0
                    && f[p].1 != f[q].1 by {
                if p < q {
                    assert(idx[p] < idx[q]);
                } else {
                    assert(idx[q] < idx[p]);
                }
                assert(f[p] == entries[idx[p]]);
                assert(f[q] == entries[idx[q]]);
            }
            assert forall|p: int| 0 <= p < f.len() implies 1 <= (#[trigger] f[p]).1 < self@.next_id by {
                assert(f[p] == entries[idx[p]]);
            }
        }
    }
}

impl Default for Breakpoints {
    fn default() -> (b: Breakpoints)
        ensures
            b@.next_id == 1,
            b@.entries == Seq::<(BreakpointView, usize)>::empty(),
            b@.wf(),
    {
        Breakpoints::new()
    }
}

} // verus!
