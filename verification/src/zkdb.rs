use vstd::prelude::*;

use crate::breakpoint::{Breakpoint, BreakpointView, Breakpoints, BreakpointsView, spec_cleared, spec_find_entry};
use crate::config::Config;
use crate::constraint::{Constraint, ConstraintView};
use crate::decoder::{CircuitDescription, CircuitDescriptionView, spec_parse};
use crate::error::Error;
use crate::preamble::Preamble;
use crate::text::str_eq;
use crate::witness::Witness;
use crate::element::decoded_value;

verus! {

/// State describing a mutation of the zk debugger.
#[derive(Debug, Clone, Copy, PartialEq, Eq, Hash, Structural)]
pub enum State {
    /// Beginning of the circuit: the position is constant `0`.
    Beginning,
    /// Moved the position to a different constraint.
    Constraint {
        /// Id of the constraint.
        id: usize,
    },
    /// Hit a constraint that evaluated to false.
    InvalidConstraint {
        /// Id of the constraint.
        id: usize,
    },
    /// Hit a breakpoint.
    Breakpoint {
        /// Id of the breakpoint.
        id: usize,
    },
    /// End of the circuit.
    End {
        /// Id of the last constraint.
        id: usize,
    },
}

/// What a debugging front end reports after a move of the debugger.
#[derive(Debug, Clone, Copy, PartialEq, Eq, Hash, Structural)]
pub enum Report {
    /// The debugger stopped after a step.
    Step,
    /// The debugger stopped at the breakpoint with this id.
    Breakpoint {
        /// Id of the breakpoint.
        id: usize,
    },
    /// The session ends with this exit code.
    Terminate {
        /// Exit code of the session.
        exit_code: u64,
    },
}

impl State {
    /// What a front end reports for this state: a stop after a step at the beginning or at a
    /// constraint, a stop at a hit breakpoint, and the end of the session at the end, with a
    /// failure at an invalid constraint.
    pub fn report(&self) -> (r: Report)
        ensures
            r == match *self {
                State::Beginning => Report::Step,
                State::Constraint { .. } => Report::Step,
                State::InvalidConstraint { .. } => Report::Terminate { exit_code: 1 },
                State::Breakpoint { id } => Report::Breakpoint { id },
                State::End { .. } => Report::Terminate { exit_code: 0 },
            },
    {
        match self {
            State::Beginning => Report::Step,
            State::Constraint { .. } => Report::Step,
            State::InvalidConstraint { .. } => Report::Terminate { exit_code: 1 },
            State::Breakpoint { id } => Report::Breakpoint { id: *id },
            State::End { .. } => Report::Terminate { exit_code: 0 },
        }
    }
}

/// Model of the debugger.
pub struct ZkDebuggerView {
    /// Breakpoints set by the user.
    pub breakpoints: BreakpointsView,
    /// The circuit being debugged.
    pub cdf: CircuitDescriptionView,
    /// Position: index of the current constraint.
    pub constraint: usize,
}

/// The constraint `c` stands at another source or line than `source` and `line`.
pub open spec fn spec_other_line(c: ConstraintView, source: Seq<char>, line: u64) -> bool {
    c.source.name != source || c.source.line != line
}

/// Index of the last constraint of a circuit with `constraints` constraints; `0` if it has none.
pub open spec fn spec_eof(constraints: usize) -> int {
    if constraints == 0 {
        0
    } else {
        constraints - 1
    }
}

impl ZkDebuggerView {
    /// The position is a constraint of the circuit, or its beginning.
    pub open spec fn wf(&self) -> bool {
        &&& self.breakpoints.wf()
        &&& (self.constraint == 0 || self.constraint < self.cdf.preamble.constraints)
    }

    /// Index of the last constraint.
    pub open spec fn eof(&self) -> int {
        spec_eof(self.cdf.preamble.constraints)
    }

    /// Outcome of a forward scan that examines the constraint at `idx` and those after it,
    /// leaving the constraints at `line` of `source`: the state reached and the new position.
    /// A scan that stops at the first other line (a step) returns there; one that does not (a
    /// continue) stops only at an invalid constraint, a breakpoint or the end.
    pub open spec fn spec_forward(&self, source: Seq<char>, line: u64, idx: int, stop: bool) -> Result<(State, usize), Error>
        decreases self.eof() - idx,
    {
        if idx < 0 || idx > self.eof() {
            Err(Error::InvalidConstraint)
        } else {
            match self.cdf.spec_fetch_constraint(idx) {
                Err(e) => Err(e),
                Ok(c) => {
                    let other = spec_other_line(c, source, line);
                    if other && !c.polynomial.evaluation {
                        Ok((State::InvalidConstraint { id: idx as usize }, idx as usize))
                    } else if idx == self.eof() {
                        Ok((State::End { id: idx as usize }, idx as usize))
                    } else if other && spec_find_entry(self.breakpoints.entries, c.source.name, c.source.line) is Some {
                        Ok((
                            State::Breakpoint {
                                id: spec_find_entry(self.breakpoints.entries, c.source.name, c.source.line)->Some_0,
                            },
                            idx as usize,
                        ))
                    } else if other && stop {
                        Ok((State::Constraint { id: idx as usize }, idx as usize))
                    } else {
                        self.spec_forward(source, line, idx + 1, stop)
                    }
                },
            }
        }
    }

    /// Outcome of a backward scan that examines the constraint at `idx` and those before it,
    /// leaving the constraints at `line` of `source`; the beginning is reached at index `0`.
    pub open spec fn spec_backward(&self, source: Seq<char>, line: u64, idx: int, stop: bool) -> Result<(State, usize), Error>
        decreases idx,
    {
        if idx <= 0 {
            Ok((State::Beginning, 0))
        } else {
            match self.cdf.spec_fetch_constraint(idx) {
                Err(e) => Err(e),
                Ok(c) => {
                    let other = spec_other_line(c, source, line);
                    if other && !c.polynomial.evaluation {
                        Ok((State::InvalidConstraint { id: idx as usize }, idx as usize))
                    } else if other && spec_find_entry(self.breakpoints.entries, c.source.name, c.source.line) is Some {
                        Ok((
                            State::Breakpoint {
                                id: spec_find_entry(self.breakpoints.entries, c.source.name, c.source.line)->Some_0,
                            },
                            idx as usize,
                        ))
                    } else if other && stop {
                        Ok((State::Constraint { id: idx as usize }, idx as usize))
                    } else {
                        self.spec_backward(source, line, idx - 1, stop)
                    }
                },
            }
        }
    }

    /// Outcome of moving forward from the current position: to the next source line when
    /// `stop` holds, else until the end, a breakpoint or an invalid constraint.
    pub open spec fn spec_next(&self, stop: bool) -> Result<(State, usize), Error> {
        let idx = self.constraint as int;
        if idx == self.eof() {
            Ok((State::End { id: self.constraint }, self.constraint))
        } else {
            match self.cdf.spec_fetch_constraint(idx) {
                Err(e) => Err(e),
                Ok(c) => self.spec_forward(c.source.name, c.source.line, idx + 1, stop),
            }
        }
    }

    /// Outcome of moving backward from the current position: to the previous source line
    /// when `stop` holds, else until the beginning, a breakpoint or an invalid constraint.
    pub open spec fn spec_prev(&self, stop: bool) -> Result<(State, usize), Error> {
        let idx = self.constraint as int;
        if idx == 0 {
            Ok((State::Beginning, 0))
        } else {
            match self.cdf.spec_fetch_constraint(idx) {
                Err(e) => Err(e),
                Ok(c) => self.spec_backward(c.source.name, c.source.line, idx - 1, stop),
            }
        }
    }

    /// A scan that leaves `line` of `source` passes over the constraint at `k`: it reads, and
    /// stands at that line, or, when the scan doesn't stop at the first other line, it is a
    /// valid constraint of another line where no breakpoint triggers.
    pub open spec fn spec_passed(&self, source: Seq<char>, line: u64, k: int, stop: bool) -> bool {
        match self.cdf.spec_fetch_constraint(k) {
            Ok(c) => !spec_other_line(c, source, line) || (!stop && c.polynomial.evaluation && spec_find_entry(
                self.breakpoints.entries,
                c.source.name,
                c.source.line,
            ) is None),
            Err(_) => false,
        }
    }

    /// The state `s` is what a scan leaving `line` of `source` reports when it stops at the
    /// constraint at `q`: an invalid constraint of another line; the last constraint, when
    /// going forward; a valid constraint of another line where a breakpoint triggers, with
    /// that breakpoint's id; or, for a scan that stops at the first other line, a valid
    /// constraint of another line where no breakpoint triggers.
    pub open spec fn spec_stop_at(&self, source: Seq<char>, line: u64, q: int, s: State, stop: bool, forward: bool) -> bool {
        match self.cdf.spec_fetch_constraint(q) {
            Err(_) => false,
            Ok(c) => {
                let other = spec_other_line(c, source, line);
                let valid = c.polynomial.evaluation;
                let bp = spec_find_entry(self.breakpoints.entries, c.source.name, c.source.line);
                let before_end = !forward || q < self.eof();
                match s {
                    State::InvalidConstraint { id } => id == q && other && !valid,
                    State::End { id } => forward && id == q && q == self.eof() && !(other && !valid),
                    State::Breakpoint { id } => before_end && other && valid && bp == Some(id),
                    State::Constraint { id } => stop && id == q && before_end && other && valid && bp is None,
                    State::Beginning => false,
                }
            },
        }
    }

    /// Outcome of jumping to the constraint at `idx`.
    pub open spec fn spec_goto(&self, idx: usize) -> Result<(State, usize), Error> {
        if idx == 0 {
            Ok((State::Beginning, 0))
        } else {
            match self.cdf.spec_fetch_constraint(idx as int) {
                Err(e) => Err(e),
                Ok(c) => if !c.polynomial.evaluation {
                    Ok((State::InvalidConstraint { id: idx }, idx))
                } else if idx == self.eof() {
                    Ok((State::End { id: idx }, idx))
                } else {
                    Ok((State::Constraint { id: idx }, idx))
                },
            }
        }
    }
}

/// A forward scan from `idx` stops at a constraint `q` at or after `idx`, as
/// [`ZkDebuggerView::spec_stop_at`] describes, having passed over every constraint between.
proof fn lemma_forward(v: ZkDebuggerView, source: Seq<char>, line: u64, idx: int, stop: bool)
    requires
        idx >= 0,
    ensures
        match v.spec_forward(source, line, idx, stop) {
            Ok((s, q)) => {
                &&& idx <= q <= v.eof()
                &&& v.spec_stop_at(source, line, q as int, s, stop, true)
                &&& forall|k: int| idx <= k < q ==> v.spec_passed(source, line, k, stop)
            },
            Err(_) => true,
        },
    decreases v.eof() - idx,
{
    if idx <= v.eof() {
        match v.cdf.spec_fetch_constraint(idx) {
            Err(_) => {},
            Ok(c) => {
                let other = spec_other_line(c, source, line);
                if other && !c.polynomial.evaluation {
                } else if idx == v.eof() {
                } else if other && spec_find_entry(v.breakpoints.entries, c.source.name, c.source.line) is Some {
                } else if other && stop {
                } else {
                    lemma_forward(v, source, line, idx + 1, stop);
                    assert(v.spec_passed(source, line, idx, stop));
                }
            },
        }
    }
}

/// A backward scan from `idx` stops at a constraint `q` after zero and at or before `idx`,
/// as [`ZkDebuggerView::spec_stop_at`] describes, or reaches the beginning, having passed
/// over every constraint between.
proof fn lemma_backward(v: ZkDebuggerView, source: Seq<char>, line: u64, idx: int, stop: bool)
    ensures
        match v.spec_backward(source, line, idx, stop) {
            Ok((s, q)) => {
                &&& q <= if idx < 0 { 0 } else { idx }
                &&& (s == State::Beginning && q == 0) || (0 < q && v.spec_stop_at(source, line, q as int, s, stop, false))
                &&& forall|k: int| q < k <= idx ==> v.spec_passed(source, line, k, stop)
            },
            Err(_) => true,
        },
    decreases idx,
{
    if idx > 0 {
        match v.cdf.spec_fetch_constraint(idx) {
            Err(_) => {},
            Ok(c) => {
                let other = spec_other_line(c, source, line);
                if other && !c.polynomial.evaluation {
                } else if other && spec_find_entry(v.breakpoints.entries, c.source.name, c.source.line) is Some {
                } else if other && stop {
                } else {
                    lemma_backward(v, source, line, idx - 1, stop);
                    assert(v.spec_passed(source, line, idx, stop));
                }
            },
        }
    }
}

/// Moving forward (a step when `stop` holds, else a continue) from the last constraint stays
/// there at the end. From elsewhere it reaches a later constraint `q`, as
/// [`ZkDebuggerView::spec_stop_at`] describes for the line of the current constraint: every
/// constraint between stands at that line, or, for a continue, is valid and triggers no
/// breakpoint.
pub proof fn lemma_next(v: ZkDebuggerView, stop: bool)
    ensures
        match v.spec_next(stop) {
            Ok((s, q)) => if v.constraint == v.eof() {
                s == (State::End { id: v.constraint }) && q == v.constraint
            } else {
                let c0 = v.cdf.spec_fetch_constraint(v.constraint as int)->Ok_0;
                &&& v.constraint < q <= v.eof()
                &&& v.spec_stop_at(c0.source.name, c0.source.line, q as int, s, stop, true)
                &&& forall|k: int|
                    v.constraint < k < q ==> v.spec_passed(c0.source.name, c0.source.line, k, stop)
            },
            Err(_) => true,
        },
{
    if v.constraint != v.eof() {
        match v.cdf.spec_fetch_constraint(v.constraint as int) {
            Ok(c0) => lemma_forward(v, c0.source.name, c0.source.line, v.constraint + 1, stop),
            Err(_) => {},
        }
    }
}

/// Moving backward (a step back when `stop` holds, else a reverse continue) from the
/// beginning stays there. From elsewhere it reaches an earlier position `q`: the beginning,
/// or a constraint as [`ZkDebuggerView::spec_stop_at`] describes for the line of the current
/// constraint; every constraint between stands at that line, or, for a reverse continue, is
/// valid and triggers no breakpoint. It never reports the end.
pub proof fn lemma_prev(v: ZkDebuggerView, stop: bool)
    ensures
        match v.spec_prev(stop) {
            Ok((s, q)) => if v.constraint == 0 {
                s == State::Beginning && q == 0
            } else {
                let c0 = v.cdf.spec_fetch_constraint(v.constraint as int)->Ok_0;
                &&& q < v.constraint
                &&& (s == State::Beginning && q == 0) || (0 < q && v.spec_stop_at(
                    c0.source.name,
                    c0.source.line,
                    q as int,
                    s,
                    stop,
                    false,
                ))
                &&& forall|k: int|
                    q < k < v.constraint ==> v.spec_passed(c0.source.name, c0.source.line, k, stop)
            },
            Err(_) => true,
        },
{
    if v.constraint != 0 {
        match v.cdf.spec_fetch_constraint(v.constraint as int) {
            Ok(c0) => lemma_backward(v, c0.source.name, c0.source.line, v.constraint - 1, stop),
            Err(_) => {},
        }
    }
}

/// The move from `old` to `new` that returned `r` is the one that `outcome` describes: on
/// success the state is returned and the position moved; on failure the error is returned and
/// the position kept. The breakpoints and the circuit stay as they were.
pub open spec fn spec_moved(
    old: ZkDebuggerView,
    new: ZkDebuggerView,
    outcome: Result<(State, usize), Error>,
    r: Result<State, Error>,
) -> bool {
    &&& new.breakpoints == old.breakpoints
    &&& new.cdf == old.cdf
    &&& match outcome {
        Ok((s, pos)) => r == Ok::<State, Error>(s) && new.constraint == pos,
        Err(e) => r == Err::<State, Error>(e) && new.constraint == old.constraint,
    }
}

/// Every constraint of the circuit of `v` reads.
pub open spec fn spec_all_read(v: ZkDebuggerView) -> bool {
    forall|k: int| 0 <= k < v.cdf.preamble.constraints ==> (#[trigger] v.cdf.spec_fetch_constraint(k)) is Ok
}

/// A forward scan from a constraint of a circuit whose constraints all read never fails.
proof fn lemma_forward_ok(v: ZkDebuggerView, source: Seq<char>, line: u64, idx: int, stop: bool)
    requires
        0 <= idx <= v.eof(),
        v.eof() < v.cdf.preamble.constraints,
        spec_all_read(v),
    ensures
        v.spec_forward(source, line, idx, stop) is Ok,
    decreases v.eof() - idx,
{
    assert(v.cdf.spec_fetch_constraint(idx) is Ok);
    if idx < v.eof() {
        lemma_forward_ok(v, source, line, idx + 1, stop);
    }
}

/// A backward scan from a constraint of a circuit whose constraints all read never fails.
proof fn lemma_backward_ok(v: ZkDebuggerView, source: Seq<char>, line: u64, idx: int, stop: bool)
    requires
        idx < v.cdf.preamble.constraints,
        spec_all_read(v),
    ensures
        v.spec_backward(source, line, idx, stop) is Ok,
    decreases idx,
{
    if idx > 0 {
        assert(v.cdf.spec_fetch_constraint(idx) is Ok);
        lemma_backward_ok(v, source, line, idx - 1, stop);
    }
}

/// Moving forward (a step when `stop` holds, else a continue) from a position of the circuit
/// never fails when every constraint of the circuit reads.
pub proof fn lemma_next_succeeds(v: ZkDebuggerView, stop: bool)
    requires
        v.constraint == 0 || v.constraint < v.cdf.preamble.constraints,
        spec_all_read(v),
    ensures
        v.spec_next(stop) is Ok,
{
    if v.constraint != v.eof() {
        assert(v.cdf.preamble.constraints > 0);
        assert(v.cdf.spec_fetch_constraint(v.constraint as int) is Ok);
        let c0 = v.cdf.spec_fetch_constraint(v.constraint as int)->Ok_0;
        lemma_forward_ok(v, c0.source.name, c0.source.line, v.constraint + 1, stop);
    }
}

/// Moving backward (a step back when `stop` holds, else a reverse continue) from a position
/// of the circuit never fails when every constraint of the circuit reads.
pub proof fn lemma_prev_succeeds(v: ZkDebuggerView, stop: bool)
    requires
        v.constraint == 0 || v.constraint < v.cdf.preamble.constraints,
        spec_all_read(v),
    ensures
        v.spec_prev(stop) is Ok,
{
    if v.constraint != 0 {
        assert(v.cdf.spec_fetch_constraint(v.constraint as int) is Ok);
        let c0 = v.cdf.spec_fetch_constraint(v.constraint as int)->Ok_0;
        lemma_backward_ok(v, c0.source.name, c0.source.line, v.constraint - 1, stop);
    }
}

/// Moving forward from a position of a circuit whose constraints all read stops at the first
/// later constraint `q` before the last one that stands at another line than the current
/// constraint, is valid and triggers the breakpoint `id`, when every constraint between is
/// passed over (it stands at the current line, or, for a continue, is valid and triggers no
/// breakpoint): the move reports that breakpoint and moves the position to `q`.
pub proof fn lemma_next_stops_at_breakpoint(v: ZkDebuggerView, stop: bool, q: int, id: usize)
    requires
        v.constraint < q < v.eof(),
        v.constraint == 0 || v.constraint < v.cdf.preamble.constraints,
        spec_all_read(v),
        ({
            let c0 = v.cdf.spec_fetch_constraint(v.constraint as int)->Ok_0;
            let c = v.cdf.spec_fetch_constraint(q)->Ok_0;
            &&& spec_other_line(c, c0.source.name, c0.source.line)
            &&& c.polynomial.evaluation
            &&& spec_find_entry(v.breakpoints.entries, c.source.name, c.source.line) == Some(id)
            &&& forall|k: int| v.constraint < k < q ==> v.spec_passed(c0.source.name, c0.source.line, k, stop)
        }),
    ensures
        v.spec_next(stop) == Ok::<(State, usize), Error>((State::Breakpoint { id }, q as usize)),
{
    lemma_next_succeeds(v, stop);
    lemma_next(v, stop);
    let c0 = v.cdf.spec_fetch_constraint(v.constraint as int)->Ok_0;
    let (s, r) = v.spec_next(stop)->Ok_0;
    assert(v.cdf.spec_fetch_constraint(q) is Ok);
    if r > q {
        assert(v.spec_passed(c0.source.name, c0.source.line, q, stop));
    } else if r < q {
        assert(v.spec_passed(c0.source.name, c0.source.line, r as int, stop));
        assert(v.spec_stop_at(c0.source.name, c0.source.line, r as int, s, stop, true));
    }
    assert(r == q);
}

/// Moving backward from a position of a circuit whose constraints all read stops at the
/// first earlier constraint `q` after the beginning that stands at another line than the
/// current constraint, is valid and triggers the breakpoint `id`, when every constraint
/// between is passed over: the move reports that breakpoint and moves the position to `q`.
pub proof fn lemma_prev_stops_at_breakpoint(v: ZkDebuggerView, stop: bool, q: int, id: usize)
    requires
        0 < q < v.constraint,
        v.constraint < v.cdf.preamble.constraints,
        spec_all_read(v),
        ({
            let c0 = v.cdf.spec_fetch_constraint(v.constraint as int)->Ok_0;
            let c = v.cdf.spec_fetch_constraint(q)->Ok_0;
            &&& spec_other_line(c, c0.source.name, c0.source.line)
            &&& c.polynomial.evaluation
            &&& spec_find_entry(v.breakpoints.entries, c.source.name, c.source.line) == Some(id)
            &&& forall|k: int| q < k < v.constraint ==> v.spec_passed(c0.source.name, c0.source.line, k, stop)
        }),
    ensures
        v.spec_prev(stop) == Ok::<(State, usize), Error>((State::Breakpoint { id }, q as usize)),
{
    lemma_prev_succeeds(v, stop);
    lemma_prev(v, stop);
    let c0 = v.cdf.spec_fetch_constraint(v.constraint as int)->Ok_0;
    let (s, r) = v.spec_prev(stop)->Ok_0;
    assert(v.cdf.spec_fetch_constraint(q) is Ok);
    if r < q {
        assert(v.spec_passed(c0.source.name, c0.source.line, q, stop));
    } else if r > q {
        assert(v.spec_passed(c0.source.name, c0.source.line, r as int, stop));
        assert(v.spec_stop_at(c0.source.name, c0.source.line, r as int, s, stop, false));
    }
    assert(r == q);
}

/// A jump to a constraint moves the position to exactly that index and reports it: the
/// beginning at `0`; elsewhere it succeeds exactly when the constraint reads, and reports an
/// invalid constraint when it evaluates to false, the end at the last constraint, and the
/// constraint otherwise, each with the index as id.
pub proof fn lemma_goto_moves(v: ZkDebuggerView, idx: usize)
    ensures
        v.spec_goto(idx) is Ok <==> (idx == 0 || v.cdf.spec_fetch_constraint(idx as int) is Ok),
        v.spec_goto(idx) matches Ok((s, pos)) ==> pos == idx && if idx == 0 {
            s == State::Beginning
        } else {
            let c = v.cdf.spec_fetch_constraint(idx as int)->Ok_0;
            match s {
                State::InvalidConstraint { id } => id == idx && !c.polynomial.evaluation,
                State::End { id } => id == idx && idx == v.eof() && c.polynomial.evaluation,
                State::Constraint { id } => id == idx && idx != v.eof() && c.polynomial.evaluation,
                _ => false,
            }
        },
        v.spec_goto(idx) matches Err(e) ==> idx != 0 && v.cdf.spec_fetch_constraint(idx as int) == Err::<ConstraintView, Error>(e),
{
}

/// A call that changes a debugger: a move of the position, or a change of the breakpoints.
pub enum DebuggerCall {
    /// [`ZkDebugger::step`].
    Step,
    /// [`ZkDebugger::afore`].
    Afore,
    /// [`ZkDebugger::cont`].
    Cont,
    /// [`ZkDebugger::turn`].
    Turn,
    /// [`ZkDebugger::goto`] with the index.
    Goto(usize),
    /// [`ZkDebugger::add_breakpoint`] with the breakpoint.
    AddBreakpoint(BreakpointView),
    /// [`ZkDebugger::remove_breakpoint`] with the id.
    RemoveBreakpoint(usize),
    /// [`ZkDebugger::clear_breakpoints`] with the source.
    ClearBreakpoints(Seq<char>),
}

/// The position of `new` is the one that `outcome` gives from `old`, and the breakpoints and
/// the circuit are those of `old`.
pub open spec fn spec_moved_to(old: ZkDebuggerView, new: ZkDebuggerView, outcome: Result<(State, usize), Error>) -> bool {
    &&& new.breakpoints == old.breakpoints
    &&& new.cdf == old.cdf
    &&& new.constraint == match outcome {
        Ok((_, pos)) => pos,
        Err(_) => old.constraint,
    }
}

/// `new` is what the call `call` leaves of the debugger `old`, whatever the call returned.
pub open spec fn spec_call(old: ZkDebuggerView, call: DebuggerCall, new: ZkDebuggerView) -> bool {
    match call {
        DebuggerCall::Step => spec_moved_to(old, new, old.spec_next(true)),
        DebuggerCall::Afore => spec_moved_to(old, new, old.spec_prev(true)),
        DebuggerCall::Cont => spec_moved_to(old, new, old.spec_next(false)),
        DebuggerCall::Turn => spec_moved_to(old, new, old.spec_prev(false)),
        DebuggerCall::Goto(idx) => spec_moved_to(old, new, old.spec_goto(idx)),
        DebuggerCall::AddBreakpoint(bp) => {
            &&& new.cdf == old.cdf
            &&& new.constraint == old.constraint
            &&& new.breakpoints == old.breakpoints.spec_add(bp).0
        },
        DebuggerCall::RemoveBreakpoint(id) => {
            &&& new.cdf == old.cdf
            &&& new.constraint == old.constraint
            &&& new.breakpoints == old.breakpoints.spec_remove(id).0
        },
        DebuggerCall::ClearBreakpoints(source) => {
            &&& new.cdf == old.cdf
            &&& new.constraint == old.constraint
            &&& new.breakpoints.next_id == old.breakpoints.next_id
            &&& new.breakpoints.entries == spec_cleared(old.breakpoints.entries, source)
        },
    }
}

/// A move that returned `r` as `outcome` describes is a call that left the debugger as it
/// stands.
pub proof fn lemma_moved_is_call(old: ZkDebuggerView, new: ZkDebuggerView, outcome: Result<(State, usize), Error>, r: Result<State, Error>)
    requires
        spec_moved(old, new, outcome, r),
    ensures
        spec_moved_to(old, new, outcome),
{
}

/// The circuit, and so the preamble and the configuration, stay the same over any sequence
/// of calls on a debugger, whether each returned a value or an error: `states[i + 1]` is what
/// `calls[i]` left of `states[i]`.
pub proof fn lemma_calls_keep_circuit(states: Seq<ZkDebuggerView>, calls: Seq<DebuggerCall>)
    requires
        states.len() == calls.len() + 1,
        forall|i: int| 0 <= i < calls.len() ==> spec_call(states[i], #[trigger] calls[i], states[i + 1]),
    ensures
        forall|i: int| 0 <= i < states.len() ==> (#[trigger] states[i]).cdf == states[0].cdf,
        forall|i: int| 0 <= i < states.len() ==> (#[trigger] states[i]).cdf.preamble == states[0].cdf.preamble,
    decreases calls.len(),
{
    if calls.len() > 0 {
        let n = calls.len() - 1;
        lemma_calls_keep_circuit(states.drop_last(), calls.drop_last());
        assert forall|i: int| 0 <= i < states.len() implies (#[trigger] states[i]).cdf == states[0].cdf by {
            if i < states.len() - 1 {
                assert(states.drop_last()[i] == states[i]);
            } else {
                assert(spec_call(states[n], calls[n], states[n + 1]));
                assert(states.drop_last()[n] == states[n]);
                assert(states[n].cdf == states[0].cdf);
            }
        }
    }
}

/// The Zk Debugger: it keeps track of breakpoints and of the circuit description, and of the
/// position in the circuit.
///
/// The operations on the position return a [`State`] which tells where the debugger stands.
#[derive(Debug)]
pub struct ZkDebugger {
    breakpoints: Breakpoints,
    cdf: CircuitDescription,
    constraint: usize,
}

impl View for ZkDebugger {
    type V = ZkDebuggerView;

    closed spec fn view(&self) -> ZkDebuggerView {
        ZkDebuggerView { breakpoints: self.breakpoints@, cdf: self.cdf@, constraint: self.constraint }
    }
}

impl ZkDebugger {
    #[verifier::type_invariant]
    closed spec fn inv(&self) -> bool {
        self@.wf()
    }

    /// Create a debugger for a circuit description, at its beginning and with no breakpoints.
    pub fn from(cdf: CircuitDescription) -> (d: ZkDebugger)
        ensures
            d@.cdf == cdf@,
            d@.constraint == 0,
            d@.breakpoints.next_id == 1,
            d@.breakpoints.entries == Seq::<(BreakpointView, usize)>::empty(),
    {
        ZkDebugger { breakpoints: Breakpoints::new(), cdf, constraint: 0 }
    }

    /// Configuration of the CDF file.
    pub fn config(&self) -> (c: &Config)
        ensures
            *c == self@.cdf.preamble.config,
    {
        &self.cdf.preamble().config
    }

    /// Preamble for the CDF file.
    pub fn preamble(&self) -> (p: &Preamble)
        ensures
            *p == self@.cdf.preamble,
    {
        self.cdf.preamble()
    }

    /// The circuit description being debugged.
    pub fn circuit(&self) -> (c: &CircuitDescription)
        ensures
            c@ == self@.cdf,
    {
        &self.cdf
    }

    /// Index of the current constraint.
    pub fn position(&self) -> (p: usize)
        ensures
            p == self@.constraint,
    {
        self.constraint
    }

    /// Add a breakpoint to the provided source/line, returning its id.
    ///
    /// If `line` is `None`, the breakpoint is triggered at any line of `source`.
    pub fn add_breakpoint(&mut self, source: String, line: Option<u64>) -> (id: usize)
        requires
            old(self)@.breakpoints.next_id < usize::MAX || old(self)@.breakpoints.has(BreakpointView { source: source@, line }),
        ensures
            final(self)@.cdf == old(self)@.cdf,
            final(self)@.constraint == old(self)@.constraint,
            (final(self)@.breakpoints, id) == old(self)@.breakpoints.spec_add(BreakpointView { source: source@, line }),
    {
        proof {
            use_type_invariant(&*self);
        }
        let mut bps = Breakpoints::new();
        std::mem::swap(&mut self.breakpoints, &mut bps);
        let id = bps.add(source, line);
        std::mem::swap(&mut self.breakpoints, &mut bps);
        id
    }

    /// Remove the breakpoint with the provided id, returning it; `None` if no breakpoint has it.
    pub fn remove_breakpoint(&mut self, id: usize) -> (removed: Option<Breakpoint>)
        ensures
            final(self)@.cdf == old(self)@.cdf,
            final(self)@.constraint == old(self)@.constraint,
            final(self)@.breakpoints == old(self)@.breakpoints.spec_remove(id).0,
            match removed {
                Some(b) => old(self)@.breakpoints.spec_remove(id).1 == Some(b@),
                None => old(self)@.breakpoints.spec_remove(id).1 is None,
            },
    {
        proof {
            use_type_invariant(&*self);
        }
        let mut bps = Breakpoints::new();
        std::mem::swap(&mut self.breakpoints, &mut bps);
        let removed = bps.remove(id);
        std::mem::swap(&mut self.breakpoints, &mut bps);
        removed
    }

    /// Fetch a breakpoint from an id returned from `add_breakpoint`.
    pub fn fetch_breakpoint(&self, id: usize) -> (b: Option<&Breakpoint>)
        ensures
            b is Some <==> self@.breakpoints.has_id(id),
            b is Some ==> b.unwrap()@ == self@.breakpoints.with_id(id),
    {
        proof {
            use_type_invariant(self);
        }
        self.breakpoints.find_breakpoint_from_id(id)
    }

    /// Underlying breakpoints repository.
    pub fn breakpoints(&self) -> (b: &Breakpoints)
        ensures
            b@ == self@.breakpoints,
            b@.wf(),
    {
        proof {
            use_type_invariant(self);
        }
        &self.breakpoints
    }

    /// Remove all breakpoints whose source pattern occurs in `source`.
    pub fn clear_breakpoints(&mut self, source: &str)
        ensures
            final(self)@.cdf == old(self)@.cdf,
            final(self)@.constraint == old(self)@.constraint,
            final(self)@.breakpoints.next_id == old(self)@.breakpoints.next_id,
            final(self)@.breakpoints.entries == spec_cleared(old(self)@.breakpoints.entries, source@),
    {
        proof {
            use_type_invariant(&*self);
        }
        let mut bps = Breakpoints::new();
        std::mem::swap(&mut self.breakpoints, &mut bps);
        bps.clear(source);
        std::mem::swap(&mut self.breakpoints, &mut bps);
    }

    /// Read a circuit description from the bytes of a file and use it as backend for the
    /// debugger.
    pub fn from_reader(source: Vec<u8>) -> (r: Result<ZkDebugger, Error>)
        ensures
            match spec_parse(source@) {
                Ok(v) => r is Ok && r.unwrap()@ == (ZkDebuggerView {
                    breakpoints: BreakpointsView { next_id: 1, entries: Seq::empty() },
                    cdf: v,
                    constraint: 0,
                }),
                Err(e) => r is Err && r->Err_0 == e,
            },
    {
        match CircuitDescription::from_reader(source) {
            Ok(cdf) => {
                let d = ZkDebugger::from(cdf);
                assert(d@.breakpoints =~= BreakpointsView { next_id: 1, entries: Seq::empty() });
                Ok(d)
            },
            Err(e) => Err(e),
        }
    }

    /// Attempt to fetch the current constraint.
    pub fn fetch_current_constraint(&self) -> (r: Result<Constraint, Error>)
        ensures
            decoded_value(self@.cdf.spec_fetch_constraint(self@.constraint as int), r),
    {
        self.cdf.fetch_constraint(self.constraint)
    }

    /// Attempt to read an indexed constraint.
    pub fn fetch_constraint(&self, idx: usize) -> (r: Result<Constraint, Error>)
        ensures
            decoded_value(self@.cdf.spec_fetch_constraint(idx as int), r),
    {
        self.cdf.fetch_constraint(idx)
    }

    /// Attempt to read an indexed witness.
    pub fn fetch_witness(&self, idx: usize) -> (r: Result<Witness, Error>)
        ensures
            decoded_value(self@.cdf.spec_fetch_witness(idx as int), r),
    {
        self.cdf.fetch_witness(idx)
    }

    /// Scan forward from the constraint after `start`, leaving the source line of `first`.
    fn scan_forward(&self, first: &Constraint, start: usize, stop: bool) -> (r: Result<(State, usize), Error>)
        requires
            self@.wf(),
            (start as int) < self@.eof(),
        ensures
            r == self@.spec_forward(first.deep_view().source.name, first.deep_view().source.line, start + 1, stop),
            r is Ok ==> r.unwrap().1 < self@.cdf.preamble.constraints,
    {
        let ghost source = first.deep_view().source.name;
        let ghost line = first.deep_view().source.line;
        let eof = self.cdf.preamble().constraints.saturating_sub(1);
        let mut idx: usize = start + 1;
        while true
            invariant
                self@.wf(),
                eof == self@.eof(),
                start < idx <= eof,
                source == first.deep_view().source.name,
                line == first.deep_view().source.line,
                self@.spec_forward(source, line, start + 1, stop) == self@.spec_forward(source, line, idx as int, stop),
            decreases eof - idx,
        {
            let current = match self.cdf.fetch_constraint(idx) {
                Ok(c) => c,
                Err(e) => return Err(e),
            };
            let is_invalid = !current.polynomial().is_ok();
            let other = !(str_eq(first.name(), current.name()) && first.line() == current.line());
            if other && is_invalid {
                return Ok((State::InvalidConstraint { id: idx }, idx));
            }
            if idx == eof {
                return Ok((State::End { id: idx }, idx));
            }
            if other {
                match self.breakpoints.find_breakpoint(&current) {
                    Some(id) => return Ok((State::Breakpoint { id }, idx)),
                    None => {},
                }
                if stop {
                    return Ok((State::Constraint { id: idx }, idx));
                }
            }
            idx = idx + 1;
        }
        Err(Error::InvalidConstraint)
    }

    /// Scan backward from the constraint before `start`, leaving the source line of `first`.
    fn scan_backward(&self, first: &Constraint, start: usize, stop: bool) -> (r: Result<(State, usize), Error>)
        requires
            self@.wf(),
            start > 0,
        ensures
            r == self@.spec_backward(first.deep_view().source.name, first.deep_view().source.line, start - 1, stop),
            r is Ok ==> r.unwrap().1 == 0 || r.unwrap().1 < self@.cdf.preamble.constraints,
    {
        let ghost source = first.deep_view().source.name;
        let ghost line = first.deep_view().source.line;
        let mut idx: usize = start - 1;
        while idx > 0
            invariant
                self@.wf(),
                idx < start,
                source == first.deep_view().source.name,
                line == first.deep_view().source.line,
                self@.spec_backward(source, line, start - 1, stop) == self@.spec_backward(source, line, idx as int, stop),
            decreases idx,
        {
            let current = match self.cdf.fetch_constraint(idx) {
                Ok(c) => c,
                Err(e) => return Err(e),
            };
            let is_invalid = !current.polynomial().is_ok();
            let other = !(str_eq(first.name(), current.name()) && first.line() == current.line());
            if other && is_invalid {
                return Ok((State::InvalidConstraint { id: idx }, idx));
            }
            if other {
                match self.breakpoints.find_breakpoint(&current) {
                    Some(id) => return Ok((State::Breakpoint { id }, idx)),
                    None => {},
                }
                if stop {
                    return Ok((State::Constraint { id: idx }, idx));
                }
            }
            idx = idx - 1;
        }
        Ok((State::Beginning, 0))
    }

    /// Move forward from the current position; see [`ZkDebuggerView::spec_next`].
    fn forward(&mut self, stop: bool) -> (r: Result<State, Error>)
        ensures
            spec_moved(old(self)@, final(self)@, old(self)@.spec_next(stop), r),
    {
        proof {
            use_type_invariant(&*self);
        }
        let eof = self.cdf.preamble().constraints.saturating_sub(1);
        if self.constraint == eof {
            return Ok(State::End { id: self.constraint });
        }
        let first = match self.cdf.fetch_constraint(self.constraint) {
            Ok(c) => c,
            Err(e) => return Err(e),
        };
        match self.scan_forward(&first, self.constraint, stop) {
            Ok((state, pos)) => {
                self.constraint = pos;
                Ok(state)
            },
            Err(e) => Err(e),
        }
    }

    /// Move backward from the current position; see [`ZkDebuggerView::spec_prev`].
    fn backward(&mut self, stop: bool) -> (r: Result<State, Error>)
        ensures
            spec_moved(old(self)@, final(self)@, old(self)@.spec_prev(stop), r),
    {
        proof {
            use_type_invariant(&*self);
        }
        if self.constraint == 0 {
            return Ok(State::Beginning);
        }
        let first = match self.cdf.fetch_constraint(self.constraint) {
            Ok(c) => c,
            Err(e) => return Err(e),
        };
        match self.scan_backward(&first, self.constraint, stop) {
            Ok((state, pos)) => {
                self.constraint = pos;
                Ok(state)
            },
            Err(e) => Err(e),
        }
    }

    /// Move to the previous source line.
    ///
    /// May jump more than one constraint when several constraints stand at one source line.
    pub fn afore(&mut self) -> (r: Result<State, Error>)
        ensures
            spec_moved(old(self)@, final(self)@, old(self)@.spec_prev(true), r),
    {
        self.backward(true)
    }

    /// Continue the execution until the end, a breakpoint, or an invalid constraint.
    pub fn cont(&mut self) -> (r: Result<State, Error>)
        ensures
            spec_moved(old(self)@, final(self)@, old(self)@.spec_next(false), r),
    {
        self.forward(false)
    }

    /// Attempt to jump to a given constraint.
    pub fn goto(&mut self, idx: usize) -> (r: Result<State, Error>)
        ensures
            spec_moved(old(self)@, final(self)@, old(self)@.spec_goto(idx), r),
    {
        proof {
            use_type_invariant(&*self);
        }
        if idx == 0 {
            self.constraint = 0;
            return Ok(State::Beginning);
        }
        let current = match self.cdf.fetch_constraint(idx) {
            Ok(c) => c,
            Err(e) => return Err(e),
        };
        let is_invalid = !current.polynomial().is_ok();
        self.constraint = idx;
        if is_invalid {
            return Ok(State::InvalidConstraint { id: idx });
        }
        if idx == self.cdf.preamble().constraints.saturating_sub(1) {
            return Ok(State::End { id: idx });
        }
        Ok(State::Constraint { id: idx })
    }

    /// Move to the next source line.
    ///
    /// May jump more than one constraint when several constraints stand at one source line.
    pub fn step(&mut self) -> (r: Result<State, Error>)
        ensures
            spec_moved(old(self)@, final(self)@, old(self)@.spec_next(true), r),
    {
        self.forward(true)
    }

    /// Reverse the execution until the beginning, a breakpoint, or an invalid constraint.
    pub fn turn(&mut self) -> (r: Result<State, Error>)
        ensures
            spec_moved(old(self)@, final(self)@, old(self)@.spec_prev(false), r),
    {
        self.backward(false)
    }
}

} // verus!
