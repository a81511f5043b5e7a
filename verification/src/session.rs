//! The resume/wait decision machine of a debugging session.
//!
//! A session owns the breakpoint store and at most one traced child
//! process.  Every decision of the control protocol is made here, over
//! plain values; the front end performs each operating-system action
//! (spawn, kill, continue, single-step, wait, register and memory
//! access) and feeds the observed outcome back in.  The tracing surface
//! takes raw-pointer arguments that verified code does not hold, so the
//! protocol is expressed as these explicit transitions rather than as
//! one opaque loop.
//!
//! The step-over protocol for a hit breakpoint is: restore the saved
//! original byte, rewind the instruction pointer to the breakpoint
//! address, single-step exactly one instruction, and — unless the child
//! ended during the step — write the trap opcode back before continuing,
//! so that later hits of the same breakpoint still trap.

use crate::breakpoint::BreakpointStore;
use crate::command::spec_parse_address;
use crate::command::parse_address;
use crate::patch::TRAP_OPCODE;
use crate::patch::lemma_patch_byte_exact;
use crate::patch::word_byte;
use crate::patch::word_with_byte;
use vstd::prelude::*;

verus! {

/// The signal number the OS delivers when a traced child hits a trap.
pub const TRAP_SIGNAL: i32 = 5;

/// What one blocking wait on the traced child observed.  The terminal
/// variants invalidate the traced process.
#[derive(Clone, Copy, Debug, PartialEq, Eq, Structural)]
pub enum WaitOutcome {
    /// The child stopped under a signal; `rip` is its instruction pointer.
    Stopped { signal: i32, rip: usize },
    /// The child exited normally with an exit code.
    Exited { code: i32 },
    /// The child was terminated by a signal.
    Signaled { signal: i32 },
}

/// The session's handle on the traced child.
#[derive(Clone, Copy, Debug, PartialEq, Eq, Structural)]
pub struct TracedProcess {
    pub pid: i32,
}

/// What a classified wait should be reported as.
#[derive(Clone, Copy, Debug, PartialEq, Eq, Structural)]
pub enum Report {
    NoProcess,
    Stopped { signal: i32, rip: usize },
    Exited { code: i32 },
    Signaled { signal: i32 },
}

/// The outcome of a `breakpoint` command.
#[derive(Clone, Copy, Debug, PartialEq, Eq, Structural)]
pub enum BreakpointReport {
    /// No address token was given.
    UsageError,
    /// The token is not a hexadecimal address.
    ParseError,
    /// A breakpoint was stored; `index` is its identifier.
    Stored { index: usize, addr: usize },
}

/// A planned step-over of the breakpoint at `addr`.
#[derive(Clone, Copy, Debug, PartialEq, Eq, Structural)]
pub struct StepOverPlan {
    pub addr: usize,
    pub orig_byte: u8,
}

/// What must happen after the single step of a step-over.
#[derive(Clone, Copy, Debug, PartialEq, Eq, Structural)]
pub enum StepFollowup {
    /// The child ended during the step; nothing is left to patch.
    ProcessGone,
    /// Write `value` back at `addr`, then continue execution.
    Repatch { addr: usize, value: u8 },
}

/// One debugging session: the target path, the breakpoints, and the
/// currently traced child, if any.
pub struct Session {
    pub target: String,
    pub break_points: BreakpointStore,
    pub inferior: Option<TracedProcess>,
}

/// The session after a classified wait: a stop keeps the traced child,
/// either terminal outcome drops it.
pub open spec fn spec_after_wait(s: Session, o: WaitOutcome) -> Session {
    match o {
        WaitOutcome::Stopped { .. } => s,
        WaitOutcome::Exited { .. } => Session { inferior: None, ..s },
        WaitOutcome::Signaled { .. } => Session { inferior: None, ..s },
    }
}

/// The report corresponding to a wait outcome.
pub open spec fn spec_report_of(o: WaitOutcome) -> Report {
    match o {
        WaitOutcome::Stopped { signal, rip } => Report::Stopped { signal, rip },
        WaitOutcome::Exited { code } => Report::Exited { code },
        WaitOutcome::Signaled { signal } => Report::Signaled { signal },
    }
}

impl Session {
    pub open spec fn wf(self) -> bool {
        self.break_points.wf()
    }

    /// A fresh session for `target`: no breakpoints, no traced child.
    pub fn new(target: String) -> (s: Session)
        ensures
            s.wf(),
            s.target == target,
            s.break_points@.len() == 0,
            s.inferior is None,
    {
        Session { target, break_points: BreakpointStore::new(), inferior: None }
    }

    /// Whether a traced child currently exists.  A `cont` or `backtrace`
    /// issued without one must be answered with a "no process" report
    /// instead of touching any stale handle.
    pub fn has_process(&self) -> (r: bool)
        ensures
            r == (self.inferior is Some),
    {
        self.inferior.is_some()
    }

    /// The pid of the traced child, if one exists.
    pub fn current_pid(&self) -> (r: Option<i32>)
        ensures
            r is Some <==> self.inferior is Some,
            self.inferior matches Some(p) ==> r == Some(p.pid),
    {
        match &self.inferior {
            Some(p) => Some(p.pid),
            None => None,
        }
    }

    /// Handles the `breakpoint` command.  A missing token is a usage
    /// error and an unparsable token a parse error; neither mutates the
    /// session.  A parsed address is stored with a placeholder original
    /// byte, to be installed into the next launched child.
    pub fn break_point_command(&mut self, position: Option<String>) -> (r: BreakpointReport)
        requires
            old(self).wf(),
            old(self).break_points@.len() < usize::MAX,
        ensures
            final(self).wf(),
            final(self).target == old(self).target,
            final(self).inferior == old(self).inferior,
            position is None ==> r == BreakpointReport::UsageError && *final(self) == *old(self),
            position matches Some(p) ==> (spec_parse_address(p@) is None ==> r
                == BreakpointReport::ParseError && *final(self) == *old(self)),
            position matches Some(p) ==> spec_parse_address(p@) matches Some(a) ==> {
                &&& r matches BreakpointReport::Stored { addr, .. } && addr == a
                &&& final(self).break_points.contains_addr(a)
                &&& final(self).break_points.orig_byte_of(a) == 0u8
                &&& forall|x: usize|
                    x != a ==> final(self).break_points.contains_addr(x)
                        == old(self).break_points.contains_addr(x)
                &&& forall|x: usize|
                    x != a && old(self).break_points.contains_addr(x)
                        ==> final(self).break_points.orig_byte_of(x)
                        == old(self).break_points.orig_byte_of(x)
            },
    {
        let position = match position {
            Some(p) => p,
            None => {
                return BreakpointReport::UsageError;
            },
        };
        match parse_address(position.as_str()) {
            Some(addr) => {
                let index = self.break_points.set(addr);
                BreakpointReport::Stored { index, addr }
            },
            None => BreakpointReport::ParseError,
        }
    }

    /// Begins a `run`.  Law: re-running is safe — whatever child was
    /// still alive is handed back for termination, and the session holds
    /// no traced child until a new one has been attached; since attaching
    /// requires the slot to be empty, no two traced children are ever
    /// held at once.
    pub fn begin_run(&mut self) -> (prev: Option<i32>)
        ensures
            final(self).inferior is None,
            final(self).target == old(self).target,
            final(self).break_points == old(self).break_points,
            old(self).inferior matches Some(p) ==> prev == Some(p.pid),
            old(self).inferior is None ==> prev is None,
    {
        let prev = self.current_pid();
        self.inferior = None;
        prev
    }

    /// Accepts a freshly spawned child if and only if its first wait
    /// reports a stop under the trap signal, as a correctly traced child
    /// delivers at program start.  Any other outcome is a launch failure
    /// and leaves the session without a process.
    pub fn attach_inferior(&mut self, pid: i32, first_wait: WaitOutcome) -> (ok: bool)
        requires
            old(self).inferior is None,
        ensures
            final(self).target == old(self).target,
            final(self).break_points == old(self).break_points,
            ok <==> (first_wait matches WaitOutcome::Stopped { signal, .. } && signal
                == TRAP_SIGNAL),
            ok ==> final(self).inferior == Some(TracedProcess { pid }),
            !ok ==> final(self).inferior is None,
    {
        match first_wait {
            WaitOutcome::Stopped { signal, .. } => {
                if signal == TRAP_SIGNAL {
                    self.inferior = Some(TracedProcess { pid });
                    true
                } else {
                    false
                }
            },
            _ => false,
        }
    }

    /// The number of stored breakpoints, for installation sweeps.
    pub fn breakpoint_count(&self) -> (r: usize)
        ensures
            r == self.break_points@.len(),
    {
        self.break_points.len()
    }

    /// The address of the `i`-th stored breakpoint.
    pub fn breakpoint_addr(&self, i: usize) -> (r: usize)
        requires
            i < self.break_points@.len(),
        ensures
            r == self.break_points@[i as int].addr,
    {
        self.break_points.addr_at(i)
    }

    /// Records the byte that installing the trap at the `i`-th
    /// breakpoint displaced, once the patched word has actually been
    /// written into the child.
    pub fn record_breakpoint_byte(&mut self, i: usize, b: u8) -> (addr: usize)
        requires
            old(self).wf(),
            i < old(self).break_points@.len(),
        ensures
            final(self).wf(),
            final(self).target == old(self).target,
            final(self).inferior == old(self).inferior,
            addr == old(self).break_points@[i as int].addr,
            final(self).break_points.orig_byte_of(addr) == b,
            forall|x: usize|
                final(self).break_points.contains_addr(x)
                    == old(self).break_points.contains_addr(x),
            forall|x: usize|
                x != addr && old(self).break_points.contains_addr(x)
                    ==> final(self).break_points.orig_byte_of(x)
                    == old(self).break_points.orig_byte_of(x),
    {
        self.break_points.record_orig(i, b)
    }

    /// Classifies a wait on the traced child and updates the session:
    /// a stop keeps the child, either terminal outcome drops it.
    pub fn process_wait(&mut self, outcome: WaitOutcome) -> (r: Report)
        requires
            old(self).inferior is Some,
        ensures
            *final(self) == spec_after_wait(*old(self), outcome),
            r == spec_report_of(outcome),
    {
        match outcome {
            WaitOutcome::Stopped { signal, rip } => Report::Stopped { signal, rip },
            WaitOutcome::Exited { code } => {
                self.inferior = None;
                Report::Exited { code }
            },
            WaitOutcome::Signaled { signal } => {
                self.inferior = None;
                Report::Signaled { signal }
            },
        }
    }

    /// Decides whether a stop at instruction pointer `rip` is a
    /// breakpoint hit.  The trap advanced the instruction pointer one
    /// byte past the patched address, so the hit breakpoint, if any, is
    /// the one stored at `rip - 1`; the plan carries its saved original
    /// byte for the restore.
    pub fn plan_step_over(&self, rip: usize) -> (r: Option<StepOverPlan>)
        requires
            self.wf(),
        ensures
            r is Some <==> rip >= 1 && self.break_points.contains_addr((rip - 1) as usize),
            r matches Some(p) ==> p.addr == rip - 1 && p.orig_byte == self.break_points.orig_byte_of(
                (rip - 1) as usize,
            ),
    {
        if rip == 0 {
            return None;
        }
        match self.break_points.get(rip - 1) {
            Some(bp) => Some(StepOverPlan { addr: bp.addr, orig_byte: bp.orig_byte }),
            None => None,
        }
    }

    /// Decides what follows the single step of a step-over: if the child
    /// ended during the step it is dropped and nothing is patched;
    /// otherwise the trap opcode must be written back at the breakpoint
    /// address before execution continues, so the breakpoint stays armed.
    pub fn finish_step_over(&mut self, plan: StepOverPlan, outcome: WaitOutcome) -> (r:
        StepFollowup)
        requires
            old(self).inferior is Some,
        ensures
            *final(self) == spec_after_wait(*old(self), outcome),
            outcome matches WaitOutcome::Stopped { .. } ==> r == (StepFollowup::Repatch {
                addr: plan.addr,
                value: TRAP_OPCODE,
            }),
            !(outcome matches WaitOutcome::Stopped { .. }) ==> r == StepFollowup::ProcessGone,
    {
        match outcome {
            WaitOutcome::Stopped { .. } => StepFollowup::Repatch {
                addr: plan.addr,
                value: TRAP_OPCODE,
            },
            _ => {
                self.inferior = None;
                StepFollowup::ProcessGone
            },
        }
    }
}

/// Law: terminal wait outcomes are sticky.  Once a wait observes that
/// the child exited or was killed by a signal, the session's traced
/// process is absent, so any later `cont` or `backtrace` finds no
/// process to act on.
pub proof fn lemma_terminal_wait_sticky(s: Session, o: WaitOutcome)
    requires
        o is Exited || o is Signaled,
    ensures
        spec_after_wait(s, o).inferior is None,
{
}

/// Law: the breakpoint round-trip.  A completed step-over first writes
/// the saved original byte and finally writes the trap opcode back at
/// the breakpoint's address; whatever word the child's memory held at
/// the moment of the final write, the byte at the breakpoint's address
/// afterwards reads back as the trap opcode, and every neighboring byte
/// of that word is untouched.  The original byte is thus never lost: it
/// is re-read (and re-saved) by the very same patch on the next install.
pub proof fn lemma_breakpoint_round_trip(plan: StepOverPlan, w_restore: u64, w_repatch: u64)
    ensures
        word_byte(word_with_byte(w_restore, (plan.addr % 8) as int, plan.orig_byte), (plan.addr
            % 8) as int) == plan.orig_byte,
        word_byte(word_with_byte(w_repatch, (plan.addr % 8) as int, TRAP_OPCODE), (plan.addr
            % 8) as int) == TRAP_OPCODE,
        forall|j: int|
            0 <= j < 8 && j != plan.addr % 8 ==> word_byte(
                word_with_byte(w_repatch, (plan.addr % 8) as int, TRAP_OPCODE),
                j,
            ) == word_byte(w_repatch, j),
{
    lemma_patch_byte_exact(w_restore, (plan.addr % 8) as int, plan.orig_byte);
    lemma_patch_byte_exact(w_repatch, (plan.addr % 8) as int, TRAP_OPCODE);
}

} // verus!
