//! The stack unwinder: walking saved frame pointers from the current
//! instruction pointer back to the entry function.
//!
//! Each round the front end resolves the current instruction pointer to
//! a function name and source position and hands it in; the unwinder
//! records the frame and decides whether to stop (at the entry function,
//! named `main`) or to adopt the saved return address and saved caller
//! frame pointer that the front end reads from the traced child's stack.

use crate::command::str_eq;
use vstd::prelude::*;

verus! {

/// One resolved stack frame: the enclosing function and the source
/// position of the instruction pointer.
pub struct Frame {
    pub func: String,
    pub file: String,
    pub line: usize,
}

/// The state of one backtrace walk.
pub struct Unwinder {
    pub instruction_ptr: usize,
    pub base_ptr: usize,
    pub frames: Vec<Frame>,
    pub done: bool,
}

/// The frames a walk emits when fed the resolutions `infos` in order,
/// starting from `emitted` frames and the stop flag `done`: it records
/// resolutions one by one and stops after the first one named `main`.
pub open spec fn spec_run(emitted: Seq<Frame>, done: bool, infos: Seq<Frame>) -> (Seq<Frame>, bool)
    decreases infos.len(),
{
    if done || infos.len() == 0 {
        (emitted, done)
    } else {
        spec_run(emitted.push(infos[0]), infos[0].func@ == "main"@, infos.skip(1))
    }
}

impl Unwinder {
    /// Starts a walk at the stopped child's current instruction pointer
    /// and frame pointer.
    pub fn new(instruction_ptr: usize, base_ptr: usize) -> (u: Unwinder)
        ensures
            u.instruction_ptr == instruction_ptr,
            u.base_ptr == base_ptr,
            u.frames@.len() == 0,
            !u.done,
    {
        Unwinder { instruction_ptr, base_ptr, frames: Vec::new(), done: false }
    }

    /// Records the resolution of the current instruction pointer as the
    /// next frame.  The walk is over exactly when the resolved function
    /// is the entry function `main`.
    pub fn emit_frame(&mut self, info: Frame) -> (stop: bool)
        requires
            !old(self).done,
        ensures
            final(self).frames@ == old(self).frames@.push(info),
            stop == (info.func@ == "main"@),
            final(self).done == stop,
            final(self).instruction_ptr == old(self).instruction_ptr,
            final(self).base_ptr == old(self).base_ptr,
    {
        proof {
            reveal_strlit("main");
        }
        let stop = str_eq(info.func.as_str(), "main");
        self.frames.push(info);
        self.done = stop;
        stop
    }

    /// The two stack slots the front end must read to keep walking: the
    /// saved return address lives one word above the frame pointer, the
    /// saved caller frame pointer at the frame pointer itself.  `None`
    /// when the return-address slot would lie beyond the address space.
    pub fn frame_slots(&self) -> (r: Option<(usize, usize)>)
        ensures
            r is Some <==> self.base_ptr + 8 <= usize::MAX,
            r matches Some(slots) ==> slots.0 == self.base_ptr + 8 && slots.1 == self.base_ptr,
    {
        if self.base_ptr <= usize::MAX - 8 {
            Some((self.base_ptr + 8, self.base_ptr))
        } else {
            None
        }
    }

    /// Adopts the saved return address and saved caller frame pointer as
    /// the new instruction pointer and frame pointer.
    pub fn advance(&mut self, saved_ret: usize, saved_base: usize)
        requires
            !old(self).done,
        ensures
            final(self).instruction_ptr == saved_ret,
            final(self).base_ptr == saved_base,
            final(self).frames == old(self).frames,
            final(self).done == old(self).done,
    {
        self.instruction_ptr = saved_ret;
        self.base_ptr = saved_base;
    }
}

proof fn lemma_run_general(emitted: Seq<Frame>, infos: Seq<Frame>, k: int)
    requires
        0 <= k < infos.len(),
        infos[k].func@ == "main"@,
        forall|i: int| 0 <= i < k ==> infos[i].func@ != "main"@,
    ensures
        spec_run(emitted, false, infos).1,
        spec_run(emitted, false, infos).0 == emitted + infos.take(k + 1),
    decreases k,
{
    if k == 0 {
        assert(spec_run(emitted, false, infos) == spec_run(
            emitted.push(infos[0]),
            true,
            infos.skip(1),
        ));
        assert(emitted.push(infos[0]) =~= emitted + infos.take(1));
    } else {
        let rest = infos.skip(1);
        assert(rest[k - 1] == infos[k]);
        assert forall|i: int| 0 <= i < k - 1 implies rest[i].func@ != "main"@ by {
            assert(rest[i] == infos[i + 1]);
        }
        lemma_run_general(emitted.push(infos[0]), rest, k - 1);
        assert(emitted.push(infos[0]) + rest.take(k) =~= emitted + infos.take(k + 1));
    }
}

/// Law: a backtrace terminates at the entry function.  If the resolved
/// call chain presents `main` as its `k+1`-st frame and no earlier frame
/// is named `main`, the walk emits exactly those `k+1` frames, innermost
/// first, and stops there: it never attempts to unwind past `main`,
/// whatever resolutions would follow.
pub proof fn lemma_backtrace_terminates_at_entry(infos: Seq<Frame>, k: int)
    requires
        0 <= k < infos.len(),
        infos[k].func@ == "main"@,
        forall|i: int| 0 <= i < k ==> infos[i].func@ != "main"@,
    ensures
        spec_run(Seq::empty(), false, infos).1,
        spec_run(Seq::empty(), false, infos).0 == infos.take(k + 1),
{
    lemma_run_general(Seq::empty(), infos, k);
    assert(Seq::<Frame>::empty() + infos.take(k + 1) =~= infos.take(k + 1));
}

} // verus!
