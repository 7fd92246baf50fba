//! Types that make up one task: its lifecycle status, its saved register
//! context, and its instrumentation record.

use vstd::prelude::*;

use crate::syscall::{syscall_number_of, SyscallInfo, SYSCALL_KINDS};

verus! {

/// Lifecycle status of a task. Legal transitions: UnInit to Ready (once, at
/// manager construction), Ready to Running (scheduling decision), Running to
/// Ready (voluntary yield), Running to Exited (voluntary exit). Exited is
/// terminal.
#[derive(Clone, Copy, Debug, PartialEq, Eq, Structural)]
pub enum TaskStatus {
    /// not yet set up
    UnInit,
    /// runnable, waiting to be selected
    Ready,
    /// currently holding the core
    Running,
    /// finished; the slot is never selectable again
    Exited,
}

/// The saved register snapshot needed to resume a suspended task: the resume
/// address, the stack pointer, and the callee-saved registers the calling
/// convention requires the control-transfer code to preserve. Pure data; the
/// register swap itself happens outside this crate.
#[derive(Clone, Copy, Debug)]
pub struct TaskContext {
    /// resume address
    pub ra: usize,
    /// stack pointer
    pub sp: usize,
    /// callee-saved registers
    pub s: [usize; 12],
}

impl TaskContext {
    /// An all-zero context, used as the throwaway save target when entering
    /// the very first task.
    pub fn zero_init() -> (r: TaskContext)
        ensures
            r.ra == 0,
            r.sp == 0,
            forall|i: int| 0 <= i < 12 ==> r.s@[i] == 0,
    {
        TaskContext { ra: 0, sp: 0, s: [0; 12] }
    }

    /// The initial context of an application slot: resuming it enters the
    /// trampoline at `restore_addr` on the kernel stack `kstack_ptr`. The
    /// loader supplies both addresses.
    pub fn goto_restore(restore_addr: usize, kstack_ptr: usize) -> (r: TaskContext)
        ensures
            r.ra == restore_addr,
            r.sp == kstack_ptr,
            forall|i: int| 0 <= i < 12 ==> r.s@[i] == 0,
    {
        TaskContext { ra: restore_addr, sp: kstack_ptr, s: [0; 12] }
    }
}

/// Per-task record: slot index, lifecycle status, the instrumentation table
/// with one element per known syscall identifier, and a time field that holds
/// the first-scheduled timestamp while the task lives (0 meaning unset) and
/// the total wall-clock lifetime once it has exited.
#[derive(Clone, Copy, Debug)]
pub struct TaskInfo {
    /// the task's slot index
    pub id: usize,
    /// lifecycle status
    pub status: TaskStatus,
    /// invocation counters, one per known syscall identifier
    pub call: [SyscallInfo; SYSCALL_KINDS],
    /// first-scheduled timestamp (0 = unset); lifetime after exit
    pub time: usize,
}

/// The instrumentation table is well formed: each slot carries the ABI
/// number that belongs there.
pub open spec fn call_table_wf(info: TaskInfo) -> bool {
    forall|j: int| 0 <= j < SYSCALL_KINDS ==> #[trigger] info.call@[j].id == syscall_number_of(j)
}

impl TaskInfo {
    /// A fresh record: status UnInit, all counters zero, every slot labelled
    /// with its ABI number.
    pub fn new() -> (r: TaskInfo)
        ensures
            r.id == 0,
            r.status == TaskStatus::UnInit,
            r.time == 0,
            call_table_wf(r),
            forall|j: int| 0 <= j < SYSCALL_KINDS ==> #[trigger] r.call@[j].times == 0,
    {
        let mut call: [SyscallInfo; SYSCALL_KINDS] = [SyscallInfo { id: 0, times: 0 }; SYSCALL_KINDS];
        let mut id: usize = 0;
        while id < SYSCALL_KINDS
            invariant
                id <= SYSCALL_KINDS,
                call@.len() == SYSCALL_KINDS,
                forall|j: int| 0 <= j < id ==> #[trigger] call@[j].id == syscall_number_of(j),
                forall|j: int| 0 <= j < SYSCALL_KINDS ==> #[trigger] call@[j].times == 0,
            decreases SYSCALL_KINDS - id,
        {
            let mut info = call[id];
            info.with_id(id);
            call[id] = info;
            id = id + 1;
        }
        TaskInfo { id: 0, status: TaskStatus::UnInit, call, time: 0 }
    }
}

/// One application slot: saved context, instrumentation record, and the two
/// elapsed-time accumulators (billed while the task is Running).
#[derive(Clone, Copy, Debug)]
pub struct TaskControlBlock {
    /// saved register context
    pub task_cx: TaskContext,
    /// status, counters and timing
    pub task_info: TaskInfo,
    /// accumulated time spent in user mode, milliseconds
    pub user_time: usize,
    /// accumulated time spent in kernel mode, milliseconds
    pub kernel_time: usize,
}

} // verus!
