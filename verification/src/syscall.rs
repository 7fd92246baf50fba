//! The closed enumeration of system calls and the per-call instrumentation
//! element. Each known call has a fixed numeric identifier (the ABI number a
//! user-mode environment call carries) and a dense slot in the per-task
//! instrumentation table.

use vstd::prelude::*;

use crate::manager::{
    find_next_in_scan, lemma_find_next_found_ready, noted_only, statuses, tcb_exited, tcb_noted,
    tcb_scheduled, tcb_suspended, ScheduleDecision, TaskManager,
};
use crate::mem::{copy_from_user, UserSpace, PAGE_SIZE};
use crate::process::{sys_exit, sys_get_time, sys_yield, time_val_bytes};
use crate::task::{TaskInfo, TaskStatus};

verus! {

/// ABI number of the write call.
pub const SYSCALL_WRITE: usize = 64;
/// ABI number of the exit call.
pub const SYSCALL_EXIT: usize = 93;
/// ABI number of the yield call.
pub const SYSCALL_YIELD: usize = 124;
/// ABI number of the get-time call.
pub const SYSCALL_GET_TIME: usize = 169;
/// ABI number of the task-info query.
pub const SYSCALL_TASK_INFO: usize = 410;

/// Number of known syscall identifiers; sizes the instrumentation table.
pub const SYSCALL_KINDS: usize = 5;

/// The closed enumeration of supported calls. `MaxTaskNum` is a sentinel
/// that only names the count of known identifiers; it is never dispatched
/// and never counted.
#[derive(Clone, Copy, Debug, PartialEq, Eq, Structural)]
pub enum SyscallId {
    /// write: instrumentation slot 0
    SyscallWrite,
    /// exit: instrumentation slot 1
    SyscallExit,
    /// yield: instrumentation slot 2
    SyscallYield,
    /// get-time: instrumentation slot 3
    SyscallGetTime,
    /// task-info: instrumentation slot 4
    SyscallTaskInfo,
    /// sentinel: the count of known identifiers
    MaxTaskNum,
}

/// One element of a task's instrumentation table: a syscall's ABI number
/// and how many times the task has invoked it.
#[derive(Clone, Copy, Debug, PartialEq, Eq, Structural)]
pub struct SyscallInfo {
    /// the syscall's ABI number
    pub id: usize,
    /// how many times the owning task has invoked this call
    pub times: usize,
}

/// The ABI number that belongs at instrumentation slot `slot`.
pub open spec fn syscall_number_of(slot: int) -> int {
    if slot == 0 {
        SYSCALL_WRITE as int
    } else if slot == 1 {
        SYSCALL_EXIT as int
    } else if slot == 2 {
        SYSCALL_YIELD as int
    } else if slot == 3 {
        SYSCALL_GET_TIME as int
    } else {
        SYSCALL_TASK_INFO as int
    }
}

/// Whether `id` is one of the closed enumeration's ABI numbers.
pub open spec fn is_known_syscall(id: int) -> bool {
    ||| id == SYSCALL_WRITE as int
    ||| id == SYSCALL_EXIT as int
    ||| id == SYSCALL_YIELD as int
    ||| id == SYSCALL_GET_TIME as int
    ||| id == SYSCALL_TASK_INFO as int
}

impl SyscallInfo {
    /// Fix this element's ABI number for instrumentation slot `id`. The
    /// invocation counter is left alone.
    pub fn with_id(&mut self, id: usize)
        requires
            id < SYSCALL_KINDS,
        ensures
            final(self).id == syscall_number_of(id as int),
            final(self).times == old(self).times,
    {
        if id == 0 {
            self.id = SYSCALL_WRITE;
        } else if id == 1 {
            self.id = SYSCALL_EXIT;
        } else if id == 2 {
            self.id = SYSCALL_YIELD;
        } else if id == 3 {
            self.id = SYSCALL_GET_TIME;
        } else {
            self.id = SYSCALL_TASK_INFO;
        }
    }
}

/// Decode a numeric identifier against the closed enumeration. `None` means
/// the ABI does not define the request: the dispatcher treats that as fatal.
pub fn decode_syscall(syscall_id: usize) -> (r: Option<SyscallId>)
    ensures
        r is Some <==> is_known_syscall(syscall_id as int),
        r matches Some(s) ==> s == spec_decode(syscall_id as int),
{
    if syscall_id == SYSCALL_WRITE {
        Some(SyscallId::SyscallWrite)
    } else if syscall_id == SYSCALL_EXIT {
        Some(SyscallId::SyscallExit)
    } else if syscall_id == SYSCALL_YIELD {
        Some(SyscallId::SyscallYield)
    } else if syscall_id == SYSCALL_GET_TIME {
        Some(SyscallId::SyscallGetTime)
    } else if syscall_id == SYSCALL_TASK_INFO {
        Some(SyscallId::SyscallTaskInfo)
    } else {
        None
    }
}

/// An instrumentation table with the counter at `slot` advanced by one
/// invocation. This is exactly what recording a syscall does to the table.
pub open spec fn bump_call(s: Seq<SyscallInfo>, slot: int) -> Seq<SyscallInfo> {
    s.update(slot, SyscallInfo { id: s[slot].id, times: (s[slot].times + 1) as usize })
}

/// An instrumentation table after recording the given sequence of slots, in
/// order.
pub open spec fn bump_calls(s: Seq<SyscallInfo>, slots: Seq<int>) -> Seq<SyscallInfo>
    decreases slots.len(),
{
    if slots.len() == 0 {
        s
    } else {
        bump_call(bump_calls(s, slots.drop_last()), slots.last())
    }
}

/// How many entries of `slots` equal `j`.
pub open spec fn count_occurrences(slots: Seq<int>, j: int) -> int
    decreases slots.len(),
{
    if slots.len() == 0 {
        0
    } else {
        count_occurrences(slots.drop_last(), j) + if slots.last() == j {
            1int
        } else {
            0int
        }
    }
}

/// Instrumentation is monotone and exact: after recording a sequence of
/// invocations, each counter has grown by exactly the number of times its
/// slot occurs in the sequence — in particular it equals k after exactly k
/// invocations of that identifier, and it never decreases.
pub proof fn lemma_counters_accumulate(s: Seq<SyscallInfo>, slots: Seq<int>, j: int)
    requires
        0 <= j < s.len(),
        forall|k: int| 0 <= k < slots.len() ==> 0 <= #[trigger] slots[k] < s.len(),
        s[j].times + slots.len() <= usize::MAX,
    ensures
        bump_calls(s, slots).len() == s.len(),
        bump_calls(s, slots)[j].id == s[j].id,
        bump_calls(s, slots)[j].times == s[j].times + count_occurrences(slots, j),
        s[j].times <= bump_calls(s, slots)[j].times,
    decreases slots.len(),
{
    if slots.len() == 0 {
    } else {
        let rest = slots.drop_last();
        lemma_count_occurrences_bound(rest, j);
        lemma_counters_accumulate(s, rest, j);
        assert(forall|k: int| 0 <= k < rest.len() ==> 0 <= #[trigger] rest[k] < s.len());
    }
}

/// A slot occurs no more often than the sequence is long.
pub proof fn lemma_count_occurrences_bound(slots: Seq<int>, j: int)
    ensures
        0 <= count_occurrences(slots, j) <= slots.len(),
    decreases slots.len(),
{
    if slots.len() == 0 {
    } else {
        lemma_count_occurrences_bound(slots.drop_last(), j);
    }
}

/// The variant a known ABI number decodes to.
pub open spec fn spec_decode(id: int) -> SyscallId {
    if id == SYSCALL_WRITE as int {
        SyscallId::SyscallWrite
    } else if id == SYSCALL_EXIT as int {
        SyscallId::SyscallExit
    } else if id == SYSCALL_YIELD as int {
        SyscallId::SyscallYield
    } else if id == SYSCALL_GET_TIME as int {
        SyscallId::SyscallGetTime
    } else {
        SyscallId::SyscallTaskInfo
    }
}

/// What one dispatch decided, for the trap-return code to carry out. The
/// dispatcher itself completes everything that is kernel logic; hardware
/// effects (putting bytes on the console, the register swap, the shutdown,
/// the halt on a fatal error) are the caller's.
#[derive(Debug)]
pub enum SyscallOutcome {
    /// The call completed; this value goes back to user mode.
    Return(isize),
    /// A write call: these bytes, read from the caller's buffer, go to the
    /// console sink; the call's value to user mode is their count.
    Write(Vec<u8>),
    /// A lifecycle call suspended or ended the caller: save the outgoing
    /// flow into slot `prev`'s context and resume slot `next`'s. A resumed
    /// yield's value to user mode is 0.
    Switch {
        /// slot whose context receives the outgoing flow
        prev: usize,
        /// slot whose context is resumed
        next: usize,
    },
    /// No task is Ready any more: every application has completed and the
    /// machine shuts down in an orderly way.
    Shutdown,
    /// A task-info query succeeded (value 1 to user mode): this snapshot
    /// goes into the caller's storage.
    Info(TaskInfo),
    /// The identifier is outside the closed enumeration: fatal. There is no
    /// recovery path for a request the interface does not define; the caller
    /// must halt the machine, not hand an error code back.
    Fatal,
}

/// Dispatch one system call raised from user mode: decode `syscall_id`
/// against the closed enumeration, record the invocation against the
/// Running task's instrumentation — before any blocking or terminating
/// effect, so the count reflects the invocation even if the call never
/// returns — and delegate to the call's handler. An identifier outside the
/// enumeration records nothing, changes nothing, and is fatal.
pub fn syscall(
    m: &mut TaskManager,
    space: &mut UserSpace,
    syscall_id: usize,
    args: [usize; 3],
    now_ms: usize,
    now_us: usize,
) -> (r: SyscallOutcome)
    requires
        old(m).wf(),
        old(space).wf(),
        old(m).inner.tasks@[old(m).inner.current_task as int].task_info.status
            == TaskStatus::Running,
        old(m).inner.stop_time <= now_ms,
        old(m).inner.tasks@[old(m).inner.current_task as int].kernel_time + (now_ms - old(
            m,
        ).inner.stop_time) <= usize::MAX,
        forall|j: int|
            0 <= j < SYSCALL_KINDS ==> (#[trigger] old(
                m,
            ).inner.tasks@[old(m).inner.current_task as int].task_info.call@[j]).times
                < usize::MAX,
    ensures
        final(m).wf(),
        final(space).wf(),
        !is_known_syscall(syscall_id as int) ==> r == SyscallOutcome::Fatal && *final(m) == *old(m)
            && *final(space) == *old(space),
        syscall_id == SYSCALL_WRITE ==> {
            &&& noted_only(*old(m), *final(m), 0)
            &&& *final(space) == *old(space)
            &&& ({
                let src = args[1] as int;
                let cnt = args[2] as int;
                if cnt <= isize::MAX as int && src + cnt <= usize::MAX as int && old(
                    space,
                ).range_readable(src, cnt) {
                    r matches SyscallOutcome::Write(bytes) && bytes@.len() == cnt && (forall|t: int|
                        0 <= t < cnt ==> #[trigger] bytes@[t] == old(space).byte_at(src + t))
                } else {
                    r == SyscallOutcome::Return(-1isize)
                }
            })
        },
        syscall_id == SYSCALL_EXIT ==> {
            &&& *final(space) == *old(space)
            &&& final(m).num_app == old(m).num_app
            &&& final(m).inner.tasks@.len() == old(m).inner.tasks@.len()
            &&& final(m).inner.stop_time == now_ms
            &&& ({
                let c = old(m).inner.current_task as int;
                let elapsed = (now_ms - old(m).inner.stop_time) as usize;
                let mid = old(m).inner.tasks@.update(
                    c,
                    tcb_exited(old(m).inner.tasks@[c], elapsed, now_ms),
                );
                match find_next_in_scan(statuses(mid), c, 0) {
                    Some(n) => {
                        let after = mid.update(n, tcb_scheduled(mid[n], now_ms));
                        &&& n != c
                        &&& r == (SyscallOutcome::Switch { prev: c as usize, next: n as usize })
                        &&& final(m).inner.current_task == n
                        &&& forall|i: int|
                            0 <= i < after.len() && i != c ==> final(m).inner.tasks@[i] == after[i]
                        &&& tcb_noted(after[c], final(m).inner.tasks@[c], 1)
                    },
                    None => {
                        &&& r == SyscallOutcome::Shutdown
                        &&& final(m).inner.current_task == c
                        &&& forall|i: int|
                            0 <= i < mid.len() && i != c ==> final(m).inner.tasks@[i] == mid[i]
                        &&& tcb_noted(mid[c], final(m).inner.tasks@[c], 1)
                    },
                }
            })
        },
        syscall_id == SYSCALL_YIELD ==> {
            &&& *final(space) == *old(space)
            &&& final(m).num_app == old(m).num_app
            &&& final(m).inner.tasks@.len() == old(m).inner.tasks@.len()
            &&& final(m).inner.stop_time == now_ms
            &&& ({
                let c = old(m).inner.current_task as int;
                let elapsed = (now_ms - old(m).inner.stop_time) as usize;
                let mid = old(m).inner.tasks@.update(
                    c,
                    tcb_suspended(old(m).inner.tasks@[c], elapsed),
                );
                let found = find_next_in_scan(statuses(mid), c, 0);
                &&& found is Some
                &&& ({
                    let n = found->Some_0;
                    let after = mid.update(n, tcb_scheduled(mid[n], now_ms));
                    &&& r == (SyscallOutcome::Switch { prev: c as usize, next: n as usize })
                    &&& final(m).inner.current_task == n
                    &&& forall|i: int|
                        0 <= i < after.len() && i != c ==> final(m).inner.tasks@[i] == after[i]
                    &&& tcb_noted(after[c], final(m).inner.tasks@[c], 2)
                })
            })
        },
        syscall_id == SYSCALL_GET_TIME ==> {
            &&& noted_only(*old(m), *final(m), 3)
            &&& final(space).pages@.len() == old(space).pages@.len()
            &&& (forall|v: int| #[trigger] final(space).mapped(v) == old(space).mapped(v))
            &&& (forall|v: int|
                old(space).mapped(v) ==> #[trigger] final(space).page_perm(v) == old(
                    space,
                ).page_perm(v))
            &&& ({
                let ps = PAGE_SIZE as int;
                let dest = args[0] as int;
                let written = time_val_bytes(
                    (now_us / 1000000) as u64,
                    (now_us % 1000000) as u64,
                );
                if dest + 16 > usize::MAX as int {
                    &&& r == SyscallOutcome::Return(-1isize)
                    &&& forall|v: int|
                        old(space).mapped(v) ==> #[trigger] final(space).page_bytes(v) == old(
                            space,
                        ).page_bytes(v)
                } else {
                    let w = old(space).writable_prefix(dest, 16);
                    &&& (w == 16 ==> r == SyscallOutcome::Return(0isize))
                    &&& (w < 16 ==> r == SyscallOutcome::Return(-1isize))
                    &&& forall|a: int|
                        dest <= a < dest + w ==> #[trigger] final(space).byte_at(a) == written[a
                            - dest]
                    &&& forall|a: int|
                        0 <= a && old(space).mapped(a / ps) && !(dest <= a < dest + w)
                            ==> #[trigger] final(space).byte_at(a) == old(space).byte_at(a)
                }
            })
        },
        syscall_id == SYSCALL_TASK_INFO ==> {
            &&& noted_only(*old(m), *final(m), 4)
            &&& *final(space) == *old(space)
            &&& (args[0] < old(m).num_app ==> r == SyscallOutcome::Info(
                final(m).inner.tasks@[args[0] as int].task_info,
            ))
            &&& (args[0] >= old(m).num_app ==> r == SyscallOutcome::Return(-1isize))
        },
{
    if syscall_id == SYSCALL_WRITE {
        m.set_syscall_info(0);
        if args[2] > isize::MAX as usize {
            return SyscallOutcome::Return(-1);
        }
        match copy_from_user(space, args[1], args[2]) {
            Some(bytes) => SyscallOutcome::Write(bytes),
            None => SyscallOutcome::Return(-1),
        }
    } else if syscall_id == SYSCALL_EXIT {
        m.set_syscall_info(1);
        let ghost noted = *m;
        let d = sys_exit(m, now_ms);
        proof {
            let c = old(m).inner.current_task as int;
            let elapsed = (now_ms - old(m).inner.stop_time) as usize;
            let mid = old(m).inner.tasks@.update(
                c,
                tcb_exited(old(m).inner.tasks@[c], elapsed, now_ms),
            );
            let mid_real = noted.inner.tasks@.update(
                c,
                tcb_exited(noted.inner.tasks@[c], elapsed, now_ms),
            );
            assert(statuses(mid_real) =~= statuses(mid));
            if find_next_in_scan(statuses(mid), c, 0) is Some {
                lemma_find_next_found_ready(statuses(mid), c, 0);
            }
        }
        match d {
            ScheduleDecision::Switch { prev, next } => SyscallOutcome::Switch { prev, next },
            ScheduleDecision::Shutdown => SyscallOutcome::Shutdown,
        }
    } else if syscall_id == SYSCALL_YIELD {
        m.set_syscall_info(2);
        let ghost noted = *m;
        let d = sys_yield(m, now_ms);
        proof {
            let c = old(m).inner.current_task as int;
            let elapsed = (now_ms - old(m).inner.stop_time) as usize;
            let mid = old(m).inner.tasks@.update(
                c,
                tcb_suspended(old(m).inner.tasks@[c], elapsed),
            );
            let mid_real = noted.inner.tasks@.update(
                c,
                tcb_suspended(noted.inner.tasks@[c], elapsed),
            );
            assert(statuses(mid_real) =~= statuses(mid));
        }
        match d {
            ScheduleDecision::Switch { prev, next } => SyscallOutcome::Switch { prev, next },
            ScheduleDecision::Shutdown => {
                proof {
                    assert(false);
                }
                SyscallOutcome::Shutdown
            },
        }
    } else if syscall_id == SYSCALL_GET_TIME {
        m.set_syscall_info(3);
        let ret = sys_get_time(space, args[0], now_us);
        SyscallOutcome::Return(ret)
    } else if syscall_id == SYSCALL_TASK_INFO {
        m.set_syscall_info(4);
        let mut snapshot = TaskInfo::new();
        let ret = m.get_task_info(args[0], &mut snapshot);
        if ret == 1 {
            SyscallOutcome::Info(snapshot)
        } else {
            SyscallOutcome::Return(-1)
        }
    } else {
        SyscallOutcome::Fatal
    }
}

} // verus!
