//! The task manager: a fixed table of task control blocks, the index of the
//! task that currently holds the core, and the round-robin scheduling policy.
//!
//! The manager is constructed once at boot and threaded by `&mut` reference
//! into the dispatcher and scheduler entry points, so exclusive access is a
//! compile-time fact rather than a runtime check. The control transfer
//! itself (the register swap) happens outside this crate: the scheduling
//! operations update the table and return a [`ScheduleDecision`] telling the
//! caller which saved contexts to swap, or that no runnable task remains.

use vstd::prelude::*;

use crate::syscall::{bump_call, SYSCALL_KINDS};
use crate::task::{call_table_wf, TaskContext, TaskControlBlock, TaskInfo, TaskStatus};

verus! {

/// What the scheduler decided: swap from `prev`'s saved context into
/// `next`'s, or shut the machine down because every task has exited.
#[derive(Clone, Copy, Debug, PartialEq, Eq, Structural)]
pub enum ScheduleDecision {
    /// Save the outgoing flow into slot `prev`'s context and resume slot
    /// `next`'s. `prev == next` resumes the caller itself.
    Switch {
        /// slot whose context receives the outgoing flow
        prev: usize,
        /// slot whose context is resumed
        next: usize,
    },
    /// No task is Ready: every application has completed.
    Shutdown,
}

/// The mutable scheduler state: the task table, the current slot, and the
/// timestamp of the last transition into or out of user mode.
pub struct TaskManagerInner {
    /// one control block per application slot
    pub tasks: Vec<TaskControlBlock>,
    /// index of the Running task (or of the task about to become Running)
    pub current_task: usize,
    /// last billing timestamp, milliseconds
    pub stop_time: usize,
}

/// The task manager: the number of application slots and the mutable state.
pub struct TaskManager {
    /// total number of tasks
    pub num_app: usize,
    /// the task table and billing state
    pub inner: TaskManagerInner,
}

/// The lifecycle statuses of a task table, in slot order.
pub open spec fn statuses(tasks: Seq<TaskControlBlock>) -> Seq<TaskStatus> {
    tasks.map(|i: int, t: TaskControlBlock| t.task_info.status)
}

/// No two distinct slots are Running at once.
pub open spec fn at_most_one_running(tasks: Seq<TaskControlBlock>) -> bool {
    forall|i: int, j: int|
        0 <= i < tasks.len() && 0 <= j < tasks.len()
            && #[trigger] tasks[i].task_info.status == TaskStatus::Running
            && #[trigger] tasks[j].task_info.status == TaskStatus::Running ==> i == j
}

impl TaskManager {
    /// Invariant of one slot: a Running slot is the current one, the
    /// instrumentation table is labelled correctly, the slot knows its own
    /// index, and a live slot's first-scheduled timestamp is no later than
    /// the last billing timestamp.
    pub open spec fn slot_inv(self, i: int) -> bool {
        let t = self.inner.tasks@[i];
        &&& (t.task_info.status == TaskStatus::Running ==> i == self.inner.current_task)
        &&& call_table_wf(t.task_info)
        &&& t.task_info.id == i
        &&& (t.task_info.status != TaskStatus::Exited ==> t.task_info.time <= self.inner.stop_time)
    }

    /// Well-formedness of the whole manager. Established at construction and
    /// preserved by every operation; in particular it keeps at most one task
    /// Running at any instant.
    pub open spec fn wf(self) -> bool {
        &&& self.num_app >= 1
        &&& self.inner.tasks@.len() == self.num_app
        &&& self.inner.current_task < self.num_app
        &&& forall|i: int| 0 <= i < self.num_app ==> #[trigger] self.slot_inv(i)
    }

    /// Build the manager from the loader's initial contexts: one Ready task
    /// per slot, counters zeroed, first-scheduled timestamps unset, slot 0
    /// current.
    pub fn new(init_contexts: Vec<TaskContext>) -> (r: TaskManager)
        requires
            init_contexts@.len() >= 1,
        ensures
            r.wf(),
            r.num_app == init_contexts@.len(),
            r.inner.current_task == 0,
            r.inner.stop_time == 0,
            r.inner.tasks@.len() == init_contexts@.len(),
            forall|i: int|
                0 <= i < init_contexts@.len() ==> {
                    let t = #[trigger] r.inner.tasks@[i];
                    &&& t.task_cx == init_contexts@[i]
                    &&& t.task_info.status == TaskStatus::Ready
                    &&& t.task_info.time == 0
                    &&& t.task_info.id == i
                    &&& (forall|j: int|
                        0 <= j < SYSCALL_KINDS ==> (#[trigger] t.task_info.call@[j]).times == 0)
                    &&& t.user_time == 0
                    &&& t.kernel_time == 0
                },
    {
        let num_app = init_contexts.len();
        let mut tasks: Vec<TaskControlBlock> = Vec::new();
        let mut i: usize = 0;
        while i < num_app
            invariant
                i <= num_app,
                num_app == init_contexts@.len(),
                tasks@.len() == i,
                forall|k: int|
                    0 <= k < i ==> {
                        let t = #[trigger] tasks@[k];
                        &&& t.task_cx == init_contexts@[k]
                        &&& t.task_info.status == TaskStatus::Ready
                        &&& t.task_info.time == 0
                        &&& t.task_info.id == k
                        &&& call_table_wf(t.task_info)
                        &&& (forall|j: int|
                            0 <= j < SYSCALL_KINDS ==> (#[trigger] t.task_info.call@[j]).times == 0)
                        &&& t.user_time == 0
                        &&& t.kernel_time == 0
                    },
            decreases num_app - i,
        {
            let mut info = TaskInfo::new();
            info.status = TaskStatus::Ready;
            info.id = i;
            tasks.push(TaskControlBlock {
                task_cx: init_contexts[i],
                task_info: info,
                user_time: 0,
                kernel_time: 0,
            });
            i = i + 1;
        }
        TaskManager { num_app, inner: TaskManagerInner { tasks, current_task: 0, stop_time: 0 } }
    }
}

/// A control block at the moment its task is first entered: Running, with
/// its first-scheduled timestamp recorded.
pub open spec fn tcb_started(t: TaskControlBlock, now_ms: usize) -> TaskControlBlock {
    TaskControlBlock {
        task_info: TaskInfo { status: TaskStatus::Running, time: now_ms, ..t.task_info },
        ..t
    }
}

/// A control block after a voluntary yield: Ready again, with the elapsed
/// kernel time billed.
pub open spec fn tcb_suspended(t: TaskControlBlock, elapsed: usize) -> TaskControlBlock {
    TaskControlBlock {
        task_info: TaskInfo { status: TaskStatus::Ready, ..t.task_info },
        kernel_time: (t.kernel_time + elapsed) as usize,
        ..t
    }
}

/// A control block after a voluntary exit: Exited for good, elapsed kernel
/// time billed, and the time field now holding the task's total wall-clock
/// lifetime (exit timestamp minus first-scheduled timestamp).
pub open spec fn tcb_exited(t: TaskControlBlock, elapsed: usize, now_ms: usize) -> TaskControlBlock {
    TaskControlBlock {
        task_info: TaskInfo {
            status: TaskStatus::Exited,
            time: (now_ms - t.task_info.time) as usize,
            ..t.task_info
        },
        kernel_time: (t.kernel_time + elapsed) as usize,
        ..t
    }
}

/// A control block at the moment the scheduler selects it: Running, with its
/// first-scheduled timestamp set if it was still unset.
pub open spec fn tcb_scheduled(t: TaskControlBlock, now_ms: usize) -> TaskControlBlock {
    TaskControlBlock {
        task_info: TaskInfo {
            status: TaskStatus::Running,
            time: if t.task_info.time == 0 { now_ms } else { t.task_info.time },
            ..t.task_info
        },
        ..t
    }
}

/// A control block with elapsed user time billed.
pub open spec fn tcb_user_billed(t: TaskControlBlock, elapsed: usize) -> TaskControlBlock {
    TaskControlBlock { user_time: (t.user_time + elapsed) as usize, ..t }
}

/// `post` is `pre` with exactly one more invocation recorded at
/// instrumentation slot `slot` and nothing else changed.
pub open spec fn tcb_noted(pre: TaskControlBlock, post: TaskControlBlock, slot: int) -> bool {
    &&& post.task_info.call@ == bump_call(pre.task_info.call@, slot)
    &&& post.task_info.status == pre.task_info.status
    &&& post.task_info.id == pre.task_info.id
    &&& post.task_info.time == pre.task_info.time
    &&& post.task_cx == pre.task_cx
    &&& post.user_time == pre.user_time
    &&& post.kernel_time == pre.kernel_time
}

/// `post` is `pre` with exactly one more invocation recorded at slot `slot`
/// of the current task's instrumentation table and nothing else changed
/// anywhere in the manager.
pub open spec fn noted_only(pre: TaskManager, post: TaskManager, slot: int) -> bool {
    &&& post.num_app == pre.num_app
    &&& post.inner.current_task == pre.inner.current_task
    &&& post.inner.stop_time == pre.inner.stop_time
    &&& post.inner.tasks@.len() == pre.inner.tasks@.len()
    &&& forall|i: int|
        0 <= i < pre.inner.tasks@.len() && i != pre.inner.current_task
            ==> post.inner.tasks@[i] == pre.inner.tasks@[i]
    &&& tcb_noted(
        pre.inner.tasks@[pre.inner.current_task as int],
        post.inner.tasks@[pre.inner.current_task as int],
        slot,
    )
}

impl TaskManagerInner {
    /// Advance the billing timestamp to `now_ms` and report how long it had
    /// stood, so the caller can bill the interval to the right accumulator.
    fn refresh_stop_time(&mut self, now_ms: usize) -> (elapsed: usize)
        requires
            old(self).stop_time <= now_ms,
        ensures
            elapsed == now_ms - old(self).stop_time,
            final(self).stop_time == now_ms,
            final(self).tasks@ == old(self).tasks@,
            final(self).current_task == old(self).current_task,
    {
        let last_time = self.stop_time;
        self.stop_time = now_ms;
        now_ms - last_time
    }
}

impl TaskManager {
    /// Enter the very first task: slot 0 becomes Running and its start
    /// timestamp is recorded. Runs exactly once, on the freshly constructed
    /// manager; the caller then performs the one-way transfer into slot 0's
    /// context and never returns here.
    pub fn run_first_task(&mut self, now_ms: usize)
        requires
            old(self).wf(),
            forall|i: int|
                0 <= i < old(self).num_app ==> (#[trigger] old(self).inner.tasks@[i]).task_info.status
                    == TaskStatus::Ready,
            old(self).inner.current_task == 0,
            old(self).inner.stop_time <= now_ms,
        ensures
            final(self).wf(),
            final(self).num_app == old(self).num_app,
            final(self).inner.current_task == 0,
            final(self).inner.stop_time == now_ms,
            final(self).inner.tasks@ == old(self).inner.tasks@.update(
                0,
                tcb_started(old(self).inner.tasks@[0], now_ms),
            ),
    {
        let mut task0 = self.inner.tasks[0];
        task0.task_info.status = TaskStatus::Running;
        task0.task_info.time = now_ms;
        self.inner.tasks.set(0, task0);
        let _elapsed = self.inner.refresh_stop_time(now_ms);
        proof {
            assert(task0 == tcb_started(old(self).inner.tasks@[0], now_ms));
            assert forall|i: int| 0 <= i < self.num_app implies #[trigger] self.slot_inv(i) by {
                assert(old(self).slot_inv(i));
            }
        }
    }

    /// Move the Running task back to Ready and bill the elapsed interval to
    /// its kernel-time accumulator. Used only as a precursor to
    /// [`TaskManager::run_next_task`]; it does not itself switch.
    pub fn mark_current_suspended(&mut self, now_ms: usize)
        requires
            old(self).wf(),
            old(self).inner.tasks@[old(self).inner.current_task as int].task_info.status
                == TaskStatus::Running,
            old(self).inner.stop_time <= now_ms,
            old(self).inner.tasks@[old(self).inner.current_task as int].kernel_time + (now_ms
                - old(self).inner.stop_time) <= usize::MAX,
        ensures
            final(self).wf(),
            final(self).num_app == old(self).num_app,
            final(self).inner.current_task == old(self).inner.current_task,
            final(self).inner.stop_time == now_ms,
            final(self).inner.tasks@ == old(self).inner.tasks@.update(
                old(self).inner.current_task as int,
                tcb_suspended(
                    old(self).inner.tasks@[old(self).inner.current_task as int],
                    (now_ms - old(self).inner.stop_time) as usize,
                ),
            ),
            forall|i: int|
                0 <= i < old(self).num_app && (#[trigger] old(self).inner.tasks@[i]).task_info.status
                    == TaskStatus::Exited ==> final(self).inner.tasks@[i].task_info.status
                    == TaskStatus::Exited,
    {
        let current = self.inner.current_task;
        let elapsed = self.inner.refresh_stop_time(now_ms);
        let mut task = self.inner.tasks[current];
        task.task_info.status = TaskStatus::Ready;
        task.kernel_time = task.kernel_time + elapsed;
        self.inner.tasks.set(current, task);
        proof {
            assert(task == tcb_suspended(
                old(self).inner.tasks@[current as int],
                (now_ms - old(self).inner.stop_time) as usize,
            ));
            assert forall|i: int| 0 <= i < self.num_app implies #[trigger] self.slot_inv(i) by {
                assert(old(self).slot_inv(i));
            }
        }
    }

    /// Move the Running task to Exited for good: bill the elapsed kernel
    /// time, and record its total wall-clock lifetime in the time field. The
    /// slot is never selectable again.
    pub fn mark_current_exited(&mut self, now_ms: usize)
        requires
            old(self).wf(),
            old(self).inner.tasks@[old(self).inner.current_task as int].task_info.status
                == TaskStatus::Running,
            old(self).inner.stop_time <= now_ms,
            old(self).inner.tasks@[old(self).inner.current_task as int].kernel_time + (now_ms
                - old(self).inner.stop_time) <= usize::MAX,
        ensures
            final(self).wf(),
            final(self).num_app == old(self).num_app,
            final(self).inner.current_task == old(self).inner.current_task,
            final(self).inner.stop_time == now_ms,
            final(self).inner.tasks@ == old(self).inner.tasks@.update(
                old(self).inner.current_task as int,
                tcb_exited(
                    old(self).inner.tasks@[old(self).inner.current_task as int],
                    (now_ms - old(self).inner.stop_time) as usize,
                    now_ms,
                ),
            ),
            forall|i: int|
                0 <= i < old(self).num_app && (#[trigger] old(self).inner.tasks@[i]).task_info.status
                    == TaskStatus::Exited ==> final(self).inner.tasks@[i].task_info.status
                    == TaskStatus::Exited,
    {
        let current = self.inner.current_task;
        proof {
            assert(old(self).slot_inv(current as int));
        }
        let elapsed = self.inner.refresh_stop_time(now_ms);
        let mut task = self.inner.tasks[current];
        task.task_info.status = TaskStatus::Exited;
        task.kernel_time = task.kernel_time + elapsed;
        let start_time = task.task_info.time;
        task.task_info.time = now_ms - start_time;
        self.inner.tasks.set(current, task);
        proof {
            assert(task == tcb_exited(
                old(self).inner.tasks@[current as int],
                (now_ms - old(self).inner.stop_time) as usize,
                now_ms,
            ));
            assert forall|i: int| 0 <= i < self.num_app implies #[trigger] self.slot_inv(i) by {
                assert(old(self).slot_inv(i));
            }
        }
    }
}

/// The slot visited at step `k` of the round-robin scan: the scan starts
/// immediately after `c` and wraps around once. Meaningful for `0 <= c < n`
/// and `0 <= k < n`, where it equals `(c + 1 + k) mod n`.
pub open spec fn rotation(c: int, k: int, n: int) -> int {
    if c + 1 + k < n {
        c + 1 + k
    } else {
        c + 1 + k - n
    }
}

/// The step at which the round-robin scan from `c` visits slot `i`: the
/// inverse of [`rotation`]. Slot `c` itself is visited last, at step `n - 1`.
pub open spec fn scan_position(c: int, i: int, n: int) -> int {
    if i > c {
        i - c - 1
    } else {
        i + n - c - 1
    }
}

/// The first Ready slot at or after step `k` of the round-robin scan from
/// `c`, or `None` if the rest of the scan finds none. The scheduling policy
/// is `find_next_in_scan(ss, c, 0)`.
pub open spec fn find_next_in_scan(ss: Seq<TaskStatus>, c: int, k: int) -> Option<int>
    decreases ss.len() - k,
{
    if k < 0 || k >= ss.len() {
        None
    } else if ss[rotation(c, k, ss.len() as int)] == TaskStatus::Ready {
        Some(rotation(c, k, ss.len() as int))
    } else {
        find_next_in_scan(ss, c, k + 1)
    }
}

/// The scan visits only valid slots, and rotation and scan position are
/// mutually inverse.
pub proof fn lemma_rotation_bijective(c: int, n: int)
    requires
        0 <= c < n,
    ensures
        forall|k: int| 0 <= k < n ==> 0 <= #[trigger] rotation(c, k, n) < n,
        forall|i: int| 0 <= i < n ==> 0 <= #[trigger] scan_position(c, i, n) < n,
        forall|i: int| 0 <= i < n ==> rotation(c, #[trigger] scan_position(c, i, n), n) == i,
        forall|k: int| 0 <= k < n ==> scan_position(c, #[trigger] rotation(c, k, n), n) == k,
        scan_position(c, c, n) == n - 1,
{
}

/// A found slot is a valid index and is Ready.
pub proof fn lemma_find_next_found_ready(ss: Seq<TaskStatus>, c: int, k: int)
    requires
        0 <= c < ss.len(),
        find_next_in_scan(ss, c, k) is Some,
    ensures
        ({
            let i = find_next_in_scan(ss, c, k)->Some_0;
            &&& 0 <= i < ss.len()
            &&& ss[i] == TaskStatus::Ready
        }),
    decreases ss.len() - k,
{
    let n = ss.len() as int;
    if k < 0 || k >= n {
    } else if ss[rotation(c, k, n)] == TaskStatus::Ready {
        lemma_rotation_bijective(c, n);
    } else {
        lemma_find_next_found_ready(ss, c, k + 1);
    }
}

/// If the scan finds nothing from step `k` on, no slot visited at or after
/// step `k` is Ready.
proof fn lemma_find_next_none_rest(ss: Seq<TaskStatus>, c: int, k: int)
    requires
        0 <= c < ss.len(),
        0 <= k,
        find_next_in_scan(ss, c, k) is None,
    ensures
        forall|j: int|
            k <= j < ss.len() ==> ss[#[trigger] rotation(c, j, ss.len() as int)]
                != TaskStatus::Ready,
    decreases ss.len() - k,
{
    let n = ss.len() as int;
    if k >= n {
    } else {
        lemma_find_next_none_rest(ss, c, k + 1);
    }
}

/// If the whole scan finds nothing, no slot at all is Ready: the scan visits
/// every slot exactly once.
pub proof fn lemma_find_next_none_no_ready(ss: Seq<TaskStatus>, c: int)
    requires
        0 <= c < ss.len(),
        find_next_in_scan(ss, c, 0) is None,
    ensures
        forall|i: int| 0 <= i < ss.len() ==> ss[i] != TaskStatus::Ready,
{
    let n = ss.len() as int;
    lemma_find_next_none_rest(ss, c, 0);
    lemma_rotation_bijective(c, n);
    assert forall|i: int| 0 <= i < n implies ss[i] != TaskStatus::Ready by {
        assert(rotation(c, scan_position(c, i, n), n) == i);
        assert(ss[rotation(c, scan_position(c, i, n), n)] != TaskStatus::Ready);
    }
}

/// If some slot is Ready, the scan finds one.
pub proof fn lemma_find_next_some_if_ready(ss: Seq<TaskStatus>, c: int, witness: int)
    requires
        0 <= c < ss.len(),
        0 <= witness < ss.len(),
        ss[witness] == TaskStatus::Ready,
    ensures
        find_next_in_scan(ss, c, 0) is Some,
{
    if find_next_in_scan(ss, c, 0) is None {
        lemma_find_next_none_no_ready(ss, c);
    }
}

/// The scan returns the Ready slot visited earliest: whatever it returns
/// stands at or before the scan position of any Ready slot.
proof fn lemma_find_next_earliest(ss: Seq<TaskStatus>, c: int, k: int, p: int)
    requires
        0 <= c < ss.len(),
        0 <= k <= p < ss.len(),
        ss[rotation(c, p, ss.len() as int)] == TaskStatus::Ready,
    ensures
        find_next_in_scan(ss, c, k) is Some,
        scan_position(c, find_next_in_scan(ss, c, k)->Some_0, ss.len() as int) <= p,
    decreases ss.len() - k,
{
    let n = ss.len() as int;
    lemma_rotation_bijective(c, n);
    if ss[rotation(c, k, n)] == TaskStatus::Ready {
    } else {
        lemma_find_next_earliest(ss, c, k + 1, p);
    }
}

/// Round-robin fairness: while some other slot is Ready, a scan from the
/// current slot never selects the current slot itself — the caller of a
/// yield cannot starve another Ready task.
pub proof fn lemma_scan_prefers_others(ss: Seq<TaskStatus>, c: int, other: int)
    requires
        0 <= c < ss.len(),
        0 <= other < ss.len(),
        other != c,
        ss[other] == TaskStatus::Ready,
    ensures
        find_next_in_scan(ss, c, 0) is Some,
        find_next_in_scan(ss, c, 0)->Some_0 != c,
        ss[find_next_in_scan(ss, c, 0)->Some_0] == TaskStatus::Ready,
{
    let n = ss.len() as int;
    lemma_rotation_bijective(c, n);
    let p = scan_position(c, other, n);
    assert(rotation(c, p, n) == other);
    lemma_find_next_earliest(ss, c, 0, p);
    let found = find_next_in_scan(ss, c, 0)->Some_0;
    lemma_find_next_found_ready(ss, c, 0);
    assert(scan_position(c, found, n) <= p);
    assert(p < n - 1);
    assert(scan_position(c, c, n) == n - 1);
}

impl TaskManager {
    /// Find the next task to run: the first Ready slot in the order
    /// `current + 1, current + 2, ...` wrapping around the table, so the scan
    /// considers the current slot last. `None` means no task is Ready and
    /// every application has completed.
    pub fn find_next_task(&self) -> (r: Option<usize>)
        requires
            self.wf(),
        ensures
            ({
                let found = find_next_in_scan(
                    statuses(self.inner.tasks@),
                    self.inner.current_task as int,
                    0,
                );
                match r {
                    Some(i) => {
                        &&& found == Some(i as int)
                        &&& i < self.num_app
                        &&& self.inner.tasks@[i as int].task_info.status == TaskStatus::Ready
                    },
                    None => {
                        &&& found is None
                        &&& forall|i: int|
                            0 <= i < self.num_app
                                ==> (#[trigger] self.inner.tasks@[i]).task_info.status
                                != TaskStatus::Ready
                    },
                }
            }),
    {
        let n = self.num_app;
        let c = self.inner.current_task;
        let ghost ss = statuses(self.inner.tasks@);
        proof {
            assert(ss.len() == n);
            assert forall|i: int| 0 <= i < n implies ss[i]
                == self.inner.tasks@[i].task_info.status by {}
        }
        let mut k: usize = 0;
        let mut id: usize = if c + 1 < n {
            c + 1
        } else {
            0
        };
        while k < n
            invariant
                self.wf(),
                n == self.num_app,
                c == self.inner.current_task,
                ss == statuses(self.inner.tasks@),
                ss.len() == n,
                k <= n,
                k < n ==> id == rotation(c as int, k as int, n as int),
                k < n ==> id < n,
                find_next_in_scan(ss, c as int, 0) == find_next_in_scan(ss, c as int, k as int),
            decreases n - k,
        {
            if self.inner.tasks[id].task_info.status == TaskStatus::Ready {
                proof {
                    assert(ss[id as int] == TaskStatus::Ready);
                    assert(find_next_in_scan(ss, c as int, k as int) == Some(id as int));
                }
                return Some(id);
            }
            proof {
                assert(ss[rotation(c as int, k as int, n as int)] != TaskStatus::Ready);
            }
            k = k + 1;
            id = if id + 1 < n {
                id + 1
            } else {
                0
            };
        }
        proof {
            assert(find_next_in_scan(ss, c as int, n as int) is None);
            lemma_find_next_none_no_ready(ss, c as int);
            assert forall|i: int|
                0 <= i < self.num_app implies (#[trigger] self.inner.tasks@[i]).task_info.status
                != TaskStatus::Ready by {
                assert(ss[i] == self.inner.tasks@[i].task_info.status);
            }
        }
        None
    }
}

impl TaskManager {
    /// Switch to the task the round-robin scan selects: mark it Running, set
    /// its first-scheduled timestamp if still unset, and make it current.
    /// Returns the pair of slots whose contexts the caller must swap, or
    /// [`ScheduleDecision::Shutdown`] when no task is Ready — the expected
    /// end state once every application has exited, not an error. Requires
    /// that no task is Running (the caller has just suspended or exited the
    /// current one).
    pub fn run_next_task(&mut self, now_ms: usize) -> (d: ScheduleDecision)
        requires
            old(self).wf(),
            old(self).inner.tasks@[old(self).inner.current_task as int].task_info.status
                != TaskStatus::Running,
            old(self).inner.stop_time <= now_ms,
        ensures
            final(self).wf(),
            final(self).num_app == old(self).num_app,
            ({
                let found = find_next_in_scan(
                    statuses(old(self).inner.tasks@),
                    old(self).inner.current_task as int,
                    0,
                );
                match found {
                    Some(n) => {
                        &&& d == (ScheduleDecision::Switch {
                            prev: old(self).inner.current_task,
                            next: n as usize,
                        })
                        &&& final(self).inner.current_task == n
                        &&& final(self).inner.stop_time == now_ms
                        &&& final(self).inner.tasks@ == old(self).inner.tasks@.update(
                            n,
                            tcb_scheduled(old(self).inner.tasks@[n], now_ms),
                        )
                    },
                    None => {
                        &&& d == ScheduleDecision::Shutdown
                        &&& *final(self) == *old(self)
                    },
                }
            }),
            forall|i: int|
                0 <= i < old(self).num_app && (#[trigger] old(self).inner.tasks@[i]).task_info.status
                    == TaskStatus::Exited ==> final(self).inner.tasks@[i].task_info.status
                    == TaskStatus::Exited,
    {
        match self.find_next_task() {
            Some(next) => {
                let current = self.inner.current_task;
                let mut task = self.inner.tasks[next];
                task.task_info.status = TaskStatus::Running;
                let _elapsed = self.inner.refresh_stop_time(now_ms);
                if task.task_info.time == 0 {
                    task.task_info.time = now_ms;
                }
                self.inner.tasks.set(next, task);
                self.inner.current_task = next;
                proof {
                    assert(task == tcb_scheduled(old(self).inner.tasks@[next as int], now_ms));
                    assert forall|i: int| 0 <= i < self.num_app implies #[trigger] self.slot_inv(
                        i,
                    ) by {
                        assert(old(self).slot_inv(i));
                    }
                }
                ScheduleDecision::Switch { prev: current, next }
            },
            None => ScheduleDecision::Shutdown,
        }
    }

    /// Open a stretch of user-mode execution: from now on, elapsed time is
    /// the current task's own, so the billing timestamp is advanced without
    /// charging anyone for the interval that ends here.
    pub fn user_time_start(&mut self, now_ms: usize)
        requires
            old(self).wf(),
            old(self).inner.stop_time <= now_ms,
        ensures
            final(self).wf(),
            final(self).num_app == old(self).num_app,
            final(self).inner.current_task == old(self).inner.current_task,
            final(self).inner.stop_time == now_ms,
            final(self).inner.tasks@ == old(self).inner.tasks@,
    {
        let _elapsed = self.inner.refresh_stop_time(now_ms);
        proof {
            assert forall|i: int| 0 <= i < self.num_app implies #[trigger] self.slot_inv(i) by {
                assert(old(self).slot_inv(i));
            }
        }
    }

    /// Close a stretch of user-mode execution: bill the interval since the
    /// last timestamp to the Running task's user-time accumulator.
    pub fn user_time_end(&mut self, now_ms: usize)
        requires
            old(self).wf(),
            old(self).inner.tasks@[old(self).inner.current_task as int].task_info.status
                == TaskStatus::Running,
            old(self).inner.stop_time <= now_ms,
            old(self).inner.tasks@[old(self).inner.current_task as int].user_time + (now_ms - old(
                self,
            ).inner.stop_time) <= usize::MAX,
        ensures
            final(self).wf(),
            final(self).num_app == old(self).num_app,
            final(self).inner.current_task == old(self).inner.current_task,
            final(self).inner.stop_time == now_ms,
            final(self).inner.tasks@ == old(self).inner.tasks@.update(
                old(self).inner.current_task as int,
                tcb_user_billed(
                    old(self).inner.tasks@[old(self).inner.current_task as int],
                    (now_ms - old(self).inner.stop_time) as usize,
                ),
            ),
    {
        let current = self.inner.current_task;
        let elapsed = self.inner.refresh_stop_time(now_ms);
        let mut task = self.inner.tasks[current];
        task.user_time = task.user_time + elapsed;
        self.inner.tasks.set(current, task);
        proof {
            assert(task == tcb_user_billed(
                old(self).inner.tasks@[current as int],
                (now_ms - old(self).inner.stop_time) as usize,
            ));
            assert forall|i: int| 0 <= i < self.num_app implies #[trigger] self.slot_inv(i) by {
                assert(old(self).slot_inv(i));
            }
        }
    }

    /// Record one invocation of the syscall at instrumentation slot
    /// `sys_info_id` against the Running task. Called before any blocking or
    /// terminating effect of the call, so the count reflects the invocation
    /// even if the call never returns.
    pub fn set_syscall_info(&mut self, sys_info_id: usize)
        requires
            old(self).wf(),
            sys_info_id < SYSCALL_KINDS,
            old(self).inner.tasks@[old(self).inner.current_task as int].task_info.status
                == TaskStatus::Running,
            old(self).inner.tasks@[old(self).inner.current_task as int].task_info.call@[sys_info_id as int].times
                < usize::MAX,
        ensures
            final(self).wf(),
            noted_only(*old(self), *final(self), sys_info_id as int),
    {
        let current = self.inner.current_task;
        let mut task = self.inner.tasks[current];
        let mut table = task.task_info.call;
        let mut info = table[sys_info_id];
        info.times = info.times + 1;
        table[sys_info_id] = info;
        task.task_info.call = table;
        self.inner.tasks.set(current, task);
        proof {
            assert(table@ == bump_call(
                old(self).inner.tasks@[current as int].task_info.call@,
                sys_info_id as int,
            ));
            assert forall|i: int| 0 <= i < self.num_app implies #[trigger] self.slot_inv(i) by {
                assert(old(self).slot_inv(i));
            }
        }
    }

    /// Copy a snapshot of slot `task_id`'s instrumentation record, status
    /// and elapsed time into the caller's storage. An out-of-range slot is a
    /// recoverable error reported to the caller, not a panic.
    pub fn get_task_info(&self, task_id: usize, ts: &mut TaskInfo) -> (r: isize)
        requires
            self.wf(),
        ensures
            task_id < self.num_app ==> r == 1 && *final(ts) == self.inner.tasks@[task_id as int].task_info,
            task_id >= self.num_app ==> r == -1 && *final(ts) == *old(ts),
    {
        if task_id >= self.num_app {
            return -1;
        }
        *ts = self.inner.tasks[task_id].task_info;
        1
    }
}

/// Suspend the Running task, then switch to the next Ready one. Because the
/// suspended task itself becomes Ready again, the scan always finds a task:
/// a yield never shuts the machine down, and while any other task is Ready
/// the yielder is never re-selected.
pub fn suspend_current_and_run_next(m: &mut TaskManager, now_ms: usize) -> (d: ScheduleDecision)
    requires
        old(m).wf(),
        old(m).inner.tasks@[old(m).inner.current_task as int].task_info.status
            == TaskStatus::Running,
        old(m).inner.stop_time <= now_ms,
        old(m).inner.tasks@[old(m).inner.current_task as int].kernel_time + (now_ms - old(
            m,
        ).inner.stop_time) <= usize::MAX,
    ensures
        final(m).wf(),
        final(m).num_app == old(m).num_app,
        ({
            let c = old(m).inner.current_task as int;
            let elapsed = (now_ms - old(m).inner.stop_time) as usize;
            let mid = old(m).inner.tasks@.update(c, tcb_suspended(old(m).inner.tasks@[c], elapsed));
            let found = find_next_in_scan(statuses(mid), c, 0);
            &&& found is Some
            &&& ({
                let n = found->Some_0;
                &&& d == (ScheduleDecision::Switch { prev: c as usize, next: n as usize })
                &&& final(m).inner.current_task == n
                &&& final(m).inner.stop_time == now_ms
                &&& final(m).inner.tasks@ == mid.update(n, tcb_scheduled(mid[n], now_ms))
            })
        }),
        forall|i: int|
            0 <= i < old(m).num_app && (#[trigger] old(m).inner.tasks@[i]).task_info.status
                == TaskStatus::Exited ==> final(m).inner.tasks@[i].task_info.status
                == TaskStatus::Exited,
{
    m.mark_current_suspended(now_ms);
    proof {
        let c = old(m).inner.current_task as int;
        assert(statuses(m.inner.tasks@)[c] == TaskStatus::Ready);
        lemma_find_next_some_if_ready(statuses(m.inner.tasks@), c, c);
    }
    m.run_next_task(now_ms)
}

/// Exit the Running task for good, then switch to the next Ready one, or
/// report that every application has completed and the machine should shut
/// down.
pub fn exit_current_and_run_next(m: &mut TaskManager, now_ms: usize) -> (d: ScheduleDecision)
    requires
        old(m).wf(),
        old(m).inner.tasks@[old(m).inner.current_task as int].task_info.status
            == TaskStatus::Running,
        old(m).inner.stop_time <= now_ms,
        old(m).inner.tasks@[old(m).inner.current_task as int].kernel_time + (now_ms - old(
            m,
        ).inner.stop_time) <= usize::MAX,
    ensures
        final(m).wf(),
        final(m).num_app == old(m).num_app,
        ({
            let c = old(m).inner.current_task as int;
            let elapsed = (now_ms - old(m).inner.stop_time) as usize;
            let mid = old(m).inner.tasks@.update(
                c,
                tcb_exited(old(m).inner.tasks@[c], elapsed, now_ms),
            );
            let found = find_next_in_scan(statuses(mid), c, 0);
            match found {
                Some(n) => {
                    &&& d == (ScheduleDecision::Switch { prev: c as usize, next: n as usize })
                    &&& final(m).inner.current_task == n
                    &&& final(m).inner.stop_time == now_ms
                    &&& final(m).inner.tasks@ == mid.update(n, tcb_scheduled(mid[n], now_ms))
                },
                None => {
                    &&& d == ScheduleDecision::Shutdown
                    &&& final(m).inner.current_task == c
                    &&& final(m).inner.stop_time == now_ms
                    &&& final(m).inner.tasks@ == mid
                },
            }
        }),
        forall|i: int|
            0 <= i < old(m).num_app && (#[trigger] old(m).inner.tasks@[i]).task_info.status
                == TaskStatus::Exited ==> final(m).inner.tasks@[i].task_info.status
                == TaskStatus::Exited,
{
    m.mark_current_exited(now_ms);
    m.run_next_task(now_ms)
}

/// The single-Running invariant, as a stated law: in any well-formed manager
/// state — and every operation of this module both requires and re-ensures
/// well-formedness, so every reachable state is one — at most one task is
/// Running, and once every task has Exited none is Running.
pub proof fn lemma_single_running(m: TaskManager)
    requires
        m.wf(),
    ensures
        at_most_one_running(m.inner.tasks@),
        (forall|i: int|
            0 <= i < m.inner.tasks@.len() ==> (#[trigger] m.inner.tasks@[i]).task_info.status
                == TaskStatus::Exited) ==> forall|i: int|
            0 <= i < m.inner.tasks@.len() ==> (#[trigger] m.inner.tasks@[i]).task_info.status
                != TaskStatus::Running,
{
    assert forall|i: int, j: int|
        0 <= i < m.inner.tasks@.len() && 0 <= j < m.inner.tasks@.len()
            && #[trigger] m.inner.tasks@[i].task_info.status == TaskStatus::Running
            && #[trigger] m.inner.tasks@[j].task_info.status == TaskStatus::Running implies i
        == j by {
        assert(m.slot_inv(i));
        assert(m.slot_inv(j));
    }
}

} // verus!
