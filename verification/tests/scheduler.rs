use task_core::manager::{
    exit_current_and_run_next, suspend_current_and_run_next, ScheduleDecision, TaskManager,
};
use task_core::task::{TaskContext, TaskStatus};

fn make_manager(n: usize) -> TaskManager {
    let mut contexts: Vec<TaskContext> = Vec::new();
    for i in 0..n {
        contexts.push(TaskContext::goto_restore(0x8020_0000, 0x8100_0000 + i * 0x2000));
    }
    TaskManager::new(contexts)
}

#[test]
fn construction_makes_all_ready() {
    let m = make_manager(3);
    assert_eq!(m.num_app, 3);
    assert_eq!(m.inner.current_task, 0);
    assert_eq!(m.inner.stop_time, 0);
    for i in 0..3 {
        assert_eq!(m.inner.tasks[i].task_info.status, TaskStatus::Ready);
        assert_eq!(m.inner.tasks[i].task_info.id, i);
        assert_eq!(m.inner.tasks[i].task_info.time, 0);
        assert_eq!(m.inner.tasks[i].user_time, 0);
        assert_eq!(m.inner.tasks[i].kernel_time, 0);
    }
    assert_eq!(m.inner.tasks[1].task_cx.ra, 0x8020_0000);
    assert_eq!(m.inner.tasks[1].task_cx.sp, 0x8100_2000);
}

#[test]
fn first_task_starts_running() {
    let mut m = make_manager(2);
    m.run_first_task(100);
    assert_eq!(m.inner.tasks[0].task_info.status, TaskStatus::Running);
    assert_eq!(m.inner.tasks[0].task_info.time, 100);
    assert_eq!(m.inner.tasks[1].task_info.status, TaskStatus::Ready);
    assert_eq!(m.inner.stop_time, 100);
    assert_eq!(m.inner.current_task, 0);
}

#[test]
fn three_tasks_round_robin() {
    // three Ready tasks at slots {0, 1, 2} with current = 0: a yield from 0
    // selects 1, then 2, then 0 again - cyclic, never the caller while
    // another Ready task exists
    let mut m = make_manager(3);
    m.run_first_task(0);
    let d = suspend_current_and_run_next(&mut m, 0);
    assert_eq!(d, ScheduleDecision::Switch { prev: 0, next: 1 });
    assert_eq!(m.inner.current_task, 1);
    let d = suspend_current_and_run_next(&mut m, 0);
    assert_eq!(d, ScheduleDecision::Switch { prev: 1, next: 2 });
    assert_eq!(m.inner.current_task, 2);
    let d = suspend_current_and_run_next(&mut m, 0);
    assert_eq!(d, ScheduleDecision::Switch { prev: 2, next: 0 });
    assert_eq!(m.inner.current_task, 0);
    assert_eq!(m.inner.tasks[0].task_info.status, TaskStatus::Running);
    assert_eq!(m.inner.tasks[1].task_info.status, TaskStatus::Ready);
    assert_eq!(m.inner.tasks[2].task_info.status, TaskStatus::Ready);
}

#[test]
fn single_task_exit_shuts_down() {
    // with one task that immediately exits, the scheduler finds no Ready
    // task and reports orderly shutdown - no panic
    let mut m = make_manager(1);
    m.run_first_task(0);
    let d = exit_current_and_run_next(&mut m, 5);
    assert_eq!(d, ScheduleDecision::Shutdown);
    assert_eq!(m.inner.tasks[0].task_info.status, TaskStatus::Exited);
    assert_eq!(m.inner.current_task, 0);
}

#[test]
fn exited_task_is_never_reselected() {
    // once a slot is Exited, later scheduling never makes it Running or
    // Ready again: a lone survivor yields back to itself
    let mut m = make_manager(2);
    m.run_first_task(0);
    let d = exit_current_and_run_next(&mut m, 0);
    assert_eq!(d, ScheduleDecision::Switch { prev: 0, next: 1 });
    assert_eq!(m.inner.tasks[0].task_info.status, TaskStatus::Exited);
    for _ in 0..3 {
        let d = suspend_current_and_run_next(&mut m, 0);
        assert_eq!(d, ScheduleDecision::Switch { prev: 1, next: 1 });
        assert_eq!(m.inner.tasks[0].task_info.status, TaskStatus::Exited);
        assert_eq!(m.inner.tasks[1].task_info.status, TaskStatus::Running);
    }
    let d = exit_current_and_run_next(&mut m, 0);
    assert_eq!(d, ScheduleDecision::Shutdown);
    assert_eq!(m.inner.tasks[0].task_info.status, TaskStatus::Exited);
    assert_eq!(m.inner.tasks[1].task_info.status, TaskStatus::Exited);
}

#[test]
fn at_most_one_task_running() {
    // walk a short schedule and check the single-Running invariant at every
    // step
    let mut m = make_manager(3);
    m.run_first_task(0);
    let count_running = |m: &TaskManager| {
        (0..m.num_app)
            .filter(|&i| m.inner.tasks[i].task_info.status == TaskStatus::Running)
            .count()
    };
    assert_eq!(count_running(&m), 1);
    suspend_current_and_run_next(&mut m, 1);
    assert_eq!(count_running(&m), 1);
    exit_current_and_run_next(&mut m, 2);
    assert_eq!(count_running(&m), 1);
    exit_current_and_run_next(&mut m, 3);
    assert_eq!(count_running(&m), 1);
    let d = exit_current_and_run_next(&mut m, 4);
    assert_eq!(d, ScheduleDecision::Shutdown);
    assert_eq!(count_running(&m), 0);
}

#[test]
fn suspend_bills_kernel_time() {
    let mut m = make_manager(2);
    m.run_first_task(100);
    let d = suspend_current_and_run_next(&mut m, 150);
    assert_eq!(d, ScheduleDecision::Switch { prev: 0, next: 1 });
    assert_eq!(m.inner.tasks[0].kernel_time, 50);
    assert_eq!(m.inner.tasks[0].task_info.status, TaskStatus::Ready);
    assert_eq!(m.inner.stop_time, 150);
    // the newly selected task records its first-scheduled timestamp
    assert_eq!(m.inner.tasks[1].task_info.time, 150);
}

#[test]
fn exit_records_wall_clock_lifetime() {
    let mut m = make_manager(1);
    m.run_first_task(100);
    let d = exit_current_and_run_next(&mut m, 250);
    assert_eq!(d, ScheduleDecision::Shutdown);
    // time now holds exit timestamp minus first-scheduled timestamp
    assert_eq!(m.inner.tasks[0].task_info.time, 150);
    assert_eq!(m.inner.tasks[0].kernel_time, 150);
}

#[test]
fn user_time_is_billed_between_start_and_end() {
    let mut m = make_manager(1);
    m.run_first_task(0);
    m.user_time_start(10);
    m.user_time_end(25);
    assert_eq!(m.inner.tasks[0].user_time, 15);
    assert_eq!(m.inner.tasks[0].kernel_time, 0);
    assert_eq!(m.inner.stop_time, 25);
}

#[test]
fn first_scheduled_timestamp_is_kept_on_reschedule() {
    let mut m = make_manager(2);
    m.run_first_task(7);
    suspend_current_and_run_next(&mut m, 20);
    // slot 1 first scheduled at 20
    assert_eq!(m.inner.tasks[1].task_info.time, 20);
    suspend_current_and_run_next(&mut m, 30);
    // back to slot 0; its first-scheduled timestamp stays 7
    assert_eq!(m.inner.current_task, 0);
    assert_eq!(m.inner.tasks[0].task_info.time, 7);
    suspend_current_and_run_next(&mut m, 40);
    // and slot 1 keeps 20
    assert_eq!(m.inner.tasks[1].task_info.time, 20);
}

#[test]
fn find_next_task_scans_after_current() {
    let mut m = make_manager(3);
    m.run_first_task(0);
    assert_eq!(m.find_next_task(), Some(1));
    suspend_current_and_run_next(&mut m, 0);
    assert_eq!(m.inner.current_task, 1);
    assert_eq!(m.find_next_task(), Some(2));
}

#[test]
fn get_task_info_copies_snapshot() {
    let mut m = make_manager(2);
    m.run_first_task(42);
    let mut out = task_core::task::TaskInfo::new();
    let r = m.get_task_info(0, &mut out);
    assert_eq!(r, 1);
    assert_eq!(out.status, TaskStatus::Running);
    assert_eq!(out.id, 0);
    assert_eq!(out.time, 42);
}

#[test]
fn get_task_info_out_of_range_is_reported() {
    let m = make_manager(2);
    let mut out = task_core::task::TaskInfo::new();
    let before = out;
    let r = m.get_task_info(2, &mut out);
    assert_eq!(r, -1);
    // the caller's storage is untouched
    assert_eq!(out.status, before.status);
    assert_eq!(out.id, before.id);
    assert_eq!(out.time, before.time);
}
