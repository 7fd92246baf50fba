use task_core::manager::TaskManager;
use task_core::mem::{copy_from_user, copy_to_user, UserSpace};
use task_core::process::sys_mmap;
use task_core::syscall::{decode_syscall, syscall, SyscallId, SyscallInfo, SyscallOutcome};
use task_core::task::{TaskContext, TaskInfo, TaskStatus};

const WRITE: usize = 64;
const EXIT: usize = 93;
const YIELD: usize = 124;
const GET_TIME: usize = 169;
const TASK_INFO: usize = 410;

fn make_manager(n: usize) -> TaskManager {
    let mut contexts: Vec<TaskContext> = Vec::new();
    for _ in 0..n {
        contexts.push(TaskContext::zero_init());
    }
    let mut m = TaskManager::new(contexts);
    m.run_first_task(0);
    m
}

#[test]
fn with_id_labels_each_slot() {
    let mut info = SyscallInfo { id: 0, times: 7 };
    info.with_id(0);
    assert_eq!(info.id, WRITE);
    info.with_id(1);
    assert_eq!(info.id, EXIT);
    info.with_id(2);
    assert_eq!(info.id, YIELD);
    info.with_id(3);
    assert_eq!(info.id, GET_TIME);
    info.with_id(4);
    assert_eq!(info.id, TASK_INFO);
    // the counter is never touched
    assert_eq!(info.times, 7);
}

#[test]
fn task_info_new_is_labelled_and_zeroed() {
    let info = TaskInfo::new();
    assert_eq!(info.id, 0);
    assert_eq!(info.status, TaskStatus::UnInit);
    assert_eq!(info.time, 0);
    let expected = [WRITE, EXIT, YIELD, GET_TIME, TASK_INFO];
    for j in 0..5 {
        assert_eq!(info.call[j].id, expected[j]);
        assert_eq!(info.call[j].times, 0);
    }
}

#[test]
fn decode_recognises_the_closed_enumeration() {
    assert!(matches!(decode_syscall(WRITE), Some(SyscallId::SyscallWrite)));
    assert!(matches!(decode_syscall(EXIT), Some(SyscallId::SyscallExit)));
    assert!(matches!(decode_syscall(YIELD), Some(SyscallId::SyscallYield)));
    assert!(matches!(decode_syscall(GET_TIME), Some(SyscallId::SyscallGetTime)));
    assert!(matches!(decode_syscall(TASK_INFO), Some(SyscallId::SyscallTaskInfo)));
    assert!(decode_syscall(0).is_none());
    assert!(decode_syscall(409).is_none());
    assert!(decode_syscall(999).is_none());
}

#[test]
fn unknown_syscall_is_fatal() {
    // an identifier outside the closed enumeration takes the fatal path:
    // the dispatcher records nothing, changes nothing, and the caller halts
    let mut m = make_manager(1);
    let mut space = UserSpace::new();
    let r = syscall(&mut m, &mut space, 999, [0, 0, 0], 0, 0);
    assert!(matches!(r, SyscallOutcome::Fatal));
    for j in 0..5 {
        assert_eq!(m.inner.tasks[0].task_info.call[j].times, 0);
    }
    assert_eq!(m.inner.tasks[0].task_info.status, TaskStatus::Running);
}

#[test]
fn yield_counts_each_invocation() {
    // after exactly k yield calls from one task, its yield counter is k
    let mut m = make_manager(1);
    let mut space = UserSpace::new();
    for k in 1..=3 {
        let r = syscall(&mut m, &mut space, YIELD, [0, 0, 0], 0, 0);
        assert!(matches!(r, SyscallOutcome::Switch { prev: 0, next: 0 }));
        assert_eq!(m.inner.tasks[0].task_info.call[2].times, k);
    }
    assert_eq!(m.inner.tasks[0].task_info.call[0].times, 0);
    assert_eq!(m.inner.tasks[0].task_info.call[1].times, 0);
    assert_eq!(m.inner.tasks[0].task_info.call[3].times, 0);
    assert_eq!(m.inner.tasks[0].task_info.call[4].times, 0);
}

#[test]
fn yield_switches_round_robin() {
    let mut m = make_manager(3);
    let mut space = UserSpace::new();
    let r = syscall(&mut m, &mut space, YIELD, [0, 0, 0], 0, 0);
    assert!(matches!(r, SyscallOutcome::Switch { prev: 0, next: 1 }));
    let r = syscall(&mut m, &mut space, YIELD, [0, 0, 0], 0, 0);
    assert!(matches!(r, SyscallOutcome::Switch { prev: 1, next: 2 }));
    let r = syscall(&mut m, &mut space, YIELD, [0, 0, 0], 0, 0);
    assert!(matches!(r, SyscallOutcome::Switch { prev: 2, next: 0 }));
}

#[test]
fn exit_of_last_task_reports_shutdown() {
    let mut m = make_manager(1);
    let mut space = UserSpace::new();
    let r = syscall(&mut m, &mut space, EXIT, [0, 0, 0], 9, 0);
    assert!(matches!(r, SyscallOutcome::Shutdown));
    assert_eq!(m.inner.tasks[0].task_info.status, TaskStatus::Exited);
    assert_eq!(m.inner.tasks[0].task_info.call[1].times, 1);
}

#[test]
fn exit_switches_to_survivor() {
    let mut m = make_manager(2);
    let mut space = UserSpace::new();
    let r = syscall(&mut m, &mut space, EXIT, [0, 0, 0], 0, 0);
    assert!(matches!(r, SyscallOutcome::Switch { prev: 0, next: 1 }));
    assert_eq!(m.inner.tasks[0].task_info.status, TaskStatus::Exited);
    assert_eq!(m.inner.tasks[1].task_info.status, TaskStatus::Running);
}

#[test]
fn task_info_query_includes_its_own_invocation() {
    // the invocation is recorded before the snapshot is taken, so a task
    // querying itself sees its own task-info counter already incremented
    let mut m = make_manager(2);
    let mut space = UserSpace::new();
    let r = syscall(&mut m, &mut space, TASK_INFO, [0, 0, 0], 0, 0);
    match r {
        SyscallOutcome::Info(info) => {
            assert_eq!(info.id, 0);
            assert_eq!(info.status, TaskStatus::Running);
            assert_eq!(info.call[4].times, 1);
        },
        other => panic!("expected Info, got {:?}", other),
    }
}

#[test]
fn task_info_out_of_range_is_an_error() {
    let mut m = make_manager(2);
    let mut space = UserSpace::new();
    let r = syscall(&mut m, &mut space, TASK_INFO, [2, 0, 0], 0, 0);
    assert!(matches!(r, SyscallOutcome::Return(-1)));
    // the failed query is still counted
    assert_eq!(m.inner.tasks[0].task_info.call[4].times, 1);
}

#[test]
fn get_time_writes_little_endian_record() {
    let mut m = make_manager(1);
    let mut space = UserSpace::new();
    assert_eq!(sys_mmap(&mut space, 0x10000, 4096, 3), 0);
    // 3.456789 seconds
    let r = syscall(&mut m, &mut space, GET_TIME, [0x10000, 0, 0], 0, 3_456_789);
    assert!(matches!(r, SyscallOutcome::Return(0)));
    let bytes = copy_from_user(&space, 0x10000, 16).unwrap();
    let mut expected = vec![3u8, 0, 0, 0, 0, 0, 0, 0];
    // 456789 == 0x06F855
    expected.extend_from_slice(&[0x55, 0xF8, 0x06, 0, 0, 0, 0, 0]);
    assert_eq!(bytes, expected);
    assert_eq!(m.inner.tasks[0].task_info.call[3].times, 1);
}

#[test]
fn get_time_to_unmapped_buffer_fails() {
    let mut m = make_manager(1);
    let mut space = UserSpace::new();
    let r = syscall(&mut m, &mut space, GET_TIME, [0x10000, 0, 0], 0, 1);
    assert!(matches!(r, SyscallOutcome::Return(-1)));
    // counted even though it failed
    assert_eq!(m.inner.tasks[0].task_info.call[3].times, 1);
}

#[test]
fn write_hands_out_the_user_bytes() {
    let mut m = make_manager(1);
    let mut space = UserSpace::new();
    assert_eq!(sys_mmap(&mut space, 0x4000, 4096, 3), 0);
    let message = vec![b'h', b'i', b'!', b'\n'];
    assert_eq!(copy_to_user(&mut space, 0x4000, &message), 4);
    let r = syscall(&mut m, &mut space, WRITE, [1, 0x4000, 4], 0, 0);
    match r {
        SyscallOutcome::Write(bytes) => assert_eq!(bytes, message),
        other => panic!("expected Write, got {:?}", other),
    }
    assert_eq!(m.inner.tasks[0].task_info.call[0].times, 1);
}

#[test]
fn write_from_unmapped_buffer_fails() {
    let mut m = make_manager(1);
    let mut space = UserSpace::new();
    let r = syscall(&mut m, &mut space, WRITE, [1, 0x4000, 4], 0, 0);
    assert!(matches!(r, SyscallOutcome::Return(-1)));
}

#[test]
fn counters_accumulate_across_mixed_calls() {
    let mut m = make_manager(2);
    let mut space = UserSpace::new();
    syscall(&mut m, &mut space, YIELD, [0, 0, 0], 0, 0);
    // now task 1 runs; it queries and yields twice
    syscall(&mut m, &mut space, TASK_INFO, [0, 0, 0], 0, 0);
    syscall(&mut m, &mut space, YIELD, [0, 0, 0], 0, 0);
    // task 0 again
    assert_eq!(m.inner.current_task, 0);
    syscall(&mut m, &mut space, YIELD, [0, 0, 0], 0, 0);
    assert_eq!(m.inner.tasks[0].task_info.call[2].times, 2);
    assert_eq!(m.inner.tasks[1].task_info.call[2].times, 1);
    assert_eq!(m.inner.tasks[1].task_info.call[4].times, 1);
    assert_eq!(m.inner.tasks[0].task_info.call[4].times, 0);
}
