use kernel_core::process::{ProcessInfo, ProcessManager, ProcessState, MAX_PROCESSES};
use kernel_core::scheduler::{RoundRobinScheduler, MAX_TASKS};

#[test]
fn priority_scheduling_tie_break() {
    let mut pm = ProcessManager::new();
    assert_eq!(pm.create_process(1, b"low"), Some(1));
    assert_eq!(pm.create_process(5, b"high"), Some(2));
    assert_eq!(pm.create_process(3, b"mid"), Some(3));
    assert_eq!(pm.get_active_count(), 3);
    assert_eq!(pm.schedule_next(), Some(2));
    assert!(pm.terminate_process(2));
    assert_eq!(pm.schedule_next(), Some(3));
    assert!(pm.terminate_process(3));
    assert_eq!(pm.schedule_next(), Some(1));
    assert!(pm.terminate_process(1));
    assert_eq!(pm.schedule_next(), None);
    assert_eq!(pm.get_active_count(), 0);
}

#[test]
fn priority_ties_go_to_earliest_slot() {
    let mut pm = ProcessManager::new();
    assert_eq!(pm.create_process(4, b"a"), Some(1));
    assert_eq!(pm.create_process(4, b"b"), Some(2));
    assert_eq!(pm.schedule_next(), Some(1));
    // the running process is no longer ready, so the other one is picked
    assert_eq!(pm.schedule_next(), Some(2));
    assert_eq!(pm.schedule_next(), Some(1));
}

#[test]
fn priority_zero_is_never_scheduled() {
    let mut pm = ProcessManager::new();
    assert_eq!(pm.create_process(0, b"idle"), Some(1));
    assert_eq!(pm.schedule_next(), None);
}

#[test]
fn process_table_capacity_and_slot_reuse() {
    let mut pm = ProcessManager::new();
    for k in 0..MAX_PROCESSES {
        assert_eq!(pm.create_process(1, b"p"), Some(k as u32 + 1));
    }
    assert_eq!(pm.create_process(1, b"p"), None);
    assert!(!pm.terminate_process(99));
    assert!(pm.terminate_process(7));
    assert!(!pm.terminate_process(7));
    assert_eq!(pm.create_process(1, b"p"), Some(33));
    assert_eq!(pm.get_active_count(), MAX_PROCESSES);
}

#[test]
fn blank_process_record() {
    let p = ProcessInfo::new();
    assert_eq!(p.pid(), 0);
    assert_eq!(p.state(), ProcessState::Unused);
    assert_eq!(p.priority(), 0);
}

#[test]
fn round_robin_ignores_priority() {
    let mut rr = RoundRobinScheduler::new();
    assert_eq!(rr.create_task(1), Some(1));
    assert_eq!(rr.create_task(5), Some(2));
    assert_eq!(rr.create_task(1), Some(3));
    assert_eq!(rr.get_task_count(), 3);
    let order: Vec<Option<u32>> = (0..7).map(|_| rr.schedule_next()).collect();
    assert_eq!(
        order,
        vec![Some(1), Some(2), Some(3), Some(1), Some(2), Some(3), Some(1)]
    );
}

#[test]
fn round_robin_empty_and_blocked() {
    let mut rr = RoundRobinScheduler::new();
    assert_eq!(rr.schedule_next(), None);
    assert_eq!(rr.create_task(2), Some(1));
    assert!(rr.block_task(1));
    assert_eq!(rr.schedule_next(), None);
    assert!(rr.unblock_task(1));
    assert_eq!(rr.schedule_next(), Some(1));
    assert_eq!(rr.schedule_next(), None);
    assert!(!rr.block_task(42));
    assert!(!rr.unblock_task(42));
}

#[test]
fn round_robin_tick_exhausts_slice() {
    let mut rr = RoundRobinScheduler::new();
    assert!(!rr.tick());
    assert_eq!(rr.create_task(1), Some(1));
    assert!(!rr.tick());
    assert_eq!(rr.schedule_next(), Some(1));
    for _ in 0..9 {
        assert!(!rr.tick());
    }
    assert!(rr.tick());
    assert!(!rr.tick());
    // rescheduling refills the slice
    assert!(rr.unblock_task(1));
    assert_eq!(rr.schedule_next(), Some(1));
    for _ in 0..9 {
        assert!(!rr.tick());
    }
    assert!(rr.tick());
}

#[test]
fn round_robin_terminate_resets_cursor() {
    let mut rr = RoundRobinScheduler::new();
    assert_eq!(rr.create_task(1), Some(1));
    assert_eq!(rr.create_task(1), Some(2));
    assert_eq!(rr.create_task(1), Some(3));
    assert_eq!(rr.schedule_next(), Some(1));
    assert_eq!(rr.schedule_next(), Some(2));
    assert!(rr.terminate_task(2));
    assert!(!rr.terminate_task(2));
    assert_eq!(rr.get_task_count(), 2);
    // the cursor went back to slot 0, which holds a ready task
    assert_eq!(rr.schedule_next(), Some(1));
    assert_eq!(rr.schedule_next(), Some(3));
    // the freed slot is reused first
    assert_eq!(rr.create_task(9), Some(4));
    assert_eq!(rr.schedule_next(), Some(1));
    assert_eq!(rr.schedule_next(), Some(4));
}

#[test]
fn round_robin_capacity() {
    let mut rr = RoundRobinScheduler::new();
    for k in 0..MAX_TASKS {
        assert_eq!(rr.create_task(0), Some(k as u32 + 1));
    }
    assert_eq!(rr.create_task(0), None);
    assert_eq!(rr.get_task_count(), MAX_TASKS);
}
