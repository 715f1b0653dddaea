use plc_modbus::error::{ModbusError, PLCError};
use plc_modbus::facade::{Reply, Request};
use plc_modbus::notice::{BoolValue, DwordValue, Update, WordValue};
use plc_modbus::scheduler::TaskScheduler;
use plc_modbus::task::{generate_task_key, DataType, TaskDefinition, TaskKey};

fn count(runs: &[Vec<TaskDefinition>], address: u16) -> usize {
    runs.iter().map(|r| r.iter().filter(|t| t.address == address).count()).sum()
}

#[test]
fn six_ticks_dispatch_by_interval() {
    let mut s = TaskScheduler::new();
    s.register_task(1, 2, 10, 2, false).unwrap();
    s.register_task(1, 3, 20, 1, false).unwrap();
    assert!(s.start());
    let runs: Vec<Vec<TaskDefinition>> = (0..6).map(|_| s.tick()).collect();
    assert_eq!(count(&runs, 10), 3);
    assert_eq!(count(&runs, 20), 2);
    assert_eq!(runs[5].len(), 2);
    assert!(runs[0].is_empty());
    assert_eq!(s.counter(), 6);
}

#[test]
fn zero_interval_is_refused() {
    let mut s = TaskScheduler::new();
    s.register_task(1, 5, 10, 2, false).unwrap();
    match s.register_task(1, 0, 11, 2, false) {
        Err(PLCError::Other(m)) => assert_eq!(m, "间隔时间不能为零"),
        other => panic!("unexpected {:?}", other),
    }
    s.start();
    let due: usize = (0..5).map(|_| s.tick().len()).sum();
    assert_eq!(due, 1);
}

#[test]
fn unregister_of_unknown_task_fails() {
    let mut s = TaskScheduler::new();
    s.register_task(7, 1, 10, 2, false).unwrap();
    match s.unregister_task(7, 11, 2, false) {
        Err(PLCError::TaskNotFound { client_id, address }) => {
            assert_eq!(client_id, 7);
            assert_eq!(address, 11);
        }
        other => panic!("unexpected {:?}", other),
    }
    s.start();
    assert_eq!(s.tick().len(), 1);
}

#[test]
fn unregister_removes_the_task() {
    let mut s = TaskScheduler::new();
    s.register_task(7, 1, 10, 3, true).unwrap();
    s.register_task(7, 1, 12, 3, true).unwrap();
    s.unregister_task(7, 10, 3, true).unwrap();
    s.start();
    let due = s.tick();
    assert_eq!(due.len(), 1);
    assert_eq!(due[0].address, 12);
}

#[test]
fn reregistering_replaces_the_interval() {
    let mut s = TaskScheduler::new();
    s.register_task(1, 2, 10, 2, false).unwrap();
    s.register_task(1, 5, 10, 2, false).unwrap();
    s.start();
    let runs: Vec<Vec<TaskDefinition>> = (0..10).map(|_| s.tick()).collect();
    assert_eq!(count(&runs, 10), 2);
    assert_eq!(runs[4][0].interval_ms, 5);
}

#[test]
fn bool_tasks_ignore_the_read_only_flag() {
    let mut s = TaskScheduler::new();
    s.register_task(1, 1, 10, 1, false).unwrap();
    s.register_task(1, 1, 10, 1, true).unwrap();
    s.start();
    assert_eq!(s.tick().len(), 1);
    s.unregister_task(1, 10, 1, false).unwrap();
    assert!(s.tick().is_empty());
}

#[test]
fn word_tasks_keep_the_read_only_flag() {
    let mut s = TaskScheduler::new();
    s.register_task(1, 1, 10, 2, false).unwrap();
    s.register_task(1, 1, 10, 2, true).unwrap();
    s.start();
    assert_eq!(s.tick().len(), 2);
}

#[test]
fn idle_scheduler_does_not_count() {
    let mut s = TaskScheduler::new();
    s.register_task(1, 1, 10, 2, false).unwrap();
    assert!(s.tick().is_empty());
    assert_eq!(s.counter(), 0);
}

#[test]
fn start_and_stop_are_idempotent() {
    let mut s = TaskScheduler::new();
    assert!(!s.is_running());
    assert!(s.start());
    assert!(!s.start());
    assert!(s.is_running());
    assert!(s.stop());
    assert!(!s.stop());
    assert!(!s.is_running());
}

#[test]
fn nothing_is_emitted_after_stop() {
    let mut s = TaskScheduler::new();
    s.register_task(3, 1, 40, 2, true).unwrap();
    s.start();
    let due = s.tick();
    assert_eq!(due.len(), 1);
    let task = due[0];
    assert!(matches!(s.begin_task(&task), Some(Request::ReadInputRegisters { address: 40, quantity: 1 })));
    s.stop();
    assert!(s.begin_task(&task).is_none());
    assert_eq!(s.finish_task(&task, Ok(Reply::Registers(vec![5]))), None);
    assert!(s.tick().is_empty());
}

#[test]
fn finished_tasks_become_updates() {
    let mut s = TaskScheduler::new();
    s.start();
    let word = TaskDefinition { client_id: 3, address: 40, data_type: DataType::Word, read_only: true, interval_ms: 1 };
    assert_eq!(
        s.finish_task(&word, Ok(Reply::Registers(vec![5]))),
        Some(Update::Word(WordValue { client_id: 3, address: 40, read_only: true, value: 5 }))
    );
    let coil = TaskDefinition { client_id: 3, address: 41, data_type: DataType::Bool, read_only: false, interval_ms: 1 };
    assert_eq!(
        s.finish_task(&coil, Ok(Reply::Coils(vec![true]))),
        Some(Update::Bool(BoolValue { client_id: 3, address: 41, value: true }))
    );
    let dword = TaskDefinition { client_id: 3, address: 42, data_type: DataType::Dword, read_only: false, interval_ms: 1 };
    assert_eq!(
        s.finish_task(&dword, Ok(Reply::Registers(vec![0xCCDD, 0xAABB]))),
        Some(Update::Dword(DwordValue { client_id: 3, address: 42, read_only: false, value: 0xAABBCCDD }))
    );
    assert_eq!(s.finish_task(&dword, Ok(Reply::Registers(vec![1]))), None);
    assert_eq!(s.finish_task(&word, Err(ModbusError::ClientNotFound(3))), None);
}

#[test]
fn task_keys_follow_the_data_type() {
    assert_eq!(
        generate_task_key(5, 10, DataType::Bool, true),
        TaskKey { client_id: 5, registers: false, read_only: false, address: 10 }
    );
    assert_eq!(
        generate_task_key(5, 10, DataType::Float, true),
        TaskKey { client_id: 5, registers: true, read_only: true, address: 10 }
    );
}

#[test]
fn data_type_bytes() {
    assert_eq!(DataType::from(1u8), DataType::Bool);
    assert_eq!(DataType::from(2u8), DataType::Word);
    assert_eq!(DataType::from(3u8), DataType::Dword);
    assert_eq!(DataType::from(4u8), DataType::Float);
    assert_eq!(DataType::from(0u8), DataType::Word);
    assert_eq!(DataType::from(200u8), DataType::Word);
    assert_eq!(DataType::Float.code(), 4);
}

#[test]
fn counter_counts_running_ticks() {
    let mut s = TaskScheduler::new();
    s.register_task(1, 1, 10, 2, false).unwrap();
    s.start();
    for _ in 0..3 {
        s.tick();
    }
    assert_eq!(s.counter(), 3);
}

#[test]
fn changed_interval_leaves_no_stale_bucket() {
    let mut s = TaskScheduler::new();
    s.register_task(1, 2, 10, 2, false).unwrap();
    s.register_task(1, 5, 10, 2, false).unwrap();
    s.unregister_task(1, 10, 2, false).unwrap();
    s.start();
    let due: usize = (0..10).map(|_| s.tick().len()).sum();
    assert_eq!(due, 0);
}

#[test]
fn dispatch_count_over_a_hundred_ticks() {
    let mut s = TaskScheduler::new();
    s.register_task(2, 7, 1, 3, false).unwrap();
    s.register_task(2, 1, 2, 4, true).unwrap();
    s.start();
    let runs: Vec<Vec<TaskDefinition>> = (0..100).map(|_| s.tick()).collect();
    assert_eq!(count(&runs, 1), 100 / 7);
    assert_eq!(count(&runs, 2), 100);
    for (i, r) in runs.iter().enumerate() {
        let t = i as u64 + 1;
        assert_eq!(r.iter().any(|d| d.address == 1), t % 7 == 0);
    }
}
