use command_core::errors::CoreError;
use command_core::gate::{ConcurrencyGate, MAX_CONCURRENT_TASKS};
use command_core::output::{OutputBatcher, TaskOutput};
use command_core::task::{TaskManager, TaskStatus};

#[test]
fn test_create_task_pending() {
    let mut manager = TaskManager::new();
    let task = manager
        .create_task(
            "t1".to_string(),
            "build".to_string(),
            "echo hi".to_string(),
            None,
        )
        .unwrap();
    assert_eq!(task.id, "t1");
    assert_eq!(task.name, "build");
    assert_eq!(task.command, "echo hi");
    assert!(matches!(task.status, TaskStatus::Pending));
    assert_eq!(task.output, "");
    assert_eq!(task.error, "");
    assert!(task.start_time.is_none());
    assert!(task.end_time.is_none());
    assert!(task.env_vars.is_empty());
}

#[test]
fn test_create_task_keeps_env_vars() {
    let mut manager = TaskManager::new();
    let env = vec![("KEY".to_string(), "value".to_string())];
    let task = manager
        .create_task(
            "t1".to_string(),
            "build".to_string(),
            "env".to_string(),
            Some(env.clone()),
        )
        .unwrap();
    assert_eq!(task.env_vars, env);
}

#[test]
fn test_create_task_last_write_wins() {
    let mut manager = TaskManager::new();
    manager
        .create_task("t1".to_string(), "a".to_string(), "true".to_string(), None)
        .unwrap();
    manager
        .create_task("t1".to_string(), "b".to_string(), "false".to_string(), None)
        .unwrap();
    let all = manager.get_all_tasks();
    assert_eq!(all.len(), 1);
    assert_eq!(all[0].name, "b");
    assert_eq!(all[0].command, "false");
}

#[test]
fn test_run_task_unknown_id() {
    let mut manager = TaskManager::new();
    let r = manager.run_task(&"missing".to_string());
    assert!(matches!(r, Err(CoreError::NotFound)));
}

#[test]
fn test_start_task_records_start() {
    let mut manager = TaskManager::new();
    manager
        .create_task("t1".to_string(), "n".to_string(), "true".to_string(), None)
        .unwrap();
    let task = manager.start_task(&"t1".to_string(), 1234).unwrap();
    assert!(matches!(task.status, TaskStatus::Running));
    assert_eq!(task.start_time, Some(1234));
    assert!(task.end_time.is_none());
    let seen = manager.get_task(&"t1".to_string()).unwrap();
    assert!(matches!(seen.status, TaskStatus::Running));
}

#[test]
fn test_finish_task_materializes_output() {
    let mut manager = TaskManager::new();
    manager
        .create_task("t1".to_string(), "n".to_string(), "true".to_string(), None)
        .unwrap();
    manager.start_task(&"t1".to_string(), 10).unwrap();
    assert!(manager.append_output_line(&"t1".to_string(), "one".to_string()));
    assert!(manager.append_output_line(&"t1".to_string(), "two".to_string()));
    assert!(manager.append_error_line(&"t1".to_string(), "warn".to_string()));
    assert!(manager.finish_task(&"t1".to_string(), None, 20));
    let task = manager.get_task(&"t1".to_string()).unwrap();
    assert!(matches!(task.status, TaskStatus::Success));
    assert_eq!(task.output, "one\ntwo");
    assert_eq!(task.error, "warn");
    assert_eq!(task.end_time, Some(20));
}

#[test]
fn test_finish_task_failure_appends_message() {
    let mut manager = TaskManager::new();
    manager
        .create_task("t1".to_string(), "n".to_string(), "false".to_string(), None)
        .unwrap();
    manager.start_task(&"t1".to_string(), 10).unwrap();
    assert!(manager.finish_task(
        &"t1".to_string(),
        Some("Command failed with status: exit status: 1".to_string()),
        20,
    ));
    let task = manager.get_task(&"t1".to_string()).unwrap();
    assert!(matches!(task.status, TaskStatus::Failed));
    assert_eq!(task.error, "\nError: Command failed with status: exit status: 1");
}

#[test]
fn test_cancel_pending_and_running() {
    let mut manager = TaskManager::new();
    manager
        .create_task("p".to_string(), "n".to_string(), "true".to_string(), None)
        .unwrap();
    let abort = manager.cancel_task_at(&"p".to_string(), 5);
    assert!(!abort);
    let task = manager.get_task(&"p".to_string()).unwrap();
    assert!(matches!(task.status, TaskStatus::Cancelled));
    assert_eq!(task.end_time, Some(5));

    manager
        .create_task("r".to_string(), "n".to_string(), "sleep 10".to_string(), None)
        .unwrap();
    manager.start_task(&"r".to_string(), 1).unwrap();
    let abort = manager.cancel_task_at(&"r".to_string(), 6);
    assert!(abort);
    let task = manager.get_task(&"r".to_string()).unwrap();
    assert!(matches!(task.status, TaskStatus::Cancelled));
    assert_eq!(task.end_time, Some(6));
}

#[test]
fn test_cancel_terminal_is_noop_on_status() {
    let mut manager = TaskManager::new();
    manager
        .create_task("t".to_string(), "n".to_string(), "true".to_string(), None)
        .unwrap();
    manager.start_task(&"t".to_string(), 1).unwrap();
    assert!(manager.finish_task(&"t".to_string(), None, 2));
    manager.cancel_task_at(&"t".to_string(), 3);
    let task = manager.get_task(&"t".to_string()).unwrap();
    assert!(matches!(task.status, TaskStatus::Success));
    assert_eq!(task.end_time, Some(2));

    manager.cancel_task_at(&"t".to_string(), 4);
    let task = manager.get_task(&"t".to_string()).unwrap();
    assert!(matches!(task.status, TaskStatus::Success));
}

#[test]
fn test_finish_after_cancel_keeps_cancelled() {
    let mut manager = TaskManager::new();
    manager
        .create_task("t".to_string(), "n".to_string(), "true".to_string(), None)
        .unwrap();
    manager.start_task(&"t".to_string(), 1).unwrap();
    manager.cancel_task_at(&"t".to_string(), 2);
    assert!(manager.finish_task(&"t".to_string(), None, 3));
    let task = manager.get_task(&"t".to_string()).unwrap();
    assert!(matches!(task.status, TaskStatus::Cancelled));
    assert_eq!(task.end_time, Some(2));
}

#[test]
fn test_clear_tasks_reports_handles() {
    let mut manager = TaskManager::new();
    manager
        .create_task("a".to_string(), "n".to_string(), "true".to_string(), None)
        .unwrap();
    manager
        .create_task("b".to_string(), "n".to_string(), "true".to_string(), None)
        .unwrap();
    manager.start_task(&"a".to_string(), 1).unwrap();
    manager.start_task(&"b".to_string(), 1).unwrap();
    let aborted = manager.clear_tasks();
    assert_eq!(aborted, vec!["a".to_string(), "b".to_string()]);
    assert!(manager.get_all_tasks().is_empty());
}

#[test]
fn test_task_ids_lists_registry() {
    let mut manager = TaskManager::new();
    manager
        .create_task("a".to_string(), "n".to_string(), "true".to_string(), None)
        .unwrap();
    manager
        .create_task("b".to_string(), "n".to_string(), "true".to_string(), None)
        .unwrap();
    assert_eq!(manager.task_ids(), vec!["a".to_string(), "b".to_string()]);
}

#[test]
fn test_output_buffer_fifo_eviction() {
    let mut buffer = TaskOutput::new();
    for i in 0..10001u32 {
        buffer.append(format!("line{}", i));
    }
    assert_eq!(buffer.len(), 10000);
    let joined = buffer.to_string();
    assert!(joined.starts_with("line1\n"));
    assert!(joined.ends_with("line10000"));
}

#[test]
fn test_output_buffer_join() {
    let mut buffer = TaskOutput::new();
    assert_eq!(buffer.to_string(), "");
    buffer.append("a".to_string());
    assert_eq!(buffer.to_string(), "a");
    buffer.append("b".to_string());
    assert_eq!(buffer.to_string(), "a\nb");
}

#[test]
fn test_gate_capacity() {
    let mut gate = ConcurrencyGate::new();
    for _ in 0..MAX_CONCURRENT_TASKS {
        assert!(gate.try_acquire());
    }
    assert_eq!(gate.active(), MAX_CONCURRENT_TASKS);
    assert!(!gate.try_acquire());
    assert_eq!(gate.active(), MAX_CONCURRENT_TASKS);
    gate.release();
    assert!(gate.try_acquire());
    assert!(!gate.try_acquire());
}

#[test]
fn test_manager_gate_slots() {
    let mut manager = TaskManager::new();
    for _ in 0..MAX_CONCURRENT_TASKS {
        assert!(manager.try_acquire_slot());
    }
    assert!(!manager.try_acquire_slot());
    assert_eq!(manager.active_slots(), MAX_CONCURRENT_TASKS);
    manager.release_slot();
    assert_eq!(manager.active_slots(), MAX_CONCURRENT_TASKS - 1);
}

#[test]
fn test_task_run_end_to_end() {
    let mut manager = TaskManager::new();
    manager
        .create_task(
            "t1".to_string(),
            "build".to_string(),
            "echo hi".to_string(),
            None,
        )
        .unwrap();
    let task = manager.run_task(&"t1".to_string()).unwrap();
    assert!(matches!(task.status, TaskStatus::Running));

    let runtime = tokio::runtime::Runtime::new().expect("runtime");
    let output = runtime.block_on(async {
        tokio::process::Command::new("sh").args(["-c", &task.command]).output().await.expect(
            "spawn",
        )
    });
    for line in String::from_utf8_lossy(&output.stdout).lines() {
        manager.append_output_line(&"t1".to_string(), line.to_string());
    }
    for line in String::from_utf8_lossy(&output.stderr).lines() {
        manager.append_error_line(&"t1".to_string(), line.to_string());
    }
    let failure = if output.status.success() {
        None
    } else {
        Some(format!("Command failed with status: {}", output.status))
    };
    assert!(manager.finish_task(&"t1".to_string(), failure, 99));

    let task = manager.get_task(&"t1".to_string()).unwrap();
    assert!(matches!(task.status, TaskStatus::Success));
    assert!(task.output.contains("hi"));
    assert_eq!(task.end_time, Some(99));
}

#[test]
fn test_output_batcher_flush() {
    let mut batcher = OutputBatcher::new();
    assert!(batcher.flush().is_none());
    batcher.push("a".to_string());
    batcher.push("b".to_string());
    batcher.push("c".to_string());
    assert_eq!(batcher.flush().unwrap(), "a\nb\nc");
    assert!(batcher.flush().is_none());
    batcher.push("d".to_string());
    assert_eq!(batcher.flush().unwrap(), "d");
}
