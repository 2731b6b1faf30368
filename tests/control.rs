use downzer::control::{handle_command, IpcCommand, IpcResponse};
use downzer::store::TaskStore;
use downzer::task::{TaskInfo, TaskStatus};

fn task(id: u32, template: &str, total: usize) -> TaskInfo {
    TaskInfo {
        id,
        url_template: template.to_string(),
        total,
        completed: 0,
        status: TaskStatus::Running,
        started_at: 0,
    }
}

fn store_with_two() -> TaskStore {
    let mut store = TaskStore::new();
    let a = store.allocate_id().unwrap();
    let b = store.allocate_id().unwrap();
    assert_eq!((a, b), (1, 2));
    store.add_task(task(a, "http://x/FUZZW1", 10));
    store.add_task(task(b, "http://y/FUZZR", 4));
    store
}

fn entries(r: IpcResponse) -> Vec<(u32, String, String)> {
    match r {
        IpcResponse::TaskList(v) => v,
        other => panic!("unexpected response {:?}", other),
    }
}

#[test]
fn list_reports_every_task() {
    let mut store = store_with_two();
    let list = entries(handle_command(&mut store, IpcCommand::List));
    assert_eq!(
        list,
        vec![
            (1, "Running".to_string(), "http://x/FUZZW1".to_string()),
            (2, "Running".to_string(), "http://y/FUZZR".to_string()),
        ]
    );
}

#[test]
fn stop_is_seen_by_list_and_status() {
    let mut store = store_with_two();
    assert!(matches!(handle_command(&mut store, IpcCommand::Stop(vec![2, 77])), IpcResponse::Ack));
    assert_eq!(store.get_task_status(2), Some(TaskStatus::Stopped));
    assert_eq!(store.get_task_status(1), Some(TaskStatus::Running));
    assert!(!store.unit_may_proceed(2));
    assert!(store.unit_may_proceed(1));
    let one = entries(handle_command(&mut store, IpcCommand::Status(2)));
    assert_eq!(one, vec![(2, "Stopped".to_string(), "http://y/FUZZR".to_string())]);
    let list = entries(handle_command(&mut store, IpcCommand::List));
    assert_eq!(list[1].1, "Stopped");
}

#[test]
fn pause_then_resume_keeps_progress() {
    let mut store = store_with_two();
    store.record_unit_done(1);
    store.record_unit_done(1);
    handle_command(&mut store, IpcCommand::Pause(vec![1]));
    assert_eq!(store.get_task_status(1), Some(TaskStatus::Paused));
    handle_command(&mut store, IpcCommand::Resume(vec![1]));
    let info = store.get_task_info(1).unwrap();
    assert_eq!(info.status, TaskStatus::Running);
    assert_eq!(info.completed, 2);
    assert_eq!(info.total, 10);
}

#[test]
fn resume_of_a_finished_task_runs_it_again() {
    let mut store = store_with_two();
    store.set_task_status(1, TaskStatus::Completed);
    handle_command(&mut store, IpcCommand::Resume(vec![1]));
    assert_eq!(store.get_task_status(1), Some(TaskStatus::Running));
}

#[test]
fn status_of_unknown_task_is_an_error() {
    let mut store = store_with_two();
    match handle_command(&mut store, IpcCommand::Status(9)) {
        IpcResponse::Error(m) => assert_eq!(m, "Task 9 not found"),
        other => panic!("unexpected response {:?}", other),
    }
}

#[test]
fn unknown_ids_are_ignored() {
    let mut store = store_with_two();
    assert!(matches!(handle_command(&mut store, IpcCommand::Stop(vec![5, 6])), IpcResponse::Ack));
    assert_eq!(store.get_task_status(1), Some(TaskStatus::Running));
    assert_eq!(store.get_task_status(5), None);
    assert!(store.unit_may_proceed(5));
}

#[test]
fn progress_never_passes_total_nor_goes_back() {
    let mut store = store_with_two();
    for _ in 0..6 {
        store.record_unit_done(2);
    }
    assert_eq!(store.get_task_info(2).unwrap().completed, 4);
    store.update_task_progress(2, 1);
    assert_eq!(store.get_task_info(2).unwrap().completed, 4);
    store.update_task_progress(1, 7);
    assert_eq!(store.get_task_info(1).unwrap().completed, 7);
    store.update_task_progress(1, 11);
    assert_eq!(store.get_task_info(1).unwrap().completed, 7);
}

#[test]
fn adding_an_existing_id_replaces_it() {
    let mut store = store_with_two();
    store.add_task(task(1, "other", 3));
    let all = store.tasks();
    assert_eq!(all.len(), 2);
    assert_eq!(all[0].url_template, "other");
    assert_eq!(all[0].total, 3);
}

#[test]
fn status_text_round_trips() {
    let all = [
        TaskStatus::Queued,
        TaskStatus::Running,
        TaskStatus::Paused,
        TaskStatus::Completed,
        TaskStatus::Failed,
        TaskStatus::Stopped,
    ];
    for s in all {
        assert_eq!(TaskStatus::from_string(&s.to_string()), s);
    }
    assert_eq!(TaskStatus::Paused.to_string(), "Paused");
    assert_eq!(TaskStatus::from_string("garbage"), TaskStatus::Queued);
    assert_eq!(TaskStatus::from_string("running"), TaskStatus::Queued);
}
