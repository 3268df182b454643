use std::sync::Arc;

use ttlcache::tasks::{
    create_task, filter_by_priority, filter_by_status, format_task, status_label, validate_task,
    Entity, Status, Task, TaskManager, TaskProcessor,
};

#[test]
fn test_create_task() {
    let task = create_task("Test", 1);
    assert!(!task.id.is_empty());
    assert_eq!(task.name, "Test");
    assert_eq!(task.priority, 1);
}

#[test]
fn test_task_manager() {
    let mut manager = TaskManager::new();
    let task = create_task("Test", 1);
    manager.add_task(task).unwrap();
    assert_eq!(manager.count(), 1);
}

#[test]
fn test_created_id_shape() {
    let task = create_task("shaped", 2);
    assert!(task.id.starts_with("task-"));
    assert!(task.id.len() > "task-".len());
    assert!(task.id["task-".len()..].chars().all(|c| c.is_ascii_digit()));
}

#[test]
fn test_task_builders() {
    let task = Task::new("t1".to_string(), "Name".to_string());
    assert_eq!(task.status, Status::Pending);
    assert_eq!(task.priority, 1);
    let task = task.with_priority(5).with_status(Status::Completed);
    assert_eq!(task.priority, 5);
    assert!(task.is_complete());
    assert!(!Task::new("t".to_string(), "n".to_string()).is_complete());
}

#[test]
fn test_entity_id() {
    let task = Task::new("the-id".to_string(), "n".to_string());
    assert_eq!(task.get_id(), "the-id");
}

#[test]
fn test_validate_task_errors() {
    let no_id = Task::new("".to_string(), "n".to_string());
    assert_eq!(validate_task(&no_id), Err("Task ID is required".to_string()));
    let no_name = Task::new("i".to_string(), "".to_string());
    assert_eq!(validate_task(&no_name), Err("Task name is required".to_string()));
    let fine = Task::new("i".to_string(), "n".to_string());
    assert_eq!(validate_task(&fine), Ok(()));
}

#[test]
fn test_add_task_rejects_invalid() {
    let mut manager = TaskManager::new();
    let no_name = Task::new("i".to_string(), "".to_string());
    assert_eq!(manager.add_task(no_name), Err("Task name is required".to_string()));
    assert_eq!(manager.count(), 0);
}

#[test]
fn test_get_task_finds_first() {
    let mut manager = TaskManager::new();
    manager.add_task(Task::new("a".to_string(), "first".to_string())).unwrap();
    manager.add_task(Task::new("b".to_string(), "second".to_string())).unwrap();
    manager.add_task(Task::new("a".to_string(), "third".to_string())).unwrap();
    let found = manager.get_task("a").unwrap();
    assert_eq!(found.name, "first");
    assert!(manager.get_task("c").is_none());
}

#[test]
fn test_update_task() {
    let mut manager = TaskManager::new();
    manager.add_task(Task::new("a".to_string(), "old".to_string())).unwrap();
    let updated = manager.update_task("a", Some("new".to_string()), Some(Status::Active)).unwrap();
    assert_eq!(updated.name, "new");
    assert_eq!(updated.status, Status::Active);
    let fetched = manager.get_task("a").unwrap();
    assert_eq!(fetched.name, "new");
    assert_eq!(fetched.status, Status::Active);
    assert!(manager.update_task("missing", None, None).is_none());
}

#[test]
fn test_delete_task() {
    let mut manager = TaskManager::new();
    manager.add_task(Task::new("a".to_string(), "x".to_string())).unwrap();
    manager.add_task(Task::new("a".to_string(), "y".to_string())).unwrap();
    manager.add_task(Task::new("b".to_string(), "z".to_string())).unwrap();
    assert!(manager.delete_task("a"));
    assert_eq!(manager.count(), 1);
    assert!(!manager.delete_task("a"));
    assert!(manager.delete_task("b"));
    assert_eq!(manager.count(), 0);
}

#[test]
fn test_get_tasks_with_filter() {
    let mut manager = TaskManager::new();
    manager.add_task(Task::new("a".to_string(), "x".to_string()).with_priority(1)).unwrap();
    manager.add_task(Task::new("b".to_string(), "y".to_string()).with_priority(9)).unwrap();
    let all = manager.get_tasks(None::<fn(&Task) -> bool>);
    assert_eq!(all.len(), 2);
    let high = manager.get_tasks(Some(|t: &Task| t.priority > 5));
    assert_eq!(high.len(), 1);
    assert_eq!(high[0].id, "b");
}

#[test]
fn test_filter_by_status_and_priority() {
    let tasks = vec![
        Task::new("a".to_string(), "x".to_string()).with_status(Status::Active),
        Task::new("b".to_string(), "y".to_string()).with_priority(4),
        Task::new("c".to_string(), "z".to_string()).with_status(Status::Active).with_priority(7),
    ];
    let active = filter_by_status(&tasks, Status::Active);
    assert_eq!(active.len(), 2);
    assert_eq!(active[0].id, "a");
    assert_eq!(active[1].id, "c");
    let high = filter_by_priority(&tasks, 4);
    assert_eq!(high.len(), 2);
    assert_eq!(high[0].id, "b");
    assert_eq!(high[1].id, "c");
}

#[test]
fn test_status_label() {
    assert_eq!(status_label(&Status::Pending), "Pending");
    assert_eq!(status_label(&Status::Active), "Active");
    assert_eq!(status_label(&Status::Completed), "Completed");
    assert_eq!(status_label(&Status::Failed), "Failed");
}

#[test]
fn test_format_task() {
    let task = Task::new("t9".to_string(), "fmt".to_string()).with_priority(-3);
    let map = format_task(&task);
    assert_eq!(map.get("id"), Some(&"t9".to_string()));
    assert_eq!(map.get("name"), Some(&"fmt".to_string()));
    assert_eq!(map.get("status"), Some(&"Pending".to_string()));
    assert_eq!(map.get("priority"), Some(&"-3".to_string()));
    assert_eq!(map.len(), 4);
}

#[test]
fn test_processor() {
    let mut manager = TaskManager::new();
    manager.add_task(Task::new("a".to_string(), "x".to_string())).unwrap();
    manager.add_task(
        Task::new("b".to_string(), "y".to_string()).with_status(Status::Completed),
    ).unwrap();
    let processor = TaskProcessor::new(Arc::new(manager));
    let all = processor.process_all();
    assert_eq!(all.len(), 2);
    assert_eq!(all[0].get("id"), Some(&"a".to_string()));
    assert_eq!(all[1].get("status"), Some(&"Completed".to_string()));
    let pending = processor.process_pending();
    assert_eq!(pending.len(), 1);
    assert_eq!(pending[0].get("id"), Some(&"a".to_string()));
}
