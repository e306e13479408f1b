use venus::tasks::{decimal_string, TaskStatus, TaskStore, TaskUpdate};

fn no_update() -> TaskUpdate {
    TaskUpdate {
        status: None,
        subject: None,
        description: None,
        active_form: None,
        owner: None,
        add_blocks: None,
        add_blocked_by: None,
        metadata: None,
    }
}

#[test]
fn test_create_task() {
    let mut store = TaskStore::new();
    let task = store.create("Test".to_string(), "Description".to_string(), None);
    assert_eq!(task.id, "task_1");
    assert_eq!(task.subject, "Test");
    assert_eq!(task.description, "Description");
    assert_eq!(task.status, TaskStatus::Pending);
    assert!(task.active_form.is_none());
    assert!(task.owner.is_none());
    assert!(task.blocked_by.is_empty());
    assert!(task.blocks.is_empty());
}

#[test]
fn test_create_multiple_tasks_incrementing_ids() {
    let mut store = TaskStore::new();
    let t1 = store.create("A".to_string(), "".to_string(), None);
    let t2 = store.create("B".to_string(), "".to_string(), None);
    assert_eq!(t1.id, "task_1");
    assert_eq!(t2.id, "task_2");
}

#[test]
fn test_get_existing_task() {
    let mut store = TaskStore::new();
    store.create("Find me".to_string(), "".to_string(), None);
    let found = store.get("task_1");
    assert!(found.is_some());
    assert_eq!(found.unwrap().subject, "Find me");
}

#[test]
fn test_get_nonexistent_task() {
    let store = TaskStore::new();
    assert!(store.get("task_999").is_none());
}

#[test]
fn test_list_excludes_deleted() {
    let mut store = TaskStore::new();
    store.create("A".to_string(), "".to_string(), None);
    store.create("B".to_string(), "".to_string(), None);
    store.create("C".to_string(), "".to_string(), None);

    store.update("task_2", TaskUpdate { status: Some(TaskStatus::Deleted), ..no_update() });

    let tasks = store.list();
    assert_eq!(tasks.len(), 2);
    assert!(tasks.iter().all(|t| t.id != "task_2"));
}

#[test]
fn test_update_status() {
    let mut store = TaskStore::new();
    store.create("Task".to_string(), "".to_string(), None);

    let updated = store
        .update("task_1", TaskUpdate { status: Some(TaskStatus::InProgress), ..no_update() })
        .unwrap();

    assert_eq!(updated.status, TaskStatus::InProgress);
}

#[test]
fn test_update_subject_and_description() {
    let mut store = TaskStore::new();
    store.create("Old".to_string(), "Old desc".to_string(), None);

    let updated = store
        .update(
            "task_1",
            TaskUpdate {
                subject: Some("New".to_string()),
                description: Some("New desc".to_string()),
                ..no_update()
            },
        )
        .unwrap();

    assert_eq!(updated.subject, "New");
    assert_eq!(updated.description, "New desc");
}

#[test]
fn test_update_add_blocks() {
    let mut store = TaskStore::new();
    store.create("Task".to_string(), "".to_string(), None);

    let updated = store
        .update(
            "task_1",
            TaskUpdate {
                add_blocks: Some(vec!["task_2".to_string(), "task_3".to_string()]),
                ..no_update()
            },
        )
        .unwrap();

    assert_eq!(updated.blocks, vec!["task_2", "task_3"]);

    // Adding duplicate should not duplicate
    let updated2 = store
        .update("task_1", TaskUpdate { add_blocks: Some(vec!["task_2".to_string()]), ..no_update() })
        .unwrap();

    assert_eq!(updated2.blocks.len(), 2);
}

#[test]
fn test_update_add_blocked_by() {
    let mut store = TaskStore::new();
    store.create("Task".to_string(), "".to_string(), None);

    let updated = store
        .update(
            "task_1",
            TaskUpdate { add_blocked_by: Some(vec!["task_0".to_string()]), ..no_update() },
        )
        .unwrap();

    assert_eq!(updated.blocked_by, vec!["task_0"]);
}

#[test]
fn test_update_metadata() {
    let mut store = TaskStore::new();
    store.create("Task".to_string(), "".to_string(), None);

    // The value is carried as JSON text: the string "value".
    let meta = vec![("key".to_string(), "\"value\"".to_string())];

    let updated = store
        .update("task_1", TaskUpdate { metadata: Some(meta), ..no_update() })
        .unwrap();

    let value = updated.metadata.iter().find(|(k, _)| k == "key").map(|(_, v)| v.as_str());
    assert_eq!(value, Some("\"value\""));
}

#[test]
fn test_update_nonexistent_returns_none() {
    let mut store = TaskStore::new();
    let result =
        store.update("task_999", TaskUpdate { status: Some(TaskStatus::Completed), ..no_update() });
    assert!(result.is_none());
}

#[test]
fn metadata_merge_replaces_in_place() {
    let mut store = TaskStore::new();
    store.create("T".to_string(), "".to_string(), None);
    store.update(
        "task_1",
        TaskUpdate {
            metadata: Some(vec![("a".to_string(), "1".to_string()), ("b".to_string(), "2".to_string())]),
            ..no_update()
        },
    );
    let t = store
        .update("task_1", TaskUpdate { metadata: Some(vec![("a".to_string(), "3".to_string())]), ..no_update() })
        .unwrap();
    assert_eq!(
        t.metadata,
        vec![("a".to_string(), "3".to_string()), ("b".to_string(), "2".to_string())]
    );
}

#[test]
fn decimal_numerals() {
    assert_eq!(decimal_string(0), "0");
    assert_eq!(decimal_string(907), "907");
    assert_eq!(decimal_string(u64::MAX), "18446744073709551615");
}

#[test]
fn get_after_create_finds_each_task() {
    let mut store = TaskStore::new();
    for i in 0..12 {
        store.create(format!("s{}", i), String::new(), Some("doing".to_string()));
    }
    let t = store.get("task_12").unwrap();
    assert_eq!(t.subject, "s11");
    assert_eq!(t.active_form.as_deref(), Some("doing"));
    assert_eq!(store.get("task_1").unwrap().subject, "s0");
}
