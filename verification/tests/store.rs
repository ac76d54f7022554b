use pilum::store::{names_number, StoreError, TaskStore};
use pilum::task::{Task, TaskStatus};

fn numbers_of(tasks: &Vec<Task>) -> Vec<i64> {
    tasks.iter().map(|task| task.number).collect()
}

fn store_with(numbers: &[i64]) -> TaskStore {
    let mut store = TaskStore::new();
    for number in numbers {
        store
            .create(Task::new(*number, format!("task {}", number)))
            .unwrap();
    }
    store
}

#[test]
fn new_store_is_empty() {
    let store = TaskStore::new();
    assert_eq!(store.len(), 0);
    assert!(store.all().is_empty());
    assert!(store.by_status(TaskStatus::Pending).is_empty());
    assert!(store.by_numbers(&vec![1, 2]).is_empty());
}

#[test]
fn next_number_of_an_empty_store_is_one() {
    let store = TaskStore::new();
    assert_eq!(store.next_number(), Ok(1));
}

#[test]
fn next_number_is_one_more_than_the_greatest() {
    let store = store_with(&[3, 10, 7]);
    assert_eq!(store.next_number(), Ok(11));
}

#[test]
fn next_number_after_a_negative_number() {
    let store = store_with(&[-5]);
    assert_eq!(store.next_number(), Ok(-4));
}

#[test]
fn next_number_fails_at_the_last_number() {
    let store = store_with(&[1, i64::MAX]);
    assert_eq!(store.next_number(), Err(StoreError::OutOfNumbers));
}

#[test]
fn create_assigns_an_identity_and_returns_the_task_as_held() {
    let mut store = TaskStore::new();
    let first = store.create(Task::new(1, "a".to_string())).unwrap();
    let second = store.create(Task::new(2, "b".to_string())).unwrap();
    assert_eq!(first.id, Some(0));
    assert_eq!(second.id, Some(1));
    assert_eq!(first.number, 1);
    assert_eq!(first.name, "a");
    assert_eq!(first.status, TaskStatus::Pending);
    assert_eq!(store.len(), 2);
}

#[test]
fn create_does_not_keep_the_identity_of_the_caller() {
    let mut store = TaskStore::new();
    let mut task = Task::new(1, "a".to_string());
    task.id = Some(77);
    let held = store.create(task).unwrap();
    assert_eq!(held.id, Some(0));
}

#[test]
fn create_refuses_a_number_that_is_held() {
    let mut store = store_with(&[1, 2]);
    let result = store.create(Task::new(2, "again".to_string()));
    assert_eq!(result.err(), Some(StoreError::DuplicateNumber));
    assert_eq!(store.len(), 2);
    assert_eq!(store.all()[1].name, "task 2");
}

#[test]
fn all_is_in_ascending_order_of_the_numbers() {
    let store = store_with(&[5, 1, 9, 3, -2]);
    assert_eq!(numbers_of(&store.all()), vec![-2, 1, 3, 5, 9]);
}

#[test]
fn by_status_selects_and_keeps_the_order() {
    let mut store = store_with(&[4, 2, 3, 1]);
    for task in store.by_numbers(&vec![4, 1]) {
        let mut changed = task.clone();
        changed.start();
        store.update(task.id.unwrap(), changed).unwrap();
    }
    assert_eq!(numbers_of(&store.by_status(TaskStatus::Started)), vec![1, 4]);
    assert_eq!(numbers_of(&store.by_status(TaskStatus::Pending)), vec![2, 3]);
    assert!(store.by_status(TaskStatus::Completed).is_empty());
}

#[test]
fn by_numbers_passes_over_numbers_that_are_not_held() {
    let store = store_with(&[5, 6, 7]);
    assert_eq!(numbers_of(&store.by_numbers(&vec![999, 7, 5, 7])), vec![5, 7]);
    assert!(store.by_numbers(&vec![]).is_empty());
}

#[test]
fn update_overwrites_the_task_under_the_identity() {
    let mut store = store_with(&[1, 2]);
    let held = store.all()[1].clone();
    let mut changed = held.clone();
    changed.complete();
    changed.id = None;
    let stored = store.update(held.id.unwrap(), changed).unwrap();
    assert_eq!(stored.id, held.id);
    assert_eq!(stored.status, TaskStatus::Completed);
    let all = store.all();
    assert_eq!(all[0].status, TaskStatus::Pending);
    assert_eq!(all[1].status, TaskStatus::Completed);
    assert_eq!(all[1].id, held.id);
    assert_eq!(all[1].name, "task 2");
}

#[test]
fn update_fails_on_a_missing_identity() {
    let mut store = store_with(&[1]);
    let result = store.update(41, Task::new(1, "x".to_string()));
    assert_eq!(result.err(), Some(StoreError::MissingIdentity));
    assert_eq!(store.all()[0].name, "task 1");
}

#[test]
fn update_fails_on_another_number() {
    let mut store = store_with(&[1]);
    let id = store.all()[0].id.unwrap();
    let result = store.update(id, Task::new(2, "x".to_string()));
    assert_eq!(result.err(), Some(StoreError::NumberMismatch));
    assert_eq!(store.all()[0].number, 1);
    assert_eq!(store.all()[0].name, "task 1");
}

#[test]
fn names_number_finds_a_listed_number() {
    assert!(names_number(&vec![3, 5], 5));
    assert!(!names_number(&vec![3, 5], 4));
    assert!(!names_number(&vec![], 0));
}
