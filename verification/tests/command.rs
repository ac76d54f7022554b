use pilum::cli::{Cli, CliError, Commands};
use pilum::command::{
    add_tasks, complete_tasks, list_active_tasks, list_all_tasks, list_completed_tasks,
    start_tasks,
};
use pilum::database::{Database, StorageMode};
use pilum::store::{StoreError, TaskStore};
use pilum::task::{Task, TaskStatus};

fn names(items: &[&str]) -> Vec<String> {
    items.iter().map(|item| item.to_string()).collect()
}

fn numbers_of(tasks: &Vec<Task>) -> Vec<i64> {
    tasks.iter().map(|task| task.number).collect()
}

#[test]
fn added_tasks_get_rising_numbers() {
    let mut store = TaskStore::new();
    let first = add_tasks(&mut store, names(&["a", "b"])).unwrap();
    let second = add_tasks(&mut store, names(&["c"])).unwrap();
    assert_eq!(numbers_of(&first.tasks), vec![1, 2]);
    assert_eq!(numbers_of(&second.tasks), vec![3]);
    assert_eq!(numbers_of(&store.all()), vec![1, 2, 3]);
}

#[test]
fn added_tasks_are_pending() {
    let mut store = TaskStore::new();
    let report = add_tasks(&mut store, names(&["a", "b", "c"])).unwrap();
    for task in &report.tasks {
        assert_eq!(task.status, TaskStatus::Pending);
        assert!(task.id.is_some());
    }
    assert_eq!(store.by_status(TaskStatus::Pending).len(), 3);
}

#[test]
fn add_reports_each_task() {
    let mut store = TaskStore::new();
    let report = add_tasks(&mut store, names(&["Buy milk", "Walk"])).unwrap();
    assert_eq!(
        report.lines,
        vec![
            "Pending task 1 'Buy milk'.".to_string(),
            "Pending task 2 'Walk'.".to_string(),
        ]
    );
}

#[test]
fn add_without_names_does_nothing() {
    let mut store = TaskStore::new();
    let report = add_tasks(&mut store, Vec::new()).unwrap();
    assert!(report.tasks.is_empty());
    assert!(report.lines.is_empty());
    assert_eq!(store.len(), 0);
}

#[test]
fn add_continues_after_the_greatest_number() {
    let mut store = TaskStore::new();
    store.create(Task::new(41, "old".to_string())).unwrap();
    let report = add_tasks(&mut store, names(&["new"])).unwrap();
    assert_eq!(report.tasks[0].number, 42);
}

#[test]
fn add_fails_when_the_numbers_are_used_up_and_keeps_what_was_added() {
    let mut store = TaskStore::new();
    store
        .create(Task::new(i64::MAX - 1, "almost".to_string()))
        .unwrap();
    let failure = add_tasks(&mut store, names(&["last", "too many"])).err().unwrap();
    assert_eq!(failure.error, StoreError::OutOfNumbers);
    assert_eq!(numbers_of(&failure.done.tasks), vec![i64::MAX]);
    assert_eq!(
        failure.done.lines,
        vec!["Pending task 9223372036854775807 'last'.".to_string()]
    );
    assert_eq!(numbers_of(&store.all()), vec![i64::MAX - 1, i64::MAX]);
    assert_eq!(store.all()[1].name, "last");
}

#[test]
fn round_trip_of_an_added_task() {
    let mut store = TaskStore::new();
    add_tasks(&mut store, names(&["first"])).unwrap();
    let predicted = store.next_number().unwrap();
    add_tasks(&mut store, names(&["Buy milk"])).unwrap();
    let report = list_all_tasks(&store).unwrap();
    let last = report.tasks.last().unwrap();
    assert_eq!(predicted, 2);
    assert_eq!(last.number, predicted);
    assert_eq!(last.name, "Buy milk");
    assert_eq!(report.lines, vec!["1 'first'".to_string(), "2 'Buy milk'".to_string()]);
}

#[test]
fn start_then_complete_leaves_completed() {
    let mut store = TaskStore::new();
    add_tasks(&mut store, names(&["a", "b"])).unwrap();
    start_tasks(&mut store, vec![1]).unwrap();
    complete_tasks(&mut store, vec![1]).unwrap();
    assert_eq!(store.all()[0].status, TaskStatus::Completed);
    assert_eq!(store.all()[1].status, TaskStatus::Pending);
}

#[test]
fn complete_then_start_leaves_started() {
    let mut store = TaskStore::new();
    add_tasks(&mut store, names(&["a", "b"])).unwrap();
    complete_tasks(&mut store, vec![1]).unwrap();
    start_tasks(&mut store, vec![1]).unwrap();
    assert_eq!(store.all()[0].status, TaskStatus::Started);
    assert_eq!(store.all()[1].status, TaskStatus::Pending);
}

#[test]
fn complete_from_pending_is_not_guarded() {
    let mut store = TaskStore::new();
    add_tasks(&mut store, names(&["a"])).unwrap();
    let report = complete_tasks(&mut store, vec![1]).unwrap();
    assert_eq!(report.tasks[0].status, TaskStatus::Completed);
    assert_eq!(
        report.lines,
        vec![
            "Completed task 1 'a'.".to_string(),
            "Completed 1 task.".to_string(),
        ]
    );
}

#[test]
fn list_active_shows_the_started_tasks_in_order() {
    let mut store = TaskStore::new();
    add_tasks(&mut store, names(&["a", "b", "c", "d"])).unwrap();
    start_tasks(&mut store, vec![4, 2, 3]).unwrap();
    complete_tasks(&mut store, vec![3]).unwrap();
    let active = list_active_tasks(&store).unwrap();
    assert_eq!(numbers_of(&active.tasks), vec![2, 4]);
    assert_eq!(active.lines, vec!["2 'b'".to_string(), "4 'd'".to_string()]);
    let completed = list_completed_tasks(&store).unwrap();
    assert_eq!(numbers_of(&completed.tasks), vec![3]);
    assert_eq!(completed.lines, vec!["3 'c'".to_string()]);
}

#[test]
fn start_passes_over_a_missing_number() {
    let mut store = TaskStore::new();
    store.create(Task::new(5, "five".to_string())).unwrap();
    let report = start_tasks(&mut store, vec![5, 999]).unwrap();
    assert_eq!(report.tasks.len(), 1);
    assert_eq!(report.tasks[0].number, 5);
    assert_eq!(report.tasks[0].status, TaskStatus::Started);
    assert_eq!(
        report.lines,
        vec![
            "Started task 5 'five'.".to_string(),
            "Started 1 task.".to_string(),
        ]
    );
    assert_eq!(store.len(), 1);
    assert_eq!(store.all()[0].status, TaskStatus::Started);
}

#[test]
fn start_of_several_reports_them_in_ascending_order() {
    let mut store = TaskStore::new();
    add_tasks(&mut store, names(&["a", "b", "c"])).unwrap();
    let report = start_tasks(&mut store, vec![3, 1]).unwrap();
    assert_eq!(
        report.lines,
        vec![
            "Started task 1 'a'.".to_string(),
            "Started task 3 'c'.".to_string(),
            "Started 2 tasks.".to_string(),
        ]
    );
    assert_eq!(store.all()[1].status, TaskStatus::Pending);
}

#[test]
fn start_without_a_match_reports_none() {
    let mut store = TaskStore::new();
    add_tasks(&mut store, names(&["a"])).unwrap();
    let report = start_tasks(&mut store, vec![7]).unwrap();
    assert!(report.tasks.is_empty());
    assert_eq!(report.lines, vec!["Started 0 tasks.".to_string()]);
    assert_eq!(store.all()[0].status, TaskStatus::Pending);
}

#[test]
fn list_all_of_an_empty_store() {
    let store = TaskStore::new();
    let report = list_all_tasks(&store).unwrap();
    assert!(report.tasks.is_empty());
    assert_eq!(report.lines, vec!["No tasks found.".to_string()]);
}

#[test]
fn list_active_of_a_store_without_started_tasks() {
    let mut store = TaskStore::new();
    add_tasks(&mut store, names(&["a"])).unwrap();
    let report = list_active_tasks(&store).unwrap();
    assert_eq!(report.lines, vec!["No tasks found.".to_string()]);
}

#[test]
fn cli_runs_the_command() {
    let mut store = TaskStore::new();
    let add = Cli { command: Some(Commands::Add { names: names(&["a", "b"]) }) };
    assert_eq!(add.run(&mut store).unwrap().lines.len(), 2);
    let start = Cli { command: Some(Commands::Start { numbers: vec![1, 2] }) };
    assert_eq!(
        start.run(&mut store).unwrap().lines[2],
        "Started 2 tasks."
    );
    let done = Cli { command: Some(Commands::Done { numbers: vec![2] }) };
    assert_eq!(done.run(&mut store).unwrap().lines[1], "Completed 1 task.");
    let active = Cli { command: Some(Commands::Active) };
    assert_eq!(active.run(&mut store).unwrap().lines, vec!["1 'a'".to_string()]);
    let completed = Cli { command: Some(Commands::Completed) };
    assert_eq!(completed.run(&mut store).unwrap().lines, vec!["2 'b'".to_string()]);
    let all = Cli { command: Some(Commands::All) };
    assert_eq!(all.run(&mut store).unwrap().tasks.len(), 2);
}

#[test]
fn cli_without_a_command_is_a_usage_error() {
    let mut store = TaskStore::new();
    let error = Cli { command: None }.run(&mut store).err().unwrap();
    assert!(matches!(error, CliError::NoSubcommand));
    assert_eq!(error.exit_status(), 2);
    assert_eq!(
        error.usage_message().unwrap(),
        "error: no subcommand specified\n\nUsage: pilum [COMMAND]\n\nFor more information, try '--help'."
    );
}

#[test]
fn cli_with_a_command_without_operation_is_a_usage_error() {
    let mut store = TaskStore::new();
    store.create(Task::new(1, "a".to_string())).unwrap();
    for command in [Commands::Delete, Commands::Duplicate, Commands::List, Commands::Modify] {
        let error = Cli { command: Some(command) }.run(&mut store).err().unwrap();
        assert!(matches!(error, CliError::NotImplemented));
        assert_eq!(error.exit_status(), 2);
        assert_eq!(
            error.usage_message().unwrap(),
            "error: subcommand not implemented\n\nUsage: pilum [COMMAND]\n\nFor more information, try '--help'."
        );
    }
    assert_eq!(store.len(), 1);
}

#[test]
fn cli_passes_a_store_failure_on() {
    let mut store = TaskStore::new();
    store.create(Task::new(i64::MAX, "last".to_string())).unwrap();
    let add = Cli { command: Some(Commands::Add { names: names(&["a"]) }) };
    let error = add.run(&mut store).err().unwrap();
    assert_eq!(error.exit_status(), 1);
    assert_eq!(error.usage_message(), None);
    match error {
        CliError::Store(failure) => {
            assert_eq!(failure.error, StoreError::OutOfNumbers);
            assert!(failure.done.tasks.is_empty());
            assert!(failure.done.lines.is_empty());
        }
        _ => panic!("the store failed, the command line was in order"),
    }
}

#[test]
fn database_names() {
    assert_eq!(Database::namespace(), "pilum");
    assert_eq!(Database::database(), "database");
    assert_eq!(Database::production_directory(), ".pilum");
    assert_eq!(Database::test_directory(), "tmp");
}

#[test]
fn database_mode_follows_the_flag() {
    assert_eq!(Database::mode(&Some("test".to_string())), StorageMode::Test);
    assert_eq!(Database::mode(&Some("Test".to_string())), StorageMode::Production);
    assert_eq!(Database::mode(&Some(String::new())), StorageMode::Production);
    assert_eq!(Database::mode(&None), StorageMode::Production);
}
