use pilum::task::{Task, TaskStatus};
use pilum::text::{number_text, unsigned_text};
use pilum::utilities::{
    task_action_line, task_action_summary_line, task_list_lines, vec_to_array,
};

#[test]
fn verify_vec_to_array_with_integers() {
    let vec: Vec<i64> = vec![1, 2, 3];
    let result = vec_to_array(&vec);
    assert_eq!(result, "[1, 2, 3]");
}

#[test]
fn verify_vec_to_array_with_strings() {
    let vec: Vec<&str> = vec!["a", "b", "c"];
    let result = vec_to_array(&vec);
    assert_eq!(result, "[a, b, c]");
}

#[test]
fn verify_vec_to_array_with_zero_items() {
    let vec: Vec<i64> = vec![];
    let result = vec_to_array(&vec);
    assert_eq!(result, "[]");
}

#[test]
fn vec_to_array_with_one_item_has_no_separator() {
    let vec: Vec<i64> = vec![-7];
    assert_eq!(vec_to_array(&vec), "[-7]");
}

#[test]
fn number_text_renders_decimal() {
    assert_eq!(number_text(0), "0");
    assert_eq!(number_text(7), "7");
    assert_eq!(number_text(10), "10");
    assert_eq!(number_text(1234567890), "1234567890");
    assert_eq!(number_text(-1), "-1");
    assert_eq!(number_text(-305), "-305");
    assert_eq!(number_text(i64::MAX), "9223372036854775807");
    assert_eq!(number_text(i64::MIN), "-9223372036854775808");
}

#[test]
fn unsigned_text_renders_decimal() {
    assert_eq!(unsigned_text(0), "0");
    assert_eq!(unsigned_text(99), "99");
    assert_eq!(unsigned_text(100), "100");
    assert_eq!(unsigned_text(u64::MAX), "18446744073709551615");
}

#[test]
fn number_text_agrees_with_the_standard_rendering() {
    let samples: [i64; 9] = [0, 1, 9, 10, 11, 99, 100, -10, -99999];
    for n in samples {
        assert_eq!(number_text(n), format!("{}", n));
    }
}

#[test]
fn status_labels() {
    assert_eq!(TaskStatus::Pending.to_text(), "Pending");
    assert_eq!(TaskStatus::Started.to_text(), "Started");
    assert_eq!(TaskStatus::Completed.to_text(), "Completed");
}

#[test]
fn task_number_and_name() {
    let task = Task::new(5, "Buy milk".to_string());
    assert_eq!(task.number_and_name(), "5 'Buy milk'");
    assert_eq!(task.number(), 5);
    assert_eq!(task.status, TaskStatus::Pending);
    assert_eq!(task.id, None);
}

#[test]
fn task_name_is_kept_as_given() {
    let task = Task::new(12, "  spaced  out ".to_string());
    assert_eq!(task.name, "  spaced  out ");
    assert_eq!(task.number_and_name(), "12 '  spaced  out '");
}

#[test]
fn task_start_and_complete_overwrite_the_status() {
    let mut task = Task::new(1, "a".to_string());
    task.complete();
    assert_eq!(task.status, TaskStatus::Completed);
    task.start();
    assert_eq!(task.status, TaskStatus::Started);
    task.set_status(TaskStatus::Pending);
    assert_eq!(task.status, TaskStatus::Pending);
    assert_eq!(task.number, 1);
    assert_eq!(task.name, "a");
}

#[test]
fn task_clone_keeps_every_field() {
    let mut task = Task::new(3, "copy me".to_string());
    task.id = Some(9);
    task.start();
    let copy = task.clone();
    assert_eq!(copy.id, Some(9));
    assert_eq!(copy.number, 3);
    assert_eq!(copy.name, "copy me");
    assert_eq!(copy.status, TaskStatus::Started);
}

#[test]
fn task_table_name() {
    assert_eq!(Task::table(), "tasks");
}

#[test]
fn action_line_wording() {
    let task = Task::new(5, "Buy milk".to_string());
    assert_eq!(
        task_action_line(TaskStatus::Started, &task),
        "Started task 5 'Buy milk'."
    );
    assert_eq!(
        task_action_line(TaskStatus::Pending, &task),
        "Pending task 5 'Buy milk'."
    );
}

#[test]
fn summary_line_is_singular_for_one_task_only() {
    assert_eq!(
        task_action_summary_line(TaskStatus::Completed, 1),
        "Completed 1 task."
    );
    assert_eq!(
        task_action_summary_line(TaskStatus::Completed, 2),
        "Completed 2 tasks."
    );
    assert_eq!(
        task_action_summary_line(TaskStatus::Started, 0),
        "Started 0 tasks."
    );
    assert_eq!(
        task_action_summary_line(TaskStatus::Started, 11),
        "Started 11 tasks."
    );
}

#[test]
fn listing_of_no_tasks() {
    let tasks: Vec<Task> = Vec::new();
    assert_eq!(task_list_lines(&tasks), vec!["No tasks found.".to_string()]);
}

#[test]
fn listing_of_tasks_shows_number_and_name_only() {
    let mut second = Task::new(2, "b".to_string());
    second.complete();
    let tasks = vec![Task::new(1, "a".to_string()), second];
    assert_eq!(
        task_list_lines(&tasks),
        vec!["1 'a'".to_string(), "2 'b'".to_string()]
    );
}
