//! Text that the commands report.
use crate::task::{task_views, Task, TaskStatus, TaskView};
use crate::text::{decimal, unsigned_text};
use vstd::prelude::*;
use vstd::string::*;

verus! {

/// The items of a list, separated by a comma and a space.
pub open spec fn joined(parts: Seq<Seq<char>>) -> Seq<char>
    decreases parts.len(),
{
    if parts.len() == 0 {
        Seq::empty()
    } else if parts.len() == 1 {
        parts[0]
    } else {
        joined(parts.drop_last()) + ", "@ + parts.last()
    }
}

/// A list of items in square brackets.
pub open spec fn array_text(parts: Seq<Seq<char>>) -> Seq<char> {
    "["@ + joined(parts) + "]"@
}

/// What each string of a sequence holds.
pub open spec fn texts(parts: Seq<String>) -> Seq<Seq<char>> {
    parts.map_values(|part: String| part@)
}

/// Holds where `parts` are the items of `items` as `to_string` renders them,
/// one for one.
pub open spec fn renders<T: std::fmt::Display>(items: Seq<T>, parts: Seq<String>) -> bool {
    &&& parts.len() == items.len()
    &&& forall|i: int|
        0 <= i < items.len() ==> to_string_from_display_ensures::<T>(&#[trigger] items[i], parts[i])
}

/// The line that reports one action on a task: `<Status> task <number> '<name>'.`
pub open spec fn action_line(action: TaskStatus, task: TaskView) -> Seq<char> {
    action.label() + " task "@ + task.number_and_name() + "."@
}

/// The lines that report one action on each of the tasks, in their order.
pub open spec fn action_lines(action: TaskStatus, tasks: Seq<TaskView>) -> Seq<Seq<char>> {
    Seq::new(tasks.len(), |i: int| action_line(action, tasks[i]))
}

/// The line that sums up a batch: `<Status> <count> task.` for one task,
/// `<Status> <count> tasks.` for any other count.
pub open spec fn summary_line(action: TaskStatus, count: int) -> Seq<char> {
    if count == 1 {
        action.label() + " "@ + decimal(count) + " task."@
    } else {
        action.label() + " "@ + decimal(count) + " tasks."@
    }
}

/// The lines of a listing: `<number> '<name>'` for each task, or the one line
/// `No tasks found.` where there is none.
pub open spec fn list_lines(tasks: Seq<TaskView>) -> Seq<Seq<char>> {
    if tasks.len() == 0 {
        seq!["No tasks found."@]
    } else {
        Seq::new(tasks.len(), |i: int| tasks[i].number_and_name())
    }
}

/// Renders a listing of the tasks, one line each.
pub fn task_list_lines(tasks: &Vec<Task>) -> (lines: Vec<String>)
    ensures
        texts(lines@) == list_lines(task_views(tasks@)),
{
    let mut lines: Vec<String> = Vec::new();
    if tasks.len() == 0 {
        lines.push(String::from_str("No tasks found."));
        assert(texts(lines@) =~= list_lines(task_views(tasks@)));
        return lines;
    }
    let mut i: usize = 0;
    while i < tasks.len()
        invariant
            i <= tasks.len(),
            tasks.len() > 0,
            texts(lines@) =~= list_lines(task_views(tasks@)).take(i as int),
        decreases tasks.len() - i,
    {
        let ghost before = texts(lines@);
        lines.push(tasks[i].number_and_name());
        proof {
            assert(texts(lines@) =~= before.push(tasks@[i as int]@.number_and_name()));
        }
        i += 1;
    }
    assert(list_lines(task_views(tasks@)).take(i as int) =~= list_lines(task_views(tasks@)));
    lines
}

/// Renders the report of one action on a task.
pub fn task_action_line(action: TaskStatus, task: &Task) -> (line: String)
    ensures
        line@ == action_line(action, task@),
{
    let mut line = action.to_text();
    line.append(" task ");
    line.append(task.number_and_name().as_str());
    line.append(".");
    line
}

/// Renders the summary of a batch of `counter` actions.
pub fn task_action_summary_line(action: TaskStatus, counter: usize) -> (line: String)
    ensures
        line@ == summary_line(action, counter as int),
{
    let mut line = action.to_text();
    line.append(" ");
    line.append(unsigned_text(counter as u64).as_str());
    if counter == 1 {
        line.append(" task.");
    } else {
        line.append(" tasks.");
    }
    line
}

/// Converts a list of items to the text of an array: the items as `to_string`
/// renders them, separated by `", "`, in square brackets.
pub fn vec_to_array<T: std::fmt::Display>(items: &[T]) -> (text: String)
    ensures
        exists|parts: Seq<String>| renders(items@, parts) && text@ == array_text(texts(parts)),
{
    let mut text = String::from_str("[");
    let ghost mut parts: Seq<String> = Seq::empty();
    let mut i: usize = 0;
    while i < items.len()
        invariant
            i <= items.len(),
            renders(items@.take(i as int), parts),
            text@ == "["@ + joined(texts(parts)),
        decreases items.len() - i,
    {
        if i > 0 {
            text.append(", ");
        }
        let piece = items[i].to_string();
        text.append(piece.as_str());
        proof {
            let before = parts;
            parts = parts.push(piece);
            assert(texts(parts).drop_last() =~= texts(before));
            assert(texts(parts).last() == piece@);
            assert(text@ =~= "["@ + joined(texts(parts)));
            assert(items@.take(i + 1) =~= items@.take(i as int).push(items@[i as int]));
        }
        i += 1;
    }
    text.append("]");
    proof {
        assert(items@.take(i as int) =~= items@);
    }
    text
}

} // verus!
