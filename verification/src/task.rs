//! The task record and its lifecycle.
use crate::text::{decimal, number_text};
use vstd::prelude::*;
use vstd::string::*;

verus! {

/// Where a task stands in its lifecycle.
#[derive(Clone, Copy, Debug, PartialEq, Eq, Structural)]
pub enum TaskStatus {
    Pending,
    Started,
    Completed,
}

impl TaskStatus {
    /// The word under which the status is reported.
    pub open spec fn label(self) -> Seq<char> {
        match self {
            TaskStatus::Pending => "Pending"@,
            TaskStatus::Started => "Started"@,
            TaskStatus::Completed => "Completed"@,
        }
    }

    /// Returns the word under which the status is reported.
    pub fn to_text(&self) -> (text: String)
        ensures
            text@ == self.label(),
    {
        match self {
            TaskStatus::Pending => String::from_str("Pending"),
            TaskStatus::Started => String::from_str("Started"),
            TaskStatus::Completed => String::from_str("Completed"),
        }
    }
}

/// A unit of work: a number by which the user names it, a name, and a status.
///
/// `id` is the identity under which a store holds the task. It is `None` until
/// the task has been persisted.
#[derive(Debug)]
pub struct Task {
    pub id: Option<u64>,
    pub number: i64,
    pub name: String,
    pub status: TaskStatus,
}

/// The mathematical value of a [`Task`].
pub struct TaskView {
    pub id: Option<u64>,
    pub number: int,
    pub name: Seq<char>,
    pub status: TaskStatus,
}

impl TaskView {
    /// The same task with another status.
    pub open spec fn with_status(self, status: TaskStatus) -> TaskView {
        TaskView { id: self.id, number: self.number, name: self.name, status }
    }

    /// The same task under the identity that a store gave it.
    pub open spec fn with_id(self, id: u64) -> TaskView {
        TaskView { id: Some(id), number: self.number, name: self.name, status: self.status }
    }

    /// The text `<number> '<name>'` by which a task is listed.
    pub open spec fn number_and_name(self) -> Seq<char> {
        decimal(self.number) + " '"@ + self.name + "'"@
    }
}

/// The values of a sequence of tasks, one for one.
pub open spec fn task_views(tasks: Seq<Task>) -> Seq<TaskView> {
    tasks.map_values(|task: Task| task@)
}

impl View for Task {
    type V = TaskView;

    open spec fn view(&self) -> TaskView {
        TaskView { id: self.id, number: self.number as int, name: self.name@, status: self.status }
    }
}

impl Clone for Task {
    fn clone(&self) -> (copy: Self)
        ensures
            copy@ == self@,
    {
        Task { id: self.id, number: self.number, name: self.name.clone(), status: self.status }
    }
}

impl Task {
    /// The name of the collection under which tasks are persisted.
    pub fn table() -> (name: &'static str)
        ensures
            name@ == "tasks"@,
    {
        "tasks"
    }

    /// Creates a task that has not been persisted yet. It is pending.
    pub fn new(number: i64, name: String) -> (task: Task)
        ensures
            task@ == (TaskView {
                id: None,
                number: number as int,
                name: name@,
                status: TaskStatus::Pending,
            }),
    {
        Task { id: None, number, name, status: TaskStatus::Pending }
    }

    /// The number by which the user names the task.
    pub fn number(&self) -> (number: i64)
        ensures
            number == self@.number,
    {
        self.number
    }

    /// Marks the task as started, whatever its status was.
    pub fn start(&mut self)
        ensures
            final(self)@ == old(self)@.with_status(TaskStatus::Started),
    {
        self.status = TaskStatus::Started;
    }

    /// Marks the task as completed, whatever its status was.
    pub fn complete(&mut self)
        ensures
            final(self)@ == old(self)@.with_status(TaskStatus::Completed),
    {
        self.status = TaskStatus::Completed;
    }

    /// Sets the status of the task, whatever it was.
    pub fn set_status(&mut self, status: TaskStatus)
        ensures
            final(self)@ == old(self)@.with_status(status),
    {
        self.status = status;
    }

    /// Renders the task as `<number> '<name>'`.
    pub fn number_and_name(&self) -> (text: String)
        ensures
            text@ == self@.number_and_name(),
    {
        let mut text = number_text(self.number);
        text.append(" '");
        text.append(self.name.as_str());
        text.append("'");
        text
    }
}

} // verus!
