//! A plain list of tasks that are numbered as they are added and can be
//! ticked off.
use crate::text::{decimal, unsigned_text};
use crate::utilities::texts;
use vstd::prelude::*;
use vstd::string::*;

verus! {

/// One task of a [`TaskList`].
#[derive(Debug)]
pub struct Entry {
    id: u64,
    title: String,
    completed: bool,
}

/// The mathematical value of an [`Entry`].
pub struct EntryView {
    pub id: nat,
    pub title: Seq<char>,
    pub completed: bool,
}

impl EntryView {
    /// The same entry, ticked off.
    pub open spec fn ticked(self) -> EntryView {
        EntryView { id: self.id, title: self.title, completed: true }
    }

    /// The line that lists the entry: a box, ticked or not, the number and
    /// the title.
    pub open spec fn line(self) -> Seq<char> {
        if self.completed {
            "[X]"@ + " "@ + decimal(self.id as int) + " – "@ + self.title
        } else {
            "[ ]"@ + " "@ + decimal(self.id as int) + " – "@ + self.title
        }
    }
}

impl View for Entry {
    type V = EntryView;

    closed spec fn view(&self) -> EntryView {
        EntryView { id: self.id as nat, title: self.title@, completed: self.completed }
    }
}

/// The lines of a listing of the entries, or the one line `No tasks found.`
/// where there is none.
pub open spec fn entry_lines(entries: Seq<EntryView>) -> Seq<Seq<char>> {
    if entries.len() == 0 {
        seq!["No tasks found."@]
    } else {
        Seq::new(entries.len(), |i: int| entries[i].line())
    }
}

/// A collection of tasks, numbered from 1 in the order in which they were
/// added.
#[derive(Debug)]
pub struct TaskList {
    tasks: Vec<Entry>,
}

impl View for TaskList {
    type V = Seq<EntryView>;

    closed spec fn view(&self) -> Seq<EntryView> {
        Seq::new(self.tasks@.len(), |i: int| self.tasks@[i]@)
    }
}

impl TaskList {
    /// The invariant of the list: the task at each place bears the number of
    /// that place, counted from 1.
    pub open spec fn wf(&self) -> bool {
        forall|i: int| 0 <= i < self@.len() ==> (#[trigger] self@[i]).id == i + 1
    }

    /// Creates a list without tasks.
    pub fn new() -> (list: TaskList)
        ensures
            list.wf(),
            list@ == Seq::<EntryView>::empty(),
    {
        let list = TaskList { tasks: Vec::new() };
        assert(list@ =~= Seq::<EntryView>::empty());
        list
    }

    /// The number of tasks in the list.
    pub fn len(&self) -> (count: usize)
        ensures
            count == self@.len(),
    {
        self.tasks.len()
    }

    /// Tells whether the task at the given place, counted from 0, is ticked
    /// off.
    pub fn is_completed(&self, index: usize) -> (completed: bool)
        requires
            index < self@.len(),
        ensures
            completed == self@[index as int].completed,
    {
        self.tasks[index].completed
    }

    /// Adds a task under the next number, not ticked off, and returns the
    /// line that says so.
    pub fn add_task(&mut self, title: String) -> (message: String)
        requires
            old(self).wf(),
            old(self)@.len() < u64::MAX,
        ensures
            final(self).wf(),
            final(self)@ == old(self)@.push(
                (EntryView { id: old(self)@.len() + 1, title: title@, completed: false }),
            ),
            message@ == "Added task: "@ + title@,
    {
        let id: u64 = self.tasks.len() as u64 + 1;
        let mut message = String::from_str("Added task: ");
        message.append(title.as_str());
        let task = Entry { id, title, completed: false };
        self.tasks.push(task);
        assert(self@ =~= old(self)@.push(
            EntryView { id: old(self)@.len() + 1, title: title@, completed: false },
        ));
        message
    }

    /// Lists the tasks, one line each, or says that there are none.
    pub fn list_tasks(&self) -> (lines: Vec<String>)
        ensures
            texts(lines@) == entry_lines(self@),
    {
        let mut lines: Vec<String> = Vec::new();
        if self.tasks.len() == 0 {
            lines.push(String::from_str("No tasks found."));
            assert(texts(lines@) =~= entry_lines(self@));
            return lines;
        }
        let mut i: usize = 0;
        while i < self.tasks.len()
            invariant
                i <= self.tasks.len(),
                self.tasks.len() > 0,
                texts(lines@) =~= entry_lines(self@).take(i as int),
            decreases self.tasks.len() - i,
        {
            let task = &self.tasks[i];
            let mut line = if task.completed {
                String::from_str("[X]")
            } else {
                String::from_str("[ ]")
            };
            line.append(" ");
            line.append(unsigned_text(task.id).as_str());
            line.append(" – ");
            line.append(task.title.as_str());
            let ghost before = texts(lines@);
            lines.push(line);
            proof {
                assert(line@ == self@[i as int].line());
                assert(texts(lines@) =~= before.push(line@));
            }
            i += 1;
        }
        assert(entry_lines(self@).take(i as int) =~= entry_lines(self@));
        lines
    }

    /// Ticks off the task with the given number and returns the line that
    /// says so, or the line that says that there is no such task.
    pub fn complete_task(&mut self, id: u64) -> (message: String)
        requires
            old(self).wf(),
        ensures
            final(self).wf(),
            1 <= id <= old(self)@.len() ==> {
                &&& final(self)@ == old(self)@.update(id - 1, old(self)@[id - 1].ticked())
                &&& message@ == "Completed: "@ + old(self)@[id - 1].title
            },
            !(1 <= id <= old(self)@.len()) ==> {
                &&& final(self)@ == old(self)@
                &&& message@ == "Task with ID "@ + decimal(id as int) + " not found."@
            },
    {
        let mut i: usize = 0;
        while i < self.tasks.len()
            invariant
                i <= self.tasks.len(),
                self.wf(),
                *self == *old(self),
                forall|j: int| 0 <= j < i ==> (#[trigger] self@[j]).id != id,
            decreases self.tasks.len() - i,
        {
            if self.tasks[i].id == id {
                assert(self@[i as int].id == id);
                let mut message = String::from_str("Completed: ");
                message.append(self.tasks[i].title.as_str());
                self.tasks[i].completed = true;
                assert(self@ =~= old(self)@.update(id - 1, old(self)@[id - 1].ticked()));
                return message;
            }
            i += 1;
        }
        proof {
            if 1 <= id <= self@.len() {
                assert(self@[id - 1].id == id);
            }
        }
        let mut message = String::from_str("Task with ID ");
        message.append(unsigned_text(id).as_str());
        message.append(" not found.");
        message
    }
}

} // verus!
