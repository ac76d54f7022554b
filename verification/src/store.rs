//! The task store: a keyed collection of tasks, held in ascending order of
//! their numbers, with the numbering allocator.
use crate::task::{task_views, Task, TaskStatus, TaskView};
use vstd::prelude::*;

verus! {

/// Why a store operation failed.
#[derive(Clone, Copy, Debug, PartialEq, Eq, Structural)]
pub enum StoreError {
    /// A task with the same number is already held.
    DuplicateNumber,
    /// No task is held under the given identity.
    MissingIdentity,
    /// The content handed to an update bears another number than the task
    /// it is to replace.
    NumberMismatch,
    /// The highest number is the last one that the machine can count.
    OutOfNumbers,
    /// The store has handed out every identity it has.
    OutOfIdentities,
}

/// The numbers rise strictly from each task to the next.
pub open spec fn ascending(records: Seq<TaskView>) -> bool {
    forall|i: int, j: int|
        0 <= i < j < records.len() ==> (#[trigger] records[i]).number < (#[trigger] records[j]).number
}

/// Every task has an identity below `bound`, and no two share one.
pub open spec fn identified(records: Seq<TaskView>, bound: nat) -> bool {
    &&& forall|i: int|
        0 <= i < records.len() ==> (#[trigger] records[i]).id is Some && records[i].id.unwrap()
            < bound
    &&& forall|i: int, j: int|
        0 <= i < j < records.len() ==> (#[trigger] records[i]).id != (#[trigger] records[j]).id
}

/// Some task bears the number.
pub open spec fn has_number(records: Seq<TaskView>, number: int) -> bool {
    exists|i: int| 0 <= i < records.len() && (#[trigger] records[i]).number == number
}

/// Some task is held under the identity.
pub open spec fn has_identity(records: Seq<TaskView>, id: u64) -> bool {
    exists|i: int| 0 <= i < records.len() && (#[trigger] records[i]).id == Some(id)
}

/// The place of the task that is held under the identity.
pub open spec fn position(records: Seq<TaskView>, id: u64) -> int {
    choose|i: int| 0 <= i < records.len() && (#[trigger] records[i]).id == Some(id)
}

/// The place at which a task with the given number goes: behind the last
/// task whose number is not greater.
pub open spec fn slot(records: Seq<TaskView>, number: int) -> int
    decreases records.len(),
{
    if records.len() == 0 {
        0
    } else if records.last().number <= number {
        records.len() as int
    } else {
        slot(records.drop_last(), number)
    }
}

/// The number of the last task, or 0 where there is none.
pub open spec fn top_number(records: Seq<TaskView>) -> int {
    if records.len() == 0 {
        0
    } else {
        records.last().number
    }
}

/// The tasks with the given status.
pub open spec fn has_status(status: TaskStatus) -> spec_fn(TaskView) -> bool {
    |task: TaskView| task.status == status
}

/// The numbers that a list names.
pub open spec fn number_set(numbers: Seq<i64>) -> Set<int> {
    Set::new(|n: int| exists|k: int| 0 <= k < numbers.len() && #[trigger] numbers[k] as int == n)
}

/// The tasks whose number is among the given ones.
pub open spec fn numbered_in(numbers: Set<int>) -> spec_fn(TaskView) -> bool {
    |task: TaskView| numbers.contains(task.number)
}

/// Gives a task the status and leaves the rest of it.
pub open spec fn restatus(status: TaskStatus) -> spec_fn(TaskView) -> TaskView {
    |task: TaskView| task.with_status(status)
}

/// Gives the status to the tasks whose number is among the given ones and
/// leaves the others as they are.
pub open spec fn mark(numbers: Set<int>, status: TaskStatus) -> spec_fn(TaskView) -> TaskView {
    |task: TaskView|
        if numbers.contains(task.number) {
            task.with_status(status)
        } else {
            task
        }
}

/// The mathematical value of a [`TaskStore`]: its tasks in the order in which
/// it lists them, and the identity that the next task will get.
pub struct StoreModel {
    pub records: Seq<TaskView>,
    pub next_id: nat,
}

impl StoreModel {
    /// The invariant of a store.
    pub open spec fn wf(self) -> bool {
        &&& ascending(self.records)
        &&& identified(self.records, self.next_id)
        &&& self.next_id <= u64::MAX
    }

    /// Why `create` refuses the task, if it does.
    pub open spec fn create_error(self, task: TaskView) -> Option<StoreError> {
        if has_number(self.records, task.number) {
            Some(StoreError::DuplicateNumber)
        } else if self.next_id >= u64::MAX {
            Some(StoreError::OutOfIdentities)
        } else {
            None
        }
    }

    /// The task as the store holds it once created.
    pub open spec fn stored(self, task: TaskView) -> TaskView {
        task.with_id(self.next_id as u64)
    }

    /// The store after it has taken the task.
    pub open spec fn created(self, task: TaskView) -> StoreModel {
        StoreModel {
            records: self.records.insert(slot(self.records, task.number), self.stored(task)),
            next_id: self.next_id + 1,
        }
    }

    /// Why `update` refuses the content, if it does.
    pub open spec fn update_error(self, id: u64, task: TaskView) -> Option<StoreError> {
        if !has_identity(self.records, id) {
            Some(StoreError::MissingIdentity)
        } else if self.records[position(self.records, id)].number != task.number {
            Some(StoreError::NumberMismatch)
        } else {
            None
        }
    }

    /// The store after the task under `id` has been overwritten.
    pub open spec fn updated(self, id: u64, task: TaskView) -> StoreModel {
        StoreModel {
            records: self.records.update(position(self.records, id), task.with_id(id)),
            next_id: self.next_id,
        }
    }

    /// The store after the tasks whose number is among the given ones have
    /// been given the status.
    pub open spec fn marked(self, numbers: Set<int>, status: TaskStatus) -> StoreModel {
        StoreModel { records: self.records.map_values(mark(numbers, status)), next_id: self.next_id }
    }

    /// The task that `Add` makes of a name: pending, under the next number.
    pub open spec fn new_task(self, name: Seq<char>) -> TaskView {
        TaskView { id: None, number: self.next_number(), name, status: TaskStatus::Pending }
    }

    /// Why the store cannot add a task of its own numbering, if it cannot.
    pub open spec fn add_error(self) -> Option<StoreError> {
        if self.next_number_error() is Some {
            self.next_number_error()
        } else if self.next_id >= u64::MAX {
            Some(StoreError::OutOfIdentities)
        } else {
            None
        }
    }

    /// The store after it has added a task with the given name.
    pub open spec fn added(self, name: Seq<char>) -> StoreModel {
        self.created(self.new_task(name))
    }

    /// Why the allocator has no number to give, if it has none.
    pub open spec fn next_number_error(self) -> Option<StoreError> {
        if top_number(self.records) >= i64::MAX {
            Some(StoreError::OutOfNumbers)
        } else {
            None
        }
    }

    /// The number that the allocator gives next.
    pub open spec fn next_number(self) -> int {
        top_number(self.records) + 1
    }
}

/// Where a task with the given number goes, every task before that place has
/// a number that is not greater, and every task from there on a greater one.
pub proof fn lemma_slot_divides(records: Seq<TaskView>, number: int)
    requires
        ascending(records),
    ensures
        0 <= slot(records, number) <= records.len(),
        forall|i: int| 0 <= i < slot(records, number) ==> (#[trigger] records[i]).number <= number,
        forall|i: int|
            slot(records, number) <= i < records.len() ==> (#[trigger] records[i]).number > number,
    decreases records.len(),
{
    if records.len() > 0 && records.last().number > number {
        let front = records.drop_last();
        assert forall|i: int, j: int| 0 <= i < j < front.len() implies (#[trigger] front[i]).number
            < (#[trigger] front[j]).number by {
            assert(front[i] == records[i] && front[j] == records[j]);
        }
        lemma_slot_divides(front, number);
        assert forall|i: int| 0 <= i < slot(records, number) implies (#[trigger] records[i]).number
            <= number by {
            assert(records[i] == front[i]);
        }
        assert forall|i: int| slot(records, number) <= i < records.len() implies (
        #[trigger] records[i]).number > number by {
            if i < front.len() {
                assert(records[i] == front[i]);
            }
        }
    } else if records.len() > 0 {
        assert forall|i: int| 0 <= i < records.len() implies (#[trigger] records[i]).number
            <= number by {
            if i < records.len() - 1 {
                assert(records[i].number < records[records.len() - 1].number);
            }
        }
    }
}

/// A well-formed store that takes a task is well-formed afterwards.
pub proof fn lemma_created_wf(model: StoreModel, task: TaskView)
    requires
        model.wf(),
        model.create_error(task) is None,
    ensures
        model.created(task).wf(),
{
    let records = model.records;
    let at = slot(records, task.number);
    let after = model.created(task).records;
    lemma_slot_divides(records, task.number);
    assert forall|i: int, j: int| 0 <= i < j < after.len() implies (#[trigger] after[i]).number < (
    #[trigger] after[j]).number by {
        if i < at {
            assert(after[i] == records[i]);
        } else if i > at {
            assert(after[i] == records[i - 1]);
        }
        if j < at {
            assert(after[j] == records[j]);
        } else if j > at {
            assert(after[j] == records[j - 1]);
        }
    }
    assert forall|i: int| 0 <= i < after.len() implies (#[trigger] after[i]).id is Some
        && after[i].id.unwrap() < model.next_id + 1 by {
        if i < at {
            assert(after[i] == records[i]);
        } else if i > at {
            assert(after[i] == records[i - 1]);
        }
    }
    assert forall|i: int, j: int| 0 <= i < j < after.len() implies (#[trigger] after[i]).id != (
    #[trigger] after[j]).id by {
        if i < at {
            assert(after[i] == records[i]);
        } else if i > at {
            assert(after[i] == records[i - 1]);
        }
        if j < at {
            assert(after[j] == records[j]);
        } else if j > at {
            assert(after[j] == records[j - 1]);
        }
    }
}

/// In a well-formed store the number of the last task is the greatest.
pub proof fn lemma_top_number_is_greatest(records: Seq<TaskView>)
    requires
        ascending(records),
    ensures
        forall|i: int| 0 <= i < records.len() ==> (#[trigger] records[i]).number <= top_number(records),
{
    assert forall|i: int| 0 <= i < records.len() implies (#[trigger] records[i]).number
        <= top_number(records) by {
        if i < records.len() - 1 {
            assert(records[i].number < records[records.len() - 1].number);
        }
    }
}

/// A task whose number is greater than every number held goes to the end,
/// and no task held bears its number.
pub proof fn lemma_fresh_number(model: StoreModel, number: int)
    requires
        forall|i: int| 0 <= i < model.records.len() ==> (#[trigger] model.records[i]).number < number,
    ensures
        slot(model.records, number) == model.records.len(),
        !has_number(model.records, number),
{
}

/// Adding a task puts it behind every task held, under the number that the
/// allocator gives, with the name as given, pending, and leaves a well-formed
/// store.
pub proof fn lemma_added_goes_last(model: StoreModel, name: Seq<char>)
    requires
        model.wf(),
        model.add_error() is None,
    ensures
        model.added(name).wf(),
        model.added(name).records == model.records.push(
            (TaskView {
                id: Some(model.next_id as u64),
                number: model.next_number(),
                name,
                status: TaskStatus::Pending,
            }),
        ),
        forall|i: int|
            0 <= i < model.records.len() ==> (#[trigger] model.records[i]).number
                < model.next_number(),
{
    lemma_top_number_is_greatest(model.records);
    lemma_fresh_number(model, model.next_number());
    lemma_created_wf(model, model.new_task(name));
    assert(model.added(name).records =~= model.records.push(model.stored(model.new_task(name))));
}

/// Of two markings of the same numbers the later one decides: the store is
/// as if only the second had happened, and every task that bears one of the
/// numbers has the second status.
pub proof fn lemma_last_mark_wins(
    model: StoreModel,
    numbers: Set<int>,
    first: TaskStatus,
    second: TaskStatus,
)
    ensures
        model.marked(numbers, first).marked(numbers, second) == model.marked(numbers, second),
        forall|i: int|
            0 <= i < model.records.len() && numbers.contains((#[trigger] model.records[i]).number)
                ==> model.marked(numbers, first).marked(numbers, second).records[i].status
                == second,
{
    let twice = model.marked(numbers, first).marked(numbers, second);
    let once = model.marked(numbers, second);
    assert(twice.records =~= once.records);
}

/// A marking changes nothing but the status of the tasks that bear one of
/// the numbers: as many tasks, each with its identity, number and name, and
/// the store stays well-formed.
pub proof fn lemma_marked_keeps_tasks(model: StoreModel, numbers: Set<int>, status: TaskStatus)
    requires
        model.wf(),
    ensures
        model.marked(numbers, status).wf(),
        model.marked(numbers, status).records.len() == model.records.len(),
        forall|i: int|
            0 <= i < model.records.len() ==> {
                let before = #[trigger] model.records[i];
                let after = model.marked(numbers, status).records[i];
                &&& after.id == before.id
                &&& after.number == before.number
                &&& after.name == before.name
                &&& after.status == if numbers.contains(before.number) {
                    status
                } else {
                    before.status
                }
            },
{
    let after = model.marked(numbers, status).records;
    assert forall|i: int, j: int| 0 <= i < j < after.len() implies (#[trigger] after[i]).number < (
    #[trigger] after[j]).number by {
        assert(after[i].number == model.records[i].number);
        assert(after[j].number == model.records[j].number);
    }
    assert forall|i: int| 0 <= i < after.len() implies (#[trigger] after[i]).id is Some
        && after[i].id.unwrap() < model.next_id by {
        assert(after[i].id == model.records[i].id);
    }
    assert forall|i: int, j: int| 0 <= i < j < after.len() implies (#[trigger] after[i]).id != (
    #[trigger] after[j]).id by {
        assert(after[i].id == model.records[i].id);
        assert(after[j].id == model.records[j].id);
    }
}

/// The tasks that a marking reaches are, afterwards, the tasks that the
/// numbers select, each with the new status.
pub proof fn lemma_marked_selection(records: Seq<TaskView>, numbers: Set<int>, status: TaskStatus)
    ensures
        records.map_values(mark(numbers, status)).filter(numbered_in(numbers)) == records.filter(
            numbered_in(numbers),
        ).map_values(restatus(status)),
    decreases records.len(),
{
    let wanted = numbered_in(numbers);
    let after = records.map_values(mark(numbers, status));
    if records.len() == 0 {
        after.lemma_filter_len(wanted);
        records.lemma_filter_len(wanted);
        assert(after.filter(wanted) =~= records.filter(wanted).map_values(restatus(status)));
    } else {
        let front = records.drop_last();
        let last = records.last();
        let front_after = front.map_values(mark(numbers, status));
        assert(front.push(last) =~= records);
        assert(front_after.push(mark(numbers, status)(last)) =~= after);
        lemma_marked_selection(front, numbers, status);
        front.lemma_filter_push(last, wanted);
        front_after.lemma_filter_push(mark(numbers, status)(last), wanted);
        if wanted(last) {
            assert(front.filter(wanted).push(last).map_values(restatus(status))
                =~= front.filter(wanted).map_values(restatus(status)).push(
                last.with_status(status),
            ));
        }
    }
}

/// A selection from tasks in ascending order holds exactly the tasks that
/// meet the condition, and they are in ascending order too.
pub proof fn lemma_selection_exact(records: Seq<TaskView>, condition: spec_fn(TaskView) -> bool)
    requires
        ascending(records),
    ensures
        ascending(records.filter(condition)),
        forall|task: TaskView|
            records.filter(condition).contains(task) <==> records.contains(task) && condition(task),
    decreases records.len(),
{
    let chosen = records.filter(condition);
    assert forall|task: TaskView| chosen.contains(task) implies records.contains(task) && condition(
        task,
    ) by {
        records.lemma_filter_contains_rev(condition, task);
        let j = choose|j: int| 0 <= j < chosen.len() && chosen[j] == task;
        records.lemma_filter_pred(condition, j);
    }
    assert forall|task: TaskView| records.contains(task) && condition(task) implies chosen.contains(
        task,
    ) by {
        let i = choose|i: int| 0 <= i < records.len() && records[i] == task;
        records.lemma_filter_contains(condition, i);
    }
    if records.len() > 0 {
        let front = records.drop_last();
        let last = records.last();
        assert(front.push(last) =~= records);
        front.lemma_filter_push(last, condition);
        assert forall|i: int, j: int| 0 <= i < j < front.len() implies (#[trigger] front[i]).number
            < (#[trigger] front[j]).number by {
            assert(front[i] == records[i] && front[j] == records[j]);
        }
        lemma_selection_exact(front, condition);
        let inner = front.filter(condition);
        assert forall|i: int, j: int| 0 <= i < j < chosen.len() implies (#[trigger] chosen[i]).number
            < (#[trigger] chosen[j]).number by {
            if j < inner.len() {
                assert(chosen[i] == inner[i] && chosen[j] == inner[j]);
            } else {
                assert(chosen[j] == last);
                assert(chosen[i] == inner[i]);
                assert(inner.contains(inner[i]));
                assert(front.contains(inner[i]));
                let at = choose|at: int| 0 <= at < front.len() && front[at] == inner[i];
                assert(records[at] == inner[i]);
                assert(records[at].number < records[records.len() - 1].number);
            }
        }
    } else {
        records.lemma_filter_len(condition);
    }
}

/// Tells whether the list names the number.
pub fn names_number(numbers: &Vec<i64>, number: i64) -> (found: bool)
    ensures
        found == number_set(numbers@).contains(number as int),
{
    let mut k: usize = 0;
    while k < numbers.len()
        invariant
            k <= numbers.len(),
            forall|j: int| 0 <= j < k ==> numbers@[j] != number,
        decreases numbers.len() - k,
    {
        if numbers[k] == number {
            return true;
        }
        k += 1;
    }
    false
}

/// A keyed collection of tasks. It gives each task that it takes an identity,
/// keeps the numbers unique, and lists its tasks in ascending order of their
/// numbers.
pub struct TaskStore {
    records: Vec<Task>,
    next_id: u64,
}

impl View for TaskStore {
    type V = StoreModel;

    closed spec fn view(&self) -> StoreModel {
        StoreModel { records: task_views(self.records@), next_id: self.next_id as nat }
    }
}

impl TaskStore {
    /// The invariant of the store.
    pub open spec fn wf(&self) -> bool {
        self@.wf()
    }

    /// Creates a store without tasks.
    pub fn new() -> (store: TaskStore)
        ensures
            store.wf(),
            store@ == (StoreModel { records: Seq::empty(), next_id: 0 }),
    {
        let store = TaskStore { records: Vec::new(), next_id: 0 };
        assert(store@.records =~= Seq::empty());
        store
    }

    /// The number of tasks held.
    pub fn len(&self) -> (count: usize)
        ensures
            count == self@.records.len(),
    {
        self.records.len()
    }

    /// Returns every task, in ascending order of the numbers.
    pub fn all(&self) -> (found: Vec<Task>)
        ensures
            task_views(found@) == self@.records,
    {
        let mut found: Vec<Task> = Vec::new();
        let mut i: usize = 0;
        while i < self.records.len()
            invariant
                i <= self.records.len(),
                task_views(found@) =~= self@.records.take(i as int),
            decreases self.records.len() - i,
        {
            let ghost before = task_views(found@);
            found.push(self.records[i].clone());
            proof {
                assert(task_views(found@) =~= before.push(self@.records[i as int]));
            }
            i += 1;
        }
        assert(self@.records.take(i as int) =~= self@.records);
        found
    }

    /// Returns the tasks with the given status, in ascending order of the
    /// numbers.
    pub fn by_status(&self, status: TaskStatus) -> (found: Vec<Task>)
        ensures
            task_views(found@) == self@.records.filter(has_status(status)),
    {
        let mut found: Vec<Task> = Vec::new();
        let mut i: usize = 0;
        proof {
            self@.records.take(0).lemma_filter_len(has_status(status));
        }
        while i < self.records.len()
            invariant
                i <= self.records.len(),
                task_views(found@) =~= self@.records.take(i as int).filter(has_status(status)),
            decreases self.records.len() - i,
        {
            proof {
                let seen = self@.records.take(i as int);
                seen.lemma_filter_push(self@.records[i as int], has_status(status));
                assert(seen.push(self@.records[i as int]) =~= self@.records.take(i + 1));
            }
            if self.records[i].status == status {
                found.push(self.records[i].clone());
            }
            i += 1;
        }
        assert(self@.records.take(i as int) =~= self@.records);
        found
    }

    /// Returns the tasks whose number the list names, in ascending order of
    /// the numbers. A number that no task bears is passed over.
    pub fn by_numbers(&self, numbers: &Vec<i64>) -> (found: Vec<Task>)
        ensures
            task_views(found@) == self@.records.filter(numbered_in(number_set(numbers@))),
    {
        let ghost wanted = numbered_in(number_set(numbers@));
        let mut found: Vec<Task> = Vec::new();
        let mut i: usize = 0;
        proof {
            self@.records.take(0).lemma_filter_len(wanted);
        }
        while i < self.records.len()
            invariant
                i <= self.records.len(),
                wanted == numbered_in(number_set(numbers@)),
                task_views(found@) =~= self@.records.take(i as int).filter(wanted),
            decreases self.records.len() - i,
        {
            proof {
                let seen = self@.records.take(i as int);
                seen.lemma_filter_push(self@.records[i as int], wanted);
                assert(seen.push(self@.records[i as int]) =~= self@.records.take(i + 1));
            }
            if names_number(numbers, self.records[i].number) {
                found.push(self.records[i].clone());
            }
            i += 1;
        }
        assert(self@.records.take(i as int) =~= self@.records);
        found
    }

    /// The numbering allocator: returns the number for the next task, one
    /// more than the greatest number held, or 1 for an empty store.
    pub fn next_number(&self) -> (result: Result<i64, StoreError>)
        requires
            self.wf(),
        ensures
            match result {
                Ok(number) => self@.next_number_error() is None && number == self@.next_number(),
                Err(error) => self@.next_number_error() == Some(error),
            },
            result is Ok ==> forall|i: int|
                0 <= i < self@.records.len() ==> (#[trigger] self@.records[i]).number
                    < result.unwrap(),
    {
        proof {
            lemma_top_number_is_greatest(self@.records);
        }
        let count = self.records.len();
        let top: i64 = if count == 0 {
            0
        } else {
            self.records[count - 1].number
        };
        if top == i64::MAX {
            Err(StoreError::OutOfNumbers)
        } else {
            Ok(top + 1)
        }
    }

    /// Takes a new task: gives it an identity and returns it as held. The
    /// identity that the task came with is not kept.
    pub fn create(&mut self, task: Task) -> (result: Result<Task, StoreError>)
        requires
            old(self).wf(),
        ensures
            final(self).wf(),
            match result {
                Ok(stored) => {
                    &&& old(self)@.create_error(task@) is None
                    &&& stored@ == old(self)@.stored(task@)
                    &&& final(self)@ == old(self)@.created(task@)
                },
                Err(error) => {
                    &&& old(self)@.create_error(task@) == Some(error)
                    &&& final(self)@ == old(self)@
                },
            },
    {
        let ghost records = self@.records;
        let ghost number = task.number as int;
        let mut at: usize = self.records.len();
        proof {
            assert(records.take(at as int) =~= records);
        }
        while at > 0 && self.records[at - 1].number > task.number
            invariant
                at <= self.records.len(),
                records == self@.records,
                number == task.number,
                slot(records, number) == slot(records.take(at as int), number),
            decreases at,
        {
            proof {
                assert(records.take(at as int).drop_last() =~= records.take(at - 1));
            }
            at -= 1;
        }
        proof {
            lemma_slot_divides(records, number);
            assert(at > 0 ==> records.take(at as int).last() == records[at - 1]);
            assert(slot(records, number) == at);
            if has_number(records, number) {
                let k = choose|k: int| 0 <= k < records.len() && (#[trigger] records[k]).number == number;
                if k != at - 1 {
                    assert(k < at);
                    assert(records[k].number < records[at - 1].number);
                }
            }
        }
        if at > 0 && self.records[at - 1].number == task.number {
            return Err(StoreError::DuplicateNumber);
        }
        if self.next_id == u64::MAX {
            return Err(StoreError::OutOfIdentities);
        }
        let stored = Task {
            id: Some(self.next_id),
            number: task.number,
            name: task.name,
            status: task.status,
        };
        let held = stored.clone();
        self.records.insert(at, held);
        self.next_id = self.next_id + 1;
        proof {
            assert(self@.records =~= records.insert(at as int, stored@));
            lemma_created_wf(old(self)@, task@);
        }
        Ok(stored)
    }

    /// Overwrites the task held under `id` with the given content, and
    /// returns it as held. The number of a task does not change.
    pub fn update(&mut self, id: u64, task: Task) -> (result: Result<Task, StoreError>)
        requires
            old(self).wf(),
        ensures
            final(self).wf(),
            match result {
                Ok(stored) => {
                    &&& old(self)@.update_error(id, task@) is None
                    &&& stored@ == task@.with_id(id)
                    &&& final(self)@ == old(self)@.updated(id, task@)
                },
                Err(error) => {
                    &&& old(self)@.update_error(id, task@) == Some(error)
                    &&& final(self)@ == old(self)@
                },
            },
    {
        let ghost records = self@.records;
        let mut at: usize = 0;
        while at < self.records.len() && !holds_identity(&self.records[at], id)
            invariant
                at <= self.records.len(),
                records == self@.records,
                forall|i: int| 0 <= i < at ==> (#[trigger] records[i]).id != Some(id),
            decreases self.records.len() - at,
        {
            at += 1;
        }
        if at == self.records.len() {
            return Err(StoreError::MissingIdentity);
        }
        proof {
            assert(records[at as int].id == Some(id));
            let chosen = position(records, id);
            if chosen < at {
                assert(records[chosen].id != Some(id));
            } else if chosen > at {
                assert(records[at as int].id != records[chosen].id);
            }
            assert(chosen == at);
        }
        if self.records[at].number != task.number {
            return Err(StoreError::NumberMismatch);
        }
        let stored = Task { id: Some(id), number: task.number, name: task.name, status: task.status };
        let held = stored.clone();
        self.records.set(at, held);
        proof {
            let after = self@.records;
            assert(after =~= records.update(at as int, stored@));
            assert forall|i: int, j: int| 0 <= i < j < after.len() implies (#[trigger] after[i]).number
                < (#[trigger] after[j]).number by {
                assert(after[i].number == records[i].number);
                assert(after[j].number == records[j].number);
            }
            assert forall|i: int| 0 <= i < after.len() implies (#[trigger] after[i]).id is Some
                && after[i].id.unwrap() < self@.next_id by {
                assert(after[i].id == records[i].id);
            }
            assert forall|i: int, j: int| 0 <= i < j < after.len() implies (#[trigger] after[i]).id
                != (#[trigger] after[j]).id by {
                assert(after[i].id == records[i].id);
                assert(after[j].id == records[j].id);
            }
        }
        Ok(stored)
    }
}

fn holds_identity(task: &Task, id: u64) -> (held: bool)
    ensures
        held == (task@.id == Some(id)),
{
    match task.id {
        Some(own) => own == id,
        None => false,
    }
}

} // verus!
