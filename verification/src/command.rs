//! The command operations: add, start, complete and the listings.
//!
//! Each operation works on a [`TaskStore`] and returns a [`Report`]: the
//! tasks it created, changed or listed, and the lines that tell the user so.
use crate::store::{
    ascending, has_identity, has_status, lemma_added_goes_last, lemma_fresh_number,
    lemma_marked_selection, number_set, numbered_in, position, restatus, StoreError, StoreModel,
    TaskStore,
};
use crate::task::{task_views, Task, TaskStatus, TaskView};
use crate::utilities::{
    action_line, action_lines, list_lines, summary_line, task_action_line,
    task_action_summary_line, task_list_lines, texts,
};
use vstd::prelude::*;

verus! {

/// What a command reports: the tasks it created, changed or listed, in the
/// order in which it handled them, and its lines of output.
#[derive(Debug)]
pub struct Report {
    pub tasks: Vec<Task>,
    pub lines: Vec<String>,
}

/// The mathematical value of a [`Report`].
pub struct ReportView {
    pub tasks: Seq<TaskView>,
    pub lines: Seq<Seq<char>>,
}

impl View for Report {
    type V = ReportView;

    open spec fn view(&self) -> ReportView {
        ReportView { tasks: task_views(self.tasks@), lines: texts(self.lines@) }
    }
}

/// A command that the store stopped: why, and the report of what the command
/// had done before. What it had done stays done.
#[derive(Debug)]
pub struct Failure {
    pub error: StoreError,
    pub done: Report,
}

/// The report of the tasks that were added: one line for each.
pub open spec fn addition(created: Seq<TaskView>) -> ReportView {
    ReportView { tasks: created, lines: action_lines(TaskStatus::Pending, created) }
}

/// The report of a listing of the tasks.
pub open spec fn listing(tasks: Seq<TaskView>) -> ReportView {
    ReportView { tasks, lines: list_lines(tasks) }
}

/// The report of a batch that gave the tasks the status: one line for each
/// task, then the summary.
pub open spec fn batch(action: TaskStatus, tasks: Seq<TaskView>) -> ReportView {
    ReportView {
        tasks,
        lines: action_lines(action, tasks).push(summary_line(action, tasks.len() as int)),
    }
}

/// What adding the names one after the other comes to: the store at the end,
/// the tasks created, and the error that stopped the run, if one did. A name
/// behind the one that failed is not looked at.
pub struct AddRun {
    pub store: StoreModel,
    pub created: Seq<TaskView>,
    pub error: Option<StoreError>,
}

/// Adds the names in their order, each under the number that the allocator
/// gives once the names before it have been added.
pub open spec fn add_run(start: StoreModel, names: Seq<Seq<char>>) -> AddRun
    decreases names.len(),
{
    if names.len() == 0 {
        AddRun { store: start, created: Seq::empty(), error: None }
    } else {
        let sofar = add_run(start, names.drop_last());
        if sofar.error is Some {
            sofar
        } else if sofar.store.add_error() is Some {
            AddRun { store: sofar.store, created: sofar.created, error: sofar.store.add_error() }
        } else {
            AddRun {
                store: sofar.store.added(names.last()),
                created: sofar.created.push(sofar.store.stored(sofar.store.new_task(names.last()))),
                error: None,
            }
        }
    }
}

/// Some task among the first `count` is held under the identity.
spec fn touched(tasks: Seq<TaskView>, count: int, id: Option<u64>) -> bool {
    exists|j: int| 0 <= j < count && (#[trigger] tasks[j]).id == id
}

proof fn lemma_run_stays_failed(start: StoreModel, names: Seq<Seq<char>>, count: int)
    requires
        0 <= count <= names.len(),
        add_run(start, names.take(count)).error is Some,
    ensures
        add_run(start, names) == add_run(start, names.take(count)),
    decreases names.len() - count,
{
    if count < names.len() {
        assert(names.take(count + 1).drop_last() =~= names.take(count));
        lemma_run_stays_failed(start, names, count + 1);
    } else {
        assert(names.take(count) =~= names);
    }
}

/// However many names are added, each new task goes behind the tasks held so
/// far, so the numbers rise strictly in the order of creation and no two
/// tasks of the store share one. Every new task is pending, bears the name it
/// was added with, and has an identity. Where nothing failed, there is one
/// new task for each name.
pub proof fn lemma_add_run_numbers_rise(start: StoreModel, names: Seq<Seq<char>>)
    requires
        start.wf(),
    ensures
        add_run(start, names).store.wf(),
        add_run(start, names).store.records == start.records + add_run(start, names).created,
        ascending(add_run(start, names).created),
        add_run(start, names).created.len() <= names.len(),
        add_run(start, names).error is None ==> add_run(start, names).created.len() == names.len(),
        forall|i: int|
            0 <= i < add_run(start, names).created.len() ==> {
                let task = #[trigger] add_run(start, names).created[i];
                &&& task.status == TaskStatus::Pending
                &&& task.name == names[i]
                &&& task.id is Some
            },
        forall|i: int, k: int|
            0 <= i < add_run(start, names).created.len() && 0 <= k < start.records.len() ==> (
            #[trigger] start.records[k]).number < (#[trigger] add_run(start, names).created[i]).number,
    decreases names.len(),
{
    let run = add_run(start, names);
    if names.len() == 0 {
        assert(run.store.records =~= start.records + run.created);
    } else {
        let sofar = add_run(start, names.drop_last());
        lemma_add_run_numbers_rise(start, names.drop_last());
        if sofar.error is None && sofar.store.add_error() is None {
            lemma_added_goes_last(sofar.store, names.last());
            assert(run.store.records =~= start.records + run.created);
        }
        assert(run.store.records =~= start.records + run.created);
        let whole = run.store.records;
        let offset = start.records.len() as int;
        assert forall|i: int, j: int| 0 <= i < j < run.created.len() implies (
        #[trigger] run.created[i]).number < (#[trigger] run.created[j]).number by {
            assert(whole[offset + i] == run.created[i]);
            assert(whole[offset + j] == run.created[j]);
        }
        assert forall|i: int, k: int|
            0 <= i < run.created.len() && 0 <= k < start.records.len() implies (
        #[trigger] start.records[k]).number < (#[trigger] run.created[i]).number by {
            assert(whole[offset + i] == run.created[i]);
            assert(whole[k] == start.records[k]);
        }
        assert forall|i: int| 0 <= i < run.created.len() implies {
            let task = #[trigger] run.created[i];
            &&& task.status == TaskStatus::Pending
            &&& task.name == names[i]
            &&& task.id is Some
        } by {
            if i < sofar.created.len() {
                assert(run.created[i] == sofar.created[i]);
                assert(names.drop_last()[i] == names[i]);
            }
        }
    }
}

/// Where every number held is positive, so is the number of every task that
/// is added.
pub proof fn lemma_added_numbers_positive(start: StoreModel, names: Seq<Seq<char>>)
    requires
        start.wf(),
        forall|k: int| 0 <= k < start.records.len() ==> (#[trigger] start.records[k]).number >= 1,
    ensures
        forall|i: int|
            0 <= i < add_run(start, names).created.len() ==> (#[trigger] add_run(
                start,
                names,
            ).created[i]).number >= 1,
    decreases names.len(),
{
    let run = add_run(start, names);
    if names.len() > 0 {
        let sofar = add_run(start, names.drop_last());
        lemma_added_numbers_positive(start, names.drop_last());
        lemma_add_run_numbers_rise(start, names.drop_last());
        if sofar.error is None && sofar.store.add_error() is None {
            let held = sofar.store.records;
            if held.len() > 0 {
                let last = held.len() - 1;
                if last < start.records.len() {
                    assert(held[last] == start.records[last]);
                } else {
                    assert(held[last] == sofar.created[last - start.records.len()]);
                }
            }
            assert forall|i: int| 0 <= i < run.created.len() implies (#[trigger] run.created[i]).number
                >= 1 by {
                if i < sofar.created.len() {
                    assert(run.created[i] == sofar.created[i]);
                }
            }
        }
    }
}

/// Adding in two runs comes to the same as adding all the names in one.
pub proof fn lemma_add_run_composes(start: StoreModel, first: Seq<Seq<char>>, second: Seq<Seq<char>>)
    requires
        add_run(start, first).error is None,
    ensures
        add_run(start, first + second).store == add_run(add_run(start, first).store, second).store,
        add_run(start, first + second).created == add_run(start, first).created + add_run(
            add_run(start, first).store,
            second,
        ).created,
        add_run(start, first + second).error == add_run(add_run(start, first).store, second).error,
    decreases second.len(),
{
    let middle = add_run(start, first).store;
    if second.len() == 0 {
        assert(first + second =~= first);
        assert(add_run(start, first).created + add_run(middle, second).created =~= add_run(
            start,
            first,
        ).created);
    } else {
        assert((first + second).drop_last() =~= first + second.drop_last());
        assert((first + second).last() == second.last());
        lemma_add_run_composes(start, first, second.drop_last());
        assert(add_run(start, first + second).created =~= add_run(start, first).created + add_run(
            middle,
            second,
        ).created);
    }
}

/// Adds a pending task for each name, in the order given. Each task gets the
/// number that the allocator gives once the names before it have been added.
/// The first failure ends the run; what was added before it stays, and is
/// reported with the failure.
pub fn add_tasks(store: &mut TaskStore, names: Vec<String>) -> (result: Result<Report, Failure>)
    requires
        old(store).wf(),
    ensures
        final(store).wf(),
        final(store)@ == add_run(old(store)@, texts(names@)).store,
        match result {
            Ok(report) => {
                let run = add_run(old(store)@, texts(names@));
                &&& run.error is None
                &&& report@ == addition(run.created)
            },
            Err(failure) => {
                let run = add_run(old(store)@, texts(names@));
                &&& run.error == Some(failure.error)
                &&& failure.done@ == addition(run.created)
            },
        },
{
    let ghost start = store@;
    let ghost wanted = texts(names@);
    let mut tasks: Vec<Task> = Vec::new();
    let mut lines: Vec<String> = Vec::new();
    let mut i: usize = 0;
    proof {
        assert(wanted.take(0) =~= Seq::<Seq<char>>::empty());
    }
    while i < names.len()
        invariant
            i <= names.len(),
            store.wf(),
            start == old(store)@,
            wanted == texts(names@),
            add_run(start, wanted.take(i as int)).error is None,
            add_run(start, wanted.take(i as int)).store == store@,
            add_run(start, wanted.take(i as int)).created =~= task_views(tasks@),
            texts(lines@) =~= action_lines(TaskStatus::Pending, task_views(tasks@)),
        decreases names.len() - i,
    {
        proof {
            assert(wanted.take(i + 1).drop_last() =~= wanted.take(i as int));
            assert(wanted.take(i + 1).last() == names@[i as int]@);
        }
        let number = match store.next_number() {
            Ok(number) => number,
            Err(error) => {
                proof {
                    assert(add_run(start, wanted.take(i + 1)).error == Some(error));
                    assert(add_run(start, wanted.take(i + 1)).store == store@);
                    lemma_run_stays_failed(start, wanted, i + 1);
                }
                return Err(Failure { error, done: Report { tasks, lines } });
            },
        };
        let task = Task::new(number, names[i].clone());
        proof {
            lemma_fresh_number(store@, number as int);
        }
        let ghost current = store@;
        proof {
            assert(task@ == current.new_task(names@[i as int]@));
        }
        let created = match store.create(task) {
            Ok(created) => created,
            Err(error) => {
                proof {
                    assert(current.add_error() == Some(error));
                    assert(add_run(start, wanted.take(i + 1)).error == Some(error));
                    assert(add_run(start, wanted.take(i + 1)).store == store@);
                    lemma_run_stays_failed(start, wanted, i + 1);
                }
                return Err(Failure { error, done: Report { tasks, lines } });
            },
        };
        proof {
            assert(current.add_error() is None);
            assert(add_run(start, wanted.take(i + 1)).store == store@);
        }
        let ghost lines_before = texts(lines@);
        let ghost tasks_before = task_views(tasks@);
        lines.push(task_action_line(TaskStatus::Pending, &created));
        tasks.push(created);
        proof {
            assert(task_views(tasks@) =~= tasks_before.push(created@));
            assert(texts(lines@) =~= lines_before.push(
                action_line(TaskStatus::Pending, created@),
            ));
        }
        i += 1;
    }
    proof {
        assert(wanted.take(i as int) =~= wanted);
    }
    Ok(Report { tasks, lines })
}

fn mark_tasks(
    store: &mut TaskStore,
    numbers: &Vec<i64>,
    status: TaskStatus,
) -> (result: Result<Report, Failure>)
    requires
        old(store).wf(),
    ensures
        final(store).wf(),
        final(store)@ == old(store)@.marked(number_set(numbers@), status),
        result is Ok,
        result.unwrap()@ == batch(
            status,
            old(store)@.records.filter(numbered_in(number_set(numbers@))).map_values(
                restatus(status),
            ),
        ),
        result.unwrap()@.tasks == final(store)@.records.filter(
            numbered_in(number_set(numbers@)),
        ),
{
    let ghost before = store@;
    let ghost wanted = numbered_in(number_set(numbers@));
    let found = store.by_numbers(numbers);
    let ghost picked = task_views(found@);
    proof {
        assert forall|j: int| 0 <= j < picked.len() implies wanted(#[trigger] picked[j])
            && before.records.contains(picked[j]) by {
            before.records.lemma_filter_pred(wanted, j);
            before.records.lemma_filter_contains_rev(wanted, picked[j]);
        }
    }
    let mut tasks: Vec<Task> = Vec::new();
    let mut lines: Vec<String> = Vec::new();
    let mut k: usize = 0;
    while k < found.len()
        invariant
            k <= found.len(),
            store.wf(),
            before.wf(),
            picked == task_views(found@),
            store@.next_id == before.next_id,
            store@.records.len() == before.records.len(),
            forall|j: int|
                0 <= j < picked.len() ==> wanted(#[trigger] picked[j]) && before.records.contains(
                    picked[j],
                ),
            forall|i: int|
                0 <= i < before.records.len() ==> #[trigger] store@.records[i] == if touched(
                    picked,
                    k as int,
                    before.records[i].id,
                ) {
                    before.records[i].with_status(status)
                } else {
                    before.records[i]
                },
            task_views(tasks@) =~= picked.take(k as int).map_values(restatus(status)),
            texts(lines@) =~= action_lines(status, task_views(tasks@)),
        decreases found.len() - k,
    {
        let ghost current = store@;
        let ghost target = picked[k as int];
        let ghost at = choose|i: int|
            0 <= i < before.records.len() && before.records[i] == target;
        let mut task = found[k].clone();
        proof {
            assert(before.records.contains(target));
            assert(before.records[at] == target);
            assert(before.records[at].id is Some);
            assert(task@ == target);
        }
        let id = match task.id {
            Some(id) => id,
            None => {
                return Err(
                    Failure { error: StoreError::MissingIdentity, done: Report { tasks, lines } },
                );
            },
        };
        task.set_status(status);
        proof {
            assert(current.records[at].id == Some(id));
            assert(has_identity(current.records, id));
            let chosen = position(current.records, id);
            assert(current.records[chosen].id == Some(id));
            if chosen < at {
                assert(current.records[chosen].id != current.records[at].id);
            } else if chosen > at {
                assert(current.records[at].id != current.records[chosen].id);
            }
            assert(chosen == at);
            assert(current.records[at].number == task@.number);
        }
        let stored = match store.update(id, task) {
            Ok(stored) => stored,
            Err(error) => {
                return Err(Failure { error, done: Report { tasks, lines } });
            },
        };
        let ghost lines_before = texts(lines@);
        let ghost tasks_before = task_views(tasks@);
        lines.push(task_action_line(status, &stored));
        tasks.push(stored);
        proof {
            assert(stored@ == target.with_status(status));
            assert(task_views(tasks@) =~= tasks_before.push(stored@));
            assert(texts(lines@) =~= lines_before.push(action_line(status, stored@)));
            assert(picked.take(k + 1) =~= picked.take(k as int).push(target));
            assert forall|i: int| 0 <= i < before.records.len() implies #[trigger] store@.records[i]
                == if touched(picked, k + 1, before.records[i].id) {
                before.records[i].with_status(status)
            } else {
                before.records[i]
            } by {
                if i == at {
                    assert(picked[k as int].id == before.records[i].id);
                    assert(touched(picked, k + 1, before.records[i].id));
                } else {
                    assert(store@.records[i] == current.records[i]);
                    if i < at {
                        assert(before.records[i].id != before.records[at].id);
                    } else {
                        assert(before.records[at].id != before.records[i].id);
                    }
                    if touched(picked, k as int, before.records[i].id) {
                        let j = choose|j: int|
                            0 <= j < k && (#[trigger] picked[j]).id == before.records[i].id;
                        assert(0 <= j < k + 1 && picked[j].id == before.records[i].id);
                    }
                    if touched(picked, k + 1, before.records[i].id) {
                        let j = choose|j: int|
                            0 <= j < k + 1 && (#[trigger] picked[j]).id == before.records[i].id;
                        assert(j != k);
                        assert(0 <= j < k && picked[j].id == before.records[i].id);
                    }
                }
            }
        }
        k += 1;
    }
    let summary = task_action_summary_line(status, tasks.len());
    let ghost lines_before = texts(lines@);
    lines.push(summary);
    proof {
        assert(picked.take(k as int) =~= picked);
        assert(texts(lines@) =~= lines_before.push(summary@));
        let goal = before.marked(number_set(numbers@), status);
        assert forall|i: int| 0 <= i < before.records.len() implies store@.records[i]
            == goal.records[i] by {
            let record = before.records[i];
            if wanted(record) {
                before.records.lemma_filter_contains(wanted, i);
                let j = choose|j: int| 0 <= j < picked.len() && picked[j] == record;
                assert(picked[j].id == record.id);
                assert(touched(picked, k as int, record.id));
            }
            if touched(picked, k as int, record.id) {
                let j = choose|j: int| 0 <= j < k && (#[trigger] picked[j]).id == record.id;
                let from = choose|f: int|
                    0 <= f < before.records.len() && before.records[f] == picked[j];
                assert(before.records.contains(picked[j]));
                if from < i {
                    assert(before.records[from].id != before.records[i].id);
                } else if from > i {
                    assert(before.records[i].id != before.records[from].id);
                }
                assert(wanted(record));
            }
        }
        assert(store@.records =~= goal.records);
        lemma_marked_selection(before.records, number_set(numbers@), status);
    }
    Ok(Report { tasks, lines })
}

/// Marks the tasks whose number the list names as started, whatever their
/// status was, and reports each of them and their count. A number that no
/// task bears is passed over.
pub fn start_tasks(store: &mut TaskStore, numbers: Vec<i64>) -> (result: Result<Report, Failure>)
    requires
        old(store).wf(),
    ensures
        final(store).wf(),
        final(store)@ == old(store)@.marked(number_set(numbers@), TaskStatus::Started),
        result is Ok,
        result.unwrap()@ == batch(
            TaskStatus::Started,
            old(store)@.records.filter(numbered_in(number_set(numbers@))).map_values(
                restatus(TaskStatus::Started),
            ),
        ),
        result.unwrap()@.tasks == final(store)@.records.filter(
            numbered_in(number_set(numbers@)),
        ),
{
    mark_tasks(store, &numbers, TaskStatus::Started)
}

/// Marks the tasks whose number the list names as completed, whatever their
/// status was, and reports each of them and their count. A number that no
/// task bears is passed over.
pub fn complete_tasks(store: &mut TaskStore, numbers: Vec<i64>) -> (result: Result<Report, Failure>)
    requires
        old(store).wf(),
    ensures
        final(store).wf(),
        final(store)@ == old(store)@.marked(number_set(numbers@), TaskStatus::Completed),
        result is Ok,
        result.unwrap()@ == batch(
            TaskStatus::Completed,
            old(store)@.records.filter(numbered_in(number_set(numbers@))).map_values(
                restatus(TaskStatus::Completed),
            ),
        ),
        result.unwrap()@.tasks == final(store)@.records.filter(
            numbered_in(number_set(numbers@)),
        ),
{
    mark_tasks(store, &numbers, TaskStatus::Completed)
}

/// Lists the tasks that are started, in ascending order of their numbers.
pub fn list_active_tasks(store: &TaskStore) -> (result: Result<Report, Failure>)
    ensures
        result is Ok,
        result.unwrap()@ == listing(store@.records.filter(has_status(TaskStatus::Started))),
{
    let tasks = store.by_status(TaskStatus::Started);
    let lines = task_list_lines(&tasks);
    Ok(Report { tasks, lines })
}

/// Lists every task, in ascending order of the numbers.
pub fn list_all_tasks(store: &TaskStore) -> (result: Result<Report, Failure>)
    ensures
        result is Ok,
        result.unwrap()@ == listing(store@.records),
{
    let tasks = store.all();
    let lines = task_list_lines(&tasks);
    Ok(Report { tasks, lines })
}

/// Lists the tasks that are completed, in ascending order of their numbers.
pub fn list_completed_tasks(store: &TaskStore) -> (result: Result<Report, Failure>)
    ensures
        result is Ok,
        result.unwrap()@ == listing(store@.records.filter(has_status(TaskStatus::Completed))),
{
    let tasks = store.by_status(TaskStatus::Completed);
    let lines = task_list_lines(&tasks);
    Ok(Report { tasks, lines })
}

} // verus!
