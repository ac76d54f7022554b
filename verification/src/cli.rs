//! The command surface: which operation a parsed command stands for.
use crate::command::{
    add_run, add_tasks, addition, batch, complete_tasks, list_active_tasks, list_all_tasks,
    list_completed_tasks, listing, start_tasks, Failure, Report,
};
use crate::store::{has_status, number_set, numbered_in, restatus, TaskStore};
use crate::task::TaskStatus;
use crate::utilities::texts;
use vstd::prelude::*;
use vstd::string::*;

verus! {

/// The commands of the application.
#[derive(Debug)]
pub enum Commands {
    /// Shows active tasks.
    Active,
    /// Adds new pending tasks.
    Add { names: Vec<String> },
    /// Shows all tasks.
    All,
    /// Shows completed tasks.
    Completed,
    /// Deletes the specified task.
    Delete,
    /// Marks the specified tasks as completed.
    Done { numbers: Vec<i64> },
    /// Duplicates the specified tasks.
    Duplicate,
    /// Shows most details of tasks.
    List,
    /// Modifies the existing task with provided arguments.
    Modify,
    /// Starts the specified tasks.
    Start { numbers: Vec<i64> },
}

/// Why a command line was not carried out, or not to its end.
#[derive(Debug)]
pub enum CliError {
    /// The command line names no command.
    NoSubcommand,
    /// The command has no operation behind it.
    NotImplemented,
    /// The store failed.
    Store(Failure),
}

impl CliError {
    /// The words that tell the user of a misuse of the command line.
    pub open spec fn usage(self) -> Option<Seq<char>> {
        match self {
            CliError::NoSubcommand => Some(
                "error: no subcommand specified\n\nUsage: pilum [COMMAND]\n\nFor more information, try '--help'."@,
            ),
            CliError::NotImplemented => Some(
                "error: subcommand not implemented\n\nUsage: pilum [COMMAND]\n\nFor more information, try '--help'."@,
            ),
            CliError::Store(_) => None,
        }
    }

    /// Returns the words that tell the user of a misuse of the command line.
    /// A failure of the store is none.
    pub fn usage_message(&self) -> (message: Option<String>)
        ensures
            message is Some == self.usage() is Some,
            message is Some ==> message.unwrap()@ == self.usage().unwrap(),
    {
        match self {
            CliError::NoSubcommand => Some(
                String::from_str(
                    "error: no subcommand specified\n\nUsage: pilum [COMMAND]\n\nFor more information, try '--help'.",
                ),
            ),
            CliError::NotImplemented => Some(
                String::from_str(
                    "error: subcommand not implemented\n\nUsage: pilum [COMMAND]\n\nFor more information, try '--help'.",
                ),
            ),
            CliError::Store(_) => None,
        }
    }

    /// The status with which the process ends: 2 after a misuse of the
    /// command line, 1 after a failure of the store.
    pub fn exit_status(&self) -> (status: i32)
        ensures
            status == if self.usage() is Some {
                2i32
            } else {
                1i32
            },
    {
        match self {
            CliError::NoSubcommand => 2,
            CliError::NotImplemented => 2,
            CliError::Store(_) => 1,
        }
    }
}

/// A parsed command line.
#[derive(Debug)]
pub struct Cli {
    pub command: Option<Commands>,
}

impl Cli {
    /// Carries out the one operation that the command stands for. Without a
    /// command, or with one that has no operation behind it, nothing is done
    /// to the store.
    pub fn run(self, store: &mut TaskStore) -> (result: Result<Report, CliError>)
        requires
            old(store).wf(),
        ensures
            final(store).wf(),
            match self.command {
                None => {
                    &&& result == Err::<Report, CliError>(CliError::NoSubcommand)
                    &&& final(store)@ == old(store)@
                },
                Some(Commands::Active) => {
                    &&& result is Ok
                    &&& result.unwrap()@ == listing(
                        old(store)@.records.filter(has_status(TaskStatus::Started)),
                    )
                    &&& final(store)@ == old(store)@
                },
                Some(Commands::Add { names }) => {
                    let run = add_run(old(store)@, texts(names@));
                    &&& final(store)@ == run.store
                    &&& match result {
                        Ok(report) => run.error is None && report@ == addition(run.created),
                        Err(CliError::Store(failure)) => {
                            &&& run.error == Some(failure.error)
                            &&& failure.done@ == addition(run.created)
                        },
                        Err(_) => false,
                    }
                },
                Some(Commands::All) => {
                    &&& result is Ok
                    &&& result.unwrap()@ == listing(old(store)@.records)
                    &&& final(store)@ == old(store)@
                },
                Some(Commands::Completed) => {
                    &&& result is Ok
                    &&& result.unwrap()@ == listing(
                        old(store)@.records.filter(has_status(TaskStatus::Completed)),
                    )
                    &&& final(store)@ == old(store)@
                },
                Some(Commands::Done { numbers }) => {
                    &&& result is Ok
                    &&& result.unwrap()@ == batch(
                        TaskStatus::Completed,
                        old(store)@.records.filter(numbered_in(number_set(numbers@))).map_values(
                            restatus(TaskStatus::Completed),
                        ),
                    )
                    &&& final(store)@ == old(store)@.marked(
                        number_set(numbers@),
                        TaskStatus::Completed,
                    )
                },
                Some(Commands::Start { numbers }) => {
                    &&& result is Ok
                    &&& result.unwrap()@ == batch(
                        TaskStatus::Started,
                        old(store)@.records.filter(numbered_in(number_set(numbers@))).map_values(
                            restatus(TaskStatus::Started),
                        ),
                    )
                    &&& final(store)@ == old(store)@.marked(
                        number_set(numbers@),
                        TaskStatus::Started,
                    )
                },
                Some(_) => {
                    &&& result == Err::<Report, CliError>(CliError::NotImplemented)
                    &&& final(store)@ == old(store)@
                },
            },
    {
        let outcome = match self.command {
            Some(Commands::Active) => list_active_tasks(store),
            Some(Commands::Add { names }) => add_tasks(store, names),
            Some(Commands::All) => list_all_tasks(store),
            Some(Commands::Completed) => list_completed_tasks(store),
            Some(Commands::Done { numbers }) => complete_tasks(store, numbers),
            Some(Commands::Start { numbers }) => start_tasks(store, numbers),
            None => {
                return Err(CliError::NoSubcommand);
            },
            _ => {
                return Err(CliError::NotImplemented);
            },
        };
        match outcome {
            Ok(report) => Ok(report),
            Err(failure) => Err(CliError::Store(failure)),
        }
    }
}

} // verus!
