//! Where the tasks are persisted: the names under which the storage is
//! reached, and the choice between the production and the test storage.
use vstd::prelude::*;
use vstd::string::*;

verus! {

/// The storage that an invocation works on.
#[derive(Clone, Copy, Debug, PartialEq, Eq, Structural)]
pub enum StorageMode {
    Production,
    Test,
}

/// The names under which the storage is reached. It holds no data itself.
#[derive(Debug)]
pub struct Database;

impl Database {
    /// The namespace of the storage.
    pub fn namespace() -> (name: &'static str)
        ensures
            name@ == "pilum"@,
    {
        "pilum"
    }

    /// The name of the database within the namespace, and of the directory
    /// that holds it.
    pub fn database() -> (name: &'static str)
        ensures
            name@ == "database"@,
    {
        "database"
    }

    /// The name of the hidden directory that holds the production storage
    /// within the home directory: a dot, then the namespace.
    pub fn production_directory() -> (name: String)
        ensures
            name@ == "."@ + "pilum"@,
    {
        let mut name = String::from_str(".");
        name.append(Self::namespace());
        name
    }

    /// The name of the directory that holds the namespace of the test
    /// storage within the working directory.
    pub fn test_directory() -> (name: &'static str)
        ensures
            name@ == "tmp"@,
    {
        "tmp"
    }

    /// Chooses the storage from the value of the mode flag `PILUM_MODE`: the
    /// test storage where the flag is set to `test`, the production storage
    /// where it is not set or set to anything else.
    pub fn mode(flag: &Option<String>) -> (mode: StorageMode)
        ensures
            mode == if flag is Some && flag.unwrap()@ == "test"@ {
                StorageMode::Test
            } else {
                StorageMode::Production
            },
    {
        match flag {
            Some(value) => {
                let test = String::from_str("test");
                if *value == test {
                    StorageMode::Test
                } else {
                    StorageMode::Production
                }
            },
            None => StorageMode::Production,
        }
    }
}

} // verus!
