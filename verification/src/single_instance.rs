//! Whether this process is the only running instance. Taking the lock is the
//! caller's part; its outcome is kept here.

use vstd::prelude::*;
use vstd::string::*;

verus! {

/// The outcome of taking the instance lock.
pub struct SingleInstance {
    name: String,
    single: bool,
}

impl SingleInstance {
    /// The name of the lock.
    pub closed spec fn name(&self) -> Seq<char> {
        self.name@
    }

    /// This process took the lock.
    pub closed spec fn single(&self) -> bool {
        self.single
    }

    /// Keeps the outcome of taking the lock called `name`: `Ok(true)` where
    /// this process took it, `Ok(false)` where another process holds it. A
    /// lock that could not be tried at all is an error, and its message is
    /// handed on.
    pub fn new(name: &str, lock: Result<bool, String>) -> (r: Result<SingleInstance, String>)
        ensures
            match (lock, r) {
                (Ok(taken), Ok(instance)) => instance.name() == name@ && instance.single() == taken,
                (Err(why), Err(message)) => message == why,
                _ => false,
            },
    {
        match lock {
            Ok(taken) => Ok(SingleInstance { name: String::from_str(name), single: taken }),
            Err(why) => Err(why),
        }
    }

    /// Whether this process is the only running instance.
    pub fn is_single(&self) -> (single: bool)
        ensures
            single == self.single(),
    {
        self.single
    }
}

} // verus!
