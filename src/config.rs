use vstd::prelude::*;

verus! {

/// Where the tracker keeps its tasks.
#[derive(Debug)]
pub struct Config {
    pub tasks_file: String,
}

impl Config {
    pub fn new(tasks_file: String) -> (r: Config)
        ensures
            r.tasks_file@ == tasks_file@,
    {
        Config { tasks_file }
    }

    /// The path of the task file.
    pub fn get_tasks_file(&self) -> (r: &str)
        ensures
            r@ == self.tasks_file@,
    {
        self.tasks_file.as_str()
    }
}

impl Default for Config {
    /// The task file `.taskmao/tasks.db3`.
    fn default() -> (r: Config)
        ensures
            r.tasks_file@ == ".taskmao/tasks.db3"@,
    {
        Config { tasks_file: String::from_str(".taskmao/tasks.db3") }
    }
}

} // verus!
