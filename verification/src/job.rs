//! The job definition shared by the store and the scheduler, and what is
//! recorded of a job's runs.

use vstd::prelude::*;
use vstd::string::*;

verus! {

/// A named, schedulable unit of work.
#[derive(Debug, PartialEq, Eq)]
pub struct Job {
    /// Unique identifier, the key in the store and in the registry.
    pub name: String,
    /// Cron expression that says when the job is due.
    pub time: String,
    /// Numeric code of the interpreter that runs the script.
    pub job_type: i32,
    /// Where the script lives in the blob store.
    pub script: String,
    /// Seconds the script may run; zero means unbounded.
    pub timeout: i32,
    /// `false` marks a logically deleted job: the row stays in the store but
    /// must not be scheduled.
    pub active: bool,
    /// When the row was last written, in seconds since the epoch.
    pub updated_at: i64,
}

impl Clone for Job {
    fn clone(&self) -> (copy: Job)
        ensures
            copy == *self,
    {
        Job {
            name: self.name.clone(),
            time: self.time.clone(),
            job_type: self.job_type,
            script: self.script.clone(),
            timeout: self.timeout,
            active: self.active,
            updated_at: self.updated_at,
        }
    }
}

/// How a run of a job ended, or that it has not ended yet.
#[allow(non_camel_case_types)]
#[derive(Clone, Copy, Debug, PartialEq, Eq, Structural)]
pub enum Status {
    RUNNING,
    TIMEOUT,
    FAILED,
    SUCCEEDED,
}

/// One run of a job, as the executor reports it.
#[derive(Debug, PartialEq, Eq)]
pub struct Execution {
    /// When the run started, in seconds since the epoch.
    pub start_time: i64,
    /// What the script printed.
    pub log: String,
    /// How the run ended.
    pub status: Status,
}

/// The interpreters that a job's script can be written for.
#[derive(Clone, Copy, Debug, PartialEq, Eq, Structural)]
pub enum ScriptType {
    Python,
    Ruby,
}

impl ScriptType {
    /// The number that stands for the interpreter in a job definition.
    pub open spec fn spec_code(self) -> i32 {
        match self {
            ScriptType::Python => 0,
            ScriptType::Ruby => 1,
        }
    }

    /// The number that stands for the interpreter in a job definition.
    #[verifier::when_used_as_spec(spec_code)]
    pub fn code(self) -> (code: i32)
        ensures
            code == self.spec_code(),
    {
        match self {
            ScriptType::Python => 0,
            ScriptType::Ruby => 1,
        }
    }
}

/// The interpreter that a user names, if the name is known.
pub open spec fn script_type_named(user_type: Seq<char>) -> Option<ScriptType> {
    if user_type == "python"@ {
        Some(ScriptType::Python)
    } else if user_type == "ruby"@ {
        Some(ScriptType::Ruby)
    } else {
        None
    }
}

/// Reads the name of an interpreter: `python` or `ruby`, in lower case.
pub fn script_type(user_type: &str) -> (kind: Option<ScriptType>)
    ensures
        kind == script_type_named(user_type@),
{
    let given = user_type.to_owned();
    if given == String::from_str("python") {
        Some(ScriptType::Python)
    } else if given == String::from_str("ruby") {
        Some(ScriptType::Ruby)
    } else {
        None
    }
}

/// The `job_type` code of the interpreter that a user names. Only `python`
/// and `ruby` are supported.
pub fn job_type(user_type: &str) -> (code: i32)
    requires
        script_type_named(user_type@).is_some(),
    ensures
        code == script_type_named(user_type@).unwrap().code(),
{
    match script_type(user_type) {
        Some(kind) => kind.code(),
        None => 0,
    }
}

} // verus!
