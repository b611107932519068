//! The job store as the scheduler sees it: a narrow interface that some
//! durable store implements, and the addresses under which the store is
//! reached.

use crate::config::Config;
use crate::heartbeat::Heartbeat;
use crate::job::Job;
use vstd::prelude::*;
use vstd::string::*;

verus! {

/// A failure of the store: it could not be reached, or a query failed.
/// Such a failure is transient; callers try again at their next interval.
#[derive(Debug, PartialEq, Eq)]
pub struct DBError {
    pub message: String,
}

impl Clone for DBError {
    fn clone(&self) -> (copy: DBError)
        ensures
            copy == *self,
    {
        DBError { message: self.message.clone() }
    }
}

/// What the scheduler asks of the job store. The library only consumes this
/// interface.
///
/// For each operation the interface names the answers that a store may
/// give: a relation between
/// what was asked and what came back, which each store may define for
/// itself and which admits every answer where a store does not. The
/// relation promises nothing, least of all success. It lets a caller say
/// which question its result is the answer to; what the answer is, every
/// caller in this crate is proved for whatever it may be.
pub trait DB {
    /// Whether `sent` is an answer of this store to `send_heartbeat` for
    /// `server_name`.
    open spec fn heartbeat_sent(&self, server_name: Seq<char>, sent: Result<(), DBError>) -> bool {
        true
    }

    /// Whether `found` is an answer of this store to
    /// `most_recent_heartbeat`.
    open spec fn heartbeat_found(&self, found: Result<Option<Heartbeat>, DBError>) -> bool {
        true
    }

    /// Whether `found` is an answer of this store to `find_all_active`.
    open spec fn active_found(&self, found: Result<Vec<Job>, DBError>) -> bool {
        true
    }

    /// Whether `found` is an answer of this store to `find_all_since` for
    /// this `active` flag and this `since`.
    open spec fn changes_found(
        &self,
        active: bool,
        since: int,
        found: Result<Vec<Job>, DBError>,
    ) -> bool {
        true
    }

    /// Whether `found` is an answer of this store to `find_job` for this
    /// name and this `active` flag.
    open spec fn job_found(&self, name: Seq<char>, active: bool, found: Option<Job>) -> bool {
        true
    }

    /// Whether `done` is an answer of this store to `disable_if_exist` for
    /// this name.
    open spec fn job_disabled(&self, name: Seq<char>, done: Result<(), DBError>) -> bool {
        true
    }

    /// Whether `done` is an answer of this store to `insert_if_not_exist`
    /// for this job.
    open spec fn job_inserted(&self, job: Job, done: Result<(), DBError>) -> bool {
        true
    }

    /// Appends a heartbeat of `server_name`, stamped with the current time.
    fn send_heartbeat(&self, server_name: &str) -> (sent: Result<(), DBError>)
        ensures
            self.heartbeat_sent(server_name@, sent),
    ;

    /// The heartbeat of the instance that leads, among the heartbeats that
    /// are still fresh, if there is any.
    fn most_recent_heartbeat(&self) -> (found: Result<Option<Heartbeat>, DBError>)
        ensures
            self.heartbeat_found(found),
    ;

    /// The job of this name with this `active` flag.
    fn find_job(&self, name: &str, active: bool) -> (found: Option<Job>)
        ensures
            self.job_found(name@, active, found),
    ;

    /// Every active job.
    fn find_all_active(&self) -> (found: Result<Vec<Job>, DBError>)
        ensures
            self.active_found(found),
    ;

    /// The jobs with this `active` flag that were written after `since`.
    fn find_all_since(&self, active: bool, since: i64) -> (found: Result<Vec<Job>, DBError>)
        ensures
            self.changes_found(active, since as int, found),
    ;

    /// Marks the active job of this name as deleted, if there is one.
    fn disable_if_exist(&self, name: &str) -> (done: Result<(), DBError>)
        ensures
            self.job_disabled(name@, done),
    ;

    /// Stores `job` unless an active job of its name exists.
    fn insert_if_not_exist(&self, job: &Job) -> (done: Result<(), DBError>)
        ensures
            self.job_inserted(*job, done),
    ;
}

/// What a store that holds `rows` answers when asked for every active job.
pub open spec fn found_active(rows: Seq<Job>) -> Seq<Job> {
    rows.filter(|job: Job| job.active)
}

/// What a store that holds `rows` answers when asked for the jobs with this
/// `active` flag that were written after `since`.
pub open spec fn found_since(rows: Seq<Job>, active: bool, since: int) -> Seq<Job> {
    rows.filter(|job: Job| job.active == active && job.updated_at > since)
}

/// The address of a hosted store, for a user, a password and a cluster.
pub open spec fn connection_url_of(
    username: Seq<char>,
    password: Seq<char>,
    cluster_url: Seq<char>,
) -> Seq<char> {
    "mongodb+srv://"@ + username + ":"@ + password + "@"@ + cluster_url + "/dcron?w=majority"@
}

/// The address of a hosted store, for a user, a password and a cluster.
pub fn connection_url(username: &str, password: &str, cluster_url: &str) -> (url: String)
    ensures
        url@ == connection_url_of(username@, password@, cluster_url@),
{
    let mut url = String::from_str("mongodb+srv://");
    url.append(username);
    url.append(":");
    url.append(password);
    url.append("@");
    url.append(cluster_url);
    url.append("/dcron?w=majority");
    url
}

/// The address of the store on this machine, used when no store is
/// configured.
pub fn local_connection_url() -> (url: String)
    ensures
        url@ == "mongodb://localhost:27017/dcron"@,
{
    String::from_str("mongodb://localhost:27017/dcron")
}

/// The address of the store that `config` names.
pub open spec fn store_url_of(config: Config) -> Seq<char> {
    match config.database {
        Some(database) => connection_url_of(
            database.username@,
            database.password@,
            database.cluster_url@,
        ),
        None => "mongodb://localhost:27017/dcron"@,
    }
}

/// The address of the store that `config` names: the configured cluster, or
/// the local store where none is configured.
pub fn store_url(config: &Config) -> (url: String)
    ensures
        url@ == store_url_of(*config),
{
    match &config.database {
        Some(database) => connection_url(
            database.username.as_str(),
            database.password.as_str(),
            database.cluster_url.as_str(),
        ),
        None => local_connection_url(),
    }
}

} // verus!
