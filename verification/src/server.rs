//! The request handlers behind the client-facing service: create a job,
//! disable a job, ask for a job. They read and write the same store that
//! the scheduler reconciles against. Carrying requests over the wire is the
//! caller's part.

use crate::db::{DBError, DB};
use crate::job::{Execution, Job};
use crate::clock::current_timestamp;
use vstd::prelude::*;
use vstd::string::*;

verus! {

/// The request to create a job.
#[derive(Debug, PartialEq, Eq)]
pub struct JobRequest {
    pub name: String,
    pub time: String,
    pub job_type: i32,
    pub timeout: i32,
    /// Where the script lives in the blob store.
    pub location: String,
    /// Whether an active job of the same name is to be replaced.
    pub update_if_exists: bool,
}

/// The answer to a request to create a job.
#[derive(Debug, PartialEq, Eq)]
pub struct JobResponse {
    pub name: String,
    pub error_code: i32,
    pub error_message: String,
}

/// The request for a job's definition.
#[derive(Debug, PartialEq, Eq)]
pub struct JobStatusRequest {
    pub name: String,
}

/// A job's definition and its runs.
#[derive(Debug, PartialEq, Eq)]
pub struct JobStatusResponse {
    pub name: String,
    pub timeout: i32,
    pub time: String,
    pub error_code: i32,
    pub job_type: i32,
    pub location: String,
    pub executions: Vec<Execution>,
}

/// The request to disable a job.
#[derive(Debug, PartialEq, Eq)]
pub struct DisableJobRequest {
    pub name: String,
}

/// The answer to a request to disable a job.
#[derive(Debug, PartialEq, Eq)]
pub struct DisableJobResponse {
    pub error_code: i32,
    pub error_message: String,
}

/// Why a request failed.
#[derive(Clone, Copy, Debug, PartialEq, Eq, Structural)]
pub enum Code {
    /// The store failed.
    Internal,
    /// No active job has the name that was asked for.
    NotFound,
}

/// A failed request: why it failed, and a message for the caller.
#[derive(Debug, PartialEq, Eq)]
pub struct Failure {
    pub code: Code,
    pub message: String,
}

/// The service that handles the requests.
#[derive(Debug, Default)]
pub struct DcronBasicServer {}

/// Whether `failure` has this code and this message.
pub open spec fn fails_with(failure: Failure, code: Code, message: Seq<char>) -> bool {
    failure.code == code && failure.message@ == message
}

/// Whether `job` is the job that `request` describes when it is written at
/// `now`: the request's fields, active.
pub open spec fn describes(job: Job, request: JobRequest, now: int) -> bool {
    &&& job.name@ == request.name@
    &&& job.time@ == request.time@
    &&& job.job_type == request.job_type
    &&& job.timeout == request.timeout
    &&& job.script@ == request.location@
    &&& job.active
    &&& job.updated_at == now
}

/// The job that a request to create one describes: active, and written at
/// `now`.
pub fn job_from_request(request: &JobRequest, now: i64) -> (job: Job)
    ensures
        describes(job, *request, now as int),
{
    Job {
        name: request.name.clone(),
        time: request.time.clone(),
        job_type: request.job_type,
        script: request.location.clone(),
        timeout: request.timeout,
        active: true,
        updated_at: now,
    }
}

/// Whether `reply` answers a request to create the job `name`, given that
/// the store said `saved` when asked to save it.
pub open spec fn saved_replied(
    name: Seq<char>,
    saved: Result<(), DBError>,
    reply: Result<JobResponse, Failure>,
) -> bool {
    match reply {
        Ok(response) => saved is Ok && response.name@ == name && response.error_code == 0
            && response.error_message@ == Seq::<char>::empty(),
        Err(failure) => saved is Err && fails_with(
            failure,
            Code::Internal,
            "Error while trying to save object"@,
        ),
    }
}

/// The answer to a request to create the job `name`, given what the store
/// said when asked to save it.
pub fn saved_reply(name: String, saved: &Result<(), DBError>) -> (reply: Result<
    JobResponse,
    Failure,
>)
    ensures
        saved_replied(name@, *saved, reply),
{
    match saved {
        Ok(_) => Ok(JobResponse { name, error_code: 0, error_message: String::new() }),
        Err(_) => Err(
            Failure {
                code: Code::Internal,
                message: String::from_str("Error while trying to save object"),
            },
        ),
    }
}

/// Whether `reply` answers a request for a job, given that the store found
/// `found`: the job's fields, or that it is not found.
pub open spec fn status_replied(found: Option<Job>, reply: Result<JobStatusResponse, Failure>) -> bool {
    match reply {
        Ok(response) => {
            &&& found matches Some(job)
            &&& response.name@ == job.name@
            &&& response.timeout == job.timeout
            &&& response.time@ == job.time@
            &&& response.error_code == 0
            &&& response.job_type == job.job_type
            &&& response.location@ == job.script@
            &&& response.executions@ == Seq::<Execution>::empty()
        },
        Err(failure) => found is None && fails_with(
            failure,
            Code::NotFound,
            "Error while trying to get object"@,
        ),
    }
}

/// The answer to a request for a job, given what the store found.
pub fn status_reply(found: Option<Job>) -> (reply: Result<JobStatusResponse, Failure>)
    ensures
        status_replied(found, reply),
{
    match found {
        Some(job) => Ok(
            JobStatusResponse {
                name: job.name,
                timeout: job.timeout,
                time: job.time,
                error_code: 0,
                job_type: job.job_type,
                location: job.script,
                executions: Vec::new(),
            },
        ),
        None => Err(
            Failure {
                code: Code::NotFound,
                message: String::from_str("Error while trying to get object"),
            },
        ),
    }
}

/// Whether `reply` answers a request to disable a job that exists, given
/// that the store said `disabled` when asked to disable it.
pub open spec fn disabled_replied(
    disabled: Result<(), DBError>,
    reply: Result<DisableJobResponse, Failure>,
) -> bool {
    match reply {
        Ok(response) => disabled is Ok && response.error_code == 0 && response.error_message@
            == Seq::<char>::empty(),
        Err(failure) => disabled is Err && fails_with(
            failure,
            Code::Internal,
            "Error while trying to update object"@,
        ),
    }
}

/// The answer to a request to disable a job that exists, given what the
/// store said when asked to disable it.
pub fn disabled_reply(disabled: &Result<(), DBError>) -> (reply: Result<
    DisableJobResponse,
    Failure,
>)
    ensures
        disabled_replied(*disabled, reply),
{
    match disabled {
        Ok(_) => Ok(DisableJobResponse { error_code: 0, error_message: String::new() }),
        Err(_) => Err(
            Failure {
                code: Code::Internal,
                message: String::from_str("Error while trying to update object"),
            },
        ),
    }
}

/// Whether `reply` is the failure that a missing connection gives.
pub open spec fn unconnected<T>(reply: Result<T, Failure>) -> bool {
    reply matches Err(failure) && fails_with(
        failure,
        Code::Internal,
        "Could not connect to the database"@,
    )
}

fn no_connection() -> (failure: Failure)
    ensures
        fails_with(failure, Code::Internal, "Could not connect to the database"@),
{
    Failure { code: Code::Internal, message: String::from_str("Could not connect to the database") }
}

/// What creating a job at `now` comes to on the store `db`. The store is
/// asked to save the job that the request describes. Where the request
/// asks for it, the store is first asked to disable the active job of that
/// name, and a failure of that ends the request before anything is saved.
pub open spec fn created<D: DB>(
    db: &D,
    request: JobRequest,
    now: int,
    reply: Result<JobResponse, Failure>,
) -> bool {
    let saved_there = exists|job: Job, saved: Result<(), DBError>| #[trigger]
        db.job_inserted(job, saved) && describes(job, request, now) && saved_replied(
            request.name@,
            saved,
            reply,
        );
    if request.update_if_exists {
        exists|disabled: Result<(), DBError>| #[trigger]
            db.job_disabled(request.name@, disabled) && match disabled {
                Ok(_) => saved_there,
                Err(_) => reply matches Err(failure) && fails_with(
                    failure,
                    Code::Internal,
                    "Error while disabling old job"@,
                ),
            }
    } else {
        saved_there
    }
}

/// What asking for a job comes to on the store `db`: the store is asked
/// for the active job of the name, and the reply follows its answer.
pub open spec fn looked_up<D: DB>(
    db: &D,
    request: JobStatusRequest,
    reply: Result<JobStatusResponse, Failure>,
) -> bool {
    exists|found: Option<Job>| #[trigger]
        db.job_found(request.name@, true, found) && status_replied(found, reply)
}

/// What disabling a job comes to on the store `db`: the store is asked for
/// the active job of the name. If there is none, the job is not found and
/// the store is asked nothing more. If there is one, the store is asked to
/// disable it, and the reply follows its answer.
pub open spec fn disabled_there<D: DB>(
    db: &D,
    request: DisableJobRequest,
    reply: Result<DisableJobResponse, Failure>,
) -> bool {
    exists|found: Option<Job>| #[trigger]
        db.job_found(request.name@, true, found) && match found {
            Some(_) => exists|disabled: Result<(), DBError>| #[trigger]
                db.job_disabled(request.name@, disabled) && disabled_replied(disabled, reply),
            None => reply matches Err(failure) && fails_with(
                failure,
                Code::NotFound,
                "Error while trying to get object"@,
            ),
        }
}

impl DcronBasicServer {
    /// Creates the job that `request` describes, stamped with the current
    /// time.
    pub fn new_job<D: DB>(&self, connection: &Result<D, DBError>, request: JobRequest) -> (reply:
        Result<JobResponse, Failure>)
        ensures
            match *connection {
                Ok(db) => exists|now: int| #[trigger] created(&db, request, now, reply),
                Err(_) => unconnected(reply),
            },
    {
        let now = current_timestamp();
        let ghost asked = request;
        let reply = self.new_job_at(connection, request, now);
        proof {
            if connection is Ok {
                assert(created(&connection->Ok_0, asked, now as int, reply));
            }
        }
        reply
    }

    /// Creates the job that `request` describes, stamped with `now`. Where
    /// the request asks for it, an active job of the same name is disabled
    /// first; without that, an active job of the same name makes the store
    /// refuse the new one. Every failure of the store fails the request.
    pub fn new_job_at<D: DB>(
        &self,
        connection: &Result<D, DBError>,
        request: JobRequest,
        now: i64,
    ) -> (reply: Result<JobResponse, Failure>)
        ensures
            match *connection {
                Ok(db) => created(&db, request, now as int, reply),
                Err(_) => unconnected(reply),
            },
    {
        let job = job_from_request(&request, now);
        let db = match connection {
            Ok(db) => db,
            Err(_) => {
                return Err(no_connection());
            },
        };
        if request.update_if_exists {
            let disabled = db.disable_if_exist(job.name.as_str());
            if disabled.is_err() {
                let reply = Err(
                    Failure {
                        code: Code::Internal,
                        message: String::from_str("Error while disabling old job"),
                    },
                );
                assert(db.job_disabled(request.name@, disabled));
                return reply;
            }
            let saved = db.insert_if_not_exist(&job);
            let ghost stored = job;
            let reply = saved_reply(job.name, &saved);
            proof {
                assert(db.job_inserted(stored, saved) && describes(stored, request, now as int)
                    && saved_replied(request.name@, saved, reply));
                assert(db.job_disabled(request.name@, disabled));
            }
            reply
        } else {
            let saved = db.insert_if_not_exist(&job);
            let ghost stored = job;
            let reply = saved_reply(job.name, &saved);
            proof {
                assert(db.job_inserted(stored, saved) && describes(stored, request, now as int)
                    && saved_replied(request.name@, saved, reply));
            }
            reply
        }
    }

    /// Looks up the active job that `request` names.
    pub fn get_job<D: DB>(&self, connection: &Result<D, DBError>, request: JobStatusRequest) -> (reply:
        Result<JobStatusResponse, Failure>)
        ensures
            match *connection {
                Ok(db) => looked_up(&db, request, reply),
                Err(_) => unconnected(reply),
            },
    {
        let db = match connection {
            Ok(db) => db,
            Err(_) => {
                return Err(no_connection());
            },
        };
        let found = db.find_job(request.name.as_str(), true);
        let reply = status_reply(found);
        assert(db.job_found(request.name@, true, found) && status_replied(found, reply));
        reply
    }

    /// Disables the active job that `request` names. A name without an
    /// active job is not found.
    pub fn disable_job<D: DB>(&self, connection: &Result<D, DBError>, request: DisableJobRequest) -> (reply:
        Result<DisableJobResponse, Failure>)
        ensures
            match *connection {
                Ok(db) => disabled_there(&db, request, reply),
                Err(_) => unconnected(reply),
            },
    {
        let db = match connection {
            Ok(db) => db,
            Err(_) => {
                return Err(no_connection());
            },
        };
        let found = db.find_job(request.name.as_str(), true);
        match found {
            Some(_) => {
                let disabled = db.disable_if_exist(request.name.as_str());
                let reply = disabled_reply(&disabled);
                assert(db.job_disabled(request.name@, disabled) && disabled_replied(
                    disabled,
                    reply,
                ));
                assert(db.job_found(request.name@, true, found));
                reply
            },
            None => {
                let reply = Err(
                    Failure {
                        code: Code::NotFound,
                        message: String::from_str("Error while trying to get object"),
                    },
                );
                assert(db.job_found(request.name@, true, found));
                reply
            },
        }
    }
}

} // verus!
