//! The reconciliation loop: how a leader brings its registry in line with
//! the job store, cycle by cycle, and hands it back when it stops leading.
//!
//! The loop is a state machine. This module holds its transitions; what
//! runs them, sleeps between them and reads the role is the caller's part.
//! While the instance follows, the machine waits. When it observes that it
//! leads, it loads every active job into a fresh registry, then ticks the
//! trigger engine at the engine's own cadence and, whenever the poll
//! interval has passed, polls the store for changes since the watermark,
//! until a poll observes that the instance follows again; then it discards
//! the registry and waits.

use crate::db::{DBError, DB};
use crate::election::Role;
use crate::job::Job;
use crate::clock::current_timestamp;
use crate::scheduler::{
    disable_jobs, is_due, names_of, rejected_names, reported, reports_of,
    poll_is_due, reschedule_jobs_if_needed, schedule_all, table_of, tick, ticked, Entry,
    ScheduleError, Scheduler,
};
use crate::engine::schedule_accepted;
use vstd::multiset::Multiset;
use vstd::prelude::*;

verus! {

/// Milliseconds between two ticks of the trigger engine.
pub const TICK_INTERVAL_MS: u64 = 500;

/// Milliseconds that a follower waits before it looks at its role again.
pub const WAIT_INTERVAL_MS: u64 = 50;

/// The states of the reconciliation loop.
#[allow(non_camel_case_types)]
#[derive(Clone, Copy, Debug, PartialEq, Eq, Structural)]
pub enum LoopState {
    /// The instance follows, or has not looked yet.
    WAITING,
    /// The instance leads and has no registry yet.
    LOADING,
    /// The trigger engine is to run next.
    TICKING,
    /// The store is to be polled next.
    POLLING,
    /// The instance stopped leading and still holds a registry.
    STEPPING_DOWN,
}

/// The state after a step from `state`, given the role that the step
/// observed, whether the store answered what the step asked it, and
/// whether the store is due to be looked at again.
///
/// A failed load is tried again. Ticks follow each other at their own
/// cadence, and a poll comes in between when one is due. A poll ends with
/// a look at the role, whether the store answered or not: an instance that
/// follows steps down, so that a follower whose store is out of reach does
/// not go on firing; a leader goes on ticking and polls again later.
pub open spec fn next_state(state: LoopState, role: Role, store_ok: bool, poll_due: bool) -> LoopState {
    match state {
        LoopState::WAITING => if role == Role::LEADER {
            LoopState::LOADING
        } else {
            LoopState::WAITING
        },
        LoopState::LOADING => if store_ok {
            LoopState::TICKING
        } else {
            LoopState::LOADING
        },
        LoopState::TICKING => if poll_due {
            LoopState::POLLING
        } else {
            LoopState::TICKING
        },
        LoopState::POLLING => if role == Role::FOLLOWER {
            LoopState::STEPPING_DOWN
        } else {
            LoopState::TICKING
        },
        LoopState::STEPPING_DOWN => LoopState::WAITING,
    }
}

/// The state after a step from `state`.
pub fn advance(state: LoopState, role: Role, store_ok: bool, poll_due: bool) -> (next: LoopState)
    ensures
        next == next_state(state, role, store_ok, poll_due),
{
    match state {
        LoopState::WAITING => if role == Role::LEADER {
            LoopState::LOADING
        } else {
            LoopState::WAITING
        },
        LoopState::LOADING => if store_ok {
            LoopState::TICKING
        } else {
            LoopState::LOADING
        },
        LoopState::TICKING => if poll_due {
            LoopState::POLLING
        } else {
            LoopState::TICKING
        },
        LoopState::POLLING => if role == Role::FOLLOWER {
            LoopState::STEPPING_DOWN
        } else {
            LoopState::TICKING
        },
        LoopState::STEPPING_DOWN => LoopState::WAITING,
    }
}

/// How long the caller sleeps before the step from `state`, in
/// milliseconds. Only waiting and ticking take time: a poll follows the
/// tick that found it due at once.
pub fn pause_before(state: LoopState) -> (millis: u64)
    ensures
        millis == match state {
            LoopState::WAITING => WAIT_INTERVAL_MS,
            LoopState::LOADING => 0,
            LoopState::TICKING => TICK_INTERVAL_MS,
            LoopState::POLLING => 0,
            LoopState::STEPPING_DOWN => 0,
        },
{
    match state {
        LoopState::WAITING => WAIT_INTERVAL_MS,
        LoopState::LOADING => 0,
        LoopState::TICKING => TICK_INTERVAL_MS,
        LoopState::POLLING => 0,
        LoopState::STEPPING_DOWN => 0,
    }
}

/// Whether two schedulers hold the same registry.
pub open spec fn unchanged(pre: Scheduler, post: Scheduler) -> bool {
    &&& post.jobs() == pre.jobs()
    &&& post.entries() == pre.entries()
    &&& post.triggers() == pre.triggers()
    &&& post.watermark() == pre.watermark()
    &&& post.configuration() == pre.configuration()
}

/// What a load has done for `name`: it is scheduled, with the definition
/// that was loaded, exactly if such a definition exists and its expression
/// is accepted.
pub open spec fn entry_loaded(fresh: Map<Seq<char>, Job>, post: Scheduler, name: Seq<char>) -> bool {
    if fresh.contains_key(name) && schedule_accepted(fresh[name].time@) {
        post.scheduled().contains(name) && post.entries()[name].job == fresh[name]
    } else {
        !post.scheduled().contains(name)
    }
}

/// What a load of the jobs `active` at the time `now` makes of a scheduler:
/// a registry that holds those jobs and nothing from before, with the
/// watermark at `now`.
pub open spec fn load_applied(pre: Scheduler, active: Seq<Job>, now: int, post: Scheduler) -> bool {
    let fresh = table_of(active);
    &&& forall|name: Seq<char>| #[trigger] entry_loaded(fresh, post, name)
    &&& post.jobs() == fresh.remove_keys(rejected_names(fresh, i64::MIN as int))
    &&& post.watermark() == now
    &&& post.polled_at() == now
    &&& post.configuration() == pre.configuration()
}

/// What a poll has done for `name`, where `fresh` holds the active
/// definitions that the poll found and `disabled` the names it found
/// disabled. Disabling comes first, scheduling anew second: a name with a
/// due definition ends up scheduled with it, or unscheduled if the
/// expression is malformed; another name that was found disabled ends up
/// unscheduled; every other name keeps the entry it had.
pub open spec fn entry_polled(
    pre: Scheduler,
    fresh: Map<Seq<char>, Job>,
    disabled: Set<Seq<char>>,
    post: Scheduler,
    name: Seq<char>,
) -> bool {
    if is_due(fresh, pre.watermark(), name) {
        if schedule_accepted(fresh[name].time@) {
            post.scheduled().contains(name) && post.entries()[name].job == fresh[name]
        } else {
            !post.scheduled().contains(name)
        }
    } else if disabled.contains(name) {
        !post.scheduled().contains(name)
    } else {
        &&& post.scheduled().contains(name) == pre.scheduled().contains(name)
        &&& pre.scheduled().contains(name) ==> post.entries()[name] == pre.entries()[name]
    }
}

/// What a poll makes of a scheduler, where the store answered `active` and
/// `inactive` and the poll began at `observed_at`. The job map is replaced
/// by what was found active, the entries follow `entry_polled`, and the
/// watermark moves forward to `observed_at`.
pub open spec fn poll_applied(
    pre: Scheduler,
    active: Seq<Job>,
    inactive: Seq<Job>,
    observed_at: int,
    post: Scheduler,
) -> bool {
    let fresh = table_of(active);
    &&& forall|name: Seq<char>| #[trigger] entry_polled(pre, fresh, names_of(inactive), post, name)
    &&& post.jobs() == fresh.remove_keys(rejected_names(fresh, pre.watermark()))
    &&& post.watermark() == vstd::math::max(pre.watermark(), observed_at)
    &&& post.polled_at() == observed_at
    &&& post.configuration() == pre.configuration()
    &&& post.entries() == pre.entries() ==> post.triggers() == pre.triggers()
}

/// Whether `skipped` reports exactly the jobs among `found` that were left
/// out for a malformed expression, of those written at `threshold` or
/// later.
pub open spec fn left_out(found: Seq<Job>, threshold: int, skipped: Seq<ScheduleError>) -> bool {
    &&& reports_of(skipped, table_of(found))
    &&& reported(skipped) == rejected_names(table_of(found), threshold)
}

/// Loads `active`, the active jobs of the store as read at `now`, into a
/// fresh registry: whatever the scheduler held is discarded, every job is
/// scheduled, and the watermark is set to `now`. Jobs with a malformed
/// expression are left out and reported.
pub fn apply_load(scheduler: &mut Scheduler, active: Vec<Job>, now: i64) -> (skipped: Vec<
    ScheduleError,
>)
    ensures
        final(scheduler).wf(),
        load_applied(*old(scheduler), active@, now as int, *final(scheduler)),
        left_out(active@, i64::MIN as int, skipped@),
{
    let config = scheduler.config().clone();
    *scheduler = Scheduler::starting_at(config, now);
    scheduler.add_jobs(active);
    let ghost filled = *scheduler;
    let skipped = schedule_all(scheduler);
    let ghost scheduled = *scheduler;
    scheduler.note_poll(now);
    proof {
        let fresh = table_of(active@);
        assert forall|name: Seq<char>| #[trigger] entry_loaded(fresh, *scheduler, name) by {
            assert(crate::scheduler::entry_rescheduled(
                filled,
                i64::MIN as int,
                true,
                scheduled,
                name,
            ));
        }
    }
    skipped
}

/// What the second half of a poll makes of a scheduler whose job map
/// already holds what the poll found active: the jobs found `inactive` are
/// unscheduled, the due jobs of the job map are scheduled anew, and the
/// watermark moves forward to `observed_at`.
pub open spec fn poll_settled(
    mid: Scheduler,
    inactive: Seq<Job>,
    observed_at: int,
    skipped: Seq<ScheduleError>,
    post: Scheduler,
) -> bool {
    &&& forall|name: Seq<char>| #[trigger]
        entry_polled(mid, mid.jobs(), names_of(inactive), post, name)
    &&& post.jobs() == mid.jobs().remove_keys(rejected_names(mid.jobs(), mid.watermark()))
    &&& post.watermark() == vstd::math::max(mid.watermark(), observed_at)
    &&& post.polled_at() == observed_at
    &&& post.configuration() == mid.configuration()
    &&& post.entries() == mid.entries() ==> post.triggers() == mid.triggers()
    &&& reports_of(skipped, mid.jobs())
    &&& reported(skipped) == rejected_names(mid.jobs(), mid.watermark())
}

/// The second half of a poll, for a scheduler whose job map has been
/// replaced by what the poll found active.
fn settle_poll(scheduler: &mut Scheduler, inactive: Vec<Job>, observed_at: i64) -> (skipped: Vec<
    ScheduleError,
>)
    requires
        old(scheduler).wf(),
    ensures
        final(scheduler).wf(),
        poll_settled(*old(scheduler), inactive@, observed_at as int, skipped@, *final(scheduler)),
{
    let previous = scheduler.last_updated_at();
    disable_jobs(scheduler, inactive);
    let ghost disabled = *scheduler;
    let skipped = reschedule_jobs_if_needed(scheduler, previous);
    let ghost settled = *scheduler;
    scheduler.advance_watermark(observed_at);
    scheduler.note_poll(observed_at);
    proof {
        assert forall|name: Seq<char>| #[trigger]
            entry_polled(
                *old(scheduler),
                old(scheduler).jobs(),
                names_of(inactive@),
                *scheduler,
                name,
            ) by {
            assert(crate::scheduler::entry_rescheduled(
                disabled,
                previous as int,
                true,
                settled,
                name,
            ));
        }
        if scheduler.entries() == old(scheduler).entries() {
            scheduler.lemma_triggers_follow_entries(*old(scheduler));
        }
    }
    skipped
}

/// A poll is what its second half makes of the scheduler after the job map
/// was replaced by what the poll found active.
proof fn lemma_poll_in_two_halves(
    pre: Scheduler,
    active: Seq<Job>,
    inactive: Seq<Job>,
    observed_at: int,
    mid: Scheduler,
    skipped: Seq<ScheduleError>,
    post: Scheduler,
)
    requires
        mid.jobs() == table_of(active),
        mid.entries() == pre.entries(),
        mid.triggers() == pre.triggers(),
        mid.watermark() == pre.watermark(),
        mid.configuration() == pre.configuration(),
        poll_settled(mid, inactive, observed_at, skipped, post),
    ensures
        poll_applied(pre, active, inactive, observed_at, post),
        left_out(active, pre.watermark(), skipped),
{
    assert forall|name: Seq<char>| #[trigger]
        entry_polled(pre, table_of(active), names_of(inactive), post, name) by {
        assert(entry_polled(mid, mid.jobs(), names_of(inactive), post, name));
    }
}

/// Applies what a poll found: `active` and `inactive` are the jobs written
/// since the watermark, the poll began at `observed_at`. The job map is
/// replaced by `active`; the jobs of `inactive` are unscheduled; then every
/// job of the new job map that was written at the old watermark or later is
/// scheduled anew; last, the watermark moves forward.
pub fn apply_poll(
    scheduler: &mut Scheduler,
    active: Vec<Job>,
    inactive: Vec<Job>,
    observed_at: i64,
) -> (skipped: Vec<ScheduleError>)
    requires
        old(scheduler).wf(),
    ensures
        final(scheduler).wf(),
        poll_applied(*old(scheduler), active@, inactive@, observed_at as int, *final(scheduler)),
        left_out(active@, old(scheduler).watermark(), skipped@),
{
    scheduler.replace_jobs(active);
    let ghost mid = *scheduler;
    let skipped = settle_poll(scheduler, inactive, observed_at);
    proof {
        lemma_poll_in_two_halves(
            *old(scheduler),
            active@,
            inactive@,
            observed_at as int,
            mid,
            skipped@,
            *scheduler,
        );
    }
    skipped
}

/// Whether `error` is how the store answered one of the two questions of a
/// poll that asks for the changes since `since`.
pub open spec fn store_failed<D: DB>(db: &D, since: int, error: DBError) -> bool {
    db.changes_found(true, since, Err(error)) || db.changes_found(false, since, Err(error))
}

/// Asks the store for what changed since the watermark: first for the
/// active jobs written after it, then for the inactive ones. If the store
/// answers both questions, the job map is replaced by the active jobs it
/// found, and the disabled ones are returned. Nothing is scheduled or
/// unscheduled by this, and a store that fails leaves the scheduler as it
/// was; its error is handed on.
pub fn update_scheduler<D: DB>(scheduler: &mut Scheduler, db: &D) -> (found: Result<
    Vec<Job>,
    DBError,
>)
    requires
        old(scheduler).wf(),
    ensures
        final(scheduler).wf(),
        final(scheduler).entries() == old(scheduler).entries(),
        final(scheduler).triggers() == old(scheduler).triggers(),
        final(scheduler).watermark() == old(scheduler).watermark(),
        final(scheduler).configuration() == old(scheduler).configuration(),
        match found {
            Ok(inactive) => exists|active: Vec<Job>| #[trigger]
                db.changes_found(true, old(scheduler).watermark(), Ok(active)) && db.changes_found(
                    false,
                    old(scheduler).watermark(),
                    Ok(inactive),
                ) && final(scheduler).jobs() == table_of(active@),
            Err(error) => final(scheduler).jobs() == old(scheduler).jobs() && store_failed(
                db,
                old(scheduler).watermark(),
                error,
            ),
        },
{
    let since = scheduler.last_updated_at();
    let active = match db.find_all_since(true, since) {
        Ok(active) => active,
        Err(error) => {
            return Err(error);
        },
    };
    let inactive = match db.find_all_since(false, since) {
        Ok(inactive) => inactive,
        Err(error) => {
            return Err(error);
        },
    };
    let ghost found_active = active;
    scheduler.replace_jobs(active);
    assert(db.changes_found(true, since as int, Ok(found_active)));
    Ok(inactive)
}

/// What a poll of the store `db` at `observed_at` makes of a scheduler,
/// and what it reports. If the store answers both questions, its two
/// answers are applied as `poll_applied` says, and `skipped` is what was
/// left out. If it fails, the scheduler stays as it was, watermark
/// included, and the error is the store's.
pub open spec fn polled<D: DB>(
    pre: Scheduler,
    db: &D,
    observed_at: int,
    answer: Result<Seq<ScheduleError>, DBError>,
    post: Scheduler,
) -> bool {
    match answer {
        Ok(skipped) => exists|active: Vec<Job>, inactive: Vec<Job>|
            #![trigger
                db.changes_found(true, pre.watermark(), Ok(active)),
                db.changes_found(false, pre.watermark(), Ok(inactive)),
            ]
            {
                &&& db.changes_found(true, pre.watermark(), Ok(active))
                &&& db.changes_found(false, pre.watermark(), Ok(inactive))
                &&& poll_applied(pre, active@, inactive@, observed_at, post)
                &&& left_out(active@, pre.watermark(), skipped)
            },
        Err(error) => unchanged(pre, post) && store_failed(db, pre.watermark(), error),
    }
}

/// What a load from the store `db` at `now` makes of a scheduler, and what
/// it reports. If the store answers, its answer is loaded as `load_applied`
/// says, and `skipped` is what was left out. If it fails, the scheduler
/// stays as it was, and the error is the store's.
pub open spec fn loaded<D: DB>(
    pre: Scheduler,
    db: &D,
    now: int,
    answer: Result<Seq<ScheduleError>, DBError>,
    post: Scheduler,
) -> bool {
    match answer {
        Ok(skipped) => exists|active: Vec<Job>| #[trigger]
            db.active_found(Ok(active)) && load_applied(pre, active@, now, post) && left_out(
                active@,
                i64::MIN as int,
                skipped,
            ),
        Err(error) => unchanged(pre, post) && db.active_found(Err(error)),
    }
}

/// The answer of a poll or a load with the list of skipped jobs as a
/// sequence.
pub open spec fn seen(answer: Result<Vec<ScheduleError>, DBError>) -> Result<
    Seq<ScheduleError>,
    DBError,
> {
    match answer {
        Ok(skipped) => Ok(skipped@),
        Err(error) => Err(error),
    }
}

/// One poll: asks the store for the active and for the inactive jobs
/// written since the watermark and applies its two answers as `apply_poll`
/// does, with `observed_at` as the time at which the poll began. A store
/// that fails ends the poll and leaves the scheduler as it was, watermark
/// included, so the next poll asks for the same span again; its error is
/// handed on.
pub fn fetch_job_updates<D: DB>(scheduler: &mut Scheduler, db: &D, observed_at: i64) -> (answer:
    Result<Vec<ScheduleError>, DBError>)
    requires
        old(scheduler).wf(),
    ensures
        final(scheduler).wf(),
        polled(*old(scheduler), db, observed_at as int, seen(answer), *final(scheduler)),
{
    let inactive = match update_scheduler(scheduler, db) {
        Ok(inactive) => inactive,
        Err(error) => {
            return Err(error);
        },
    };
    let ghost mid = *scheduler;
    let ghost found_inactive = inactive;
    let skipped = settle_poll(scheduler, inactive, observed_at);
    proof {
        let since = old(scheduler).watermark();
        let found_active = choose|active: Vec<Job>| #[trigger]
            db.changes_found(true, since, Ok(active)) && db.changes_found(
                false,
                since,
                Ok(found_inactive),
            ) && mid.jobs() == table_of(active@);
        lemma_poll_in_two_halves(
            *old(scheduler),
            found_active@,
            found_inactive@,
            observed_at as int,
            mid,
            skipped@,
            *scheduler,
        );
        assert(db.changes_found(true, since, Ok(found_active)) && db.changes_found(
            false,
            since,
            Ok(found_inactive),
        ));
    }
    Ok(skipped)
}

/// One load: asks the store for every active job and loads its answer as
/// `apply_load` does, with the watermark at `now`. A store that fails
/// leaves the scheduler as it was; its error is handed on.
pub fn load_jobs<D: DB>(scheduler: &mut Scheduler, db: &D, now: i64) -> (answer: Result<
    Vec<ScheduleError>,
    DBError,
>)
    requires
        old(scheduler).wf(),
    ensures
        final(scheduler).wf(),
        loaded(*old(scheduler), db, now as int, seen(answer), *final(scheduler)),
{
    match db.find_all_active() {
        Ok(active) => {
            let ghost found = active;
            let skipped = apply_load(scheduler, active, now);
            assert(db.active_found(Ok(found)));
            Ok(skipped)
        },
        Err(error) => Err(error),
    }
}

/// What a step of the loop hands back to its caller.
pub struct Step {
    /// The state to take the next step from.
    pub next: LoopState,
    /// The jobs whose triggers fired: each goes to the executor, which must
    /// not make the loop wait.
    pub due: Vec<Job>,
    /// The jobs that were left out for a malformed expression, to be
    /// logged.
    pub skipped: Vec<ScheduleError>,
    /// The failure of the store that cut the step short, to be logged.
    pub failure: Option<DBError>,
}

/// What a step reports of the store, as the answer of a load or a poll:
/// the failure if there was one, the skipped jobs if not.
pub open spec fn reported_answer(step: Step) -> Result<Seq<ScheduleError>, DBError> {
    match step.failure {
        Some(error) => Err(error),
        None => Ok(step.skipped@),
    }
}

/// What a step from `state` makes of a scheduler, for an instance that
/// reaches its store through `connection`.
///
/// Waiting changes nothing. A load and a poll ask the store and do what
/// `loaded` and `polled` say of its answers; without a connection they
/// change nothing and report the connection's failure. A tick changes
/// nothing and hands out the current definitions of scheduled names.
/// Stepping down empties the registry.
pub open spec fn step_taken<D: DB>(
    state: LoopState,
    pre: Scheduler,
    connection: &Result<D, DBError>,
    role: Role,
    now: int,
    step: Step,
    post: Scheduler,
) -> bool {
    &&& step.next == next_state(
        state,
        role,
        step.failure is None,
        poll_is_due(pre.polled_at(), now),
    )
    &&& step.failure is Some ==> step.skipped.len() == 0
    &&& (state == LoopState::LOADING || state == LoopState::POLLING) ==> post.polled_at() == now
    &&& match state {
        LoopState::WAITING => {
            &&& unchanged(pre, post)
            &&& step.failure is None
            &&& step.due.len() == 0
            &&& step.skipped.len() == 0
        },
        LoopState::LOADING => {
            &&& step.due.len() == 0
            &&& match *connection {
                Ok(db) => loaded(pre, &db, now, reported_answer(step), post),
                Err(error) => unchanged(pre, post) && step.failure == Some(error),
            }
        },
        LoopState::TICKING => {
            &&& unchanged(pre, post)
            &&& step.failure is None
            &&& step.skipped.len() == 0
            &&& ticked(post, step.due@)
        },
        LoopState::POLLING => {
            &&& step.due.len() == 0
            &&& match *connection {
                Ok(db) => polled(pre, &db, now, reported_answer(step), post),
                Err(error) => unchanged(pre, post) && step.failure == Some(error),
            }
        },
        LoopState::STEPPING_DOWN => {
            &&& post.jobs() == Map::<Seq<char>, Job>::empty()
            &&& post.entries() == Map::<Seq<char>, Entry>::empty()
            &&& post.triggers() == Multiset::<u128>::empty()
            &&& post.watermark() == pre.watermark()
            &&& post.configuration() == pre.configuration()
            &&& step.failure is None
            &&& step.due.len() == 0
            &&& step.skipped.len() == 0
        },
    }
}

/// One step of the loop at the time `now`, for an instance that observes
/// `role` and reaches its store through `connection`.
pub fn leader_step<D: DB>(
    state: LoopState,
    scheduler: &mut Scheduler,
    connection: &Result<D, DBError>,
    role: Role,
    now: i64,
) -> (step: Step)
    requires
        old(scheduler).wf(),
    ensures
        final(scheduler).wf(),
        step_taken(state, *old(scheduler), connection, role, now as int, step, *final(scheduler)),
{
    let mut due: Vec<Job> = Vec::new();
    let mut skipped: Vec<ScheduleError> = Vec::new();
    let mut failure: Option<DBError> = None;
    let poll_due = scheduler.poll_due(now);
    match state {
        LoopState::WAITING => {},
        LoopState::LOADING => {
            match connection {
                Ok(db) => {
                    match load_jobs(scheduler, db, now) {
                        Ok(left_out) => {
                            skipped = left_out;
                        },
                        Err(error) => {
                            failure = Some(error);
                        },
                    }
                },
                Err(error) => {
                    failure = Some(error.clone());
                },
            }
        },
        LoopState::TICKING => {
            due = tick(scheduler);
        },
        LoopState::POLLING => {
            match connection {
                Ok(db) => {
                    match fetch_job_updates(scheduler, db, now) {
                        Ok(left_out) => {
                            skipped = left_out;
                        },
                        Err(error) => {
                            failure = Some(error);
                        },
                    }
                },
                Err(error) => {
                    failure = Some(error.clone());
                },
            }
        },
        LoopState::STEPPING_DOWN => {
            scheduler.step_down();
        },
    }
    if failure.is_some() {
        scheduler.note_poll(now);
    }
    let next = advance(state, role, failure.is_none(), poll_due);
    Step { next, due, skipped, failure }
}

/// One step of the loop, at the current time.
pub fn run_leader_scheduler<D: DB>(
    state: LoopState,
    scheduler: &mut Scheduler,
    connection: &Result<D, DBError>,
    role: Role,
) -> (step: Step)
    requires
        old(scheduler).wf(),
    ensures
        final(scheduler).wf(),
        exists|now: int| #[trigger]
            step_taken(state, *old(scheduler), connection, role, now, step, *final(scheduler)),
{
    let now = current_timestamp();
    let step = leader_step(state, scheduler, connection, role, now);
    assert(step_taken(state, *old(scheduler), connection, role, now as int, step, *scheduler));
    step
}

} // verus!
