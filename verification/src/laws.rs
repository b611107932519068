//! What holds of the registry across loads and polls, proved from the
//! contracts of the functions that perform them.

use crate::db::{found_active, found_since, DBError, DB};
use crate::engine::schedule_accepted;
use crate::job::Job;
use crate::election::Role;
use crate::reconcile::{
    entry_loaded, entry_polled, load_applied, poll_applied, step_taken, unchanged, LoopState, Step,
};
use crate::scheduler::{accepted_names, is_due, names_of, read_into, table_of, Entry, Scheduler};
use vstd::prelude::*;

verus! {

/// Reading jobs into a job map adds their names and nothing else; under
/// each of those names the map then holds one of the jobs read, and under
/// every other name what it held before.
pub proof fn lemma_read_into(start: Map<Seq<char>, Job>, jobs: Seq<Job>)
    ensures
        read_into(start, jobs).dom() == start.dom().union(names_of(jobs)),
        forall|name: Seq<char>| #[trigger]
            names_of(jobs).contains(name) ==> exists|i: int|
                0 <= i < jobs.len() && (#[trigger] jobs[i]).name@ == name && read_into(
                    start,
                    jobs,
                )[name] == jobs[i],
        forall|name: Seq<char>|
            !names_of(jobs).contains(name) ==> #[trigger] read_into(start, jobs)[name]
                == start[name],
    decreases jobs.len(),
{
    if jobs.len() == 0 {
        assert(names_of(jobs) =~= Set::<Seq<char>>::empty());
        assert(read_into(start, jobs).dom() =~= start.dom().union(names_of(jobs)));
    } else {
        let earlier = jobs.drop_last();
        let last = jobs.last();
        lemma_read_into(start, earlier);
        assert(jobs.take(jobs.len() - 1) =~= earlier);
        crate::scheduler::lemma_names_of_take(jobs, jobs.len() - 1);
        assert(jobs.take(jobs.len() as int) =~= jobs);
        assert(names_of(jobs) == names_of(earlier).insert(last.name@));
        assert(read_into(start, jobs).dom() =~= start.dom().union(names_of(jobs)));
        assert forall|name: Seq<char>| #[trigger] names_of(jobs).contains(name) implies exists|
            i: int,
        |
            0 <= i < jobs.len() && (#[trigger] jobs[i]).name@ == name && read_into(
                start,
                jobs,
            )[name] == jobs[i] by {
            if name == last.name@ {
                assert(jobs[jobs.len() - 1].name@ == name);
            } else {
                assert(names_of(earlier).contains(name));
                let i = choose|i: int|
                    0 <= i < earlier.len() && (#[trigger] earlier[i]).name@ == name && read_into(
                        start,
                        earlier,
                    )[name] == earlier[i];
                assert(jobs[i].name@ == name);
            }
        }
    }
}

/// A store in which nothing is stamped later than `since` has nothing to
/// report for the time after `since`.
pub proof fn lemma_nothing_found(rows: Seq<Job>, active: bool, since: int)
    requires
        forall|i: int| 0 <= i < rows.len() ==> (#[trigger] rows[i]).updated_at <= since,
    ensures
        found_since(rows, active, since) == Seq::<Job>::empty(),
    decreases rows.len(),
{
    reveal(Seq::filter);
    if rows.len() > 0 {
        let earlier = rows.drop_last();
        assert forall|i: int| 0 <= i < earlier.len() implies (#[trigger] earlier[i]).updated_at
            <= since by {
            assert(earlier[i] == rows[i]);
        }
        lemma_nothing_found(earlier, active, since);
        assert(rows.last() == rows[rows.len() - 1]);
    }
}

/// After a load the registry's names are the names of the active jobs: a
/// load schedules every active job whose cron expression is accepted, under
/// its own name, and nothing else. Where every expression is accepted, the
/// scheduled names are exactly the names that were loaded.
pub proof fn law_load_schedules_active_jobs(
    pre: Scheduler,
    active: Seq<Job>,
    now: int,
    post: Scheduler,
)
    requires
        load_applied(pre, active, now, post),
    ensures
        post.scheduled() == accepted_names(table_of(active), i64::MIN as int),
        post.scheduled().subset_of(names_of(active)),
        (forall|i: int| 0 <= i < active.len() ==> schedule_accepted((#[trigger] active[i]).time@))
            ==> post.scheduled() == names_of(active),
{
    let fresh = table_of(active);
    lemma_read_into(Map::empty(), active);
    assert(fresh.dom() =~= names_of(active));
    assert forall|name: Seq<char>|
        post.scheduled().contains(name) <==> accepted_names(fresh, i64::MIN as int).contains(
            name,
        ) by {
        assert(entry_loaded(fresh, post, name));
        if fresh.contains_key(name) {
            assert(fresh[name].updated_at >= i64::MIN);
        }
    }
    assert(post.scheduled() =~= accepted_names(fresh, i64::MIN as int));
    if forall|i: int| 0 <= i < active.len() ==> schedule_accepted((#[trigger] active[i]).time@) {
        assert forall|name: Seq<char>| names_of(active).contains(name) implies post.scheduled().contains(
            name,
        ) by {
            let i = choose|i: int|
                0 <= i < active.len() && (#[trigger] active[i]).name@ == name && fresh[name]
                    == active[i];
            assert(schedule_accepted(active[i].time@));
        }
        assert(post.scheduled() =~= names_of(active));
    }
}

/// A poll that finds nothing leaves every entry and every trigger as it
/// was.
pub proof fn law_quiet_poll_keeps_entries(pre: Scheduler, observed_at: int, post: Scheduler)
    requires
        poll_applied(pre, Seq::<Job>::empty(), Seq::<Job>::empty(), observed_at, post),
    ensures
        post.entries() == pre.entries(),
        post.triggers() == pre.triggers(),
        post.watermark() >= pre.watermark(),
        post.configuration() == pre.configuration(),
{
    let fresh = table_of(Seq::<Job>::empty());
    assert(names_of(Seq::<Job>::empty()) =~= Set::<Seq<char>>::empty());
    assert forall|name: Seq<char>| #[trigger]
        post.entries().dom().contains(name) == pre.entries().dom().contains(name) by {
        assert(entry_polled(pre, fresh, names_of(Seq::<Job>::empty()), post, name));
    }
    assert forall|name: Seq<char>| pre.entries().dom().contains(name) implies #[trigger]
        post.entries()[name] == pre.entries()[name] by {
        assert(entry_polled(pre, fresh, names_of(Seq::<Job>::empty()), post, name));
    }
    assert(post.entries() =~= pre.entries());
}

/// Polling is idempotent: when two polls follow each other and the store
/// has not changed, so that nothing in it is stamped later than the first
/// poll began, the second poll leaves every scheduled name with the entry
/// and the trigger handle that it had, and the watermark does not go back.
pub proof fn law_poll_is_idempotent(
    rows: Seq<Job>,
    before: Scheduler,
    first_at: int,
    between: Scheduler,
    second_at: int,
    after: Scheduler,
)
    requires
        poll_applied(
            before,
            found_since(rows, true, before.watermark()),
            found_since(rows, false, before.watermark()),
            first_at,
            between,
        ),
        poll_applied(
            between,
            found_since(rows, true, between.watermark()),
            found_since(rows, false, between.watermark()),
            second_at,
            after,
        ),
        forall|i: int| 0 <= i < rows.len() ==> (#[trigger] rows[i]).updated_at <= first_at,
    ensures
        after.entries() == between.entries(),
        after.scheduled() == between.scheduled(),
        after.triggers() == between.triggers(),
        after.watermark() >= between.watermark(),
        after.configuration() == between.configuration(),
{
    assert forall|i: int| 0 <= i < rows.len() implies (#[trigger] rows[i]).updated_at
        <= between.watermark() by {}
    lemma_nothing_found(rows, true, between.watermark());
    lemma_nothing_found(rows, false, between.watermark());
    law_quiet_poll_keeps_entries(between, second_at, after);
}

/// A full cycle keeps the registry's names equal to the names of the
/// active jobs: after a load of a store and a poll of the same store, in
/// which nothing is stamped later than the load, the scheduled names are
/// the names of the store's active jobs whose expression is accepted: all
/// of them where every expression is.
pub proof fn law_cycle_schedules_active_jobs(
    rows: Seq<Job>,
    before: Scheduler,
    loaded_at: int,
    loaded: Scheduler,
    polled_at: int,
    polled: Scheduler,
)
    requires
        load_applied(before, found_active(rows), loaded_at, loaded),
        poll_applied(
            loaded,
            found_since(rows, true, loaded.watermark()),
            found_since(rows, false, loaded.watermark()),
            polled_at,
            polled,
        ),
        forall|i: int| 0 <= i < rows.len() ==> (#[trigger] rows[i]).updated_at <= loaded_at,
    ensures
        polled.scheduled() == accepted_names(table_of(found_active(rows)), i64::MIN as int),
        (forall|i: int|
            0 <= i < found_active(rows).len() ==> schedule_accepted(
                (#[trigger] found_active(rows)[i]).time@,
            )) ==> polled.scheduled() == names_of(found_active(rows)),
{
    law_load_schedules_active_jobs(before, found_active(rows), loaded_at, loaded);
    lemma_nothing_found(rows, true, loaded.watermark());
    lemma_nothing_found(rows, false, loaded.watermark());
    law_quiet_poll_keeps_entries(loaded, polled_at, polled);
}

/// A job that a poll finds disabled is not scheduled afterwards, unless
/// the same poll finds an active job of its name.
pub proof fn law_disabled_job_is_unscheduled(
    pre: Scheduler,
    active: Seq<Job>,
    inactive: Seq<Job>,
    observed_at: int,
    post: Scheduler,
    name: Seq<char>,
)
    requires
        poll_applied(pre, active, inactive, observed_at, post),
        names_of(inactive).contains(name),
        !names_of(active).contains(name),
    ensures
        !post.scheduled().contains(name),
{
    let fresh = table_of(active);
    lemma_read_into(Map::empty(), active);
    assert(fresh.dom() =~= names_of(active));
    assert(!fresh.contains_key(name));
    assert(entry_polled(pre, fresh, names_of(inactive), post, name));
}

/// A job that a poll finds changed has exactly one trigger afterwards. If
/// its new expression is accepted, its name is scheduled with the new
/// definition, and the engine holds one trigger for each scheduled name:
/// the trigger of the old definition is gone. If the expression is
/// malformed, the name is not scheduled at all.
pub proof fn law_updated_job_has_one_trigger(
    pre: Scheduler,
    active: Seq<Job>,
    inactive: Seq<Job>,
    observed_at: int,
    post: Scheduler,
    name: Seq<char>,
)
    requires
        post.wf(),
        poll_applied(pre, active, inactive, observed_at, post),
        is_due(table_of(active), pre.watermark(), name),
    ensures
        post.scheduled().finite(),
        post.triggers().len() == post.scheduled().len(),
        schedule_accepted(table_of(active)[name].time@) ==> {
            &&& post.scheduled().contains(name)
            &&& post.entries()[name].job == table_of(active)[name]
            &&& post.triggers().contains(post.entries()[name].handle)
        },
        !schedule_accepted(table_of(active)[name].time@) ==> !post.scheduled().contains(name),
{
    post.lemma_one_trigger_per_name();
    assert(entry_polled(pre, table_of(active), names_of(inactive), post, name));
}

/// Whether `post` can follow `pre` in a run of poll cycles: a poll was
/// applied, or the store failed and the scheduler stayed as it was.
pub open spec fn cycle(pre: Scheduler, post: Scheduler) -> bool {
    ||| unchanged(pre, post)
    ||| exists|active: Seq<Job>, inactive: Seq<Job>, observed_at: int| #[trigger]
        poll_applied(pre, active, inactive, observed_at, post)
}

/// Across any run of poll cycles the watermark never goes back.
pub proof fn law_watermark_never_decreases(states: Seq<Scheduler>, i: int, j: int)
    requires
        forall|k: int, l: int|
            0 <= k && l == k + 1 && l < states.len() ==> #[trigger] cycle(states[k], states[l]),
        0 <= i <= j < states.len(),
    ensures
        states[i].watermark() <= states[j].watermark(),
    decreases j - i,
{
    if i < j {
        law_watermark_never_decreases(states, i, j - 1);
        assert(cycle(states[j - 1], states[j]));
    }
}

/// A poll cycle that met a failing store has not moved the watermark.
pub proof fn law_failed_poll_keeps_watermark(pre: Scheduler, post: Scheduler)
    requires
        unchanged(pre, post),
    ensures
        post.watermark() == pre.watermark(),
{
}

/// What a store answers when asked for the jobs written since some time is
/// what it holds of such jobs: every such row, and no other.
pub proof fn lemma_found_since_is_answer(rows: Seq<Job>, active: bool, since: int)
    ensures
        forall|job: Job| #[trigger]
            found_since(rows, active, since).contains(job) <==> rows.contains(job) && job.active
                == active && job.updated_at > since,
    decreases rows.len(),
{
    reveal(Seq::filter);
    let found = found_since(rows, active, since);
    if rows.len() == 0 {
        assert forall|job: Job| #[trigger] found.contains(job) <==> rows.contains(job) && job.active
            == active && job.updated_at > since by {}
    } else {
        let earlier = rows.drop_last();
        let last = rows.last();
        let before = found_since(earlier, active, since);
        lemma_found_since_is_answer(earlier, active, since);
        let kept = last.active == active && last.updated_at > since;
        assert(found == if kept {
            before.push(last)
        } else {
            before
        });
        assert forall|job: Job| #[trigger] found.contains(job) <==> rows.contains(job) && job.active
            == active && job.updated_at > since by {
            if found.contains(job) {
                let i = choose|i: int| 0 <= i < found.len() && found[i] == job;
                if i < before.len() {
                    assert(before[i] == job);
                    assert(before.contains(job));
                    let k = choose|k: int| 0 <= k < earlier.len() && earlier[k] == job;
                    assert(rows[k] == job);
                } else {
                    assert(job == last);
                    assert(rows[rows.len() - 1] == job);
                }
            }
            if rows.contains(job) && job.active == active && job.updated_at > since {
                let k = choose|k: int| 0 <= k < rows.len() && rows[k] == job;
                if k < earlier.len() {
                    assert(earlier[k] == job);
                    assert(earlier.contains(job));
                    assert(before.contains(job));
                    let i = choose|i: int| 0 <= i < before.len() && before[i] == job;
                    assert(found[i] == job);
                } else {
                    assert(job == last);
                    assert(found[found.len() - 1] == job);
                }
            }
        }
    }
}

/// What a store answers when asked for its active jobs is what it holds of
/// active rows: every such row, and no other.
pub proof fn lemma_found_active_is_answer(rows: Seq<Job>)
    ensures
        forall|job: Job| #[trigger]
            found_active(rows).contains(job) <==> rows.contains(job) && job.active,
    decreases rows.len(),
{
    reveal(Seq::filter);
    let found = found_active(rows);
    if rows.len() == 0 {
        assert forall|job: Job| #[trigger] found.contains(job) <==> rows.contains(job)
            && job.active by {}
    } else {
        let earlier = rows.drop_last();
        let last = rows.last();
        let before = found_active(earlier);
        lemma_found_active_is_answer(earlier);
        assert(found == if last.active {
            before.push(last)
        } else {
            before
        });
        assert forall|job: Job| #[trigger] found.contains(job) <==> rows.contains(job)
            && job.active by {
            if found.contains(job) {
                let i = choose|i: int| 0 <= i < found.len() && found[i] == job;
                if i < before.len() {
                    assert(before[i] == job);
                    assert(before.contains(job));
                    let k = choose|k: int| 0 <= k < earlier.len() && earlier[k] == job;
                    assert(rows[k] == job);
                } else {
                    assert(job == last);
                    assert(rows[rows.len() - 1] == job);
                }
            }
            if rows.contains(job) && job.active {
                let k = choose|k: int| 0 <= k < rows.len() && rows[k] == job;
                if k < earlier.len() {
                    assert(earlier[k] == job);
                    assert(earlier.contains(job));
                    assert(before.contains(job));
                    let i = choose|i: int| 0 <= i < before.len() && before[i] == job;
                    assert(found[i] == job);
                } else {
                    assert(job == last);
                    assert(found[found.len() - 1] == job);
                }
            }
        }
    }
}

/// The names that have an active row in a store that holds `rows`.
pub open spec fn active_names(rows: Seq<Job>) -> Set<Seq<char>> {
    names_of(found_active(rows))
}

/// Whether a store that held `earlier` when it was read up to `watermark`
/// may hold `rows` now: whatever changed was stamped after the watermark.
/// An active row that was not written since belongs to a name that was
/// active before. A name that was disabled since is active again only by a
/// row written since. A name that was active before is still active, or
/// has a row written since.
pub open spec fn store_moved_on(earlier: Seq<Job>, rows: Seq<Job>, watermark: int) -> bool {
    &&& forall|job: Job| #[trigger]
        rows.contains(job) && job.active && job.updated_at <= watermark ==> active_names(
            earlier,
        ).contains(job.name@)
    &&& forall|kept: Job, gone: Job|
        #![trigger rows.contains(kept), rows.contains(gone)]
        rows.contains(kept) && rows.contains(gone) && kept.name@ == gone.name@ && kept.active
            && !gone.active && gone.updated_at > watermark ==> kept.updated_at > watermark
    &&& forall|name: Seq<char>| #[trigger]
        active_names(earlier).contains(name) ==> exists|job: Job| #[trigger]
            rows.contains(job) && job.name@ == name && (job.active || job.updated_at > watermark)
}

/// Reconciliation follows the store. If the scheduled names were the
/// store's active names when it was read up to the watermark, and the
/// store then changed, stamping what it changed, then after a poll the
/// scheduled names are the store's active names again, provided every
/// active job written since has an accepted expression; and the engine
/// holds one trigger for each of them, and no other.
pub proof fn law_poll_follows_the_store(
    earlier: Seq<Job>,
    rows: Seq<Job>,
    pre: Scheduler,
    observed_at: int,
    post: Scheduler,
)
    requires
        poll_applied(
            pre,
            found_since(rows, true, pre.watermark()),
            found_since(rows, false, pre.watermark()),
            observed_at,
            post,
        ),
        pre.scheduled() == active_names(earlier),
        store_moved_on(earlier, rows, pre.watermark()),
        post.wf(),
    ensures
        (forall|job: Job| #[trigger]
            rows.contains(job) && job.active && job.updated_at > pre.watermark()
                ==> schedule_accepted(job.time@)) ==> post.scheduled() == active_names(rows),
        post.scheduled().finite(),
        post.triggers().len() == post.scheduled().len(),
{
    post.lemma_one_trigger_per_name();
    let w = pre.watermark();
    let active = found_since(rows, true, w);
    let inactive = found_since(rows, false, w);
    let fresh = table_of(active);
    lemma_found_since_is_answer(rows, true, w);
    lemma_found_since_is_answer(rows, false, w);
    lemma_found_active_is_answer(rows);
    lemma_read_into(Map::empty(), active);
    assert(fresh.dom() =~= names_of(active));
    if forall|job: Job| #[trigger]
        rows.contains(job) && job.active && job.updated_at > w ==> schedule_accepted(job.time@) {
        assert forall|name: Seq<char>|
            post.scheduled().contains(name) <==> active_names(rows).contains(name) by {
            assert(entry_polled(pre, fresh, names_of(inactive), post, name));
            if names_of(active).contains(name) {
                let i = choose|i: int|
                    0 <= i < active.len() && (#[trigger] active[i]).name@ == name && fresh[name]
                        == active[i];
                assert(active.contains(active[i]));
                assert(rows.contains(active[i]));
                assert(found_active(rows).contains(active[i]));
                let k = choose|k: int|
                    0 <= k < found_active(rows).len() && found_active(rows)[k] == active[i];
                assert(found_active(rows)[k].name@ == name);
            } else {
                assert(!fresh.contains_key(name));
                if active_names(rows).contains(name) {
                    let k = choose|k: int|
                        0 <= k < found_active(rows).len() && (#[trigger] found_active(
                            rows,
                        )[k]).name@ == name;
                    let kept = found_active(rows)[k];
                    assert(found_active(rows).contains(kept));
                    assert(rows.contains(kept) && kept.active);
                    if kept.updated_at > w {
                        assert(active.contains(kept));
                        let i = choose|i: int| 0 <= i < active.len() && active[i] == kept;
                        assert(active[i].name@ == name);
                    }
                    assert(kept.updated_at <= w);
                    if names_of(inactive).contains(name) {
                        let j = choose|j: int|
                            0 <= j < inactive.len() && (#[trigger] inactive[j]).name@ == name;
                        let gone = inactive[j];
                        assert(inactive.contains(gone));
                        assert(rows.contains(gone) && !gone.active && gone.updated_at > w);
                        assert(rows.contains(kept));
                    }
                    assert(active_names(earlier).contains(kept.name@));
                } else {
                    if pre.scheduled().contains(name) && !names_of(inactive).contains(name) {
                        let job = choose|job: Job| #[trigger]
                            rows.contains(job) && job.name@ == name && (job.active || job.updated_at
                                > w);
                        if job.active {
                            assert(found_active(rows).contains(job));
                            let k = choose|k: int|
                                0 <= k < found_active(rows).len() && found_active(rows)[k] == job;
                            assert(found_active(rows)[k].name@ == name);
                        } else {
                            assert(inactive.contains(job));
                            let j = choose|j: int| 0 <= j < inactive.len() && inactive[j] == job;
                            assert(inactive[j].name@ == name);
                        }
                    }
                }
            }
        }
        assert(post.scheduled() =~= active_names(rows));
    }
}

/// Whether a scheduler fits a state of the loop: while the loop waits or
/// is about to load, the scheduler holds no definition, no entry and no
/// trigger.
pub open spec fn fits(state: LoopState, scheduler: Scheduler) -> bool {
    (state == LoopState::WAITING || state == LoopState::LOADING) ==> {
        &&& scheduler.jobs() == Map::<Seq<char>, Job>::empty()
        &&& scheduler.entries() == Map::<Seq<char>, Entry>::empty()
        &&& scheduler.triggers() == vstd::multiset::Multiset::<u128>::empty()
    }
}

/// An instance that does not lead holds no registry: if the scheduler fits
/// the state before a step, it fits the next state after it. Leadership is
/// never handed over in part: the registry is discarded as a whole before
/// the loop waits, and a load starts from nothing.
pub proof fn law_no_registry_without_leadership<D: DB>(
    state: LoopState,
    pre: Scheduler,
    connection: &Result<D, DBError>,
    role: Role,
    now: int,
    step: Step,
    post: Scheduler,
)
    requires
        fits(state, pre),
        step_taken(state, pre, connection, role, now, step, post),
    ensures
        fits(step.next, post),
{
}

} // verus!
