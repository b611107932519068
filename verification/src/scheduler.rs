//! The scheduler registry and the reconciliation that keeps it in line with
//! the job store.
//!
//! The registry belongs to the one task that runs the reconciliation loop,
//! and only while this instance leads. It holds the job map (the
//! definitions that the last query of the store returned), the entries (for
//! each scheduled name the definition it was scheduled with and the handle
//! of its trigger) and the watermark (the time up to which the store has
//! been read).

use crate::config::Config;
use crate::engine::{schedule_accepted, InvalidSchedule, TriggerEngine};
use crate::clock::current_timestamp;
use crate::job::Job;
use crate::names::{position, NameMap};
use vstd::multiset::Multiset;
use vstd::prelude::*;
use vstd::seq_lib::*;

verus! {

/// What the registry holds for a scheduled name.
pub struct Entry {
    /// The definition that the trigger was registered for. When the trigger
    /// fires, this is what the executor is given.
    pub job: Job,
    /// The handle of the trigger in the trigger engine.
    pub handle: u128,
}

/// A job could not be scheduled because its cron expression is malformed.
/// Such a job is left out; the others are not held up by it.
#[derive(Debug, PartialEq, Eq)]
pub struct ScheduleError {
    /// The name of the job.
    pub name: String,
    /// Its cron expression.
    pub expression: String,
}

/// The handles that a sequence of entries carries, each as often as it
/// occurs.
pub open spec fn handle_bag(entries: Seq<Entry>) -> Multiset<u128> {
    entries.map_values(|entry: Entry| entry.handle).to_multiset()
}

/// The names of the jobs in `jobs`.
pub open spec fn names_of(jobs: Seq<Job>) -> Set<Seq<char>> {
    Set::new(|name: Seq<char>| exists|i: int| 0 <= i < jobs.len() && (#[trigger] jobs[i]).name@ == name)
}

/// The job map that results when `jobs` are read into `start` one after
/// the other: a later definition replaces an earlier one of the same name.
pub open spec fn read_into(start: Map<Seq<char>, Job>, jobs: Seq<Job>) -> Map<Seq<char>, Job>
    decreases jobs.len(),
{
    if jobs.len() == 0 {
        start
    } else {
        read_into(start, jobs.drop_last()).insert(jobs.last().name@, jobs.last())
    }
}

/// The job map that holds `jobs` and nothing else.
pub open spec fn table_of(jobs: Seq<Job>) -> Map<Seq<char>, Job> {
    read_into(Map::empty(), jobs)
}

/// The names in `jobs` whose definition was written at `threshold` or
/// later and whose cron expression is accepted: those end up scheduled.
pub open spec fn accepted_names(jobs: Map<Seq<char>, Job>, threshold: int) -> Set<Seq<char>> {
    Set::new(
        |name: Seq<char>|
            jobs.contains_key(name) && jobs[name].updated_at >= threshold && schedule_accepted(
                jobs[name].time@,
            ),
    )
}

/// The names in `jobs` whose definition was written at `threshold` or
/// later and whose cron expression is malformed: those are left out.
pub open spec fn rejected_names(jobs: Map<Seq<char>, Job>, threshold: int) -> Set<Seq<char>> {
    Set::new(
        |name: Seq<char>|
            jobs.contains_key(name) && jobs[name].updated_at >= threshold && !schedule_accepted(
                jobs[name].time@,
            ),
    )
}

/// The names of the jobs that `errors` report.
pub open spec fn reported(errors: Seq<ScheduleError>) -> Set<Seq<char>> {
    Set::new(
        |name: Seq<char>| exists|k: int| 0 <= k < errors.len() && (#[trigger] errors[k]).name@ == name,
    )
}

/// Each of `errors` reports a job of `jobs` with that job's expression, and
/// no job is reported twice.
pub open spec fn reports_of(errors: Seq<ScheduleError>, jobs: Map<Seq<char>, Job>) -> bool {
    &&& forall|k: int|
        0 <= k < errors.len() ==> jobs.contains_key((#[trigger] errors[k]).name@)
            && errors[k].expression@ == jobs[errors[k].name@].time@
    &&& forall|k: int, l: int|
        0 <= k < l < errors.len() ==> (#[trigger] errors[k]).name@ != (#[trigger] errors[l]).name@
}

/// The definition that is current for a scheduled name: the one in the job
/// map, where the last look at the store brought one, and else the one
/// that the name was scheduled with.
pub open spec fn current_definition(
    jobs: Map<Seq<char>, Job>,
    entries: Map<Seq<char>, Entry>,
    name: Seq<char>,
) -> Job {
    if jobs.contains_key(name) {
        jobs[name]
    } else {
        entries[name].job
    }
}

/// The jobs that are handed to the executor when the triggers of `fired`
/// have fired: for each name that is scheduled, in the order given, the
/// definition that is current for it now. A name that is no longer
/// scheduled is passed over.
pub open spec fn resolve(
    jobs: Map<Seq<char>, Job>,
    entries: Map<Seq<char>, Entry>,
    fired: Seq<String>,
) -> Seq<Job>
    decreases fired.len(),
{
    if fired.len() == 0 {
        Seq::empty()
    } else {
        let earlier = resolve(jobs, entries, fired.drop_last());
        if entries.contains_key(fired.last()@) {
            earlier.push(current_definition(jobs, entries, fired.last()@))
        } else {
            earlier
        }
    }
}

/// Whether `jobs` holds a definition for `name` that was written at
/// `threshold` or later.
pub open spec fn is_due(jobs: Map<Seq<char>, Job>, threshold: int, name: Seq<char>) -> bool {
    jobs.contains_key(name) && jobs[name].updated_at >= threshold
}

/// `work` lists the definitions of `jobs`: each of them once, and nothing
/// else.
pub open spec fn lists(work: Seq<Job>, jobs: Map<Seq<char>, Job>) -> bool {
    &&& forall|k: int|
        0 <= k < work.len() ==> jobs.contains_key((#[trigger] work[k]).name@) && jobs[work[k].name@]
            == work[k]
    &&& forall|k: int, l: int|
        0 <= k < l < work.len() ==> (#[trigger] work[k]).name@ != (#[trigger] work[l]).name@
    &&& forall|name: Seq<char>| #[trigger] jobs.contains_key(name) ==> names_of(work).contains(name)
}

/// The registry, its trigger engine and the configuration it runs with.
pub struct Scheduler {
    jobs: NameMap<Job>,
    job_ids: NameMap<Entry>,
    last_updated_at: i64,
    polled_at: i64,
    job_scheduler: TriggerEngine,
    config: Config,
}

/// Seconds between two looks at the store.
pub const POLL_INTERVAL_SECS: i64 = 4;

/// Whether the store is to be looked at again at `now`, when it was last
/// looked at at `polled_at`: the interval has passed, or the clock has
/// gone back.
pub open spec fn poll_is_due(polled_at: int, now: int) -> bool {
    now < polled_at || now - polled_at >= POLL_INTERVAL_SECS
}

proof fn lemma_bag_empty()
    ensures
        handle_bag(Seq::<Entry>::empty()) == Multiset::<u128>::empty(),
{
    let handles = Seq::<Entry>::empty().map_values(|entry: Entry| entry.handle);
    assert(handles =~= Seq::<u128>::empty());
    handles.to_multiset_ensures();
    vstd::multiset::lemma_multiset_empty_len(handles.to_multiset());
}

proof fn lemma_bag_push(entries: Seq<Entry>, entry: Entry)
    ensures
        handle_bag(entries.push(entry)) == handle_bag(entries).insert(entry.handle),
{
    let handles = entries.map_values(|entry: Entry| entry.handle);
    assert(entries.push(entry).map_values(|entry: Entry| entry.handle) =~= handles.push(
        entry.handle,
    ));
    to_multiset_build(handles, entry.handle);
}

proof fn lemma_bag_remove(entries: Seq<Entry>, i: int)
    requires
        0 <= i < entries.len(),
    ensures
        handle_bag(entries.remove(i)) == handle_bag(entries).remove(entries[i].handle),
        handle_bag(entries).count(entries[i].handle) > 0,
{
    let handles = entries.map_values(|entry: Entry| entry.handle);
    assert(entries.remove(i).map_values(|entry: Entry| entry.handle) =~= handles.remove(i));
    to_multiset_remove(handles, i);
    handles.to_multiset_ensures();
    assert(handles[i] == entries[i].handle);
    assert(handles.contains(entries[i].handle));
}

/// Whether `names` and `items` list the entries of `entries`, each once.
spec fn enumerates(
    names: Seq<Seq<char>>,
    items: Seq<Entry>,
    entries: Map<Seq<char>, Entry>,
) -> bool {
    &&& names.len() == items.len()
    &&& names.no_duplicates()
    &&& forall|i: int|
        0 <= i < names.len() ==> entries.contains_key(#[trigger] names[i]) && entries[names[i]]
            == items[i]
    &&& forall|name: Seq<char>| #[trigger] entries.contains_key(name) ==> names.contains(name)
}

/// The handles of a map's entries do not depend on the order in which the
/// entries are listed.
proof fn lemma_bag_of_enumeration(
    names: Seq<Seq<char>>,
    items: Seq<Entry>,
    others: Seq<Seq<char>>,
    other_items: Seq<Entry>,
    entries: Map<Seq<char>, Entry>,
)
    requires
        enumerates(names, items, entries),
        enumerates(others, other_items, entries),
    ensures
        handle_bag(items) == handle_bag(other_items),
    decreases names.len(),
{
    if names.len() == 0 {
        if others.len() > 0 {
            assert(entries.contains_key(others[0]));
            assert(names.contains(others[0]));
        }
        assert(items =~= other_items);
    } else {
        let last = names.len() - 1;
        let name = names[last];
        let entry = items[last];
        assert(entries.contains_key(name));
        assert(others.contains(name));
        let j = choose|j: int| 0 <= j < others.len() && others[j] == name;
        let rest = entries.remove(name);
        let names2 = names.drop_last();
        let items2 = items.drop_last();
        let others2 = others.remove(j);
        let other_items2 = other_items.remove(j);
        assert forall|i: int| 0 <= i < names2.len() implies rest.contains_key(
            #[trigger] names2[i],
        ) && rest[names2[i]] == items2[i] by {
            assert(names2[i] == names[i]);
        }
        assert forall|other: Seq<char>| #[trigger] rest.contains_key(other) implies names2.contains(
            other,
        ) by {
            assert(entries.contains_key(other));
            let i = choose|i: int| 0 <= i < names.len() && names[i] == other;
            assert(names2[i] == other);
        }
        assert forall|i: int| 0 <= i < others2.len() implies rest.contains_key(
            #[trigger] others2[i],
        ) && rest[others2[i]] == other_items2[i] by {
            let i0 = if i < j { i } else { i + 1 };
            assert(others2[i] == others[i0]);
            assert(other_items2[i] == other_items[i0]);
        }
        assert forall|other: Seq<char>| #[trigger] rest.contains_key(other) implies others2.contains(
            other,
        ) by {
            assert(entries.contains_key(other));
            let i0 = choose|i: int| 0 <= i < others.len() && others[i] == other;
            let i = if i0 < j { i0 } else { i0 - 1 };
            assert(others2[i] == other);
        }
        assert(others2.no_duplicates()) by {
            assert forall|a: int, b: int|
                0 <= a < others2.len() && 0 <= b < others2.len() && a != b implies others2[a]
                != others2[b] by {
                let a0 = if a < j { a } else { a + 1 };
                let b0 = if b < j { b } else { b + 1 };
                assert(others2[a] == others[a0]);
                assert(others2[b] == others[b0]);
            }
        }
        lemma_bag_of_enumeration(names2, items2, others2, other_items2, rest);
        assert(items =~= items2.push(entry));
        lemma_bag_push(items2, entry);
        lemma_bag_remove(other_items, j);
        assert(other_items[j] == entry);
        assert(handle_bag(other_items) =~= handle_bag(other_items2).insert(entry.handle));
    }
}

impl Scheduler {
    /// The job map: the definitions that the last query of the store
    /// returned, by name.
    pub closed spec fn jobs(&self) -> Map<Seq<char>, Job> {
        self.jobs@
    }

    /// The entries: what is scheduled, by name.
    pub closed spec fn entries(&self) -> Map<Seq<char>, Entry> {
        self.job_ids@
    }

    /// The names that are scheduled.
    pub open spec fn scheduled(&self) -> Set<Seq<char>> {
        self.entries().dom()
    }

    /// The watermark: the store has been read up to this time.
    pub closed spec fn watermark(&self) -> int {
        self.last_updated_at as int
    }

    /// When the store was last looked at, or asked in vain.
    pub closed spec fn polled_at(&self) -> int {
        self.polled_at as int
    }

    /// The handles of the triggers that the engine holds.
    pub closed spec fn triggers(&self) -> Multiset<u128> {
        self.job_scheduler.handles()
    }

    /// The names that the triggers of the engine report when they fire.
    pub closed spec fn trigger_names(&self) -> Multiset<Seq<char>> {
        self.job_scheduler.names()
    }

    /// The configuration that the scheduler was made with.
    pub closed spec fn configuration(&self) -> Config {
        self.config
    }

    /// The registry is consistent: every definition and every entry is
    /// stored under its job's own name, and the engine holds exactly the
    /// triggers of the entries, one for each scheduled name.
    pub closed spec fn wf(&self) -> bool {
        &&& self.jobs.wf()
        &&& self.job_ids.wf()
        &&& forall|name: Seq<char>| #[trigger]
            self.jobs@.contains_key(name) ==> self.jobs@[name].name@ == name
        &&& forall|name: Seq<char>| #[trigger]
            self.job_ids@.contains_key(name) ==> self.job_ids@[name].job.name@ == name
        &&& self.job_scheduler.handles() == handle_bag(self.job_ids.items())
        &&& self.job_scheduler.wf()
    }

    /// In a consistent registry the engine holds one trigger for each
    /// scheduled name, the one whose handle the entry records, and no other
    /// trigger.
    pub proof fn lemma_one_trigger_per_name(&self)
        requires
            self.wf(),
        ensures
            self.scheduled().finite(),
            self.triggers().len() == self.scheduled().len(),
            forall|name: Seq<char>| #[trigger]
                self.scheduled().contains(name) ==> self.triggers().contains(
                    self.entries()[name].handle,
                ),
    {
        self.job_ids.lemma_size();
        let handles = self.job_ids.items().map_values(|entry: Entry| entry.handle);
        handles.to_multiset_ensures();
        assert forall|name: Seq<char>| #[trigger]
            self.scheduled().contains(name) implies self.triggers().contains(
            self.entries()[name].handle,
        ) by {
            let i = position(self.job_ids.names(), name);
            self.job_ids.lemma_entry(i);
            assert(handles[i] == self.entries()[name].handle);
            assert(handles.contains(self.entries()[name].handle));
        }
    }

    /// The triggers follow from the entries: two consistent schedulers
    /// with the same entries hold the same triggers.
    pub proof fn lemma_triggers_follow_entries(&self, other: Scheduler)
        requires
            self.wf(),
            other.wf(),
            self.entries() == other.entries(),
        ensures
            self.triggers() == other.triggers(),
    {
        assert forall|i: int| 0 <= i < self.job_ids.names().len() implies self.entries().contains_key(
            #[trigger] self.job_ids.names()[i],
        ) && self.entries()[self.job_ids.names()[i]] == self.job_ids.items()[i] by {
            self.job_ids.lemma_entry(i);
        }
        assert forall|i: int|
            0 <= i < other.job_ids.names().len() implies self.entries().contains_key(
            #[trigger] other.job_ids.names()[i],
        ) && self.entries()[other.job_ids.names()[i]] == other.job_ids.items()[i] by {
            other.job_ids.lemma_entry(i);
        }
        lemma_bag_of_enumeration(
            self.job_ids.names(),
            self.job_ids.items(),
            other.job_ids.names(),
            other.job_ids.items(),
            self.entries(),
        );
    }

    /// Whether two schedulers agree on everything but their entries and
    /// triggers.
    pub open spec fn same_frame(&self, other: Scheduler) -> bool {
        &&& self.jobs() == other.jobs()
        &&& self.watermark() == other.watermark()
        &&& self.configuration() == other.configuration()
    }
}

/// What scheduling anew from `threshold` has done for `name`, once the
/// name has been `reached`. A name whose definition in the job map is due
/// ends up scheduled with that definition if its expression is accepted,
/// and unscheduled if not. Any other name, and any name not yet reached,
/// keeps the entry it had, or stays without one.
pub open spec fn entry_rescheduled(
    pre: Scheduler,
    threshold: int,
    reached: bool,
    post: Scheduler,
    name: Seq<char>,
) -> bool {
    if reached && is_due(pre.jobs(), threshold, name) {
        if schedule_accepted(pre.jobs()[name].time@) {
            post.scheduled().contains(name) && post.entries()[name].job == pre.jobs()[name]
        } else {
            !post.scheduled().contains(name)
        }
    } else {
        &&& post.scheduled().contains(name) == pre.scheduled().contains(name)
        &&& pre.scheduled().contains(name) ==> post.entries()[name] == pre.entries()[name]
    }
}

/// What scheduling anew from `threshold` does to a scheduler: every due
/// definition of the job map is scheduled anew or, with a malformed
/// expression, unscheduled and dropped from the job map.
pub open spec fn rescheduled(pre: Scheduler, threshold: int, post: Scheduler) -> bool {
    &&& forall|name: Seq<char>| #[trigger] entry_rescheduled(pre, threshold, true, post, name)
    &&& post.jobs() == pre.jobs().remove_keys(rejected_names(pre.jobs(), threshold))
    &&& post.watermark() == pre.watermark()
    &&& post.configuration() == pre.configuration()
    &&& post.entries() == pre.entries() ==> post.triggers() == pre.triggers()
}

/// The triggers of `scheduler` without the one of `name`, if `name` is
/// scheduled.
pub open spec fn displaced(scheduler: Scheduler, name: Seq<char>) -> Multiset<u128> {
    if scheduler.scheduled().contains(name) {
        scheduler.triggers().remove(scheduler.entries()[name].handle)
    } else {
        scheduler.triggers()
    }
}

/// Schedules `job`: registers a trigger for its cron expression and stores
/// the handle under the job's name, together with the definition. An entry
/// that the name had before is replaced and its trigger removed, so a name
/// never has two triggers. A malformed expression is refused, and the
/// scheduler stays as it was.
pub fn schedule_job(job: Job, scheduler: &mut Scheduler) -> (scheduled: Result<(), ScheduleError>)
    requires
        old(scheduler).wf(),
    ensures
        final(scheduler).wf(),
        final(scheduler).same_frame(*old(scheduler)),
        match scheduled {
            Ok(()) => {
                &&& schedule_accepted(job.time@)
                &&& final(scheduler).entries() == old(scheduler).entries().insert(
                    job.name@,
                    final(scheduler).entries()[job.name@],
                )
                &&& final(scheduler).entries()[job.name@].job == job
                &&& final(scheduler).triggers() == displaced(*old(scheduler), job.name@).insert(
                    final(scheduler).entries()[job.name@].handle,
                )
                &&& final(scheduler).trigger_names().subset_of(
                    old(scheduler).trigger_names().insert(job.name@),
                )
                &&& !old(scheduler).scheduled().contains(job.name@)
                    ==> final(scheduler).trigger_names() == old(scheduler).trigger_names().insert(
                    job.name@,
                )
            },
            Err(error) => {
                &&& !schedule_accepted(job.time@)
                &&& final(scheduler).entries() == old(scheduler).entries()
                &&& final(scheduler).triggers() == old(scheduler).triggers()
                &&& final(scheduler).trigger_names() == old(scheduler).trigger_names()
                &&& error.name@ == job.name@
                &&& error.expression@ == job.time@
            },
        },
{
    let ghost before = *scheduler;
    let added = scheduler.job_scheduler.add(job.time.as_str(), job.name.as_str());
    proof {
        if scheduler.job_ids@.contains_key(job.name@) {
            let at = position(scheduler.job_ids.names(), job.name@);
            lemma_bag_remove(scheduler.job_ids.items(), at);
            scheduler.job_ids.lemma_entry(at);
        }
    }
    let scheduled = record_trigger(job, added, scheduler);
    proof {
        if added is Ok && before.scheduled().contains(job.name@) {
            let stale = before.entries()[job.name@].handle;
            assert(before.triggers().insert(added->Ok_0).remove(stale) =~= before.triggers().remove(
                stale,
            ).insert(added->Ok_0));
        }
    }
    scheduled
}

impl Scheduler {
    /// Whether the scheduler is consistent but for the answer `added` of
    /// the trigger engine, which is still to be recorded: the engine holds
    /// the trigger that the answer names, if it names one, and the
    /// entries do not hold it yet.
    pub closed spec fn awaits(&self, added: Result<u128, InvalidSchedule>) -> bool {
        &&& self.jobs.wf()
        &&& self.job_ids.wf()
        &&& forall|name: Seq<char>| #[trigger]
            self.jobs@.contains_key(name) ==> self.jobs@[name].name@ == name
        &&& forall|name: Seq<char>| #[trigger]
            self.job_ids@.contains_key(name) ==> self.job_ids@[name].job.name@ == name
        &&& self.job_scheduler.handles() == match added {
            Ok(handle) => handle_bag(self.job_ids.items()).insert(handle),
            Err(_) => handle_bag(self.job_ids.items()),
        }
        &&& self.job_scheduler.wf()
    }

    /// A consistent scheduler awaits nothing but the record of a refusal.
    pub proof fn lemma_awaits_refusal(&self, refused: InvalidSchedule)
        ensures
            self.wf() <==> self.awaits(Err(refused)),
    {
    }
}

/// Records what the trigger engine answered when it was asked to register
/// a trigger for `job`. A handle is stored under the job's name, together
/// with the definition; the entry that the name had before is replaced and
/// its trigger removed. A refusal is handed on as the job's error, and
/// nothing changes.
pub fn record_trigger(
    job: Job,
    added: Result<u128, InvalidSchedule>,
    scheduler: &mut Scheduler,
) -> (scheduled: Result<(), ScheduleError>)
    requires
        old(scheduler).awaits(added),
    ensures
        final(scheduler).wf(),
        final(scheduler).same_frame(*old(scheduler)),
        match added {
            Ok(handle) => {
                &&& scheduled is Ok
                &&& final(scheduler).entries() == old(scheduler).entries().insert(
                    job.name@,
                    (Entry { job, handle }),
                )
                &&& final(scheduler).triggers() == displaced(*old(scheduler), job.name@)
                &&& final(scheduler).trigger_names().subset_of(old(scheduler).trigger_names())
                &&& !old(scheduler).scheduled().contains(job.name@)
                    ==> final(scheduler).trigger_names() == old(scheduler).trigger_names()
            },
            Err(_) => {
                &&& scheduled matches Err(error)
                &&& error.name@ == job.name@
                &&& error.expression@ == job.time@
                &&& final(scheduler).entries() == old(scheduler).entries()
                &&& final(scheduler).triggers() == old(scheduler).triggers()
                &&& final(scheduler).trigger_names() == old(scheduler).trigger_names()
            },
        },
{
    match added {
        Ok(handle) => {
            let ghost before = scheduler.job_ids;
            match scheduler.job_ids.remove(job.name.as_str()) {
                Some(stale) => {
                    proof {
                        lemma_bag_remove(before.items(), position(before.names(), job.name@));
                        assert(handle_bag(before.items()).insert(handle).remove(stale.handle)
                            =~= handle_bag(before.items()).remove(stale.handle).insert(handle));
                    }
                    let _found = scheduler.job_scheduler.remove(stale.handle);
                },
                None => {},
            }
            let ghost middle = scheduler.job_ids;
            let name = job.name.clone();
            let entry = Entry { job, handle };
            proof {
                lemma_bag_push(middle.items(), entry);
                assert(scheduler.job_scheduler.handles() =~= handle_bag(middle.items()).insert(
                    handle,
                ));
            }
            scheduler.job_ids.insert(name, entry);
            proof {
                assert(scheduler.job_ids@ =~= before@.insert(job.name@, entry));
            }
            Ok(())
        },
        Err(_refused) => Err(
            ScheduleError { name: job.name.clone(), expression: job.time.clone() },
        ),
    }
}

/// Unschedules `name`: removes its entry and its trigger, if it has any, and
/// says whether it had.
pub fn unschedule_job(name: &str, scheduler: &mut Scheduler) -> (removed: bool)
    requires
        old(scheduler).wf(),
    ensures
        final(scheduler).wf(),
        final(scheduler).same_frame(*old(scheduler)),
        final(scheduler).entries() == old(scheduler).entries().remove(name@),
        removed == old(scheduler).scheduled().contains(name@),
        final(scheduler).triggers() == displaced(*old(scheduler), name@),
        final(scheduler).trigger_names().subset_of(old(scheduler).trigger_names()),
        !removed ==> final(scheduler).trigger_names() == old(scheduler).trigger_names(),
{
    let ghost before = scheduler.job_ids;
    match scheduler.job_ids.remove(name) {
        Some(stale) => {
            proof {
                lemma_bag_remove(before.items(), position(before.names(), name@));
            }
            let _found = scheduler.job_scheduler.remove(stale.handle);
            true
        },
        None => false,
    }
}

impl Scheduler {
    /// A scheduler with an empty registry whose watermark is the current
    /// time.
    pub fn new(config: Config) -> (scheduler: Scheduler)
        ensures
            scheduler.wf(),
            scheduler.jobs() == Map::<Seq<char>, Job>::empty(),
            scheduler.entries() == Map::<Seq<char>, Entry>::empty(),
            scheduler.triggers() == Multiset::<u128>::empty(),
            scheduler.configuration() == config,
    {
        Scheduler::starting_at(config, current_timestamp())
    }

    /// A scheduler with an empty registry whose watermark is `now`.
    pub fn starting_at(config: Config, now: i64) -> (scheduler: Scheduler)
        ensures
            scheduler.wf(),
            scheduler.jobs() == Map::<Seq<char>, Job>::empty(),
            scheduler.entries() == Map::<Seq<char>, Entry>::empty(),
            scheduler.triggers() == Multiset::<u128>::empty(),
            scheduler.watermark() == now,
            scheduler.polled_at() == now,
            scheduler.configuration() == config,
    {
        let scheduler = Scheduler {
            jobs: NameMap::new(),
            job_ids: NameMap::new(),
            last_updated_at: now,
            polled_at: now,
            job_scheduler: TriggerEngine::new(),
            config,
        };
        proof {
            lemma_bag_empty();
        }
        scheduler
    }

    /// Reads `jobs` into the job map, each under its name. A definition
    /// replaces the one that the map held under the same name. Nothing is
    /// scheduled by this.
    pub fn add_jobs(&mut self, jobs: Vec<Job>)
        requires
            old(self).wf(),
        ensures
            final(self).wf(),
            final(self).jobs() == read_into(old(self).jobs(), jobs@),
            final(self).entries() == old(self).entries(),
            final(self).triggers() == old(self).triggers(),
            final(self).watermark() == old(self).watermark(),
            final(self).configuration() == old(self).configuration(),
    {
        let mut i: usize = 0;
        assert(jobs@.take(0) =~= Seq::<Job>::empty());
        while i < jobs.len()
            invariant
                i <= jobs.len(),
                self.wf(),
                self.jobs@ == read_into(old(self).jobs@, jobs@.take(i as int)),
                self.job_ids == old(self).job_ids,
                self.job_scheduler == old(self).job_scheduler,
                self.last_updated_at == old(self).last_updated_at,
                self.config == old(self).config,
            decreases jobs.len() - i,
        {
            let job = jobs[i].clone();
            proof {
                assert(jobs@.take(i + 1).drop_last() =~= jobs@.take(i as int));
                assert(jobs@.take(i + 1).last() == job);
            }
            self.jobs.insert(job.name.clone(), job);
            i += 1;
        }
        assert(jobs@.take(i as int) =~= jobs@);
    }

    /// Replaces the job map by `jobs`. What is scheduled stays scheduled.
    pub fn replace_jobs(&mut self, jobs: Vec<Job>)
        requires
            old(self).wf(),
        ensures
            final(self).wf(),
            final(self).jobs() == table_of(jobs@),
            final(self).entries() == old(self).entries(),
            final(self).triggers() == old(self).triggers(),
            final(self).watermark() == old(self).watermark(),
            final(self).configuration() == old(self).configuration(),
    {
        self.jobs.clear();
        self.add_jobs(jobs);
    }

    /// Moves the watermark forward to `observed_at`. The watermark never
    /// moves back: a time before it leaves it where it is.
    pub fn advance_watermark(&mut self, observed_at: i64)
        requires
            old(self).wf(),
        ensures
            final(self).wf(),
            final(self).watermark() == vstd::math::max(old(self).watermark(), observed_at as int),
            final(self).jobs() == old(self).jobs(),
            final(self).entries() == old(self).entries(),
            final(self).triggers() == old(self).triggers(),
            final(self).configuration() == old(self).configuration(),
    {
        if observed_at > self.last_updated_at {
            self.last_updated_at = observed_at;
        }
    }

    /// Notes that the store was looked at, or asked in vain, at `now`.
    /// Nothing else changes.
    pub fn note_poll(&mut self, now: i64)
        requires
            old(self).wf(),
        ensures
            final(self).wf(),
            final(self).polled_at() == now,
            final(self).jobs() == old(self).jobs(),
            final(self).entries() == old(self).entries(),
            final(self).triggers() == old(self).triggers(),
            final(self).trigger_names() == old(self).trigger_names(),
            final(self).watermark() == old(self).watermark(),
            final(self).configuration() == old(self).configuration(),
    {
        self.polled_at = now;
    }

    /// Whether the store is to be looked at again at `now`.
    pub fn poll_due(&self, now: i64) -> (due: bool)
        ensures
            due == poll_is_due(self.polled_at(), now as int),
    {
        now < self.polled_at || now as i128 - self.polled_at as i128 >= POLL_INTERVAL_SECS as i128
    }

    /// Discards the registry: every definition, every entry and every
    /// trigger. The watermark stays.
    pub fn step_down(&mut self)
        ensures
            final(self).wf(),
            final(self).jobs() == Map::<Seq<char>, Job>::empty(),
            final(self).entries() == Map::<Seq<char>, Entry>::empty(),
            final(self).triggers() == Multiset::<u128>::empty(),
            final(self).watermark() == old(self).watermark(),
            final(self).configuration() == old(self).configuration(),
    {
        self.jobs.clear();
        self.job_ids.clear();
        self.job_scheduler = TriggerEngine::new();
        proof {
            lemma_bag_empty();
        }
    }

    /// The watermark.
    pub fn last_updated_at(&self) -> (watermark: i64)
        ensures
            watermark == self.watermark(),
    {
        self.last_updated_at
    }

    /// The configuration that the scheduler was made with.
    pub fn config(&self) -> (config: &Config)
        ensures
            *config == self.configuration(),
    {
        &self.config
    }

    /// Whether `name` is scheduled.
    pub fn is_scheduled(&self, name: &str) -> (found: bool)
        requires
            self.wf(),
        ensures
            found == self.scheduled().contains(name@),
    {
        self.job_ids.contains_key(name)
    }

    /// The handle of the trigger of `name`, if `name` is scheduled.
    pub fn handle_of(&self, name: &str) -> (handle: Option<u128>)
        requires
            self.wf(),
        ensures
            handle == (if self.scheduled().contains(name@) {
                Some(self.entries()[name@].handle)
            } else {
                None
            }),
    {
        match self.job_ids.get(name) {
            Some(entry) => Some(entry.handle),
            None => None,
        }
    }

    /// The definition that `name` is scheduled with, if it is scheduled.
    pub fn scheduled_job(&self, name: &str) -> (job: Option<Job>)
        requires
            self.wf(),
        ensures
            job == (if self.scheduled().contains(name@) {
                Some(self.entries()[name@].job)
            } else {
                None
            }),
    {
        match self.job_ids.get(name) {
            Some(entry) => Some(entry.job.clone()),
            None => None,
        }
    }

    /// The definition that the job map holds for `name`, if it holds one.
    pub fn job(&self, name: &str) -> (job: Option<Job>)
        requires
            self.wf(),
        ensures
            job == (if self.jobs().contains_key(name@) {
                Some(self.jobs()[name@])
            } else {
                None
            }),
    {
        match self.jobs.get(name) {
            Some(job) => Some(job.clone()),
            None => None,
        }
    }

    /// The number of scheduled names, which is also the number of triggers
    /// that the engine holds.
    pub fn scheduled_count(&self) -> (count: usize)
        requires
            self.wf(),
        ensures
            count == self.scheduled().len(),
            count == self.triggers().len(),
            self.scheduled().finite(),
    {
        proof {
            self.job_ids.lemma_size();
            let handles = self.job_ids.items().map_values(|entry: Entry| entry.handle);
            handles.to_multiset_ensures();
        }
        self.job_ids.len()
    }

    /// The number of definitions in the job map.
    pub fn job_count(&self) -> (count: usize)
        requires
            self.wf(),
        ensures
            count == self.jobs().dom().len(),
            self.jobs().dom().finite(),
    {
        proof {
            self.jobs.lemma_size();
        }
        self.jobs.len()
    }

    /// The jobs to hand to the executor when the triggers of `fired` have
    /// fired. Each name is looked up now, so the executor gets the
    /// definition that is current, not the one that was current when the
    /// trigger was registered.
    pub fn due_jobs(&self, fired: &Vec<String>) -> (due: Vec<Job>)
        requires
            self.wf(),
        ensures
            due@ == resolve(self.jobs(), self.entries(), fired@),
    {
        let mut due: Vec<Job> = Vec::new();
        let mut i: usize = 0;
        assert(fired@.take(0) =~= Seq::<String>::empty());
        while i < fired.len()
            invariant
                i <= fired.len(),
                self.wf(),
                due@ == resolve(self.jobs@, self.job_ids@, fired@.take(i as int)),
            decreases fired.len() - i,
        {
            proof {
                assert(fired@.take(i + 1).drop_last() =~= fired@.take(i as int));
                assert(fired@.take(i + 1).last() == fired@[i as int]);
            }
            match self.job_ids.get(fired[i].as_str()) {
                Some(entry) => {
                    match self.jobs.get(fired[i].as_str()) {
                        Some(job) => {
                            due.push(job.clone());
                        },
                        None => {
                            due.push(entry.job.clone());
                        },
                    }
                },
                None => {},
            }
            i += 1;
        }
        assert(fired@.take(i as int) =~= fired@);
        due
    }
}

/// Whether `due` can be what a tick of `scheduler` hands out: each job is
/// the current definition of a scheduled name, under that name.
pub open spec fn ticked(scheduler: Scheduler, due: Seq<Job>) -> bool {
    forall|i: int|
        0 <= i < due.len() ==> scheduler.scheduled().contains((#[trigger] due[i]).name@) && due[i]
            == current_definition(scheduler.jobs(), scheduler.entries(), due[i].name@)
}

/// Runs the trigger engine once and returns the jobs whose triggers fired,
/// each with the definition that is current for its name now. The caller
/// hands them to the executor, without waiting for them to finish. Which
/// triggers fire depends on the clock; the registry is not changed.
pub fn tick(scheduler: &mut Scheduler) -> (due: Vec<Job>)
    requires
        old(scheduler).wf(),
    ensures
        final(scheduler).wf(),
        final(scheduler).same_frame(*old(scheduler)),
        final(scheduler).entries() == old(scheduler).entries(),
        final(scheduler).triggers() == old(scheduler).triggers(),
        ticked(*final(scheduler), due@),
{
    let fired = scheduler.job_scheduler.tick();
    let due = scheduler.due_jobs(&fired);
    proof {
        lemma_resolve_scheduled(scheduler.jobs(), scheduler.entries(), fired@);
    }
    due
}

/// Every job that `resolve` yields is the current definition of a
/// scheduled name, when definitions and entries are stored under their
/// job's name.
pub proof fn lemma_resolve_scheduled(
    jobs: Map<Seq<char>, Job>,
    entries: Map<Seq<char>, Entry>,
    fired: Seq<String>,
)
    requires
        forall|name: Seq<char>| #[trigger] jobs.contains_key(name) ==> jobs[name].name@ == name,
        forall|name: Seq<char>| #[trigger]
            entries.contains_key(name) ==> entries[name].job.name@ == name,
    ensures
        forall|i: int|
            0 <= i < resolve(jobs, entries, fired).len() ==> entries.contains_key(
                (#[trigger] resolve(jobs, entries, fired)[i]).name@,
            ) && resolve(jobs, entries, fired)[i] == current_definition(
                jobs,
                entries,
                resolve(jobs, entries, fired)[i].name@,
            ),
    decreases fired.len(),
{
    if fired.len() > 0 {
        lemma_resolve_scheduled(jobs, entries, fired.drop_last());
        let earlier = resolve(jobs, entries, fired.drop_last());
        let all = resolve(jobs, entries, fired);
        assert forall|i: int| 0 <= i < all.len() implies entries.contains_key(
            (#[trigger] all[i]).name@,
        ) && all[i] == current_definition(jobs, entries, all[i].name@) by {
            if i < earlier.len() {
                assert(all[i] == earlier[i]);
            } else {
                let name = fired.last()@;
                assert(entries.contains_key(name));
                assert(all[i] == current_definition(jobs, entries, name));
                if jobs.contains_key(name) {
                    assert(jobs[name].name@ == name);
                }
            }
        }
    }
}

/// Unschedules every job of `disabled_jobs`. A job that is not scheduled is
/// passed over.
pub fn disable_jobs(scheduler: &mut Scheduler, disabled_jobs: Vec<Job>)
    requires
        old(scheduler).wf(),
    ensures
        final(scheduler).wf(),
        final(scheduler).same_frame(*old(scheduler)),
        final(scheduler).entries() == old(scheduler).entries().remove_keys(
            names_of(disabled_jobs@),
        ),
        final(scheduler).entries() == old(scheduler).entries() ==> final(scheduler).triggers()
            == old(scheduler).triggers(),
{
    let mut i: usize = 0;
    proof {
        assert(names_of(disabled_jobs@.take(0)) =~= Set::<Seq<char>>::empty());
        assert(scheduler.entries() =~= old(scheduler).entries().remove_keys(
            Set::<Seq<char>>::empty(),
        ));
    }
    while i < disabled_jobs.len()
        invariant
            i <= disabled_jobs.len(),
            scheduler.wf(),
            scheduler.same_frame(*old(scheduler)),
            scheduler.entries() == old(scheduler).entries().remove_keys(
                names_of(disabled_jobs@.take(i as int)),
            ),
        decreases disabled_jobs.len() - i,
    {
        let ghost before = scheduler.entries();
        let _removed = unschedule_job(disabled_jobs[i].name.as_str(), scheduler);
        proof {
            lemma_names_of_take(disabled_jobs@, i as int);
            assert(scheduler.entries() =~= old(scheduler).entries().remove_keys(
                names_of(disabled_jobs@.take(i + 1)),
            ));
        }
        i += 1;
    }
    assert(disabled_jobs@.take(i as int) =~= disabled_jobs@);
    proof {
        if scheduler.entries() == old(scheduler).entries() {
            scheduler.lemma_triggers_follow_entries(*old(scheduler));
        }
    }
}

/// The names of the first `i + 1` jobs are those of the first `i` and the
/// name of job `i`.
pub proof fn lemma_names_of_take(jobs: Seq<Job>, i: int)
    requires
        0 <= i < jobs.len(),
    ensures
        names_of(jobs.take(i + 1)) == names_of(jobs.take(i)).insert(jobs[i].name@),
{
    let longer = jobs.take(i + 1);
    let shorter = jobs.take(i);
    assert forall|name: Seq<char>| names_of(longer).contains(name) implies names_of(
        shorter,
    ).insert(jobs[i].name@).contains(name) by {
        let k = choose|k: int| 0 <= k < longer.len() && (#[trigger] longer[k]).name@ == name;
        if k < i {
            assert(shorter[k].name@ == name);
        }
    }
    assert forall|name: Seq<char>| names_of(shorter).insert(jobs[i].name@).contains(
        name,
    ) implies names_of(longer).contains(name) by {
        if name == jobs[i].name@ {
            assert(longer[i].name@ == name);
        } else {
            let k = choose|k: int| 0 <= k < shorter.len() && (#[trigger] shorter[k]).name@ == name;
            assert(longer[k].name@ == name);
        }
    }
    assert(names_of(longer) =~= names_of(shorter).insert(jobs[i].name@));
}

impl Scheduler {
    /// The definitions of the job map, each once, in the order in which
    /// their names first arrived.
    pub fn job_list(&self) -> (work: Vec<Job>)
        requires
            self.wf(),
        ensures
            lists(work@, self.jobs()),
    {
        let mut work: Vec<Job> = Vec::new();
        let mut i: usize = 0;
        let count = self.jobs.len();
        while i < count
            invariant
                i <= count,
                count == self.jobs.names().len(),
                self.wf(),
                work.len() == i,
                forall|k: int|
                    0 <= k < i ==> (#[trigger] work[k]) == self.jobs.items()[k] && work[k].name@
                        == self.jobs.names()[k],
            decreases count - i,
        {
            proof {
                self.jobs.lemma_entry(i as int);
            }
            work.push(self.jobs.item_at(i).clone());
            i += 1;
        }
        proof {
            assert forall|k: int| 0 <= k < work.len() implies self.jobs().contains_key(
                (#[trigger] work[k]).name@,
            ) && self.jobs()[work[k].name@] == work[k] by {
                self.jobs.lemma_entry(k);
            }
            assert forall|name: Seq<char>| #[trigger]
                self.jobs().contains_key(name) implies names_of(work@).contains(name) by {
                let k = position(self.jobs.names(), name);
                assert(work[k].name@ == name);
            }
        }
        work
    }
}

/// Schedules anew every job of the job map that was written at
/// `last_updated_at` or later: the trigger that its name had, if any, is
/// removed first, so no name is ever scheduled twice. A job whose cron
/// expression is malformed ends up unscheduled and is dropped from the job
/// map; it is reported in the result and does not hold up the others.
pub fn reschedule_jobs_if_needed(scheduler: &mut Scheduler, last_updated_at: i64) -> (skipped: Vec<
    ScheduleError,
>)
    requires
        old(scheduler).wf(),
    ensures
        final(scheduler).wf(),
        rescheduled(*old(scheduler), last_updated_at as int, *final(scheduler)),
        reports_of(skipped@, old(scheduler).jobs()),
        reported(skipped@) == rejected_names(old(scheduler).jobs(), last_updated_at as int),
{
    let ghost pre = *scheduler;
    let ghost threshold = last_updated_at as int;
    let work = scheduler.job_list();
    let mut skipped: Vec<ScheduleError> = Vec::new();
    let mut i: usize = 0;
    proof {
        assert(names_of(work@.take(0)) =~= Set::<Seq<char>>::empty());
    }
    while i < work.len()
        invariant
            i <= work.len(),
            threshold == last_updated_at as int,
            scheduler.wf(),
            scheduler.same_frame(pre),
            lists(work@, pre.jobs()),
            forall|name: Seq<char>| #[trigger]
                entry_rescheduled(
                    pre,
                    threshold,
                    names_of(work@.take(i as int)).contains(name),
                    *scheduler,
                    name,
                ),
            reports_of(skipped@, pre.jobs()),
            forall|name: Seq<char>|
                #![trigger reported(skipped@).contains(name)]
                reported(skipped@).contains(name) <==> (names_of(work@.take(i as int)).contains(name)
                    && rejected_names(pre.jobs(), threshold).contains(name)),
        decreases work.len() - i,
    {
        let job = work[i].clone();
        let ghost current = job.name@;
        let ghost before = *scheduler;
        let ghost reports = skipped@;
        let ghost reached = names_of(work@.take(i as int));
        proof {
            lemma_names_of_take(work@, i as int);
            if reached.contains(current) {
                let k = choose|k: int|
                    0 <= k < work@.take(i as int).len() && (#[trigger] work@.take(i as int)[k]).name@
                        == current;
                assert(work@[k].name@ == work@[i as int].name@);
            }
            assert(!reached.contains(current));
            assert(entry_rescheduled(pre, threshold, reached.contains(current), before, current));
            assert(pre.jobs().contains_key(work@[i as int].name@) && pre.jobs()[current] == job);
            assert(!reported(reports).contains(current));
        }
        if job.updated_at >= last_updated_at {
            let _removed = unschedule_job(job.name.as_str(), scheduler);
            match schedule_job(job, scheduler) {
                Ok(()) => {},
                Err(error) => {
                    skipped.push(error);
                    proof {
                        lemma_reported_push(reports, error);
                        assert forall|k: int, l: int| 0 <= k < l < skipped@.len() implies (
                        #[trigger] skipped@[k]).name@ != (#[trigger] skipped@[l]).name@ by {
                            if l == reports.len() {
                                assert(reports[k].name@ == skipped@[k].name@);
                                assert(reported(reports).contains(reports[k].name@));
                            } else {
                                assert(reports[k].name@ == skipped@[k].name@);
                                assert(reports[l].name@ == skipped@[l].name@);
                            }
                        }
                        assert forall|k: int| 0 <= k < skipped@.len() implies pre.jobs().contains_key(
                            (#[trigger] skipped@[k]).name@,
                        ) && skipped@[k].expression@ == pre.jobs()[skipped@[k].name@].time@ by {
                            if k < reports.len() {
                                assert(reports[k] == skipped@[k]);
                            }
                        }
                    }
                },
            }
        }
        proof {
            assert forall|name: Seq<char>| #[trigger]
                entry_rescheduled(
                    pre,
                    threshold,
                    names_of(work@.take(i + 1)).contains(name),
                    *scheduler,
                    name,
                ) by {
                assert(entry_rescheduled(pre, threshold, reached.contains(name), before, name));
            }
            assert forall|name: Seq<char>|
                #![trigger reported(skipped@).contains(name)]
                reported(skipped@).contains(name) <==> (names_of(work@.take(i + 1)).contains(name)
                    && rejected_names(pre.jobs(), threshold).contains(name)) by {
                assert(reported(reports).contains(name) <==> (reached.contains(name)
                    && rejected_names(pre.jobs(), threshold).contains(name)));
            }
        }
        i += 1;
    }
    proof {
        assert(work@.take(i as int) =~= work@);
        assert forall|name: Seq<char>| #[trigger]
            entry_rescheduled(pre, threshold, true, *scheduler, name) by {
            assert(entry_rescheduled(
                pre,
                threshold,
                names_of(work@).contains(name),
                *scheduler,
                name,
            ));
            if !names_of(work@).contains(name) {
                assert(!pre.jobs().contains_key(name));
            }
        }
        assert(reported(skipped@) =~= rejected_names(pre.jobs(), threshold)) by {
            assert forall|name: Seq<char>|
                rejected_names(pre.jobs(), threshold).contains(name) implies reported(
                skipped@,
            ).contains(name) by {
                assert(pre.jobs().contains_key(name));
            }
        }
    }
    let ghost settled = *scheduler;
    let mut k: usize = 0;
    proof {
        assert(reported(skipped@.take(0)) =~= Set::<Seq<char>>::empty());
        assert(scheduler.jobs() =~= pre.jobs().remove_keys(Set::<Seq<char>>::empty()));
    }
    while k < skipped.len()
        invariant
            k <= skipped.len(),
            scheduler.wf(),
            pre.wf(),
            scheduler.job_ids == settled.job_ids,
            scheduler.job_scheduler == settled.job_scheduler,
            scheduler.last_updated_at == settled.last_updated_at,
            scheduler.config == settled.config,
            scheduler.jobs() == pre.jobs().remove_keys(reported(skipped@.take(k as int))),
        decreases skipped.len() - k,
    {
        let _dropped = scheduler.jobs.remove(skipped[k].name.as_str());
        proof {
            lemma_reported_take(skipped@, k as int);
            assert(scheduler.jobs() =~= pre.jobs().remove_keys(
                reported(skipped@.take(k + 1)),
            ));
        }
        k += 1;
    }
    proof {
        assert(skipped@.take(k as int) =~= skipped@);
        assert forall|name: Seq<char>| #[trigger]
            entry_rescheduled(pre, threshold, true, *scheduler, name) by {
            assert(entry_rescheduled(pre, threshold, true, settled, name));
        }
        if scheduler.entries() == pre.entries() {
            scheduler.lemma_triggers_follow_entries(pre);
        }
    }
    skipped
}

/// One more error reports one more name.
pub proof fn lemma_reported_push(errors: Seq<ScheduleError>, error: ScheduleError)
    ensures
        reported(errors.push(error)) == reported(errors).insert(error.name@),
{
    let longer = errors.push(error);
    assert forall|name: Seq<char>| reported(longer).contains(name) implies reported(errors).insert(
        error.name@,
    ).contains(name) by {
        let l = choose|l: int| 0 <= l < longer.len() && (#[trigger] longer[l]).name@ == name;
        if l < errors.len() {
            assert(errors[l].name@ == name);
        }
    }
    assert forall|name: Seq<char>| reported(errors).insert(error.name@).contains(
        name,
    ) implies reported(longer).contains(name) by {
        if name == error.name@ {
            assert(longer[errors.len() as int].name@ == name);
        } else {
            let l = choose|l: int| 0 <= l < errors.len() && (#[trigger] errors[l]).name@ == name;
            assert(longer[l].name@ == name);
        }
    }
    assert(reported(longer) =~= reported(errors).insert(error.name@));
}

/// The names that the first `k + 1` errors report are those of the first
/// `k` and the name of error `k`.
pub proof fn lemma_reported_take(errors: Seq<ScheduleError>, k: int)
    requires
        0 <= k < errors.len(),
    ensures
        reported(errors.take(k + 1)) == reported(errors.take(k)).insert(errors[k].name@),
{
    let longer = errors.take(k + 1);
    let shorter = errors.take(k);
    assert forall|name: Seq<char>| reported(longer).contains(name) implies reported(
        shorter,
    ).insert(errors[k].name@).contains(name) by {
        let l = choose|l: int| 0 <= l < longer.len() && (#[trigger] longer[l]).name@ == name;
        if l < k {
            assert(shorter[l].name@ == name);
        }
    }
    assert forall|name: Seq<char>| reported(shorter).insert(errors[k].name@).contains(
        name,
    ) implies reported(longer).contains(name) by {
        if name == errors[k].name@ {
            assert(longer[k].name@ == name);
        } else {
            let l = choose|l: int| 0 <= l < shorter.len() && (#[trigger] shorter[l]).name@ == name;
            assert(longer[l].name@ == name);
        }
    }
    assert(reported(longer) =~= reported(shorter).insert(errors[k].name@));
}

/// Schedules every job of the job map, whatever its age. Meant to be run
/// once, right after the job map was loaded.
pub fn schedule_all(scheduler: &mut Scheduler) -> (skipped: Vec<ScheduleError>)
    requires
        old(scheduler).wf(),
    ensures
        final(scheduler).wf(),
        rescheduled(*old(scheduler), i64::MIN as int, *final(scheduler)),
        reports_of(skipped@, old(scheduler).jobs()),
        reported(skipped@) == rejected_names(old(scheduler).jobs(), i64::MIN as int),
{
    reschedule_jobs_if_needed(scheduler, i64::MIN)
}

} // verus!
