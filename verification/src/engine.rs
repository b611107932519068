//! The trigger engine: cron schedules and the callbacks that fire when due.
//!
//! The engine is `job_scheduler::JobScheduler`. It knows nothing of jobs or
//! of leadership: it holds triggers, each with a cron schedule and a
//! callback, and `tick` runs the callbacks whose time has come. Every
//! callback registered here does one thing: it reports the name that its
//! trigger was added under. `tick` hands those names back, and the
//! scheduler looks each of them up in its registry at that moment, so a
//! trigger never runs a definition that has been replaced since.

use crate::expression::{engine_expression, engine_form, is_registrable, registrable};
use job_scheduler::{JobScheduler, Schedule};
use std::sync::mpsc::{Receiver, Sender};
use vstd::multiset::Multiset;
use vstd::prelude::*;

verus! {

/// `job_scheduler::JobScheduler`, the queue of triggers. Opaque here: what
/// it holds is known only through `queued_handles`, `queued_expressions`
/// and `queued_names`.
#[verifier::external_type_specification]
#[verifier::external_body]
pub struct ExJobScheduler<'a>(JobScheduler<'a>);

/// `std::sync::mpsc::Sender`, the end of a channel that callbacks write to.
#[verifier::external_type_specification]
#[verifier::external_body]
#[verifier::reject_recursive_types(T)]
pub struct ExSender<T>(Sender<T>);

/// `std::sync::mpsc::Receiver`, the end of a channel that `tick` reads from.
#[verifier::external_type_specification]
#[verifier::external_body]
#[verifier::reject_recursive_types(T)]
pub struct ExReceiver<T>(Receiver<T>);

/// Whether `cron::Schedule::from_str` accepts `expression`. The parser reads
/// nothing but the text it is given. It does not return for every text:
/// this says what it answers where it does.
pub uninterp spec fn cron_accepts(expression: Seq<char>) -> bool;

/// The handles of the triggers that a `JobScheduler` holds, each handle as
/// often as a trigger carries it.
pub uninterp spec fn queued_handles(queue: JobScheduler) -> Multiset<u128>;

/// The expressions that the triggers of a `JobScheduler` were parsed from,
/// each as often as a trigger has it.
pub uninterp spec fn queued_expressions(queue: JobScheduler) -> Multiset<Seq<char>>;

/// The names that the triggers of a `JobScheduler` report when they fire,
/// each as often as a trigger reports it.
pub uninterp spec fn queued_names(queue: JobScheduler) -> Multiset<Seq<char>>;

/// Whether every expression of `expressions` may be handed to the engine.
pub open spec fn all_registrable(expressions: Multiset<Seq<char>>) -> bool {
    forall|expression: Seq<char>| #[trigger]
        expressions.contains(expression) ==> registrable(expression)
}

/// Whether a job's schedule can be registered: in the form the engine is
/// given it may be handed to the engine, and the cron parser accepts it.
pub open spec fn schedule_accepted(expression: Seq<char>) -> bool {
    registrable(engine_form(expression)) && cron_accepts(engine_form(expression))
}

/// Calls `JobScheduler::new`. Claimed: the new queue holds no trigger.
#[verifier::external_body]
fn queue_new() -> (queue: JobScheduler<'static>)
    ensures
        queued_handles(queue) == Multiset::<u128>::empty(),
        queued_expressions(queue) == Multiset::<Seq<char>>::empty(),
        queued_names(queue) == Multiset::<Seq<char>>::empty(),
{
    JobScheduler::new()
}

/// Calls `cron::Schedule::from_str` through `str::parse` and, where the
/// parser accepts, `job_scheduler::Job::new` and `JobScheduler::add`.
///
/// The parser panics on a period whose step is zero, which `registrable`
/// leaves out. Claimed: on every other text the parser returns; it accepts
/// exactly the texts that `cron_accepts` names; on those the queue gains
/// one trigger, parsed from `expression`, whose callback reports `name`
/// and whose handle is returned, and on the others the queue stays as it
/// is. The handle is a random UUID, so
/// nothing is claimed of its value: not even that no other trigger carries
/// it.
#[verifier::external_body]
fn queue_add(
    queue: &mut JobScheduler<'static>,
    expression: &str,
    name: String,
    sink: Sender<String>,
) -> (handle: Option<u128>)
    requires
        registrable(expression@),
    ensures
        match handle {
            Some(handle) => {
                &&& cron_accepts(expression@)
                &&& queued_handles(*final(queue)) == queued_handles(*old(queue)).insert(handle)
                &&& queued_expressions(*final(queue)) == queued_expressions(*old(queue)).insert(
                    expression@,
                )
                &&& queued_names(*final(queue)) == queued_names(*old(queue)).insert(name@)
            },
            None => {
                &&& !cron_accepts(expression@)
                &&& queued_handles(*final(queue)) == queued_handles(*old(queue))
                &&& queued_expressions(*final(queue)) == queued_expressions(*old(queue))
                &&& queued_names(*final(queue)) == queued_names(*old(queue))
            },
        },
{
    match expression.parse::<Schedule>() {
        Ok(schedule) => Some(
            queue.add(job_scheduler::Job::new(schedule, move || announce(&sink, &name))).as_u128(),
        ),
        Err(_) => None,
    }
}

/// Calls `JobScheduler::remove`. Claimed: it removes one trigger that
/// carries `handle` if there is one, leaves the queue as it is otherwise,
/// and returns whether it found one. No expression and no name is added
/// by it, and without a trigger of that handle none is taken away.
#[verifier::external_body]
fn queue_remove(queue: &mut JobScheduler<'static>, handle: u128) -> (found: bool)
    ensures
        found == queued_handles(*old(queue)).contains(handle),
        queued_handles(*final(queue)) == queued_handles(*old(queue)).remove(handle),
        queued_expressions(*final(queue)).subset_of(queued_expressions(*old(queue))),
        queued_names(*final(queue)).subset_of(queued_names(*old(queue))),
        !found ==> queued_names(*final(queue)) == queued_names(*old(queue)),
{
    queue.remove(job_scheduler::Uuid::from_u128(handle))
}

/// Calls `JobScheduler::tick`, which runs the callbacks that are due by the
/// system clock.
///
/// A trigger that is limited to certain years can make the search for its
/// next time panic (on 29 February, when the next year it names is no leap
/// year). A `registrable` expression has no field for years, so the queue
/// must hold nothing else. Claimed: then the call returns, and the queue
/// holds the same triggers afterwards.
#[verifier::external_body]
fn queue_tick(queue: &mut JobScheduler<'static>)
    requires
        all_registrable(queued_expressions(*old(queue))),
    ensures
        queued_handles(*final(queue)) == queued_handles(*old(queue)),
        queued_expressions(*final(queue)) == queued_expressions(*old(queue)),
        queued_names(*final(queue)) == queued_names(*old(queue)),
{
    queue.tick()
}

/// Calls `std::sync::mpsc::channel`. Nothing is claimed of the two ends.
#[verifier::external_body]
fn fire_channel() -> (ends: (Sender<String>, Receiver<String>)) {
    std::sync::mpsc::channel()
}

/// Calls `Sender::clone`. Nothing is claimed of the copy.
#[verifier::external_body]
fn sink_clone(sink: &Sender<String>) -> (copy: Sender<String>) {
    sink.clone()
}

/// Calls `Sender::send` and returns whether the receiving end took the
/// name. Nothing is claimed of the answer.
#[verifier::external_body]
fn sink_send(sink: &Sender<String>, name: String) -> (sent: bool) {
    sink.send(name).is_ok()
}

/// Calls `Receiver::try_recv`: the next reported name, if one is waiting.
/// Nothing is claimed of the answer.
#[verifier::external_body]
fn fired_next(fired: &Receiver<String>) -> (name: Option<String>) {
    fired.try_recv().ok()
}

/// What every trigger's callback does: it reports the trigger's name.
fn announce(sink: &Sender<String>, name: &String) {
    let _sent = sink_send(sink, name.clone());
}

/// The most names that one `tick` hands back. A longer burst stays queued
/// for the next tick, so that a tick never holds the loop up for long.
pub const FIRE_BATCH_LIMIT: usize = 4096;

/// The error of `TriggerEngine::add`: the expression is no cron schedule,
/// or none that the engine can take safely.
#[derive(Debug, PartialEq, Eq)]
pub struct InvalidSchedule {
    /// The expression as it was given.
    pub expression: String,
}

/// The trigger engine.
pub struct TriggerEngine {
    queue: JobScheduler<'static>,
    sink: Sender<String>,
    fired: Receiver<String>,
}

impl TriggerEngine {
    /// The handles of the registered triggers.
    pub closed spec fn handles(&self) -> Multiset<u128> {
        queued_handles(self.queue)
    }

    /// The expressions of the registered triggers, in the form the engine
    /// was given.
    pub closed spec fn expressions(&self) -> Multiset<Seq<char>> {
        queued_expressions(self.queue)
    }

    /// The names that the registered triggers report when they fire.
    pub closed spec fn names(&self) -> Multiset<Seq<char>> {
        queued_names(self.queue)
    }

    /// Every registered trigger can be ticked: its expression is one that
    /// may be handed to the engine.
    pub open spec fn wf(&self) -> bool {
        all_registrable(self.expressions())
    }

    /// An engine without triggers.
    pub fn new() -> (engine: TriggerEngine)
        ensures
            engine.wf(),
            engine.handles() == Multiset::<u128>::empty(),
            engine.expressions() == Multiset::<Seq<char>>::empty(),
            engine.names() == Multiset::<Seq<char>>::empty(),
    {
        let (sink, fired) = fire_channel();
        TriggerEngine { queue: queue_new(), sink, fired }
    }

    /// Registers a trigger that reports `name` whenever `schedule` is due,
    /// and returns its handle. Fails, and changes nothing, when `schedule`
    /// is not accepted: when the engine cannot take it safely, or when it
    /// is no cron expression.
    pub fn add(&mut self, schedule: &str, name: &str) -> (added: Result<u128, InvalidSchedule>)
        requires
            old(self).wf(),
        ensures
            final(self).wf(),
            match added {
                Ok(handle) => {
                    &&& schedule_accepted(schedule@)
                    &&& final(self).handles() == old(self).handles().insert(handle)
                    &&& final(self).expressions() == old(self).expressions().insert(
                        engine_form(schedule@),
                    )
                    &&& final(self).names() == old(self).names().insert(name@)
                },
                Err(error) => {
                    &&& !schedule_accepted(schedule@)
                    &&& final(self).handles() == old(self).handles()
                    &&& final(self).expressions() == old(self).expressions()
                    &&& final(self).names() == old(self).names()
                    &&& error.expression@ == schedule@
                },
            },
    {
        let normal = engine_expression(schedule);
        if !is_registrable(normal.as_str()) {
            return Err(InvalidSchedule { expression: schedule.to_owned() });
        }
        let sink = sink_clone(&self.sink);
        match queue_add(&mut self.queue, normal.as_str(), name.to_owned(), sink) {
            Some(handle) => {
                assert forall|expression: Seq<char>| #[trigger]
                    self.expressions().contains(expression) implies registrable(expression) by {
                    if expression != normal@ {
                        vstd::multiset::lemma_insert_other_elements_unchanged(
                            old(self).expressions(),
                            normal@,
                            expression,
                        );
                        assert(old(self).expressions().contains(expression));
                    }
                }
                Ok(handle)
            },
            None => Err(InvalidSchedule { expression: schedule.to_owned() }),
        }
    }

    /// Removes the trigger with this handle. Removing a handle that is not
    /// registered changes nothing.
    pub fn remove(&mut self, handle: u128) -> (found: bool)
        requires
            old(self).wf(),
        ensures
            final(self).wf(),
            found == old(self).handles().contains(handle),
            final(self).handles() == old(self).handles().remove(handle),
            final(self).expressions().subset_of(old(self).expressions()),
            final(self).names().subset_of(old(self).names()),
            !found ==> final(self).names() == old(self).names(),
    {
        let found = queue_remove(&mut self.queue, handle);
        assert forall|expression: Seq<char>| #[trigger]
            self.expressions().contains(expression) implies registrable(expression) by {
            assert(old(self).expressions().contains(expression));
        }
        found
    }

    /// Runs the callbacks that are due and returns the names they reported,
    /// oldest first, at most `FIRE_BATCH_LIMIT` of them. Which triggers are
    /// due depends on the clock, so nothing is promised of the names; the
    /// registered triggers stay as they are.
    pub fn tick(&mut self) -> (names: Vec<String>)
        requires
            old(self).wf(),
        ensures
            final(self).wf(),
            final(self).handles() == old(self).handles(),
            final(self).expressions() == old(self).expressions(),
            final(self).names() == old(self).names(),
            names.len() <= FIRE_BATCH_LIMIT,
    {
        queue_tick(&mut self.queue);
        let mut names: Vec<String> = Vec::new();
        while names.len() < FIRE_BATCH_LIMIT
            invariant
                names.len() <= FIRE_BATCH_LIMIT,
                self.handles() == old(self).handles(),
                self.expressions() == old(self).expressions(),
                self.names() == old(self).names(),
            decreases FIRE_BATCH_LIMIT - names.len(),
        {
            match fired_next(&self.fired) {
                Some(name) => {
                    names.push(name);
                },
                None => {
                    break ;
                },
            }
        }
        names
    }
}

} // verus!
