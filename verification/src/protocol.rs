use crate::container::{state_of, with_slot, EntityState};
use crate::keys::Key;
use crate::scheduler::Agenda;
use crate::time::nanos_of;
use crate::{Action, GeneratorState};
use vstd::prelude::*;

verus! {

/// A breach of the rules by which tasks are activated, passivated and
/// cancelled, or of the rule that only a live task is resumed. Each is a
/// fault of the model that is being simulated, and ends the run. `key` is the
/// task whose turn it was, `target` the task it named.
#[derive(Debug, Clone, Copy, PartialEq, Eq, Structural)]
pub enum Violation {
    /// The event of a task came up whose slot is empty: the task has
    /// completed, or was never added.
    NoSuchTask { key: Key },
    /// A passive task asked to hold.
    HoldWhilePassive { key: Key },
    /// A passive task asked to be passivated.
    PassivateWhilePassive { key: Key },
    /// A passive task asked to activate another.
    ActivateWhilePassive { key: Key },
    /// A passive task asked to cancel another.
    CancelWhilePassive { key: Key, target: Key },
    /// The task to activate or cancel has completed, or was never added.
    NoSuchTarget { key: Key, target: Key },
    /// The task to activate is active already.
    TargetActive { key: Key, target: Key },
    /// The task to cancel is passive.
    TargetPassive { key: Key, target: Key },
    /// The task to cancel has no pending event.
    TargetNotScheduled { key: Key, target: Key },
    /// A task asked to hold until a time later than a `Duration` can hold.
    TimeOverflow { key: Key },
    /// The run was given up: the events it was allowed did not bring it to
    /// rest.
    EventLimit,
}

/// What a simulation is, seen from outside: its agenda, and the state of each
/// task slot.
pub struct World {
    pub agenda: Agenda,
    pub tasks: Seq<Option<EntityState>>,
}

/// What applying a task's answer leads to: the world after it, and the
/// violation that stopped it, if any. The effects that precede a violation
/// stay in place.
pub struct Outcome {
    pub world: World,
    pub fault: Option<Violation>,
}

impl Outcome {
    /// The result as a step reports it.
    pub open spec fn verdict(self) -> Result<(), Violation> {
        match self.fault {
            Some(violation) => Err(violation),
            None => Ok(()),
        }
    }
}

impl World {
    /// No pending event is due in the past.
    pub open spec fn wf(self) -> bool {
        self.agenda.wf()
    }

    /// The world that `self` has become without a violation.
    pub open spec fn done(self) -> Outcome {
        Outcome { world: self, fault: None }
    }

    /// The world as `violation` left it.
    pub open spec fn failed(self, violation: Violation) -> Outcome {
        Outcome { world: self, fault: Some(violation) }
    }

    /// This world with `key` requested at the present time.
    pub open spec fn requested(self, key: Key) -> World {
        World { agenda: self.agenda.scheduled(0, key), tasks: self.tasks }
    }

    /// This world with the slot of `key` set to `state`.
    pub open spec fn marked(self, key: Key, state: EntityState) -> World {
        World { agenda: self.agenda, tasks: with_slot(self.tasks, key, Some(state)) }
    }

    /// `key` wakes `target`: a passive task becomes active and is requested
    /// at the present time. A task that is active already, or is not there,
    /// is a violation.
    pub open spec fn activated(self, key: Key, target: Key) -> Outcome {
        match state_of(self.tasks, target) {
            None => self.failed(Violation::NoSuchTarget { key, target }),
            Some(EntityState::Active) => self.failed(Violation::TargetActive { key, target }),
            Some(EntityState::Passive) => self.marked(target, EntityState::Active).requested(
                target,
            ).done(),
        }
    }

    /// `key` wakes each of `targets` in turn, up to the first violation.
    pub open spec fn activated_all(self, key: Key, targets: Seq<Key>) -> Outcome
        decreases targets.len(),
    {
        if targets.len() == 0 {
            self.done()
        } else {
            let first = self.activated(key, targets.first());
            if first.fault is Some {
                first
            } else {
                first.world.activated_all(key, targets.drop_first())
            }
        }
    }

    /// `key` cancels `target`: an active task with a pending event becomes
    /// passive and its event is withdrawn, and `key` is requested at the
    /// present time. A task that is passive, has no pending event, or is not
    /// there, is a violation, and then only `key` is requested.
    ///
    /// Whether `target` has a pending event is judged before `key` is
    /// requested: a task cannot cancel itself in its own turn, when its event
    /// has just left the agenda.
    pub open spec fn cancelled(self, key: Key, target: Key) -> Outcome {
        let asked = self.requested(key);
        match state_of(self.tasks, target) {
            None => asked.failed(Violation::NoSuchTarget { key, target }),
            Some(EntityState::Passive) => asked.failed(Violation::TargetPassive { key, target }),
            Some(EntityState::Active) => if self.agenda.pending.contains_key(target) {
                World {
                    agenda: asked.agenda.without(target),
                    tasks: with_slot(self.tasks, target, Some(EntityState::Passive)),
                }.done()
            } else {
                asked.failed(Violation::TargetNotScheduled { key, target })
            },
        }
    }

    /// The active task `key` has yielded `action`.
    pub open spec fn acted(self, key: Key, action: Action) -> Outcome {
        match action {
            Action::Hold(delay) => if self.agenda.admits(nanos_of(delay), key) {
                World { agenda: self.agenda.scheduled(nanos_of(delay), key), tasks: self.tasks }.done()
            } else {
                self.failed(Violation::TimeOverflow { key })
            },
            Action::Passivate => self.marked(key, EntityState::Passive).done(),
            Action::ActivateOne(target) => self.requested(key).activated(key, target),
            Action::ActivateMany(targets) => self.requested(key).activated_all(key, targets@),
            Action::Cancel(target) => self.cancelled(key, target),
        }
    }

    /// The violation of a passive task `key` that yields `action`.
    pub open spec fn out_of_turn(key: Key, action: Action) -> Violation {
        match action {
            Action::Hold(_) => Violation::HoldWhilePassive { key },
            Action::Passivate => Violation::PassivateWhilePassive { key },
            Action::ActivateOne(_) => Violation::ActivateWhilePassive { key },
            Action::ActivateMany(_) => Violation::ActivateWhilePassive { key },
            Action::Cancel(target) => Violation::CancelWhilePassive { key, target },
        }
    }

    /// The task `key` was resumed and has answered with `yielded`: a task
    /// that completes leaves its slot empty, an active task that suspends
    /// has its action applied, and a passive task that suspends is a
    /// violation, whatever it asks. So is an empty slot.
    pub open spec fn resumed(self, key: Key, yielded: GeneratorState) -> Outcome {
        match state_of(self.tasks, key) {
            None => self.failed(Violation::NoSuchTask { key }),
            Some(state) => match yielded {
                GeneratorState::Complete => World {
                    agenda: self.agenda,
                    tasks: with_slot(self.tasks, key, None),
                }.done(),
                GeneratorState::Yielded(action) => match state {
                    EntityState::Passive => self.failed(Self::out_of_turn(key, action)),
                    EntityState::Active => self.acted(key, action),
                },
            },
        }
    }

    /// The world after the event of `key` has left the agenda.
    pub open spec fn popped(self, key: Key) -> World {
        World { agenda: self.agenda.popped(key), tasks: self.tasks }
    }

    /// Waking a task keeps the world well formed, the clock where it is and
    /// the number of slots as it is.
    pub proof fn lemma_activated_keeps(self, key: Key, target: Key)
        requires
            self.wf(),
        ensures
            self.activated(key, target).world.wf(),
            self.activated(key, target).world.agenda.now == self.agenda.now,
            self.activated(key, target).world.tasks.len() == self.tasks.len(),
    {
        self.agenda.lemma_scheduled_wf(0, target);
    }

    /// Waking several tasks keeps the world well formed, the clock where it is
    /// and the number of slots as it is.
    pub proof fn lemma_activated_all_keeps(self, key: Key, targets: Seq<Key>)
        requires
            self.wf(),
        ensures
            self.activated_all(key, targets).world.wf(),
            self.activated_all(key, targets).world.agenda.now == self.agenda.now,
            self.activated_all(key, targets).world.tasks.len() == self.tasks.len(),
        decreases targets.len(),
    {
        if targets.len() > 0 {
            self.lemma_activated_keeps(key, targets.first());
            let first = self.activated(key, targets.first());
            if first.fault is None {
                first.world.lemma_activated_all_keeps(key, targets.drop_first());
            }
        }
    }

    /// Whatever a task answers, the world stays well formed, the clock stays
    /// where it is and the number of slots stays as it is.
    pub proof fn lemma_resumed_keeps(self, key: Key, yielded: GeneratorState)
        requires
            self.wf(),
        ensures
            self.resumed(key, yielded).world.wf(),
            self.resumed(key, yielded).world.agenda.now == self.agenda.now,
            self.resumed(key, yielded).world.tasks.len() == self.tasks.len(),
    {
        self.agenda.lemma_scheduled_wf(0, key);
        let asked = self.requested(key);
        match yielded {
            GeneratorState::Complete => {},
            GeneratorState::Yielded(action) => match action {
                Action::Hold(delay) => {
                    self.agenda.lemma_scheduled_wf(nanos_of(delay), key);
                },
                Action::Passivate => {},
                Action::ActivateOne(target) => {
                    asked.lemma_activated_keeps(key, target);
                },
                Action::ActivateMany(targets) => {
                    asked.lemma_activated_all_keeps(key, targets@);
                },
                Action::Cancel(target) => {
                    asked.agenda.lemma_without_wf(target);
                },
            },
        }
    }
}

/// One turn of a run: the task whose event left the agenda, and what the
/// task answered when it was resumed.
pub struct Turn {
    pub key: Key,
    pub yielded: GeneratorState,
}

/// What the turn `turn` leads to from `world`: the event of the task leaves
/// the agenda, and the task's answer is applied.
pub open spec fn turned(world: World, turn: Turn) -> Outcome {
    world.popped(turn.key).resumed(turn.key, turn.yielded)
}

/// The world after the turns of `trace`, one after the other, from `before`.
pub open spec fn ran(before: World, trace: Seq<Turn>) -> World
    decreases trace.len(),
{
    if trace.len() == 0 {
        before
    } else {
        turned(ran(before, trace.drop_last()), trace.last()).world
    }
}

/// The violation in which the last turn of `trace` ended, if it did.
pub open spec fn fault_of(before: World, trace: Seq<Turn>) -> Option<Violation> {
    if trace.len() == 0 {
        None
    } else {
        turned(ran(before, trace.drop_last()), trace.last()).fault
    }
}

/// Whether the clock has reached the limit, where there is one.
pub open spec fn reached(limit: Option<nat>, now: nat) -> bool {
    limit is Some && limit->0 <= now
}

/// The run `trace` from `before` is one that goes on after its last turn: in
/// each turn the event that left was one due soonest, no turn ended in a
/// violation, and after no turn had the clock reached `limit`.
pub open spec fn goes_on(before: World, trace: Seq<Turn>, limit: Option<nat>) -> bool
    decreases trace.len(),
{
    trace.len() == 0 || {
        &&& goes_on(before, trace.drop_last(), limit)
        &&& ran(before, trace.drop_last()).agenda.is_next(trace.last().key)
        &&& fault_of(before, trace) is None
        &&& !reached(limit, ran(before, trace).agenda.now)
    }
}

/// The run `trace` from `before`, of `max_events` turns at most and up to
/// `limit`, has ended in `after` with `result`.
///
/// A run that could go on after its last turn has ended because no event was
/// left, or else because it had used up its turns, which is reported as
/// [`Violation::EventLimit`]. Any other run has ended with its last turn: in
/// the violation of that turn, or because the clock has reached `limit`.
pub open spec fn ended(
    before: World,
    trace: Seq<Turn>,
    limit: Option<nat>,
    max_events: nat,
    after: World,
    result: Result<(), Violation>,
) -> bool {
    &&& after == ran(before, trace)
    &&& trace.len() <= max_events
    &&& if goes_on(before, trace, limit) {
        if after.agenda.idle() {
            result == Ok::<(), Violation>(())
        } else {
            trace.len() == max_events && result == Err::<(), Violation>(Violation::EventLimit)
        }
    } else {
        &&& trace.len() > 0
        &&& goes_on(before, trace.drop_last(), limit)
        &&& ran(before, trace.drop_last()).agenda.is_next(trace.last().key)
        &&& result == Outcome { world: after, fault: fault_of(before, trace) }.verdict()
    }
}

/// Whether the task in slot `i` has taken no turn in `trace`.
pub open spec fn took_no_turn(trace: Seq<Turn>, i: int) -> bool {
    forall|j: int| 0 <= j < trace.len() ==> (#[trigger] trace[j]).key.id != i
}

/// A turn keeps the world well formed and the number of slots as it is, and
/// leaves the clock at the time at which the event of the turn was due, which
/// is no earlier than the clock stood before.
pub proof fn lemma_turned_keeps(world: World, turn: Turn)
    requires
        world.wf(),
        world.agenda.is_next(turn.key),
    ensures
        turned(world, turn).world.wf(),
        turned(world, turn).world.tasks.len() == world.tasks.len(),
        turned(world, turn).world.agenda.now == world.agenda.pending[turn.key],
        world.agenda.now <= turned(world, turn).world.agenda.now,
{
    world.agenda.lemma_popped_wf(turn.key);
    world.popped(turn.key).lemma_resumed_keeps(turn.key, turn.yielded);
}

/// A run in which each event that left was one due soonest keeps the world
/// well formed and the number of slots as it is, and does not take the clock
/// back.
pub proof fn lemma_ran_keeps(before: World, trace: Seq<Turn>, limit: Option<nat>)
    requires
        before.wf(),
        trace.len() > 0 ==> goes_on(before, trace.drop_last(), limit) && ran(
            before,
            trace.drop_last(),
        ).agenda.is_next(trace.last().key),
    ensures
        ran(before, trace).wf(),
        ran(before, trace).tasks.len() == before.tasks.len(),
        before.agenda.now <= ran(before, trace).agenda.now,
    decreases trace.len(),
{
    if trace.len() > 0 {
        let earlier = trace.drop_last();
        lemma_ran_keeps(before, earlier, limit);
        lemma_turned_keeps(ran(before, earlier), trace.last());
    }
}

/// At the end of a run the clock stands at the time at which the event of
/// the last turn was due.
pub proof fn lemma_run_ends_at_last_event(before: World, trace: Seq<Turn>, limit: Option<nat>)
    requires
        before.wf(),
        trace.len() > 0,
        goes_on(before, trace.drop_last(), limit),
        ran(before, trace.drop_last()).agenda.is_next(trace.last().key),
    ensures
        ran(before, trace).agenda.now == ran(before, trace.drop_last()).agenda.pending[trace.last().key],
{
    lemma_ran_keeps(before, trace.drop_last(), limit);
    lemma_turned_keeps(ran(before, trace.drop_last()), trace.last());
}

/// A task that has completed, or was never added, cannot take a turn: what
/// it is said to have answered is not applied, and the turn is a violation.
pub proof fn lemma_stale_handle_is_refused(world: World, key: Key, yielded: GeneratorState)
    requires
        state_of(world.tasks, key) is None,
    ensures
        world.resumed(key, yielded) == world.failed(Violation::NoSuchTask { key }),
{
}

/// Waking tasks neither adds a slot nor fills an empty one.
pub proof fn lemma_activated_all_slots(world: World, key: Key, targets: Seq<Key>, slot: Key)
    ensures
        world.activated_all(key, targets).world.tasks.len() == world.tasks.len(),
        state_of(world.tasks, slot) is None ==> state_of(
            world.activated_all(key, targets).world.tasks,
            slot,
        ) is None,
    decreases targets.len(),
{
    if targets.len() > 0 {
        let first = world.activated(key, targets.first());
        if first.fault is None {
            lemma_activated_all_slots(first.world, key, targets.drop_first(), slot);
        }
    }
}

/// Whatever a task answers, no slot is added and no empty slot is filled:
/// the handle of a task that has completed names an empty slot for good.
pub proof fn lemma_resumed_slots(world: World, key: Key, yielded: GeneratorState, slot: Key)
    ensures
        world.resumed(key, yielded).world.tasks.len() == world.tasks.len(),
        state_of(world.tasks, slot) is None ==> state_of(
            world.resumed(key, yielded).world.tasks,
            slot,
        ) is None,
{
    match yielded {
        GeneratorState::Yielded(Action::ActivateMany(targets)) => {
            lemma_activated_all_slots(world.requested(key), key, targets@, slot);
        },
        _ => {},
    }
}

/// No run adds a slot or fills an empty one.
pub proof fn lemma_ran_slots(before: World, trace: Seq<Turn>, slot: Key)
    ensures
        ran(before, trace).tasks.len() == before.tasks.len(),
        state_of(before.tasks, slot) is None ==> state_of(ran(before, trace).tasks, slot) is None,
    decreases trace.len(),
{
    if trace.len() > 0 {
        lemma_ran_slots(before, trace.drop_last(), slot);
        let prior = ran(before, trace.drop_last());
        lemma_resumed_slots(prior.popped(trace.last().key), trace.last().key, trace.last().yielded, slot);
    }
}

/// A task that has completed in some turn of a run has an empty slot at the
/// end of the run.
pub proof fn lemma_completed_task_is_gone(before: World, trace: Seq<Turn>, i: int)
    requires
        0 <= i < trace.len(),
        trace[i].yielded is Complete,
    ensures
        state_of(ran(before, trace).tasks, trace[i].key) is None,
    decreases trace.len(),
{
    let earlier = trace.drop_last();
    let prior = ran(before, earlier);
    let last = trace.last();
    if i < trace.len() - 1 {
        assert(earlier[i] == trace[i]);
        lemma_completed_task_is_gone(before, earlier, i);
        lemma_resumed_slots(prior.popped(last.key), last.key, last.yielded, trace[i].key);
    }
}

/// A task that has completed is never resumed again: where the event of a
/// task comes up in a later turn of the run in which the task has completed,
/// that turn is a violation, and what the task is said to answer there is not
/// applied.
pub proof fn lemma_completed_task_is_never_resumed(
    before: World,
    trace: Seq<Turn>,
    completed: int,
    later: int,
)
    requires
        0 <= completed < later < trace.len(),
        trace[completed].yielded is Complete,
        trace[later].key == trace[completed].key,
    ensures
        turned(ran(before, trace.take(later)), trace[later]) == ran(before, trace.take(later)).popped(
            trace[later].key,
        ).failed(Violation::NoSuchTask { key: trace[later].key }),
{
    let earlier = trace.take(later);
    assert(earlier[completed] == trace[completed]);
    lemma_completed_task_is_gone(before, earlier, completed);
    lemma_stale_handle_is_refused(
        ran(before, earlier).popped(trace[later].key),
        trace[later].key,
        trace[later].yielded,
    );
}

/// A run in which every task completes leaves no task behind: at its end all
/// slots are empty.
pub proof fn lemma_run_of_completing_tasks_leaves_none(before: World, trace: Seq<Turn>)
    requires
        forall|slot: Key|
            slot.id < before.tasks.len() ==> exists|i: int|
                0 <= i < trace.len() && (#[trigger] trace[i]).key == slot
                    && trace[i].yielded is Complete,
    ensures
        forall|slot: Key| state_of(ran(before, trace).tasks, slot) is None,
{
    assert forall|slot: Key| state_of(ran(before, trace).tasks, slot) is None by {
        lemma_ran_slots(before, trace, slot);
        if slot.id < before.tasks.len() {
            let i = choose|i: int|
                0 <= i < trace.len() && (#[trigger] trace[i]).key == slot
                    && trace[i].yielded is Complete;
            lemma_completed_task_is_gone(before, trace, i);
        }
    }
}

/// A run without limit that has come to rest, and in which every task has
/// completed, has left no event pending and no task behind.
pub proof fn lemma_run_to_rest_leaves_none(
    before: World,
    trace: Seq<Turn>,
    max_events: nat,
    after: World,
    result: Result<(), Violation>,
)
    requires
        ended(before, trace, None, max_events, after, result),
        result is Ok,
        forall|slot: Key|
            slot.id < before.tasks.len() ==> exists|i: int|
                0 <= i < trace.len() && (#[trigger] trace[i]).key == slot
                    && trace[i].yielded is Complete,
    ensures
        after.agenda.idle(),
        forall|slot: Key| state_of(after.tasks, slot) is None,
{
    lemma_run_of_completing_tasks_leaves_none(before, trace);
}

/// An active task that cancels an active task with a pending event puts it
/// to rest and withdraws its event, and is itself resumed at the present
/// time. Cancelling a task that is passive, has no pending event or is not
/// there is a violation; so it is for a task to cancel itself in its own
/// turn, when its event has just left the agenda.
pub proof fn lemma_cancel(world: World, key: Key, target: Key)
    requires
        state_of(world.tasks, key) == Some(EntityState::Active),
    ensures
        ({
            let after = world.resumed(key, GeneratorState::Yielded(Action::Cancel(target)));
            &&& after.world.agenda.now == world.agenda.now
            &&& state_of(world.tasks, target) is None ==> after.fault == Some(
                Violation::NoSuchTarget { key, target },
            )
            &&& state_of(world.tasks, target) == Some(EntityState::Passive) ==> after.fault == Some(
                Violation::TargetPassive { key, target },
            )
            &&& state_of(world.tasks, target) == Some(EntityState::Active)
                && !world.agenda.pending.contains_key(target) ==> after.fault == Some(
                Violation::TargetNotScheduled { key, target },
            )
            &&& state_of(world.tasks, target) == Some(EntityState::Active)
                && world.agenda.pending.contains_key(target) ==> {
                &&& after.fault is None
                &&& state_of(after.world.tasks, target) == Some(EntityState::Passive)
                &&& !after.world.agenda.pending.contains_key(target)
                &&& target != key ==> after.world.agenda.pending.contains_key(key)
                &&& target != key && !world.agenda.pending.contains_key(key)
                    ==> after.world.agenda.pending[key] == world.agenda.now
            }
        }),
        !world.agenda.pending.contains_key(key) ==> world.resumed(
            key,
            GeneratorState::Yielded(Action::Cancel(key)),
        ).fault == Some(Violation::TargetNotScheduled { key, target: key }),
{
}

/// An active task that activates a passive task makes it active and has it
/// resumed at the present time, unless an event of it is pending already;
/// the activating task is resumed at the present time as well. Activating a
/// task that is active already is a violation.
pub proof fn lemma_activate_one(world: World, key: Key, target: Key)
    requires
        state_of(world.tasks, key) == Some(EntityState::Active),
    ensures
        state_of(world.tasks, target) == Some(EntityState::Active) ==> world.resumed(
            key,
            GeneratorState::Yielded(Action::ActivateOne(target)),
        ).fault == Some(Violation::TargetActive { key, target }),
        state_of(world.tasks, target) == Some(EntityState::Passive) ==> {
            let after = world.resumed(key, GeneratorState::Yielded(Action::ActivateOne(target)));
            &&& after.fault is None
            &&& state_of(after.world.tasks, target) == Some(EntityState::Active)
            &&& state_of(after.world.tasks, key) == Some(EntityState::Active)
            &&& after.world.agenda.now == world.agenda.now
            &&& after.world.agenda.pending.contains_key(target)
            &&& !world.agenda.pending.contains_key(target) ==> after.world.agenda.pending[target]
                == world.agenda.now
            &&& after.world.agenda.pending.contains_key(key)
            &&& !world.agenda.pending.contains_key(key) ==> after.world.agenda.pending[key]
                == world.agenda.now
        },
{
}

} // verus!
