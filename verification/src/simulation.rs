use crate::container::{state_of, Container, EntityState};
use crate::keys::Key;
use crate::protocol::{ended, goes_on, ran, took_no_turn, turned, Turn, Violation, World};
use crate::scheduler::{ClockRef, Scheduler};
use crate::state::{State, Value};
use crate::time::{nanos_of, shorter};
use crate::{Action, Generator, GeneratorState};
use std::cell::Cell;
use std::rc::Rc;
use std::time::Duration;
use vstd::prelude::*;

verus! {

/// Whether a step has processed an event, so that another may follow, or has
/// found none.
#[derive(Debug, Clone, Copy, PartialEq, Eq, Structural)]
pub enum ShouldContinue {
    Advance,
    Break,
}

/// One step took `before` to `after` with result `result`: the event of
/// `key` was one that is due soonest, it left the agenda, and the task's
/// answer `yielded` was applied.
pub open spec fn stepped(
    before: World,
    key: Key,
    yielded: GeneratorState,
    after: World,
    result: Result<ShouldContinue, Violation>,
) -> bool {
    &&& before.agenda.is_next(key)
    &&& after == before.popped(key).resumed(key, yielded).world
    &&& result == match before.popped(key).resumed(key, yielded).fault {
        Some(violation) => Err::<ShouldContinue, Violation>(violation),
        None => Ok(ShouldContinue::Advance),
    }
}

/// The limit of a run in nanoseconds, where it has one.
pub open spec fn span(limit: Option<Duration>) -> Option<nat> {
    match limit {
        Some(end) => Some(nanos_of(end)),
        None => None,
    }
}

/// The simulation: the scheduler, the tasks of type `G`, and the store that
/// the tasks share, which carries `C`.
///
/// It resumes one task at a time, each at the simulated time of its event,
/// and applies what the task asks for. A task that breaks the rules ends the
/// run with a [`Violation`].
#[verifier::reject_recursive_types(C)]
pub struct Simulation<G, C = Value> {
    scheduler: Scheduler,
    entities: Container<G>,
    state: Rc<Cell<State<C>>>,
}

impl<G, C> View for Simulation<G, C> {
    type V = World;

    closed spec fn view(&self) -> World {
        World { agenda: self.scheduler@, tasks: self.entities@ }
    }
}

impl<G, C> Default for Simulation<G, C> {
    fn default() -> (simulation: Simulation<G, C>)
        ensures
            simulation.wf(),
            simulation@.agenda == crate::scheduler::Agenda::start(),
            simulation@.tasks == Seq::<Option<EntityState>>::empty(),
    {
        Simulation {
            scheduler: Scheduler::default(),
            entities: Container::default(),
            state: Rc::new(Cell::new(State::default())),
        }
    }
}

impl<G, C> Simulation<G, C> {
    /// The scheduler is well formed, and no task that has completed stands
    /// in a slot: a task that completes is removed in the step in which it
    /// does.
    pub closed spec fn wf(&self) -> bool {
        &&& self.scheduler.wf()
        &&& forall|key: Key| !self.entities.finished(key)
    }

    /// As [`Simulation::wf`], but that the task `key`, if it has answered
    /// that it has completed, stands in its slot still.
    spec fn wf_but(&self, key: Key, yielded: GeneratorState) -> bool {
        &&& self.scheduler.wf()
        &&& forall|other: Key| other != key ==> !self.entities.finished(other)
        &&& self.entities.finished(key) ==> yielded is Complete
    }

    /// The task that slot `i` holds, or nothing.
    pub closed spec fn task(&self, i: int) -> Option<G> {
        self.entities.task(i)
    }

    /// The slots hold the tasks that they hold in `before`.
    pub open spec fn keeps_tasks(&self, before: &Simulation<G, C>) -> bool {
        &&& self@.tasks.len() == before@.tasks.len()
        &&& forall|i: int| 0 <= i < before@.tasks.len() ==> self.task(i) == before.task(i)
    }

    /// The slots hold the tasks that they hold in `before`, but that of `key`,
    /// which holds `left`.
    pub open spec fn keeps_tasks_but(
        &self,
        before: &Simulation<G, C>,
        key: Key,
        left: Option<G>,
    ) -> bool {
        &&& self@.tasks.len() == before@.tasks.len()
        &&& forall|i: int|
            0 <= i < before@.tasks.len() ==> self.task(i) == if i == key.id {
                left
            } else {
                before.task(i)
            }
    }

    /// The slots other than that of `key` hold the tasks that they hold in
    /// `before`.
    pub open spec fn keeps_other_tasks(&self, before: &Simulation<G, C>, key: Key) -> bool {
        forall|i: int|
            0 <= i < before@.tasks.len() && i != key.id ==> self.task(i) == before.task(i)
    }

    /// The tasks that have taken no turn in `trace` stand in their slots as
    /// they do in `before`.
    pub open spec fn keeps_tasks_apart_from(
        &self,
        before: &Simulation<G, C>,
        trace: Seq<Turn>,
    ) -> bool {
        forall|i: int|
            0 <= i < before@.tasks.len() && took_no_turn(trace, i) ==> self.task(i) == before.task(
                i,
            )
    }

    /// `history` holds the simulation as it was before the run `trace` from
    /// `before` and as it was after each turn of the run, `now` being the
    /// last: each turn has led from one to the next by the rules, and has
    /// touched no task but its own.
    pub open spec fn records(
        before: &Simulation<G, C>,
        history: Seq<Simulation<G, C>>,
        trace: Seq<Turn>,
        now: &Simulation<G, C>,
    ) -> bool {
        &&& history.len() == trace.len() + 1
        &&& history[0] == *before
        &&& history.last() == *now
        &&& now.keeps_tasks_apart_from(before, trace)
        &&& forall|i: int|
            #![trigger trace[i]]
            0 <= i < trace.len() ==> {
                &&& history[i + 1]@ == turned(history[i]@, trace[i]).world
                &&& history[i + 1].keeps_other_tasks(&history[i], trace[i].key)
            }
    }

    /// A slot holds a task exactly where it has a state.
    pub proof fn lemma_occupied(&self)
        ensures
            forall|i: int|
                0 <= i < self@.tasks.len() ==> (#[trigger] self.task(i) is Some) == (
                self@.tasks[i] is Some),
    {
        self.entities.lemma_occupied();
    }

    /// The cell to which the scheduler writes each change of the clock.
    pub closed spec fn shared_clock(&self) -> Rc<Cell<Duration>> {
        self.scheduler.shared_clock()
    }

    /// The cell that holds the store that the tasks share.
    pub closed spec fn shared_state(&self) -> Rc<Cell<State<C>>> {
        self.state
    }

    /// This simulation has the cells of `other`: no step gives a simulation
    /// another clock or another store.
    pub open spec fn shares(&self, other: &Simulation<G, C>) -> bool {
        &&& self.shared_clock() == other.shared_clock()
        &&& self.shared_state() == other.shared_state()
    }

    /// A simulation that is well formed has a well formed world.
    pub proof fn lemma_wf(&self)
        requires
            self.wf(),
        ensures
            self@.wf(),
    {
        self.scheduler.lemma_wf();
    }

    /// Adds `gen` as a new task, in state active, and returns its handle. The
    /// task is not resumed before it is scheduled.
    #[inline]
    pub fn add_generator(&mut self, gen: G) -> (key: Key)
        requires
            old(self).wf(),
        ensures
            final(self).wf(),
            final(self).shares(old(self)),
            key.id == old(self)@.tasks.len(),
            final(self)@.tasks == old(self)@.tasks.push(Some(EntityState::Active)),
            final(self)@.agenda == old(self)@.agenda,
            final(self).task(key.id as int) == Some(gen),
            forall|i: int| 0 <= i < old(self)@.tasks.len() ==> final(self).task(i) == old(self).task(i),
    {
        self.entities.add_generator(gen)
    }

    /// Requests that `entity_key` be resumed when `time` has passed from now.
    /// A task that has a pending event keeps it, and the request is dropped.
    ///
    /// The time at which the event would be due must be one that a `Duration`
    /// can hold; [`Simulation::checked_schedule`] tests that.
    #[inline]
    pub fn schedule(&mut self, time: Duration, entity_key: Key)
        requires
            old(self).wf(),
            old(self)@.agenda.admits(nanos_of(time), entity_key),
        ensures
            final(self).wf(),
            final(self).shares(old(self)),
            final(self).keeps_tasks(old(self)),
            final(self)@.agenda == old(self)@.agenda.scheduled(nanos_of(time), entity_key),
            final(self)@.tasks == old(self)@.tasks,
    {
        self.scheduler.schedule(time, entity_key)
    }

    /// As [`Simulation::schedule`], for any `time`: where the event would be
    /// due later than a `Duration` can hold, nothing changes and the result is
    /// `false`.
    pub fn checked_schedule(&mut self, time: Duration, entity_key: Key) -> (done: bool)
        requires
            old(self).wf(),
        ensures
            final(self).wf(),
            final(self).shares(old(self)),
            final(self).keeps_tasks(old(self)),
            done == old(self)@.agenda.admits(nanos_of(time), entity_key),
            done ==> final(self)@.agenda == old(self)@.agenda.scheduled(
                nanos_of(time),
                entity_key,
            ),
            !done ==> final(self)@.agenda == old(self)@.agenda,
            final(self)@.tasks == old(self)@.tasks,
    {
        self.scheduler.checked_schedule(time, entity_key)
    }

    /// Requests that `entity_key` be resumed at the present simulated time. A
    /// task that has a pending event keeps it, and the request is dropped.
    #[inline]
    pub fn schedule_now(&mut self, entity_key: Key)
        requires
            old(self).wf(),
        ensures
            final(self).wf(),
            final(self).shares(old(self)),
            final(self).keeps_tasks(old(self)),
            final(self)@ == old(self)@.requested(entity_key),
    {
        self.scheduler.schedule_now(entity_key)
    }

    /// The present simulated time.
    #[must_use]
    #[inline]
    pub fn time(&self) -> (now: Duration)
        ensures
            nanos_of(now) == self@.agenda.now,
    {
        self.scheduler.time()
    }

    /// A read-only view of the clock, for the tasks: a view of the cell to
    /// which the scheduler writes each change of its clock.
    #[must_use]
    #[inline]
    pub fn clock(&self) -> (view: ClockRef)
        ensures
            view == ClockRef::over(self.shared_clock()),
    {
        self.scheduler.clock()
    }

    /// The state of the task that `key` names, or `None` where the task has
    /// completed or was never added.
    #[must_use]
    pub fn entity_state(&self, key: Key) -> (state: Option<EntityState>)
        ensures
            state == state_of(self@.tasks, key),
    {
        match self.entities.get_state(key) {
            Some(state) => Some(*state),
            None => None,
        }
    }

    /// The store that the tasks share: the cell that this simulation was
    /// made with. A task takes the store out of the cell while it runs and
    /// puts it back before it suspends.
    pub fn state(&self) -> (shared: Rc<Cell<State<C>>>)
        ensures
            shared == self.shared_state(),
    {
        Rc::clone(&self.state)
    }

    /// Sets the state of the task that `key` names.
    fn mark(&mut self, key: Key, state: EntityState)
        requires
            old(self).wf(),
            state_of(old(self)@.tasks, key) is Some,
        ensures
            final(self).wf(),
            final(self).shares(old(self)),
            final(self).keeps_tasks(old(self)),
            final(self)@ == old(self)@.marked(key, state),
    {
        match self.entities.get_state_mut(key) {
            Some(slot) => {
                *slot = state;
            },
            None => {},
        }
    }

    /// Wakes `target` on behalf of `key`.
    fn activate(&mut self, key: Key, target: Key) -> (result: Result<(), Violation>)
        requires
            old(self).wf(),
        ensures
            final(self).wf(),
            final(self).shares(old(self)),
            final(self).keeps_tasks(old(self)),
            final(self)@ == old(self)@.activated(key, target).world,
            result == old(self)@.activated(key, target).verdict(),
    {
        match self.entity_state(target) {
            None => Err(Violation::NoSuchTarget { key, target }),
            Some(EntityState::Active) => Err(Violation::TargetActive { key, target }),
            Some(EntityState::Passive) => {
                self.mark(target, EntityState::Active);
                self.scheduler.schedule_now(target);
                Ok(())
            },
        }
    }

    /// Wakes each of `targets` in turn on behalf of `key`, up to the first
    /// that cannot be woken.
    fn activate_all(&mut self, key: Key, targets: &Vec<Key>) -> (result: Result<(), Violation>)
        requires
            old(self).wf(),
        ensures
            final(self).wf(),
            final(self).shares(old(self)),
            final(self).keeps_tasks(old(self)),
            final(self)@ == old(self)@.activated_all(key, targets@).world,
            result == old(self)@.activated_all(key, targets@).verdict(),
    {
        let n = targets.len();
        let mut i: usize = 0;
        assert(targets@.subrange(0, n as int) =~= targets@);
        while i < n
            invariant
                self.wf(),
                self.shares(old(self)),
                self.keeps_tasks(old(self)),
                i <= n,
                n == targets@.len(),
                self@.activated_all(key, targets@.subrange(i as int, n as int)) == old(self)@.activated_all(key, targets@),
            decreases n - i,
        {
            let ghost rest = targets@.subrange(i as int, n as int);
            assert(rest.first() == targets@[i as int]);
            assert(rest.drop_first() =~= targets@.subrange(i + 1, n as int));
            match self.activate(key, targets[i]) {
                Err(violation) => {
                    return Err(violation);
                },
                Ok(()) => {},
            }
            i += 1;
        }
        Ok(())
    }

    /// Cancels `target` on behalf of `key`: requests `key` at the present
    /// time, and puts `target` to rest and withdraws its event, where it is
    /// active and had an event before `key` was requested.
    fn cancel(&mut self, key: Key, target: Key) -> (result: Result<(), Violation>)
        requires
            old(self).wf(),
        ensures
            final(self).wf(),
            final(self).shares(old(self)),
            final(self).keeps_tasks(old(self)),
            final(self)@ == old(self)@.cancelled(key, target).world,
            result == old(self)@.cancelled(key, target).verdict(),
    {
        let had_event = self.scheduler.is_scheduled(target);
        self.scheduler.schedule_now(key);
        match self.entity_state(target) {
            None => Err(Violation::NoSuchTarget { key, target }),
            Some(EntityState::Passive) => Err(Violation::TargetPassive { key, target }),
            Some(EntityState::Active) => {
                if had_event {
                    self.mark(target, EntityState::Passive);
                    assert(self.keeps_tasks(old(self)));
                    self.scheduler.remove(target);
                    Ok(())
                } else {
                    Err(Violation::TargetNotScheduled { key, target })
                }
            },
        }
    }

    /// Applies what the task `key` answered when it was resumed.
    ///
    /// A task that has completed is removed, and leaves its slot empty. An
    /// active task that has suspended gets what it asked for: to hold, to be
    /// passivated, to wake others, or to cancel another; in the last two
    /// cases it is itself resumed at the present time. What breaks the rules
    /// is reported as a [`Violation`]; the effects that came before it stay
    /// in place. No task but one that has completed leaves its slot.
    pub fn apply(&mut self, key: Key, yielded: GeneratorState) -> (result: Result<(), Violation>)
        requires
            old(self).wf(),
        ensures
            final(self).wf(),
            final(self).shares(old(self)),
            final(self)@ == old(self)@.resumed(key, yielded).world,
            result == old(self)@.resumed(key, yielded).verdict(),
            final(self).keeps_tasks_but(
                old(self),
                key,
                if yielded is Complete {
                    None
                } else {
                    old(self).task(key.id as int)
                },
            ),
    {
        self.settle(key, yielded)
    }

    /// As [`Simulation::apply`], within a step: the task `key` may stand in
    /// its slot as one that has completed, where that is its answer.
    fn settle(&mut self, key: Key, yielded: GeneratorState) -> (result: Result<(), Violation>)
        requires
            old(self).wf_but(key, yielded),
        ensures
            final(self).wf(),
            final(self).shares(old(self)),
            final(self)@ == old(self)@.resumed(key, yielded).world,
            result == old(self)@.resumed(key, yielded).verdict(),
            final(self).keeps_tasks_but(
                old(self),
                key,
                if yielded is Complete {
                    None
                } else {
                    old(self).task(key.id as int)
                },
            ),
    {
        proof {
            self.entities.lemma_occupied();
        }
        let state = match self.entity_state(key) {
            Some(state) => state,
            None => {
                return Err(Violation::NoSuchTask { key });
            },
        };
        let action = match yielded {
            GeneratorState::Complete => {
                self.entities.remove(key);
                proof {
                    self.entities.lemma_occupied();
                }
                return Ok(());
            },
            GeneratorState::Yielded(action) => action,
        };
        match state {
            EntityState::Passive => match action {
                Action::Hold(_) => Err(Violation::HoldWhilePassive { key }),
                Action::Passivate => Err(Violation::PassivateWhilePassive { key }),
                Action::ActivateOne(_) => Err(Violation::ActivateWhilePassive { key }),
                Action::ActivateMany(_) => Err(Violation::ActivateWhilePassive { key }),
                Action::Cancel(target) => Err(Violation::CancelWhilePassive { key, target }),
            },
            EntityState::Active => match action {
                Action::Hold(delay) => {
                    if self.scheduler.checked_schedule(delay, key) {
                        Ok(())
                    } else {
                        Err(Violation::TimeOverflow { key })
                    }
                },
                Action::Passivate => {
                    self.mark(key, EntityState::Passive);
                    Ok(())
                },
                Action::ActivateOne(target) => {
                    self.scheduler.schedule_now(key);
                    self.activate(key, target)
                },
                Action::ActivateMany(targets) => {
                    self.scheduler.schedule_now(key);
                    self.activate_all(key, &targets)
                },
                Action::Cancel(target) => self.cancel(key, target),
            },
        }
    }

    /// Processes the event that is due soonest: moves the clock to its time,
    /// resumes its task with `resume_with`, and applies what the task
    /// answers. `Break` where no event is pending, `Advance` otherwise.
    ///
    /// The task of the event is resumed once, and no other task is touched.
    /// It stands in its slot afterwards as `resume` has left it, unless it has
    /// completed: then it is removed, and its slot is empty for good.
    ///
    /// What breaks the rules is reported as a [`Violation`]; the event has
    /// left the agenda then, and the effects that came before the violation
    /// stay in place.
    pub fn step_with<R>(&mut self, resume_with: R) -> (result: Result<
        ShouldContinue,
        Violation,
    >) where G: Generator<R>
        requires
            old(self).wf(),
        ensures
            final(self).wf(),
            final(self).shares(old(self)),
            old(self)@.agenda.now <= final(self)@.agenda.now,
            final(self)@.tasks.len() == old(self)@.tasks.len(),
            old(self)@.agenda.idle() <==> result == Ok::<ShouldContinue, Violation>(
                ShouldContinue::Break,
            ),
            old(self)@.agenda.idle() ==> final(self)@ == old(self)@,
            old(self)@.agenda.idle() ==> final(self).keeps_tasks(old(self)),
            !old(self)@.agenda.idle() ==> exists|key: Key, yielded: GeneratorState| #[trigger]
                stepped(old(self)@, key, yielded, final(self)@, result)
                    && final(self).keeps_other_tasks(old(self), key)
                    && if state_of(old(self)@.tasks, key) is None {
                    final(self).keeps_tasks(old(self))
                } else {
                    exists|task: &mut G|
                        #![trigger call_ensures(G::resume, (task, resume_with), yielded)]
                        {
                            &&& old(self).task(key.id as int) == Some(mut_ref_current(task))
                            &&& call_ensures(G::resume, (task, resume_with), yielded)
                            &&& final(self).keeps_tasks_but(
                                old(self),
                                key,
                                if yielded is Complete {
                                    None
                                } else {
                                    Some(mut_ref_future(task))
                                },
                            )
                        }
                },
    {
        let entry = match self.scheduler.pop() {
            Some(entry) => entry,
            None => {
                return Ok(ShouldContinue::Break);
            },
        };
        let key = entry.key();
        proof {
            old(self).lemma_wf();
            old(self)@.agenda.lemma_popped_wf(key);
        }
        if self.entity_state(key).is_none() {
            proof {
                assert(stepped(
                    old(self)@,
                    key,
                    GeneratorState::Complete,
                    self@,
                    Err(Violation::NoSuchTask { key }),
                ));
            }
            return Err(Violation::NoSuchTask { key });
        }
        let yielded = self.entities.step_with(key, resume_with);
        let ghost answer = yielded;
        proof {
            self.scheduler.lemma_wf();
            self@.lemma_resumed_keeps(key, answer);
        }
        let result = match self.settle(key, yielded) {
            Ok(()) => Ok(ShouldContinue::Advance),
            Err(violation) => Err(violation),
        };
        proof {
            assert(stepped(old(self)@, key, answer, self@, result));
        }
        result
    }
}

impl<G: Generator<()>, C> Simulation<G, C> {
    /// Processes the event that is due soonest, for tasks that take no value
    /// on resumption.
    #[inline]
    pub fn step(&mut self) -> (result: Result<ShouldContinue, Violation>)
        requires
            old(self).wf(),
        ensures
            final(self).wf(),
            final(self).shares(old(self)),
            old(self)@.agenda.now <= final(self)@.agenda.now,
            final(self)@.tasks.len() == old(self)@.tasks.len(),
            old(self)@.agenda.idle() <==> result == Ok::<ShouldContinue, Violation>(
                ShouldContinue::Break,
            ),
            old(self)@.agenda.idle() ==> final(self)@ == old(self)@,
            old(self)@.agenda.idle() ==> final(self).keeps_tasks(old(self)),
            !old(self)@.agenda.idle() ==> exists|key: Key, yielded: GeneratorState| #[trigger]
                stepped(old(self)@, key, yielded, final(self)@, result)
                    && final(self).keeps_other_tasks(old(self), key)
                    && if state_of(old(self)@.tasks, key) is None {
                    final(self).keeps_tasks(old(self))
                } else {
                    exists|task: &mut G|
                        #![trigger call_ensures(G::resume, (task, ()), yielded)]
                        {
                            &&& old(self).task(key.id as int) == Some(mut_ref_current(task))
                            &&& call_ensures(G::resume, (task, ()), yielded)
                            &&& final(self).keeps_tasks_but(
                                old(self),
                                key,
                                if yielded is Complete {
                                    None
                                } else {
                                    Some(mut_ref_future(task))
                                },
                            )
                        }
                },
    {
        self.step_with(())
    }

    /// Processes events until none is pending, until the clock has reached
    /// `limit`, where one is given, or until `max_events` events have been
    /// processed, whichever comes first. The event that takes the clock to
    /// `limit` or beyond is processed in full, and so is the first event,
    /// wherever the clock stands.
    ///
    /// The run ends early with the violation of a task that breaks the rules.
    /// It ends with [`Violation::EventLimit`] where events are pending after
    /// `max_events` of them.
    ///
    /// The run is a sequence of turns. In each, the event that leaves is one
    /// that is due soonest, its task is resumed once, the answer of the turn
    /// is the one that the task gives, and the task stands in its slot
    /// afterwards as `resume` has left it, or is removed where it has
    /// completed.
    pub fn run_bounded(&mut self, limit: Option<Duration>, max_events: u64) -> (result: Result<
        (),
        Violation,
    >)
        requires
            old(self).wf(),
        ensures
            final(self).wf(),
            final(self).shares(old(self)),
            exists|history: Seq<Simulation<G, C>>, trace: Seq<Turn>|
                #![trigger Self::records(old(self), history, trace, final(self))]
                {
                    &&& ended(old(self)@, trace, span(limit), max_events as nat, final(self)@, result)
                    &&& Self::records(old(self), history, trace, final(self))
                    &&& forall|i: int|
                        #![trigger trace[i]]
                        0 <= i < trace.len() && state_of(history[i]@.tasks, trace[i].key) is Some ==> exists|task: &mut G|
                            #![trigger call_ensures(G::resume, (task, ()), trace[i].yielded)]
                            {
                                &&& history[i].task(trace[i].key.id as int) == Some(mut_ref_current(task))
                                &&& call_ensures(G::resume, (task, ()), trace[i].yielded)
                                &&& history[i + 1].task(trace[i].key.id as int) == if trace[i].yielded is Complete {
                                    None::<G>
                                } else {
                                    Some(mut_ref_future(task))
                                }
                            }
                },
            old(self)@.agenda.now <= final(self)@.agenda.now,
            final(self)@.tasks.len() == old(self)@.tasks.len(),
    {
        let mut verdict: Option<Result<(), Violation>> = None;
        let mut processed: u64 = 0;
        proof {
            let history = seq![*self];
            let trace = Seq::<Turn>::empty();
            assert(Self::records(old(self), history, trace, self));
        }
        while verdict.is_none()
            invariant
                self.wf(),
                self.shares(old(self)),
                processed <= max_events,
                old(self)@.agenda.now <= self@.agenda.now,
                self@.tasks.len() == old(self)@.tasks.len(),
                exists|history: Seq<Simulation<G, C>>, trace: Seq<Turn>|
                    #![trigger Self::records(old(self), history, trace, self)]
                    {
                        &&& processed == trace.len()
                        &&& match verdict {
                            None => goes_on(old(self)@, trace, span(limit)) && self@ == ran(
                                old(self)@,
                                trace,
                            ),
                            Some(result) => ended(
                                old(self)@,
                                trace,
                                span(limit),
                                max_events as nat,
                                self@,
                                result,
                            ),
                        }
                        &&& Self::records(old(self), history, trace, self)
                        &&& forall|i: int|
                            #![trigger trace[i]]
                            0 <= i < trace.len() && state_of(history[i]@.tasks, trace[i].key) is Some ==> exists|task: &mut G|
                                #![trigger call_ensures(G::resume, (task, ()), trace[i].yielded)]
                                {
                                    &&& history[i].task(trace[i].key.id as int) == Some(mut_ref_current(task))
                                    &&& call_ensures(G::resume, (task, ()), trace[i].yielded)
                                    &&& history[i + 1].task(trace[i].key.id as int) == if trace[i].yielded is Complete {
                                        None::<G>
                                    } else {
                                        Some(mut_ref_future(task))
                                    }
                                }
                    },
            decreases max_events - processed + (if verdict is None { 1int } else { 0int }),
        {
            if self.scheduler.is_idle() {
                verdict = Some(Ok(()));
            } else if processed == max_events {
                verdict = Some(Err(Violation::EventLimit));
            } else {
                let ghost prior = *self;
                let outcome = self.step();
                let next = match outcome {
                    Err(violation) => Some(Err(violation)),
                    Ok(_) => match limit {
                        Some(end) => if shorter(self.time(), end) {
                            None
                        } else {
                            Some(Ok(()))
                        },
                        None => None,
                    },
                };
                proof {
                    assert forall|history: Seq<Simulation<G, C>>, trace: Seq<Turn>|
                        #![trigger Self::records(old(self), history, trace, &prior)]
                        {
                            &&& processed == trace.len()
                            &&& goes_on(old(self)@, trace, span(limit))
                            &&& prior@ == ran(old(self)@, trace)
                            &&& Self::records(old(self), history, trace, &prior)
                            &&& forall|i: int|
                                #![trigger trace[i]]
                                0 <= i < trace.len() && state_of(history[i]@.tasks, trace[i].key) is Some ==> exists|task: &mut G|
                                    #![trigger call_ensures(G::resume, (task, ()), trace[i].yielded)]
                                    {
                                        &&& history[i].task(trace[i].key.id as int) == Some(mut_ref_current(task))
                                        &&& call_ensures(G::resume, (task, ()), trace[i].yielded)
                                        &&& history[i + 1].task(trace[i].key.id as int) == if trace[i].yielded is Complete {
                                            None::<G>
                                        } else {
                                            Some(mut_ref_future(task))
                                        }
                                    }
                        } implies exists|longer: Seq<Simulation<G, C>>, run: Seq<Turn>|
                        #![trigger Self::records(old(self), longer, run, self)]
                        {
                            &&& processed + 1 == run.len()
                            &&& match next {
                                None => goes_on(old(self)@, run, span(limit)) && self@ == ran(
                                    old(self)@,
                                    run,
                                ),
                                Some(result) => ended(
                                    old(self)@,
                                    run,
                                    span(limit),
                                    max_events as nat,
                                    self@,
                                    result,
                                ),
                            }
                            &&& Self::records(old(self), longer, run, self)
                            &&& forall|i: int|
                                #![trigger run[i]]
                                0 <= i < run.len() && state_of(longer[i]@.tasks, run[i].key) is Some ==> exists|task: &mut G|
                                    #![trigger call_ensures(G::resume, (task, ()), run[i].yielded)]
                                    {
                                        &&& longer[i].task(run[i].key.id as int) == Some(mut_ref_current(task))
                                        &&& call_ensures(G::resume, (task, ()), run[i].yielded)
                                        &&& longer[i + 1].task(run[i].key.id as int) == if run[i].yielded is Complete {
                                            None::<G>
                                        } else {
                                            Some(mut_ref_future(task))
                                        }
                                    }
                        } by {
                        let (key, yielded) = choose|key: Key, yielded: GeneratorState| #[trigger]
                            stepped(prior@, key, yielded, self@, outcome)
                                && self.keeps_other_tasks(&prior, key)
                                && if state_of(prior@.tasks, key) is None {
                                self.keeps_tasks(&prior)
                            } else {
                                exists|task: &mut G|
                                    #![trigger call_ensures(G::resume, (task, ()), yielded)]
                                    {
                                        &&& prior.task(key.id as int) == Some(mut_ref_current(task))
                                        &&& call_ensures(G::resume, (task, ()), yielded)
                                        &&& self.keeps_tasks_but(
                                            &prior,
                                            key,
                                            if yielded is Complete {
                                                None
                                            } else {
                                                Some(mut_ref_future(task))
                                            },
                                        )
                                    }
                            };
                        let turn = Turn { key, yielded };
                        let longer = history.push(*self);
                        let run = trace.push(turn);
                        assert(run.drop_last() =~= trace);
                        assert(run.last() == turn);
                        assert(self@ == ran(old(self)@, run));
                        assert forall|i: int|
                            0 <= i < old(self)@.tasks.len() && took_no_turn(run, i) implies self.task(
                            i,
                        ) == old(self).task(i) by {
                            assert(run[trace.len() as int] == turn);
                            assert forall|j: int| 0 <= j < trace.len() implies (#[trigger] trace[j]).key.id
                                != i by {
                                assert(run[j] == trace[j]);
                            }
                            assert(took_no_turn(trace, i));
                        }
                        assert forall|i: int| #![trigger run[i]] 0 <= i < run.len() implies {
                            &&& longer[i + 1]@ == turned(longer[i]@, run[i]).world
                            &&& longer[i + 1].keeps_other_tasks(&longer[i], run[i].key)
                        } by {
                            if i < trace.len() {
                                assert(run[i] == trace[i]);
                                assert(longer[i] == history[i]);
                                assert(longer[i + 1] == history[i + 1]);
                            } else {
                                assert(longer[i] == prior);
                                assert(longer[i + 1] == *self);
                            }
                        }
                        assert(Self::records(old(self), longer, run, self));
                        assert forall|i: int|
                            #![trigger run[i]]
                            0 <= i < run.len() && state_of(longer[i]@.tasks, run[i].key) is Some implies exists|
                            task: &mut G,
                        |
                            #![trigger call_ensures(G::resume, (task, ()), run[i].yielded)]
                            {
                                &&& longer[i].task(run[i].key.id as int) == Some(mut_ref_current(task))
                                &&& call_ensures(G::resume, (task, ()), run[i].yielded)
                                &&& longer[i + 1].task(run[i].key.id as int) == if run[i].yielded is Complete {
                                    None::<G>
                                } else {
                                    Some(mut_ref_future(task))
                                }
                            } by {
                            if i < trace.len() {
                                assert(run[i] == trace[i]);
                                assert(longer[i] == history[i]);
                                assert(longer[i + 1] == history[i + 1]);
                            } else {
                                assert(longer[i] == prior);
                                assert(longer[i + 1] == *self);
                                assert(run[i] == turn);
                                prior.lemma_occupied();
                            }
                        }
                    }
                }
                processed += 1;
                verdict = next;
            }
        }
        match verdict {
            Some(result) => result,
            None => vstd::pervasive::unreached(),
        }
    }

    /// Processes events until none is pending.
    ///
    /// The run ends early with the violation of a task that breaks the rules,
    /// and with [`Violation::EventLimit`] after `u64::MAX` events. It is a
    /// sequence of turns, as [`Simulation::run_bounded`] says.
    pub fn run_until_empty(&mut self) -> (result: Result<(), Violation>)
        requires
            old(self).wf(),
        ensures
            final(self).wf(),
            final(self).shares(old(self)),
            exists|history: Seq<Simulation<G, C>>, trace: Seq<Turn>|
                #![trigger Self::records(old(self), history, trace, final(self))]
                {
                    &&& ended(old(self)@, trace, None, u64::MAX as nat, final(self)@, result)
                    &&& Self::records(old(self), history, trace, final(self))
                    &&& forall|i: int|
                        #![trigger trace[i]]
                        0 <= i < trace.len() && state_of(history[i]@.tasks, trace[i].key) is Some ==> exists|task: &mut G|
                            #![trigger call_ensures(G::resume, (task, ()), trace[i].yielded)]
                            {
                                &&& history[i].task(trace[i].key.id as int) == Some(mut_ref_current(task))
                                &&& call_ensures(G::resume, (task, ()), trace[i].yielded)
                                &&& history[i + 1].task(trace[i].key.id as int) == if trace[i].yielded is Complete {
                                    None::<G>
                                } else {
                                    Some(mut_ref_future(task))
                                }
                            }
                },
            result is Ok ==> final(self)@.agenda.idle(),
            old(self)@.agenda.now <= final(self)@.agenda.now,
            final(self)@.tasks.len() == old(self)@.tasks.len(),
    {
        self.run_bounded(None, u64::MAX)
    }

    /// Processes events until none is pending or the clock has reached
    /// `limit`. The event that takes the clock to `limit` or beyond is
    /// processed in full, and so is the first event, wherever the clock
    /// stands.
    ///
    /// The run ends early with the violation of a task that breaks the rules,
    /// and with [`Violation::EventLimit`] after `u64::MAX` events. It is a
    /// sequence of turns, as [`Simulation::run_bounded`] says.
    pub fn run_with_limit(&mut self, limit: Duration) -> (result: Result<(), Violation>)
        requires
            old(self).wf(),
        ensures
            final(self).wf(),
            final(self).shares(old(self)),
            exists|history: Seq<Simulation<G, C>>, trace: Seq<Turn>|
                #![trigger Self::records(old(self), history, trace, final(self))]
                {
                    &&& ended(old(self)@, trace, Some(nanos_of(limit)), u64::MAX as nat, final(self)@, result)
                    &&& Self::records(old(self), history, trace, final(self))
                    &&& forall|i: int|
                        #![trigger trace[i]]
                        0 <= i < trace.len() && state_of(history[i]@.tasks, trace[i].key) is Some ==> exists|task: &mut G|
                            #![trigger call_ensures(G::resume, (task, ()), trace[i].yielded)]
                            {
                                &&& history[i].task(trace[i].key.id as int) == Some(mut_ref_current(task))
                                &&& call_ensures(G::resume, (task, ()), trace[i].yielded)
                                &&& history[i + 1].task(trace[i].key.id as int) == if trace[i].yielded is Complete {
                                    None::<G>
                                } else {
                                    Some(mut_ref_future(task))
                                }
                            }
                },
            result is Ok ==> final(self)@.agenda.idle() || nanos_of(limit) <= final(self)@.agenda.now,
            old(self)@.agenda.now <= final(self)@.agenda.now,
            final(self)@.tasks.len() == old(self)@.tasks.len(),
    {
        self.run_bounded(Some(limit), u64::MAX)
    }
}

} // verus!
