use crate::event::EventEntry;
use crate::heap::EventHeap;
use crate::keys::Key;
use crate::time::{checked_sum, max_nanos, nanos_of, zero};
use std::cell::Cell;
use std::rc::Rc;
use std::time::Duration;
use vstd::prelude::*;

verus! {

/// `std::cell::Cell`, of which nothing is known but that it can be made,
/// read and written.
#[verifier::external_type_specification]
#[verifier::external_body]
#[verifier::reject_recursive_types(T)]
pub struct ExCell<T: ?Sized>(Cell<T>);

/// `Cell::new` wraps a value in a cell. Nothing is claimed of the cell.
pub assume_specification<T>[ Cell::<T>::new ](value: T) -> (cell: Cell<T>);

/// `Cell::get` copies the value out of a cell. Whoever shares the cell may
/// have written to it, so nothing is claimed of the value.
pub assume_specification<T: Copy>[ Cell::<T>::get ](cell: &Cell<T>) -> (value: T);

/// `Cell::set` writes a value into a cell. Nothing is claimed of the effect.
pub assume_specification<T>[ Cell::<T>::set ](cell: &Cell<T>, value: T);

/// What a scheduler is, seen from outside: the simulated time, and for each
/// task with a pending event the time at which that event is due. Times are
/// in nanoseconds since the start of the simulation.
pub struct Agenda {
    pub now: nat,
    pub pending: Map<Key, nat>,
}

impl Agenda {
    /// No pending event is due in the past.
    pub open spec fn wf(self) -> bool {
        forall|k: Key| #[trigger] self.pending.contains_key(k) ==> self.now <= self.pending[k]
    }

    /// The agenda at the start of a simulation.
    pub open spec fn start() -> Agenda {
        Agenda { now: 0, pending: Map::empty() }
    }

    /// Whether no event is pending.
    pub open spec fn idle(self) -> bool {
        forall|k: Key| !self.pending.contains_key(k)
    }

    /// The agenda after a request to resume `key` when `delay` has passed: a
    /// task that has a pending event keeps it, and the request is dropped.
    pub open spec fn scheduled(self, delay: nat, key: Key) -> Agenda {
        if self.pending.contains_key(key) {
            self
        } else {
            Agenda { now: self.now, pending: self.pending.insert(key, self.now + delay) }
        }
    }

    /// The agenda after each of `requests` in turn, each a delay and a task.
    pub open spec fn scheduled_all(self, requests: Seq<(nat, Key)>) -> Agenda
        decreases requests.len(),
    {
        if requests.len() == 0 {
            self
        } else {
            self.scheduled_all(requests.drop_last()).scheduled(
                requests.last().0,
                requests.last().1,
            )
        }
    }

    /// Whether an event for `key`, due when `delay` has passed, fits on the
    /// agenda: `key` has a pending event, so that the request is dropped, or
    /// the time at which the event is due is one that a `Duration` can hold.
    pub open spec fn admits(self, delay: nat, key: Key) -> bool {
        self.pending.contains_key(key) || self.now + delay <= max_nanos()
    }

    /// Whether the event of `key` may be the next to leave: it is pending,
    /// and no pending event is due sooner.
    pub open spec fn is_next(self, key: Key) -> bool {
        &&& self.pending.contains_key(key)
        &&& forall|k: Key| #[trigger]
            self.pending.contains_key(k) ==> self.pending[key] <= self.pending[k]
    }

    /// The agenda after the event of `key` has left: the clock stands at the
    /// time at which it was due.
    pub open spec fn popped(self, key: Key) -> Agenda {
        Agenda { now: self.pending[key], pending: self.pending.remove(key) }
    }

    /// The agenda after the event of `key`, if any, has been withdrawn.
    pub open spec fn without(self, key: Key) -> Agenda {
        Agenda { now: self.now, pending: self.pending.remove(key) }
    }

    /// A request leaves no event due in the past, and does not move the clock.
    pub proof fn lemma_scheduled_wf(self, delay: nat, key: Key)
        requires
            self.wf(),
        ensures
            self.scheduled(delay, key).wf(),
            self.scheduled(delay, key).now == self.now,
    {
        let b = self.scheduled(delay, key);
        assert forall|k: Key| #[trigger] b.pending.contains_key(k) implies b.now <= b.pending[k] by {
            if k != key {
                assert(self.pending.contains_key(k));
            }
        }
    }

    /// Any number of requests leaves no event due in the past, and does not
    /// move the clock.
    pub proof fn lemma_scheduled_all_wf(self, requests: Seq<(nat, Key)>)
        requires
            self.wf(),
        ensures
            self.scheduled_all(requests).wf(),
            self.scheduled_all(requests).now == self.now,
        decreases requests.len(),
    {
        if requests.len() > 0 {
            self.lemma_scheduled_all_wf(requests.drop_last());
            self.scheduled_all(requests.drop_last()).lemma_scheduled_wf(
                requests.last().0,
                requests.last().1,
            );
        }
    }

    /// When an event that may be next leaves, the clock does not go back and
    /// no event is left that is due in the past.
    pub proof fn lemma_popped_wf(self, key: Key)
        requires
            self.wf(),
            self.is_next(key),
        ensures
            self.popped(key).wf(),
            self.now <= self.popped(key).now,
    {
        let b = self.popped(key);
        assert forall|k: Key| #[trigger] b.pending.contains_key(k) implies b.now <= b.pending[k] by {
            assert(self.pending.contains_key(k));
        }
    }

    /// Withdrawing an event leaves no event due in the past.
    pub proof fn lemma_without_wf(self, key: Key)
        requires
            self.wf(),
        ensures
            self.without(key).wf(),
    {
        let b = self.without(key);
        assert forall|k: Key| #[trigger] b.pending.contains_key(k) implies b.now <= b.pending[k] by {
            assert(self.pending.contains_key(k));
        }
    }
}

/// Events leave in the order of their times: of two events that leave one
/// after the other, whatever requests are made in between, the second is due
/// no sooner than the first. After each, the clock stands at the time at
/// which that event was due.
pub proof fn lemma_events_leave_in_time_order(
    agenda: Agenda,
    first: Key,
    requests: Seq<(nat, Key)>,
    second: Key,
)
    requires
        agenda.wf(),
        agenda.is_next(first),
        agenda.popped(first).scheduled_all(requests).is_next(second),
    ensures
        agenda.popped(first).now == agenda.pending[first],
        agenda.pending[first] <= agenda.popped(first).scheduled_all(requests).pending[second],
        agenda.popped(first).scheduled_all(requests).popped(second).now == agenda.popped(
            first,
        ).scheduled_all(requests).pending[second],
{
    agenda.lemma_popped_wf(first);
    agenda.popped(first).lemma_scheduled_all_wf(requests);
}

/// A request for a task that has a pending event changes nothing: the event
/// stays due at the time of the first request.
pub proof fn lemma_reschedule_changes_nothing(
    agenda: Agenda,
    first_delay: nat,
    later_delay: nat,
    key: Key,
)
    ensures
        agenda.scheduled(first_delay, key).pending.contains_key(key),
        agenda.scheduled(first_delay, key).scheduled(later_delay, key) == agenda.scheduled(
            first_delay,
            key,
        ),
        !agenda.pending.contains_key(key) ==> agenda.scheduled(first_delay, key).scheduled(
            later_delay,
            key,
        ).pending[key] == agenda.now + first_delay,
{
}

/// Requests for other tasks do not bring back a task that has no pending
/// event.
pub proof fn lemma_requests_for_others(agenda: Agenda, key: Key, requests: Seq<(nat, Key)>)
    requires
        !agenda.pending.contains_key(key),
        forall|i: int| 0 <= i < requests.len() ==> (#[trigger] requests[i]).1 != key,
    ensures
        !agenda.scheduled_all(requests).pending.contains_key(key),
    decreases requests.len(),
{
    if requests.len() > 0 {
        let earlier = requests.drop_last();
        assert forall|i: int| 0 <= i < earlier.len() implies (#[trigger] earlier[i]).1 != key by {
            assert(earlier[i] == requests[i]);
        }
        lemma_requests_for_others(agenda, key, earlier);
        assert(requests.last() == requests[requests.len() - 1]);
    }
}

/// A withdrawn event does not leave: once the event of a task has been
/// withdrawn, and until that task is requested again, the next event to leave
/// is never that task's.
pub proof fn lemma_withdrawn_event_never_leaves(
    agenda: Agenda,
    key: Key,
    requests: Seq<(nat, Key)>,
    next: Key,
)
    requires
        forall|i: int| 0 <= i < requests.len() ==> (#[trigger] requests[i]).1 != key,
        agenda.without(key).scheduled_all(requests).is_next(next),
    ensures
        next != key,
{
    lemma_requests_for_others(agenda.without(key), key, requests);
}

/// A read-only view of a scheduler's clock, which follows the clock as the
/// scheduler advances it.
pub struct ClockRef {
    clock: Rc<Cell<Duration>>,
}

impl ClockRef {
    /// The view that reads `clock`.
    pub closed spec fn over(clock: Rc<Cell<Duration>>) -> ClockRef {
        ClockRef { clock }
    }

    /// The simulated time that the clock shows now.
    #[must_use]
    pub fn time(&self) -> Duration {
        self.clock.get()
    }
}

impl From<Rc<Cell<Duration>>> for ClockRef {
    fn from(clock: Rc<Cell<Duration>>) -> (view: ClockRef) {
        ClockRef { clock }
    }
}

impl vstd::std_specs::convert::FromSpecImpl<Rc<Cell<Duration>>> for ClockRef {
    open spec fn obeys_from_spec() -> bool {
        true
    }

    open spec fn from_spec(clock: Rc<Cell<Duration>>) -> ClockRef {
        ClockRef::over(clock)
    }
}

/// The future event list and the simulated clock.
///
/// The clock only moves when an event leaves, and then to the time at which
/// that event was due. Each change of the clock is also written to a shared
/// cell, for the holders of a [`ClockRef`].
pub struct Scheduler {
    events: EventHeap,
    now: Duration,
    clock: Rc<Cell<Duration>>,
}

impl View for Scheduler {
    type V = Agenda;

    closed spec fn view(&self) -> Agenda {
        Agenda { now: nanos_of(self.now), pending: self.events@ }
    }
}

impl Default for Scheduler {
    fn default() -> (scheduler: Scheduler)
        ensures
            scheduler.wf(),
            scheduler@ == Agenda::start(),
    {
        let now = zero();
        Scheduler { events: EventHeap::new(), now, clock: Rc::new(Cell::new(now)) }
    }
}

impl Scheduler {
    /// The event list is a heap with one entry per task at most, and no
    /// pending event is due in the past.
    pub closed spec fn wf(&self) -> bool {
        &&& self.events.wf()
        &&& self@.wf()
    }

    /// A scheduler that is well formed has a well formed agenda.
    pub proof fn lemma_wf(&self)
        requires
            self.wf(),
        ensures
            self@.wf(),
    {
    }

    /// Requests that `entity_key` be resumed when `time` has passed from now.
    /// A task that has a pending event keeps it, and the request is dropped.
    ///
    /// The time at which the event would be due must be one that a `Duration`
    /// can hold; [`Scheduler::checked_schedule`] tests that.
    pub fn schedule(&mut self, time: Duration, entity_key: Key)
        requires
            old(self).wf(),
            old(self)@.admits(nanos_of(time), entity_key),
        ensures
            final(self).wf(),
            final(self).shared_clock() == old(self).shared_clock(),
            final(self)@ == old(self)@.scheduled(nanos_of(time), entity_key),
    {
        if self.events.contains(entity_key) {
            return ;
        }
        let due = match checked_sum(self.now, time) {
            Some(due) => due,
            None => vstd::pervasive::unreached(),
        };
        self.events.push(EventEntry::new(due, entity_key));
        proof {
            old(self)@.lemma_scheduled_wf(nanos_of(time), entity_key);
        }
    }

    /// As [`Scheduler::schedule`], for any `time`: where the event would be
    /// due later than a `Duration` can hold, nothing changes and the result is
    /// `false`.
    pub fn checked_schedule(&mut self, time: Duration, entity_key: Key) -> (done: bool)
        requires
            old(self).wf(),
        ensures
            final(self).wf(),
            final(self).shared_clock() == old(self).shared_clock(),
            done == old(self)@.admits(nanos_of(time), entity_key),
            done ==> final(self)@ == old(self)@.scheduled(nanos_of(time), entity_key),
            !done ==> final(self)@ == old(self)@,
    {
        if self.events.contains(entity_key) || checked_sum(self.now, time).is_some() {
            self.schedule(time, entity_key);
            true
        } else {
            false
        }
    }

    /// Requests that `entity` be resumed at the present simulated time. A task
    /// that has a pending event keeps it, and the request is dropped.
    pub fn schedule_now(&mut self, entity: Key)
        requires
            old(self).wf(),
        ensures
            final(self).wf(),
            final(self).shared_clock() == old(self).shared_clock(),
            final(self)@ == old(self)@.scheduled(0, entity),
    {
        if !self.events.contains(entity) {
            self.events.push(EventEntry::new(self.now, entity));
            proof {
                old(self)@.lemma_scheduled_wf(0, entity);
            }
        }
    }

    /// The present simulated time.
    #[must_use]
    pub fn time(&self) -> (now: Duration)
        ensures
            nanos_of(now) == self@.now,
    {
        self.now
    }

    /// The cell to which each change of the clock is written.
    pub closed spec fn shared_clock(&self) -> Rc<Cell<Duration>> {
        self.clock
    }

    /// A read-only view of the clock: a view of the cell to which this
    /// scheduler writes each change of its clock.
    #[must_use]
    pub fn clock(&self) -> (view: ClockRef)
        ensures
            view == ClockRef::over(self.shared_clock()),
    {
        ClockRef { clock: Rc::clone(&self.clock) }
    }

    /// Whether no event is pending.
    pub fn is_idle(&self) -> (r: bool)
        requires
            self.wf(),
        ensures
            r == self@.idle(),
    {
        let empty = self.events.is_empty();
        proof {
            if self@.idle() {
                assert(self@.pending =~= Map::<Key, nat>::empty());
            }
        }
        empty
    }

    /// Whether `key` has a pending event.
    pub fn is_scheduled(&self, key: Key) -> (r: bool)
        requires
            self.wf(),
        ensures
            r == self@.pending.contains_key(key),
    {
        self.events.contains(key)
    }

    /// Takes out an event that is due soonest and moves the clock to the time
    /// at which it was due. `None` where no event is pending. Which of several
    /// events due at the same time leaves first is not determined.
    pub fn pop(&mut self) -> (next: Option<EventEntry>)
        requires
            old(self).wf(),
        ensures
            final(self).wf(),
            final(self).shared_clock() == old(self).shared_clock(),
            match next {
                Some(entry) => {
                    &&& old(self)@.is_next(entry.owner())
                    &&& old(self)@.pending[entry.owner()] == entry.due()
                    &&& final(self)@ == old(self)@.popped(entry.owner())
                },
                None => old(self)@.idle() && final(self)@ == old(self)@,
            },
    {
        match self.events.pop() {
            Some(entry) => {
                proof {
                    old(self)@.lemma_popped_wf(entry.owner());
                }
                let at = entry.time();
                self.now = at;
                self.clock.set(at);
                Some(entry)
            },
            None => None,
        }
    }

    /// Withdraws the pending event of `key`. Returns whether it had one.
    pub fn remove(&mut self, key: Key) -> (found: bool)
        requires
            old(self).wf(),
        ensures
            final(self).wf(),
            final(self).shared_clock() == old(self).shared_clock(),
            found == old(self)@.pending.contains_key(key),
            final(self)@ == old(self)@.without(key),
    {
        let found = self.events.remove(key);
        proof {
            old(self)@.lemma_without_wf(key);
        }
        found
    }

    /// Adds `event` as it is. Its task must have no pending event, and it
    /// must not be due in the past.
    pub fn insert(&mut self, event: EventEntry)
        requires
            old(self).wf(),
            !old(self)@.pending.contains_key(event.owner()),
            old(self)@.now <= event.due(),
        ensures
            final(self).wf(),
            final(self).shared_clock() == old(self).shared_clock(),
            final(self)@.now == old(self)@.now,
            final(self)@.pending == old(self)@.pending.insert(event.owner(), event.due()),
    {
        self.events.push(event);
    }
}

} // verus!
