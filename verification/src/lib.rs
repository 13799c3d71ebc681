//! A kernel for discrete-event simulation.
//!
//! A model is a set of tasks that run one at a time over a simulated clock.
//! Each task is a [`Generator`]: it runs until it suspends, and tells the
//! simulation with an [`Action`] what it waits for. The [`Simulation`] keeps
//! the tasks in a [`Container`], their pending events in a [`Scheduler`], and
//! hands them a [`State`] to share. It resumes the task whose event is due
//! soonest, moves the clock to the time of that event, and applies the action
//! that the task yields, by the rules in [`protocol`].

pub mod container;
pub mod event;
pub mod heap;
pub mod keys;
pub mod protocol;
pub mod scheduler;
pub mod simulation;
pub mod state;
pub mod time;

pub use container::{Container, EntityState};
pub use event::EventEntry;
pub use keys::Key;
pub use protocol::Violation;
pub use scheduler::{ClockRef, Scheduler};
pub use simulation::{ShouldContinue, Simulation};
pub use state::{State, StateKey};

use std::time::Duration;
use vstd::prelude::*;

verus! {

/// What a task asks of the simulation each time it suspends.
#[derive(Debug, Clone)]
pub enum Action {
    /// Resume me when this much simulated time has passed.
    Hold(Duration),
    /// Put me to rest until another task activates me.
    Passivate,
    /// Wake the named task now, and resume me now as well.
    ActivateOne(Key),
    /// Wake each of the named tasks now, in this order, and resume me now as
    /// well.
    ActivateMany(Vec<Key>),
    /// Put the named task to rest and withdraw its pending event, and resume
    /// me now.
    Cancel(Key),
}

impl Action {
    /// The action that wakes `key`.
    #[inline]
    pub fn activate_one(key: Key) -> (action: Action)
        ensures
            action == Action::ActivateOne(key),
    {
        Action::ActivateOne(key)
    }

    /// The action that wakes each of `keys`, in their order.
    #[inline]
    pub fn activate_many(keys: Vec<Key>) -> (action: Action)
        ensures
            action == Action::ActivateMany(keys),
    {
        Action::ActivateMany(keys)
    }
}

/// What a task does when it is resumed: it suspends again and yields an
/// action, or it completes.
#[derive(Debug, Clone)]
pub enum GeneratorState {
    Yielded(Action),
    Complete,
}

/// A task of the simulation: a computation that is resumed with a value of
/// type `R`, runs up to its next point of suspension and there yields one
/// action, or runs to its end.
///
/// A task that has completed is never resumed again.
pub trait Generator<R> {
    /// Runs the task up to its next suspension or to its end.
    fn resume(&mut self, arg: R) -> GeneratorState;
}

/// A task behind a pointer, so that tasks of different kinds can share one
/// simulation.
pub type GenBoxed<R> = Box<dyn Generator<R>>;

impl<R> Generator<R> for Box<dyn Generator<R>> {
    fn resume(&mut self, arg: R) -> GeneratorState {
        (**self).resume(arg)
    }
}

} // verus!
