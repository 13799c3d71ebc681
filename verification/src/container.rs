use crate::keys::Key;
use crate::{Generator, GeneratorState};
use vstd::prelude::*;

verus! {

/// Whether a task takes part in the simulation at present. An active task may
/// hold, passivate, activate others or cancel them; a passive task waits to
/// be activated.
#[derive(Debug, Clone, Copy, PartialEq, Eq, Structural)]
pub enum EntityState {
    Passive,
    Active,
}

/// The state of the task that `key` names among `tasks`, or `None` where it
/// names an empty slot or none at all.
pub open spec fn state_of(tasks: Seq<Option<EntityState>>, key: Key) -> Option<EntityState> {
    if key.id < tasks.len() {
        tasks[key.id as int]
    } else {
        None
    }
}

/// `tasks` with the slot that `key` names, if there is one, set to `slot`.
pub open spec fn with_slot(
    tasks: Seq<Option<EntityState>>,
    key: Key,
    slot: Option<EntityState>,
) -> Seq<Option<EntityState>> {
    if key.id < tasks.len() {
        tasks.update(key.id as int, slot)
    } else {
        tasks
    }
}

/// What a slot holds: a task, its state, and whether the task has completed.
struct Slot<G> {
    task: G,
    state: EntityState,
    done: bool,
}

/// The registry of tasks: one slot per task ever added, in the order of
/// their addition. A slot holds the task and its state until the task is
/// removed, and stays empty from then on. A task that has completed stands
/// in its slot until it is removed, and is not resumed again.
///
/// Seen from outside it is the sequence of the slots' states.
pub struct Container<G> {
    inner: Vec<Option<Slot<G>>>,
}

impl<G> View for Container<G> {
    type V = Seq<Option<EntityState>>;

    closed spec fn view(&self) -> Seq<Option<EntityState>> {
        Seq::new(
            self.inner@.len(),
            |i: int|
                match self.inner@[i] {
                    Some(slot) => Some(slot.state),
                    None => None,
                },
        )
    }
}

impl<G> Default for Container<G> {
    fn default() -> (container: Container<G>)
        ensures
            container@ == Seq::<Option<EntityState>>::empty(),
            forall|key: Key| !container.finished(key),
    {
        let container = Container { inner: Vec::new() };
        assert(container@ =~= Seq::<Option<EntityState>>::empty());
        container
    }
}

impl<G> Container<G> {
    /// The task that slot `i` holds, or nothing.
    pub closed spec fn task(&self, i: int) -> Option<G> {
        match self.inner@[i] {
            Some(slot) => Some(slot.task),
            None => None,
        }
    }

    /// Whether the task that `key` names has completed and stands in its
    /// slot still. Such a task cannot be resumed.
    pub closed spec fn finished(&self, key: Key) -> bool {
        key.id < self.inner@.len() && match self.inner@[key.id as int] {
            Some(slot) => slot.done,
            None => false,
        }
    }

    /// The slot that `key` names holds `task`.
    pub open spec fn has_task(&self, key: Key, task: G) -> bool {
        &&& state_of(self@, key) is Some
        &&& self.task(key.id as int) == Some(task)
    }

    /// The slots other than that of `key` hold in `after` the tasks that they
    /// hold in `self`, and their tasks have completed in the one if they have
    /// in the other.
    pub open spec fn others_kept(&self, after: &Container<G>, key: Key) -> bool {
        &&& forall|i: int| 0 <= i < self@.len() && i != key.id ==> after.task(i) == self.task(i)
        &&& forall|other: Key| other != key ==> after.finished(other) == self.finished(other)
    }

    /// A slot holds a task exactly where it has a state, and only a task that
    /// stands in its slot has completed there.
    pub proof fn lemma_occupied(&self)
        ensures
            forall|i: int| 0 <= i < self@.len() ==> (#[trigger] self.task(i) is Some) == (self@[i] is Some),
            forall|key: Key| self.finished(key) ==> state_of(self@, key) is Some,
    {
    }

    /// Registers `gen` as a new task, in state active, and returns its handle.
    pub fn add_generator(&mut self, gen: G) -> (key: Key)
        ensures
            key.id == old(self)@.len(),
            final(self)@ == old(self)@.push(Some(EntityState::Active)),
            final(self).task(key.id as int) == Some(gen),
            !final(self).finished(key),
            old(self).others_kept(final(self), key),
    {
        let key = Key::new(self.inner.len());
        self.inner.push(Some(Slot { task: gen, state: EntityState::Active, done: false }));
        assert(self@ =~= old(self)@.push(Some(EntityState::Active)));
        key
    }

    /// Empties the slot that `key` names and returns what it held. The slot
    /// stays empty from then on.
    pub fn remove(&mut self, key: Key) -> (removed: Option<(G, EntityState)>)
        ensures
            final(self)@ == with_slot(old(self)@, key, None),
            match removed {
                Some(taken) => old(self).has_task(key, taken.0) && state_of(old(self)@, key)
                    == Some(taken.1),
                None => state_of(old(self)@, key) is None,
            },
            !final(self).finished(key),
            old(self).others_kept(final(self), key),
    {
        if key.id < self.inner.len() {
            let removed = match self.inner[key.id].take() {
                Some(slot) => Some((slot.task, slot.state)),
                None => None,
            };
            assert(self@ =~= with_slot(old(self)@, key, None));
            removed
        } else {
            None
        }
    }

    /// The number of slots, empty ones included.
    pub fn len(&self) -> (n: usize)
        ensures
            n == self@.len(),
    {
        self.inner.len()
    }

    /// Whether no task was ever added.
    pub fn is_empty(&self) -> (r: bool)
        ensures
            r == (self@.len() == 0),
    {
        self.inner.len() == 0
    }

    /// Resumes the task that `key` names with `resume_with` and returns the
    /// answer that the task's `resume` gives. The slot then holds the task as
    /// that call has left it; all states and all other tasks stay as they are.
    /// A task that answers that it has completed is marked, and stands in its
    /// slot until it is removed.
    ///
    /// The slot must hold a task that has not completed: a task that has
    /// completed, was removed or was never added cannot be resumed.
    pub fn step_with<R>(&mut self, key: Key, resume_with: R) -> (yielded: GeneratorState) where
        G: Generator<R>,

        requires
            state_of(old(self)@, key) is Some,
            !old(self).finished(key),
        ensures
            final(self)@ == old(self)@,
            final(self).finished(key) == (yielded is Complete),
            old(self).others_kept(final(self), key),
            exists|task: &mut G|
                #![trigger call_ensures(G::resume, (task, resume_with), yielded)]
                old(self).has_task(key, mut_ref_current(task))
                    && final(self).has_task(key, mut_ref_future(task))
                    && call_ensures(G::resume, (task, resume_with), yielded),
    {
        let yielded = match &mut self.inner[key.id] {
            Some(slot) => {
                if slot.done {
                    vstd::pervasive::unreached()
                } else {
                    let yielded = slot.task.resume(resume_with);
                    slot.done = match &yielded {
                        GeneratorState::Complete => true,
                        GeneratorState::Yielded(_) => false,
                    };
                    yielded
                }
            },
            None => vstd::pervasive::unreached(),
        };
        assert(self@ =~= old(self)@);
        yielded
    }

    /// The state of the task that `key` names, or `None` where the slot is
    /// empty or there is no such slot.
    #[must_use]
    pub fn get_state(&self, key: Key) -> (state: Option<&EntityState>)
        ensures
            match state {
                Some(s) => state_of(self@, key) == Some(*s),
                None => state_of(self@, key) is None,
            },
    {
        if key.id < self.inner.len() {
            match &self.inner[key.id] {
                Some(slot) => Some(&slot.state),
                None => None,
            }
        } else {
            None
        }
    }

    /// Whether the task that `key` names has completed and stands in its
    /// slot still.
    #[must_use]
    pub fn has_finished(&self, key: Key) -> (done: bool)
        ensures
            done == self.finished(key),
    {
        if key.id < self.inner.len() {
            match &self.inner[key.id] {
                Some(slot) => slot.done,
                None => false,
            }
        } else {
            false
        }
    }

    /// The state of the task that `key` names, to be changed in place, or
    /// `None` where the slot is empty or there is no such slot. The tasks
    /// stay as they are.
    #[must_use]
    pub fn get_state_mut(&mut self, key: Key) -> (state: Option<&mut EntityState>)
        ensures
            match state {
                Some(s) => {
                    &&& state_of(old(self)@, key) == Some(*s)
                    &&& final(self)@ == with_slot(old(self)@, key, Some(*final(s)))
                },
                None => state_of(old(self)@, key) is None && final(self)@ == old(self)@,
            },
            forall|i: int| 0 <= i < old(self)@.len() ==> final(self).task(i) == old(self).task(i),
            final(self).finished(key) == old(self).finished(key),
            old(self).others_kept(final(self), key),
    {
        if key.id < self.inner.len() {
            match &mut self.inner[key.id] {
                Some(slot) => Some(&mut slot.state),
                None => None,
            }
        } else {
            None
        }
    }
}

impl<G: Generator<()>> Container<G> {
    /// As [`Container::step_with`], for a task that takes no value on resumption.
    pub fn step(&mut self, key: Key) -> (yielded: GeneratorState)
        requires
            state_of(old(self)@, key) is Some,
            !old(self).finished(key),
        ensures
            final(self)@ == old(self)@,
            final(self).finished(key) == (yielded is Complete),
            old(self).others_kept(final(self), key),
            exists|task: &mut G|
                #![trigger call_ensures(G::resume, (task, ()), yielded)]
                old(self).has_task(key, mut_ref_current(task))
                    && final(self).has_task(key, mut_ref_future(task))
                    && call_ensures(G::resume, (task, ()), yielded),
    {
        self.step_with(key, ())
    }
}

} // verus!
