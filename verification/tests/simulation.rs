use rustsim::scheduler::ClockRef;
use rustsim::{
    Action, EntityState, GenBoxed, Generator, GeneratorState, Key, ShouldContinue, Simulation,
    State, StateKey, Violation,
};
use std::cell::{Cell, RefCell};
use std::rc::Rc;
use std::time::Duration;

/// Yields the given actions one after the other and then completes. Each
/// resumption is written to the log with the time that the clock shows.
struct Script {
    name: usize,
    steps: std::vec::IntoIter<Action>,
    clock: Option<ClockRef>,
    log: Rc<RefCell<Vec<(usize, Duration)>>>,
}

impl Generator<()> for Script {
    fn resume(&mut self, _arg: ()) -> GeneratorState {
        if let Some(clock) = &self.clock {
            self.log.borrow_mut().push((self.name, clock.time()));
        }
        match self.steps.next() {
            Some(action) => GeneratorState::Yielded(action),
            None => GeneratorState::Complete,
        }
    }
}

fn script(steps: Vec<Action>) -> Script {
    Script { name: 0, steps: steps.into_iter(), clock: None, log: Rc::new(RefCell::new(Vec::new())) }
}

fn logged(
    name: usize,
    steps: Vec<Action>,
    clock: ClockRef,
    log: &Rc<RefCell<Vec<(usize, Duration)>>>,
) -> Script {
    Script { name, steps: steps.into_iter(), clock: Some(clock), log: Rc::clone(log) }
}

fn secs(s: u64) -> Duration {
    Duration::from_secs(s)
}

const ADVANCE: Result<ShouldContinue, Violation> = Ok(ShouldContinue::Advance);
const BREAK: Result<ShouldContinue, Violation> = Ok(ShouldContinue::Break);

#[test]
fn a_new_simulation_is_at_rest() {
    let mut simulation: Simulation<Script> = Simulation::default();
    assert_eq!(simulation.time(), Duration::ZERO);
    assert_eq!(simulation.clock().time(), Duration::ZERO);
    assert_eq!(simulation.entity_state(Key::new(0)), None);
    assert_eq!(simulation.step(), BREAK);
    assert_eq!(simulation.run_until_empty(), Ok(()));
    assert_eq!(simulation.time(), Duration::ZERO);
}

#[test]
fn added_tasks_are_active_and_wait_to_be_scheduled() {
    let mut simulation: Simulation<_> = Simulation::default();
    let a = simulation.add_generator(script(vec![]));
    let b = simulation.add_generator(script(vec![]));
    assert_eq!((a.id(), b.id()), (0, 1));
    assert_eq!(simulation.entity_state(a), Some(EntityState::Active));
    assert_eq!(simulation.entity_state(b), Some(EntityState::Active));
    assert_eq!(simulation.entity_state(Key::new(2)), None);
    assert_eq!(simulation.entity_state(Key::dummy()), None);
    assert_eq!(simulation.step(), BREAK);
}

#[test]
fn hold_resumes_the_task_after_the_delay() {
    let mut simulation: Simulation<_> = Simulation::default();
    let log = Rc::new(RefCell::new(Vec::new()));
    let steps = vec![
        Action::Hold(Duration::new(1, 500_000_000)),
        Action::Hold(Duration::new(2, 250_000_000)),
        Action::Hold(Duration::ZERO),
    ];
    let key = simulation.add_generator(logged(1, steps, simulation.clock(), &log));
    simulation.schedule(secs(1), key);
    assert_eq!(simulation.run_until_empty(), Ok(()));
    assert_eq!(
        *log.borrow(),
        vec![
            (1, secs(1)),
            (1, Duration::new(2, 500_000_000)),
            (1, Duration::new(4, 750_000_000)),
            (1, Duration::new(4, 750_000_000))
        ]
    );
    assert_eq!(simulation.time(), Duration::new(4, 750_000_000));
    assert_eq!(simulation.entity_state(key), None);
}

#[test]
fn passivate_puts_the_task_to_rest() {
    let mut simulation: Simulation<_> = Simulation::default();
    let key = simulation.add_generator(script(vec![Action::Passivate]));
    simulation.schedule_now(key);
    assert_eq!(simulation.step(), ADVANCE);
    assert_eq!(simulation.entity_state(key), Some(EntityState::Passive));
    assert_eq!(simulation.step(), BREAK);
    assert_eq!(simulation.entity_state(key), Some(EntityState::Passive));
}

#[test]
fn activate_one_wakes_a_passive_task_at_the_present_time() {
    let mut simulation: Simulation<_> = Simulation::default();
    let log = Rc::new(RefCell::new(Vec::new()));
    let sleeper = simulation.add_generator(logged(
        0,
        vec![Action::Passivate, Action::Hold(secs(1))],
        simulation.clock(),
        &log,
    ));
    let waker = simulation.add_generator(logged(
        1,
        vec![Action::Hold(secs(3)), Action::activate_one(sleeper)],
        simulation.clock(),
        &log,
    ));
    simulation.schedule_now(sleeper);
    simulation.schedule(secs(1), waker);
    assert_eq!(simulation.step(), ADVANCE);
    assert_eq!(simulation.entity_state(sleeper), Some(EntityState::Passive));
    assert_eq!(simulation.step(), ADVANCE);
    assert_eq!(simulation.step(), ADVANCE);
    assert_eq!(simulation.time(), secs(4));
    assert_eq!(simulation.entity_state(sleeper), Some(EntityState::Active));
    assert_eq!(simulation.entity_state(waker), Some(EntityState::Active));
    assert_eq!(simulation.run_until_empty(), Ok(()));
    let mut log = log.borrow().clone();
    log.sort();
    assert_eq!(
        log,
        vec![(0, secs(0)), (0, secs(4)), (0, secs(5)), (1, secs(1)), (1, secs(4)), (1, secs(4))]
    );
    assert_eq!(simulation.time(), secs(5));
}

#[test]
fn activate_one_on_an_active_task_is_a_violation() {
    let mut simulation: Simulation<_> = Simulation::default();
    let target = simulation.add_generator(script(vec![]));
    let key = simulation.add_generator(script(vec![Action::ActivateOne(target)]));
    simulation.schedule_now(key);
    assert_eq!(simulation.step(), Err(Violation::TargetActive { key, target }));
    assert_eq!(simulation.entity_state(target), Some(EntityState::Active));
}

#[test]
fn a_task_cannot_activate_itself() {
    let mut simulation: Simulation<_> = Simulation::default();
    let key = simulation.add_generator(script(vec![Action::ActivateOne(Key::new(0))]));
    simulation.schedule_now(key);
    assert_eq!(simulation.step(), Err(Violation::TargetActive { key, target: key }));
}

#[test]
fn activate_one_on_a_missing_task_is_a_violation() {
    let mut simulation: Simulation<_> = Simulation::default();
    let key = simulation.add_generator(script(vec![Action::ActivateOne(Key::dummy())]));
    simulation.schedule_now(key);
    assert_eq!(simulation.step(), Err(Violation::NoSuchTarget { key, target: Key::dummy() }));
}

#[test]
fn activate_many_wakes_each_task_in_order() {
    let mut simulation: Simulation<_> = Simulation::default();
    let first = simulation.add_generator(script(vec![Action::Passivate]));
    let second = simulation.add_generator(script(vec![Action::Passivate]));
    let third = simulation.add_generator(script(vec![Action::Passivate]));
    let waker = simulation.add_generator(script(vec![
        Action::Hold(secs(2)),
        Action::activate_many(vec![third, first]),
    ]));
    for key in [first, second, third, waker] {
        simulation.schedule_now(key);
    }
    for _ in 0..4 {
        assert_eq!(simulation.step(), ADVANCE);
    }
    assert_eq!(simulation.time(), secs(0));
    assert_eq!(simulation.step(), ADVANCE);
    assert_eq!(simulation.time(), secs(2));
    assert_eq!(simulation.entity_state(first), Some(EntityState::Active));
    assert_eq!(simulation.entity_state(second), Some(EntityState::Passive));
    assert_eq!(simulation.entity_state(third), Some(EntityState::Active));
    assert_eq!(simulation.run_until_empty(), Ok(()));
    assert_eq!(simulation.time(), secs(2));
    assert_eq!(simulation.entity_state(first), None);
    assert_eq!(simulation.entity_state(second), Some(EntityState::Passive));
    assert_eq!(simulation.entity_state(third), None);
    assert_eq!(simulation.entity_state(waker), None);
}

#[test]
fn activate_many_stops_at_the_first_task_it_cannot_wake() {
    let mut simulation: Simulation<_> = Simulation::default();
    let first = simulation.add_generator(script(vec![Action::Passivate]));
    let second = simulation.add_generator(script(vec![Action::Passivate]));
    let key = simulation.add_generator(script(vec![
        Action::Hold(secs(1)),
        Action::ActivateMany(vec![first, first, second]),
    ]));
    for k in [first, second, key] {
        simulation.schedule_now(k);
    }
    for _ in 0..3 {
        assert_eq!(simulation.step(), ADVANCE);
    }
    assert_eq!(simulation.step(), Err(Violation::TargetActive { key, target: first }));
    assert_eq!(simulation.entity_state(first), Some(EntityState::Active));
    assert_eq!(simulation.entity_state(second), Some(EntityState::Passive));
}

#[test]
fn activate_many_of_nothing_only_resumes_the_task() {
    let mut simulation: Simulation<_> = Simulation::default();
    let key = simulation.add_generator(script(vec![Action::ActivateMany(vec![])]));
    simulation.schedule(secs(1), key);
    assert_eq!(simulation.step(), ADVANCE);
    assert_eq!(simulation.entity_state(key), Some(EntityState::Active));
    assert_eq!(simulation.step(), ADVANCE);
    assert_eq!(simulation.entity_state(key), None);
    assert_eq!(simulation.time(), secs(1));
}

#[test]
fn cancel_puts_the_target_to_rest_and_withdraws_its_event() {
    let mut simulation: Simulation<_> = Simulation::default();
    let log = Rc::new(RefCell::new(Vec::new()));
    let target =
        simulation.add_generator(logged(0, vec![Action::Hold(secs(10))], simulation.clock(), &log));
    let key = simulation.add_generator(logged(
        1,
        vec![Action::Hold(secs(2)), Action::Cancel(target)],
        simulation.clock(),
        &log,
    ));
    simulation.schedule_now(target);
    simulation.schedule_now(key);
    assert_eq!(simulation.step(), ADVANCE);
    assert_eq!(simulation.step(), ADVANCE);
    assert_eq!(simulation.step(), ADVANCE);
    assert_eq!(simulation.time(), secs(2));
    assert_eq!(simulation.entity_state(target), Some(EntityState::Passive));
    assert_eq!(simulation.run_until_empty(), Ok(()));
    assert_eq!(simulation.time(), secs(2));
    assert_eq!(simulation.entity_state(target), Some(EntityState::Passive));
    assert_eq!(simulation.entity_state(key), None);
    let mut log = log.borrow().clone();
    log.sort();
    assert_eq!(log, vec![(0, secs(0)), (1, secs(0)), (1, secs(2)), (1, secs(2))]);
}

#[test]
fn cancel_of_a_passive_task_is_a_violation() {
    let mut simulation: Simulation<_> = Simulation::default();
    let target = simulation.add_generator(script(vec![Action::Passivate]));
    let key = simulation.add_generator(script(vec![Action::Hold(secs(1)), Action::Cancel(target)]));
    simulation.schedule_now(target);
    simulation.schedule_now(key);
    assert_eq!(simulation.step(), ADVANCE);
    assert_eq!(simulation.step(), ADVANCE);
    assert_eq!(simulation.step(), Err(Violation::TargetPassive { key, target }));
}

#[test]
fn cancel_of_a_task_without_event_is_a_violation() {
    let mut simulation: Simulation<_> = Simulation::default();
    let target = simulation.add_generator(script(vec![]));
    let key = simulation.add_generator(script(vec![Action::Cancel(target)]));
    simulation.schedule_now(key);
    assert_eq!(simulation.step(), Err(Violation::TargetNotScheduled { key, target }));
    assert_eq!(simulation.entity_state(target), Some(EntityState::Active));
}

#[test]
fn cancel_of_a_missing_task_is_a_violation() {
    let mut simulation: Simulation<_> = Simulation::default();
    let key = simulation.add_generator(script(vec![Action::Cancel(Key::new(8))]));
    simulation.schedule_now(key);
    assert_eq!(simulation.step(), Err(Violation::NoSuchTarget { key, target: Key::new(8) }));
}

#[test]
fn a_task_cannot_cancel_itself_in_its_own_turn() {
    let mut simulation: Simulation<_> = Simulation::default();
    let key = simulation.add_generator(script(vec![Action::Cancel(Key::new(0))]));
    simulation.schedule_now(key);
    assert_eq!(simulation.step(), Err(Violation::TargetNotScheduled { key, target: key }));
    assert_eq!(simulation.entity_state(key), Some(EntityState::Active));
}

#[test]
fn a_cancel_is_judged_before_the_task_is_requested() {
    let mut simulation: Simulation<_> = Simulation::default();
    let key = simulation.add_generator(script(vec![]));
    // no event of the task is pending: the cancel fails, and the task has been requested
    assert_eq!(
        simulation.apply(key, GeneratorState::Yielded(Action::Cancel(key))),
        Err(Violation::TargetNotScheduled { key, target: key })
    );
    assert_eq!(simulation.entity_state(key), Some(EntityState::Active));
    // now an event of the task is pending: the cancel withdraws it
    assert_eq!(simulation.apply(key, GeneratorState::Yielded(Action::Cancel(key))), Ok(()));
    assert_eq!(simulation.entity_state(key), Some(EntityState::Passive));
    assert_eq!(simulation.step(), BREAK);
}

#[test]
fn a_passive_task_may_ask_for_nothing() {
    let asks: Vec<(Action, fn(Key) -> Violation)> = vec![
        (Action::Hold(secs(1)), |key| Violation::HoldWhilePassive { key }),
        (Action::Passivate, |key| Violation::PassivateWhilePassive { key }),
        (Action::ActivateOne(Key::new(1)), |key| Violation::ActivateWhilePassive { key }),
        (Action::ActivateMany(vec![Key::new(1)]), |key| Violation::ActivateWhilePassive { key }),
        (Action::Cancel(Key::new(1)), |key| Violation::CancelWhilePassive {
            key,
            target: Key::new(1),
        }),
    ];
    for (ask, violation) in asks {
        let mut simulation: Simulation<_> = Simulation::default();
        let key = simulation.add_generator(script(vec![Action::Passivate, ask]));
        let other = simulation.add_generator(script(vec![Action::Passivate]));
        simulation.schedule_now(key);
        simulation.schedule_now(other);
        assert_eq!(simulation.step(), ADVANCE);
        assert_eq!(simulation.step(), ADVANCE);
        // the passive task is scheduled by hand and then speaks out of turn
        simulation.schedule(secs(1), key);
        assert_eq!(simulation.step(), Err(violation(key)));
        assert_eq!(simulation.time(), secs(1));
        assert_eq!(simulation.entity_state(key), Some(EntityState::Passive));
        assert_eq!(simulation.entity_state(other), Some(EntityState::Passive));
    }
}

#[test]
fn the_event_of_a_task_that_was_never_added_is_a_violation() {
    let mut simulation: Simulation<Script> = Simulation::default();
    let key = Key::new(3);
    simulation.schedule(secs(2), key);
    assert_eq!(simulation.step(), Err(Violation::NoSuchTask { key }));
    assert_eq!(simulation.time(), secs(2));
    assert_eq!(simulation.step(), BREAK);
}

#[test]
fn the_event_of_a_task_that_has_completed_is_a_violation() {
    let mut simulation: Simulation<_> = Simulation::default();
    let key = simulation.add_generator(script(vec![]));
    simulation.schedule_now(key);
    assert_eq!(simulation.step(), ADVANCE);
    assert_eq!(simulation.entity_state(key), None);
    simulation.schedule_now(key);
    assert_eq!(simulation.step(), Err(Violation::NoSuchTask { key }));
    assert_eq!(simulation.run_until_empty(), Ok(()));
}

#[test]
fn a_hold_beyond_the_range_of_time_is_a_violation() {
    let mut simulation: Simulation<_> = Simulation::default();
    let key = simulation.add_generator(script(vec![Action::Hold(Duration::MAX), Action::Passivate]));
    simulation.schedule(Duration::from_nanos(1), key);
    assert_eq!(simulation.step(), Err(Violation::TimeOverflow { key }));
    assert_eq!(simulation.time(), Duration::from_nanos(1));
    assert_eq!(simulation.step(), BREAK);

    let mut simulation: Simulation<_> = Simulation::default();
    let key = simulation.add_generator(script(vec![Action::Hold(Duration::MAX), Action::Passivate]));
    simulation.schedule_now(key);
    assert_eq!(simulation.step(), ADVANCE);
    assert_eq!(simulation.step(), ADVANCE);
    assert_eq!(simulation.time(), Duration::MAX);
}

#[test]
fn checked_schedule_tells_whether_the_time_fits() {
    let mut simulation: Simulation<_> = Simulation::default();
    let key = simulation.add_generator(script(vec![Action::Hold(secs(1))]));
    let other = simulation.add_generator(script(vec![]));
    simulation.schedule(secs(1), key);
    assert_eq!(simulation.step(), ADVANCE);
    assert!(!simulation.checked_schedule(Duration::MAX, other));
    assert!(simulation.checked_schedule(Duration::MAX, key));
    assert!(simulation.checked_schedule(secs(3), other));
    assert_eq!(simulation.run_until_empty(), Ok(()));
    assert_eq!(simulation.time(), secs(4));
}

#[test]
fn apply_takes_the_answer_of_a_task_as_it_is_given() {
    let mut simulation: Simulation<_> = Simulation::default();
    let a = simulation.add_generator(script(vec![]));
    let b = simulation.add_generator(script(vec![]));
    assert_eq!(simulation.apply(a, GeneratorState::Yielded(Action::Passivate)), Ok(()));
    assert_eq!(simulation.entity_state(a), Some(EntityState::Passive));
    assert_eq!(
        simulation.apply(a, GeneratorState::Yielded(Action::Passivate)),
        Err(Violation::PassivateWhilePassive { key: a })
    );
    assert_eq!(simulation.apply(b, GeneratorState::Yielded(Action::ActivateOne(a))), Ok(()));
    assert_eq!(simulation.entity_state(a), Some(EntityState::Active));
    assert_eq!(simulation.apply(b, GeneratorState::Yielded(Action::Cancel(a))), Ok(()));
    assert_eq!(simulation.entity_state(a), Some(EntityState::Passive));
    assert_eq!(simulation.apply(a, GeneratorState::Complete), Ok(()));
    assert_eq!(simulation.entity_state(a), None);
    assert_eq!(
        simulation.apply(a, GeneratorState::Complete),
        Err(Violation::NoSuchTask { key: a })
    );
    assert_eq!(
        simulation.apply(b, GeneratorState::Yielded(Action::Hold(secs(7)))),
        Ok(())
    );
    // b was requested at 0 when it activated a: the hold changes nothing
    assert_eq!(simulation.step(), ADVANCE);
    assert_eq!(simulation.time(), secs(0));
}

#[test]
fn run_until_empty_leaves_no_task_behind() {
    let mut simulation: Simulation<_> = Simulation::default();
    let log = Rc::new(RefCell::new(Vec::new()));
    let mut keys = Vec::new();
    for name in 0..5usize {
        let steps = (0..name).map(|i| Action::Hold(secs(1 + i as u64))).collect();
        keys.push(simulation.add_generator(logged(name, steps, simulation.clock(), &log)));
    }
    for key in &keys {
        simulation.schedule(secs(key.id() as u64), *key);
    }
    assert_eq!(simulation.run_until_empty(), Ok(()));
    for key in &keys {
        assert_eq!(simulation.entity_state(*key), None);
    }
    // task 4 starts at 4 and holds 1, 2, 3 and 4 seconds
    assert_eq!(simulation.time(), secs(14));
    let log = log.borrow();
    assert_eq!(log.last(), Some(&(4, secs(14))));
    assert_eq!(log.len(), 5 + 0 + 1 + 2 + 3 + 4);
    assert!(log.windows(2).all(|pair| pair[0].1 <= pair[1].1));
    assert_eq!(simulation.step(), BREAK);
}

#[test]
fn run_with_limit_finishes_the_event_that_reaches_the_limit() {
    let mut simulation: Simulation<_> = Simulation::default();
    let log = Rc::new(RefCell::new(Vec::new()));
    let steps = (0..10).map(|_| Action::Hold(secs(4))).collect();
    let key = simulation.add_generator(logged(0, steps, simulation.clock(), &log));
    simulation.schedule_now(key);
    assert_eq!(simulation.run_with_limit(secs(10)), Ok(()));
    assert_eq!(simulation.time(), secs(12));
    assert_eq!(*log.borrow(), vec![(0, secs(0)), (0, secs(4)), (0, secs(8)), (0, secs(12))]);
    assert_eq!(simulation.entity_state(key), Some(EntityState::Active));
    // the event at 16 is pending
    assert_eq!(simulation.run_with_limit(secs(16)), Ok(()));
    assert_eq!(simulation.time(), secs(16));
    assert_eq!(simulation.run_with_limit(secs(1000)), Ok(()));
    assert_eq!(simulation.time(), secs(40));
    assert_eq!(simulation.entity_state(key), None);
}

#[test]
fn run_with_limit_processes_one_event_at_least() {
    let mut simulation: Simulation<_> = Simulation::default();
    let key = simulation.add_generator(script(vec![Action::Hold(secs(1)), Action::Hold(secs(1))]));
    simulation.schedule(secs(5), key);
    assert_eq!(simulation.run_with_limit(Duration::ZERO), Ok(()));
    assert_eq!(simulation.time(), secs(5));
    assert_eq!(simulation.run_with_limit(Duration::ZERO), Ok(()));
    assert_eq!(simulation.time(), secs(6));
}

#[test]
fn run_bounded_gives_up_at_the_event_limit() {
    struct Forever;
    impl Generator<()> for Forever {
        fn resume(&mut self, _arg: ()) -> GeneratorState {
            GeneratorState::Yielded(Action::Hold(Duration::from_secs(1)))
        }
    }
    let mut simulation: Simulation<_> = Simulation::default();
    let key = simulation.add_generator(Forever);
    simulation.schedule_now(key);
    assert_eq!(simulation.run_bounded(None, 0), Err(Violation::EventLimit));
    assert_eq!(simulation.time(), secs(0));
    assert_eq!(simulation.run_bounded(None, 10), Err(Violation::EventLimit));
    assert_eq!(simulation.time(), secs(9));
    assert_eq!(simulation.run_bounded(Some(secs(12)), 10), Ok(()));
    assert_eq!(simulation.time(), secs(12));
    assert_eq!(simulation.run_bounded(Some(secs(100)), 5), Err(Violation::EventLimit));
    assert_eq!(simulation.time(), secs(17));
}

#[test]
fn run_bounded_comes_to_rest_on_its_last_event() {
    let mut simulation: Simulation<_> = Simulation::default();
    let key = simulation.add_generator(script(vec![Action::Hold(secs(2))]));
    simulation.schedule_now(key);
    // two events: the start of the task and its end after the hold
    assert_eq!(simulation.run_bounded(None, 1), Err(Violation::EventLimit));
    assert_eq!(simulation.run_bounded(None, 1), Ok(()));
    assert_eq!(simulation.time(), secs(2));
    assert_eq!(simulation.entity_state(key), None);
    assert_eq!(simulation.run_bounded(None, 0), Ok(()));
    assert_eq!(simulation.run_bounded(Some(secs(1)), 0), Ok(()));
}

#[test]
fn actions_are_made_and_copied() {
    let one = Action::activate_one(Key::new(3));
    assert!(matches!(one, Action::ActivateOne(key) if key == Key::new(3)));
    let many = Action::activate_many(vec![Key::new(1), Key::new(2)]);
    assert!(matches!(&many, Action::ActivateMany(keys) if *keys == vec![Key::new(1), Key::new(2)]));
    let hold = Action::Hold(Duration::new(2, 7));
    assert!(matches!(hold.clone(), Action::Hold(delay) if delay == Duration::new(2, 7)));
    assert!(matches!(many.clone(), Action::ActivateMany(keys) if keys.len() == 2));
    let yielded = GeneratorState::Yielded(hold);
    assert!(matches!(yielded.clone(), GeneratorState::Yielded(Action::Hold(_))));
}

#[test]
fn a_run_with_limit_stops_after_the_event_that_crosses_it() {
    struct Holder {
        resumed: Rc<Cell<u32>>,
    }
    impl Generator<()> for Holder {
        fn resume(&mut self, _arg: ()) -> GeneratorState {
            self.resumed.set(self.resumed.get() + 1);
            GeneratorState::Yielded(Action::Hold(Duration::from_secs(5)))
        }
    }
    let resumed = Rc::new(Cell::new(0));
    let mut simulation: Simulation<_> = Simulation::default();
    let key = simulation.add_generator(Holder { resumed: Rc::clone(&resumed) });
    simulation.schedule_now(key);
    assert_eq!(simulation.run_with_limit(secs(12)), Ok(()));
    assert_eq!(simulation.time(), secs(15));
    assert_eq!(resumed.get(), 4);
    assert_eq!(simulation.entity_state(key), Some(EntityState::Active));
}

#[test]
fn a_run_ends_at_the_time_of_its_last_event() {
    let mut simulation: Simulation<_> = Simulation::default();
    let log = Rc::new(RefCell::new(Vec::new()));
    let steps = vec![Action::Hold(secs(2)), Action::Hold(secs(2)), Action::Hold(secs(2))];
    let key = simulation.add_generator(logged(0, steps, simulation.clock(), &log));
    simulation.schedule_now(key);
    assert_eq!(simulation.run_until_empty(), Ok(()));
    assert_eq!(simulation.time(), secs(6));
    assert_eq!(*log.borrow(), vec![(0, secs(0)), (0, secs(2)), (0, secs(4)), (0, secs(6))]);
    assert_eq!(simulation.entity_state(key), None);
    assert_eq!(simulation.step(), BREAK);
    assert_eq!(simulation.time(), secs(6));
}

#[test]
fn a_violation_ends_the_run() {
    let mut simulation: Simulation<_> = Simulation::default();
    let target = simulation.add_generator(script(vec![Action::Hold(secs(5)), Action::Hold(secs(5))]));
    let key = simulation.add_generator(script(vec![
        Action::Hold(secs(7)),
        Action::ActivateOne(target),
        Action::Hold(secs(1)),
    ]));
    simulation.schedule_now(target);
    simulation.schedule_now(key);
    assert_eq!(simulation.run_until_empty(), Err(Violation::TargetActive { key, target }));
    assert_eq!(simulation.time(), secs(7));
    assert_eq!(simulation.entity_state(target), Some(EntityState::Active));
}

#[test]
fn tasks_are_resumed_with_the_value_given() {
    struct Adder {
        total: Rc<Cell<u64>>,
    }
    impl Generator<u64> for Adder {
        fn resume(&mut self, arg: u64) -> GeneratorState {
            self.total.set(self.total.get() + arg);
            if arg == 0 {
                GeneratorState::Complete
            } else {
                GeneratorState::Yielded(Action::Hold(Duration::from_secs(arg)))
            }
        }
    }
    let total = Rc::new(Cell::new(0));
    let mut simulation: Simulation<_> = Simulation::default();
    let key = simulation.add_generator(Adder { total: Rc::clone(&total) });
    simulation.schedule_now(key);
    assert_eq!(simulation.step_with(3), ADVANCE);
    assert_eq!(simulation.step_with(4), ADVANCE);
    assert_eq!(simulation.time(), secs(3));
    assert_eq!(simulation.step_with(0), ADVANCE);
    assert_eq!(simulation.time(), secs(7));
    assert_eq!(simulation.step_with(9), BREAK);
    assert_eq!(total.get(), 7);
    assert_eq!(simulation.entity_state(key), None);
}

#[test]
fn the_store_is_shared_through_the_simulation() {
    let simulation: Simulation<Script> = Simulation::default();
    let shared = simulation.state();
    let mut state = shared.take();
    let key = state.insert(11u64);
    shared.set(state);
    let again = simulation.state();
    let state = again.take();
    assert_eq!(state.get(key), Some(&11));
    again.set(state);
    assert_eq!(shared.take().len(), 1);
}

/// Where an entity stands in its cycle of holding, activating the other and
/// passivating.
enum Stage {
    Start,
    AfterFirstPassivate,
    AfterHold,
    AfterActivate,
    AfterPassivate,
}

/// One of the two entities that hand the turn to each other.
struct Entity {
    stage: Stage,
    starts_passive: bool,
    shared_state: Rc<Cell<State>>,
    /// The slot through which the entity learns the other's handle.
    other_slot: Option<StateKey<Option<Key>>>,
    other: Option<Key>,
    my_flag: StateKey<bool>,
    other_flag: StateKey<bool>,
    clock: ClockRef,
    wakeups: Rc<RefCell<Vec<Duration>>>,
}

impl Entity {
    fn set_passive(&mut self, passive: bool) {
        let mut state = self.shared_state.take();
        *state.get_mut(self.my_flag).unwrap() = passive;
        self.shared_state.set(state);
    }

    fn other_is_passive(&self) -> bool {
        let state = self.shared_state.take();
        let passive = *state.get(self.other_flag).unwrap();
        self.shared_state.set(state);
        passive
    }

    fn passivate(&mut self) -> GeneratorState {
        self.set_passive(true);
        self.stage = Stage::AfterPassivate;
        GeneratorState::Yielded(Action::Passivate)
    }

    fn hold(&mut self) -> GeneratorState {
        self.stage = Stage::AfterHold;
        GeneratorState::Yielded(Action::Hold(Duration::from_secs(5)))
    }
}

impl Generator<()> for Entity {
    fn resume(&mut self, _arg: ()) -> GeneratorState {
        match self.stage {
            Stage::Start => {
                if let Some(slot) = self.other_slot.take() {
                    let mut state = self.shared_state.take();
                    self.other = state.remove(slot).flatten();
                    self.shared_state.set(state);
                }
                if self.starts_passive {
                    self.set_passive(true);
                    self.stage = Stage::AfterFirstPassivate;
                    GeneratorState::Yielded(Action::Passivate)
                } else {
                    self.hold()
                }
            }
            Stage::AfterFirstPassivate | Stage::AfterPassivate => {
                self.set_passive(false);
                self.hold()
            }
            Stage::AfterHold => {
                self.wakeups.borrow_mut().push(self.clock.time());
                if self.other_is_passive() {
                    self.stage = Stage::AfterActivate;
                    GeneratorState::Yielded(Action::ActivateOne(self.other.unwrap()))
                } else {
                    self.passivate()
                }
            }
            Stage::AfterActivate => self.passivate(),
        }
    }
}

#[test]
fn handshake_of_two_entities() {
    let mut simulation: Simulation<GenBoxed<()>> = Simulation::default();
    let shared_state = simulation.state();
    let mut state = shared_state.take();
    let entity_b_key: StateKey<Option<Key>> = state.insert(None);
    let a_passive = state.insert(false);
    let b_passive = state.insert(false);
    let wakeups = Rc::new(RefCell::new(Vec::new()));

    let a_key = simulation.add_generator(Box::new(Entity {
        stage: Stage::Start,
        starts_passive: false,
        shared_state: Rc::clone(&shared_state),
        other_slot: Some(entity_b_key),
        other: None,
        my_flag: a_passive,
        other_flag: b_passive,
        clock: simulation.clock(),
        wakeups: Rc::clone(&wakeups),
    }));
    let b_key = simulation.add_generator(Box::new(Entity {
        stage: Stage::Start,
        starts_passive: true,
        shared_state: Rc::clone(&shared_state),
        other_slot: None,
        other: Some(a_key),
        my_flag: b_passive,
        other_flag: a_passive,
        clock: simulation.clock(),
        wakeups: Rc::clone(&wakeups),
    }));
    *state.get_mut(entity_b_key).unwrap() = Some(b_key);
    shared_state.set(state);

    simulation.schedule_now(b_key);
    simulation.schedule_now(a_key);

    assert_eq!(simulation.run_with_limit(Duration::from_secs(60)), Ok(()));

    let expected: Vec<Duration> = (1..=12).map(|i| Duration::from_secs(5 * i)).collect();
    assert_eq!(*wakeups.borrow(), expected);
    assert_eq!(wakeups.borrow().len(), 12);
    assert_eq!(simulation.time(), Duration::from_secs(60));
    assert_eq!(simulation.clock().time(), Duration::from_secs(60));
}
