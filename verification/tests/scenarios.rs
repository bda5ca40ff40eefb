use local_executor::executor::Executor;
use local_executor::model::{Action, Event, Phase};

fn started() -> Executor<&'static str> {
    let mut ex = Executor::new();
    assert_eq!(ex.block_on(Event::Start), Ok(Action::PollRoot));
    ex
}

#[test]
fn drain_drives_in_the_order_of_pushing() {
    let mut ex = started();
    let a = ex.spawn("a").unwrap();
    let b = ex.spawn("b").unwrap();
    let c = ex.spawn("c").unwrap();
    assert_eq!(ex.block_on(Event::RootPolled { ready: false }), Ok(Action::Drive { task: a, computation: "a" }));
    assert_eq!(ex.block_on(Event::Driven { ready: true, computation: "a" }), Ok(Action::Drive { task: b, computation: "b" }));
    assert_eq!(ex.block_on(Event::Driven { ready: true, computation: "b" }), Ok(Action::Drive { task: c, computation: "c" }));
    assert_eq!(ex.block_on(Event::Driven { ready: true, computation: "c" }), Ok(Action::PollRoot));
    assert_eq!(ex.queue_len(), 0);
}

#[test]
fn what_is_queued_during_a_drain_waits_for_the_next() {
    let mut ex = started();
    let a = ex.spawn("a").unwrap();
    let b = ex.spawn("b").unwrap();
    assert_eq!(ex.block_on(Event::RootPolled { ready: false }), Ok(Action::Drive { task: a, computation: "a" }));
    // While a is driven it wakes itself and submits c.
    assert_eq!(ex.wake_by_ref(a), Ok(()));
    let c = ex.spawn("c").unwrap();
    assert_eq!(ex.block_on(Event::Driven { ready: false, computation: "a" }), Ok(Action::Drive { task: b, computation: "b" }));
    // The drain ends with b, though a and c are queued.
    assert_eq!(ex.block_on(Event::Driven { ready: true, computation: "b" }), Ok(Action::PollRoot));
    assert_eq!(ex.phase(), Phase::PollingRoot { drained: true });
    assert_eq!(ex.queue_len(), 2);
    assert_eq!(ex.block_on(Event::RootPolled { ready: false }), Ok(Action::PollRoot));
    // The next drain takes them in the order in which they were queued.
    assert_eq!(ex.block_on(Event::RootPolled { ready: false }), Ok(Action::Drive { task: a, computation: "a" }));
    assert_eq!(ex.block_on(Event::Driven { ready: true, computation: "a" }), Ok(Action::Drive { task: c, computation: "c" }));
    assert_eq!(ex.block_on(Event::Driven { ready: true, computation: "c" }), Ok(Action::PollRoot));
    assert_eq!(ex.block_on(Event::RootPolled { ready: false }), Ok(Action::Wait));
}

#[test]
fn duplicate_wakes_give_duplicate_drive_steps() {
    let mut ex = started();
    let a = ex.spawn("a").unwrap();
    assert_eq!(ex.block_on(Event::RootPolled { ready: false }), Ok(Action::Drive { task: a, computation: "a" }));
    assert_eq!(ex.wake_by_ref(a), Ok(()));
    assert_eq!(ex.wake_by_ref(a), Ok(()));
    assert_eq!(ex.queued(a), 2);
    assert_eq!(ex.block_on(Event::Driven { ready: false, computation: "a" }), Ok(Action::PollRoot));
    assert_eq!(ex.block_on(Event::RootPolled { ready: false }), Ok(Action::PollRoot));
    assert_eq!(ex.block_on(Event::RootPolled { ready: false }), Ok(Action::Drive { task: a, computation: "a" }));
    assert_eq!(ex.phase(), Phase::Draining { current: a, remaining: 1 });
    assert_eq!(ex.block_on(Event::Driven { ready: false, computation: "a" }), Ok(Action::Drive { task: a, computation: "a" }));
    assert_eq!(ex.block_on(Event::Driven { ready: false, computation: "a" }), Ok(Action::PollRoot));
    assert!(!ex.is_live(a));
}

#[test]
fn a_task_that_wakes_itself_during_its_own_step_is_driven_again() {
    let mut ex = started();
    let a = ex.spawn("a").unwrap();
    assert_eq!(ex.block_on(Event::RootPolled { ready: false }), Ok(Action::Drive { task: a, computation: "a" }));
    // The task is out of the queue and its step has not ended: the wake must not be lost.
    assert_eq!(ex.queue_len(), 0);
    assert_eq!(ex.wake_by_ref(a), Ok(()));
    assert_eq!(ex.block_on(Event::Driven { ready: false, computation: "a" }), Ok(Action::PollRoot));
    assert!(ex.is_live(a));
    assert_eq!(ex.queued(a), 1);
    assert_eq!(ex.block_on(Event::RootPolled { ready: false }), Ok(Action::PollRoot));
    assert_eq!(ex.block_on(Event::RootPolled { ready: false }), Ok(Action::Drive { task: a, computation: "a" }));
}

#[test]
fn root_that_becomes_ready_during_a_drain_returns_on_the_next_poll() {
    let mut ex = started();
    let a = ex.spawn("a").unwrap();
    let b = ex.spawn("b").unwrap();
    assert_eq!(ex.block_on(Event::RootPolled { ready: false }), Ok(Action::Drive { task: a, computation: "a" }));
    // a unblocks the root and queues more work.
    assert_eq!(ex.wake_by_ref(a), Ok(()));
    ex.spawn("c").unwrap();
    assert_eq!(ex.block_on(Event::Driven { ready: false, computation: "a" }), Ok(Action::Drive { task: b, computation: "b" }));
    assert_eq!(ex.block_on(Event::Driven { ready: false, computation: "b" }), Ok(Action::PollRoot));
    assert_eq!(ex.queue_len(), 2);
    assert_eq!(ex.block_on(Event::RootPolled { ready: true }), Ok(Action::Return));
    assert_eq!(ex.phase(), Phase::Done);
    assert_eq!(ex.queue_len(), 2);
}

/// What drives the two-task scenario: the first task completes at once and wakes the second,
/// the second completes only once it has been woken, the root once both have completed.
struct TwoTasks {
    ex: Executor<&'static str>,
    first: Option<u64>,
    second: Option<u64>,
    first_done: bool,
    second_woken: bool,
    second_done: bool,
    drains: u32,
    driven_in_drain: Vec<(u32, &'static str)>,
    waits: u32,
}

impl TwoTasks {
    fn poll_root(&mut self) -> bool {
        if self.first.is_none() {
            // The second task is submitted first, so that it has asked to be woken by the
            // time the first completes.
            self.second = Some(self.ex.spawn("second").unwrap());
            self.first = Some(self.ex.spawn("first").unwrap());
        }
        self.first_done && self.second_done
    }

    fn drive(&mut self, task: u64, name: &'static str) -> bool {
        self.driven_in_drain.push((self.drains, name));
        if Some(task) == self.first {
            assert_eq!(name, "first");
            self.first_done = true;
            // Completion fires the waker that the second task left.
            assert_eq!(self.ex.wake(self.second.unwrap()), Ok(()));
            self.second_woken = true;
            true
        } else {
            assert_eq!(name, "second");
            if self.second_woken {
                self.second_done = true;
                true
            } else {
                // Leaves a waker of its own to be woken with.
                assert_eq!(self.ex.clone_waker(task), Ok(()));
                false
            }
        }
    }

    fn run(&mut self) {
        let mut action = self.ex.block_on(Event::Start).unwrap();
        let mut in_drain = false;
        for _ in 0..100 {
            let event = match action {
                Action::PollRoot => {
                    in_drain = false;
                    Event::RootPolled { ready: self.poll_root() }
                }
                Action::Drive { task, computation } => {
                    if !in_drain {
                        in_drain = true;
                        self.drains += 1;
                    }
                    let ready = self.drive(task, computation);
                    Event::Driven { ready, computation }
                }
                Action::Wait => {
                    self.waits += 1;
                    Event::Woken
                }
                Action::Return => return,
            };
            action = self.ex.block_on(event).unwrap();
        }
        panic!("the run loop did not return");
    }
}

#[test]
fn two_dependent_tasks_take_two_drains() {
    let mut scenario = TwoTasks {
        ex: Executor::new(),
        first: None,
        second: None,
        first_done: false,
        second_woken: false,
        second_done: false,
        drains: 0,
        driven_in_drain: Vec::new(),
        waits: 0,
    };
    scenario.run();
    assert_eq!(scenario.ex.phase(), Phase::Done);
    assert_eq!(scenario.drains, 2);
    assert_eq!(scenario.driven_in_drain, vec![(1, "second"), (1, "first"), (2, "second")]);
    assert!(scenario.first_done && scenario.second_done);
    assert_eq!(scenario.waits, 0);
    assert!(!scenario.ex.is_live(scenario.first.unwrap()));
    assert!(!scenario.ex.is_live(scenario.second.unwrap()));
    assert_eq!(scenario.ex.queue_len(), 0);
}

#[test]
fn root_that_is_never_ready_waits_once_in_every_iteration() {
    let mut ex: Executor<&'static str> = Executor::new();
    let mut action = ex.block_on(Event::Start).unwrap();
    let mut actions = Vec::new();
    for _ in 0..30 {
        let event = match action {
            Action::PollRoot => Event::RootPolled { ready: false },
            Action::Wait => Event::Woken,
            other => panic!("unexpected action {:?}", other),
        };
        actions.push(action);
        action = ex.block_on(event).unwrap();
    }
    let mut polls_since_wait = 0;
    let mut waits = 0;
    for action in &actions {
        match action {
            Action::Wait => {
                assert_eq!(polls_since_wait, 2);
                polls_since_wait = 0;
                waits += 1;
            }
            _ => {
                polls_since_wait += 1;
                assert!(polls_since_wait <= 2);
            }
        }
    }
    assert_eq!(waits, 10);
    assert_eq!(actions[0], Action::PollRoot);
    assert_eq!(actions[1], Action::PollRoot);
    assert_eq!(actions[2], Action::Wait);
}

#[test]
fn a_wake_from_the_reactor_is_driven_after_the_wait() {
    let mut ex = started();
    let a = ex.spawn("a").unwrap();
    assert_eq!(ex.block_on(Event::RootPolled { ready: false }), Ok(Action::Drive { task: a, computation: "a" }));
    // The task registers a waker with the reactor and suspends.
    assert_eq!(ex.clone_waker(a), Ok(()));
    assert_eq!(ex.block_on(Event::Driven { ready: false, computation: "a" }), Ok(Action::PollRoot));
    assert_eq!(ex.block_on(Event::RootPolled { ready: false }), Ok(Action::Wait));
    // The reactor fires the waker before its wait returns.
    assert_eq!(ex.wake(a), Ok(()));
    assert_eq!(ex.block_on(Event::Woken), Ok(Action::PollRoot));
    assert_eq!(ex.block_on(Event::RootPolled { ready: false }), Ok(Action::Drive { task: a, computation: "a" }));
    assert_eq!(ex.block_on(Event::Driven { ready: true, computation: "a" }), Ok(Action::PollRoot));
    assert!(!ex.is_live(a));
    assert_eq!(ex.block_on(Event::RootPolled { ready: true }), Ok(Action::Return));
}

/// A task that needs a number of drive steps and asks to be driven again after each but the last.
struct Countdown {
    steps_left: u32,
}

#[test]
fn tasks_the_root_waits_for_complete_before_the_loop_returns() {
    let mut ex: Executor<Countdown> = Executor::new();
    let mut action = ex.block_on(Event::Start).unwrap();
    let needs = [1u32, 3, 2];
    let mut spawned: Vec<u64> = Vec::new();
    let mut completed: Vec<u64> = Vec::new();
    let mut drive_steps = 0;
    let mut returned = false;
    for _ in 0..200 {
        let event = match action {
            Action::PollRoot => {
                if spawned.is_empty() {
                    for steps_left in needs {
                        spawned.push(ex.spawn(Countdown { steps_left }).unwrap());
                    }
                }
                Event::RootPolled { ready: completed.len() == needs.len() }
            }
            Action::Drive { task, mut computation } => {
                drive_steps += 1;
                computation.steps_left -= 1;
                let ready = computation.steps_left == 0;
                if ready {
                    completed.push(task);
                } else {
                    assert_eq!(ex.wake_by_ref(task), Ok(()));
                }
                Event::Driven { ready, computation }
            }
            Action::Wait => panic!("nothing waits for the reactor here"),
            Action::Return => {
                returned = true;
                break;
            }
        };
        action = ex.block_on(event).unwrap();
    }
    assert!(returned);
    assert_eq!(spawned, vec![0, 1, 2]);
    assert_eq!(completed, vec![0, 2, 1]);
    assert_eq!(drive_steps, 6);
    for task in spawned {
        assert!(!ex.is_live(task));
    }
    assert_eq!(ex.queue_len(), 0);
    assert_eq!(ex.phase(), Phase::Done);
}
