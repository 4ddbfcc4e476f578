use button_debounce::clock::{after, millis, Clock};
use button_debounce::error::Error;
use button_debounce::interrupt::{EdgeDirection, InterruptSource};
use button_debounce::scheduler::Scheduler;
use button_debounce::task::{Priorities, Task};
use button_debounce::tasks::{foo, on_gpiote, DEBOUNCE_WINDOW_MS, HEARTBEAT_PERIOD_MS};

const ALL: [Task; 3] = [Task::Heartbeat, Task::EdgeHandler, Task::Debounce];

fn instances(scheduler: &Scheduler, task: Task) -> usize {
    scheduler.is_waiting(task) as usize
        + scheduler.is_ready(task) as usize
        + scheduler.is_running(task) as usize
}

#[test]
fn second_spawn_is_rejected_while_the_first_is_ready() {
    let mut scheduler = Scheduler::new(Priorities::uniform());
    assert_eq!(scheduler.spawn(Task::Debounce), Ok(()));
    assert_eq!(scheduler.spawn(Task::Debounce), Err(Error::SchedulingRejected));
    assert_eq!(scheduler.spawn_after(Task::Debounce, 10), Err(Error::SchedulingRejected));
    assert_eq!(instances(&scheduler, Task::Debounce), 1);
}

#[test]
fn second_spawn_is_rejected_while_the_first_waits() {
    let mut scheduler = Scheduler::new(Priorities::uniform());
    assert_eq!(scheduler.spawn_after(Task::Debounce, 50), Ok(()));
    assert_eq!(scheduler.spawn_after(Task::Debounce, 10), Err(Error::SchedulingRejected));
    assert_eq!(scheduler.spawn(Task::Debounce), Err(Error::SchedulingRejected));
    assert_eq!(scheduler.deadline_of(Task::Debounce), Some(50));
    assert_eq!(instances(&scheduler, Task::Debounce), 1);
}

#[test]
fn second_spawn_is_rejected_while_the_first_runs() {
    let mut scheduler = Scheduler::new(Priorities::uniform());
    assert_eq!(scheduler.spawn(Task::Debounce), Ok(()));
    assert_eq!(scheduler.dispatch(), Some(Task::Debounce));
    assert!(scheduler.is_running(Task::Debounce));
    assert_eq!(scheduler.spawn(Task::Debounce), Err(Error::SchedulingRejected));
    assert_eq!(scheduler.spawn_after(Task::Debounce, 5), Err(Error::SchedulingRejected));
    assert_eq!(scheduler.complete(), Some(Task::Debounce));
    assert_eq!(scheduler.spawn(Task::Debounce), Ok(()));
}

#[test]
fn no_task_is_ever_outstanding_twice() {
    // A fixed pseudo-random walk over the operations of the scheduler.
    let mut scheduler = Scheduler::new(Priorities { heartbeat: 3, edge_handler: 1, debounce: 2 });
    let mut seed: u64 = 0x9E37_79B9_7F4A_7C15;
    let mut tick: u64 = 0;
    for _ in 0..5_000 {
        seed = seed.wrapping_mul(6364136223846793005).wrapping_add(1442695040888963407);
        let choice = (seed >> 33) % 5;
        let task = ALL[((seed >> 40) % 3) as usize];
        match choice {
            0 => {
                let _ = scheduler.spawn(task);
            }
            1 => {
                let _ = scheduler.spawn_after(task, (seed >> 50) % 40);
            }
            2 => {
                tick += (seed >> 45) % 16;
                scheduler.advance_to(tick);
            }
            3 => {
                let _ = scheduler.dispatch();
            }
            _ => {
                let _ = scheduler.complete();
            }
        }
        for task in ALL {
            assert!(instances(&scheduler, task) <= 1);
            assert_eq!(scheduler.in_flight(task), instances(&scheduler, task) == 1);
            if let Some(deadline) = scheduler.deadline_of(task) {
                assert!(deadline > scheduler.now());
            }
        }
    }
}

#[test]
fn highest_priority_runs_first() {
    let mut scheduler = Scheduler::new(Priorities { heartbeat: 1, edge_handler: 1, debounce: 7 });
    assert_eq!(scheduler.spawn(Task::Heartbeat), Ok(()));
    assert_eq!(scheduler.spawn(Task::Debounce), Ok(()));
    assert_eq!(scheduler.dispatch(), Some(Task::Debounce));
    assert_eq!(scheduler.complete(), Some(Task::Debounce));
    assert_eq!(scheduler.dispatch(), Some(Task::Heartbeat));
}

#[test]
fn equal_priorities_run_in_order_of_arrival() {
    let mut scheduler = Scheduler::new(Priorities::uniform());
    assert_eq!(scheduler.spawn(Task::Debounce), Ok(()));
    assert_eq!(scheduler.spawn(Task::Heartbeat), Ok(()));
    assert_eq!(scheduler.dispatch(), Some(Task::Debounce));
    assert_eq!(scheduler.complete(), Some(Task::Debounce));
    assert_eq!(scheduler.dispatch(), Some(Task::Heartbeat));
    assert_eq!(scheduler.complete(), Some(Task::Heartbeat));
    assert_eq!(scheduler.dispatch(), None);
    assert_eq!(scheduler.complete(), None);
}

#[test]
fn interrupt_bound_task_goes_before_a_higher_numbered_timed_task() {
    let mut scheduler =
        Scheduler::new(Priorities { heartbeat: 255, edge_handler: 0, debounce: 200 });
    assert_eq!(scheduler.spawn(Task::Heartbeat), Ok(()));
    assert_eq!(scheduler.spawn(Task::Debounce), Ok(()));
    assert_eq!(scheduler.spawn(Task::EdgeHandler), Ok(()));
    assert_eq!(scheduler.dispatch(), Some(Task::EdgeHandler));
    assert_eq!(scheduler.complete(), Some(Task::EdgeHandler));
    assert_eq!(scheduler.dispatch(), Some(Task::Heartbeat));
    assert_eq!(scheduler.complete(), Some(Task::Heartbeat));
    assert_eq!(scheduler.dispatch(), Some(Task::Debounce));
}

#[test]
fn ranks_put_the_interrupt_tier_on_top() {
    let priorities = Priorities { heartbeat: 255, edge_handler: 0, debounce: 3 };
    assert_eq!(priorities.rank_of(Task::Heartbeat), 255);
    assert_eq!(priorities.rank_of(Task::Debounce), 3);
    assert_eq!(priorities.rank_of(Task::EdgeHandler), 256);
    assert_eq!(priorities.priority(Task::EdgeHandler), 0);
    assert!(Task::EdgeHandler.interrupt_bound());
    assert!(!Task::Heartbeat.interrupt_bound());
    assert!(!Task::Debounce.interrupt_bound());
    assert!(priorities.may_preempt(Task::EdgeHandler, Task::Heartbeat));
    assert!(priorities.may_preempt(Task::EdgeHandler, Task::EdgeHandler));
    assert!(!priorities.may_preempt(Task::Heartbeat, Task::Debounce));
    assert!(!priorities.may_preempt(Task::Debounce, Task::EdgeHandler));
}

#[test]
fn timed_task_never_interrupts_a_running_task() {
    let mut scheduler = Scheduler::new(Priorities { heartbeat: 1, edge_handler: 1, debounce: 9 });
    assert_eq!(scheduler.spawn(Task::Heartbeat), Ok(()));
    assert_eq!(scheduler.dispatch(), Some(Task::Heartbeat));
    assert_eq!(scheduler.spawn(Task::Debounce), Ok(()));
    assert_eq!(scheduler.dispatch(), None);
    assert_eq!(scheduler.current(), Some(Task::Heartbeat));
    assert_eq!(scheduler.complete(), Some(Task::Heartbeat));
    assert_eq!(scheduler.dispatch(), Some(Task::Debounce));
}

#[test]
fn edge_handler_interrupts_a_running_timed_task() {
    let mut scheduler = Scheduler::new(Priorities::uniform());
    assert_eq!(scheduler.spawn(Task::Debounce), Ok(()));
    assert_eq!(scheduler.dispatch(), Some(Task::Debounce));
    assert_eq!(scheduler.spawn(Task::EdgeHandler), Ok(()));
    assert_eq!(scheduler.dispatch(), Some(Task::EdgeHandler));
    assert_eq!(scheduler.current(), Some(Task::EdgeHandler));
    assert!(scheduler.is_running(Task::Debounce));
    assert_eq!(scheduler.complete(), Some(Task::EdgeHandler));
    assert_eq!(scheduler.current(), Some(Task::Debounce));
    assert_eq!(scheduler.complete(), Some(Task::Debounce));
    assert_eq!(scheduler.current(), None);
}

#[test]
fn delayed_tasks_become_ready_in_order_of_deadline() {
    let mut scheduler = Scheduler::new(Priorities::uniform());
    assert_eq!(scheduler.spawn_after(Task::Heartbeat, 30), Ok(()));
    assert_eq!(scheduler.spawn_after(Task::Debounce, 10), Ok(()));
    assert_eq!(scheduler.deadline_of(Task::Heartbeat), Some(30));
    assert_eq!(scheduler.deadline_of(Task::Debounce), Some(10));
    scheduler.advance_to(9);
    assert_eq!(scheduler.dispatch(), None);
    // Both deadlines have passed at tick 40; the earlier one arrived first.
    scheduler.advance_to(40);
    assert!(scheduler.is_ready(Task::Heartbeat));
    assert!(scheduler.is_ready(Task::Debounce));
    assert_eq!(scheduler.deadline_of(Task::Debounce), None);
    assert_eq!(scheduler.dispatch(), Some(Task::Debounce));
    assert_eq!(scheduler.complete(), Some(Task::Debounce));
    assert_eq!(scheduler.dispatch(), Some(Task::Heartbeat));
}

#[test]
fn equal_deadlines_keep_the_order_of_the_requests() {
    let mut scheduler = Scheduler::new(Priorities::uniform());
    assert_eq!(scheduler.spawn_after(Task::Heartbeat, 20), Ok(()));
    assert_eq!(scheduler.spawn_after(Task::Debounce, 20), Ok(()));
    assert_eq!(scheduler.dispatch_at(20), Some(Task::Heartbeat));
    assert_eq!(scheduler.complete(), Some(Task::Heartbeat));
    assert_eq!(scheduler.dispatch_at(20), Some(Task::Debounce));
}

#[test]
fn deadline_is_exactly_the_first_tick_at_which_the_task_may_run() {
    let mut scheduler = Scheduler::new(Priorities::uniform());
    scheduler.advance_to(1_000);
    assert_eq!(scheduler.spawn_after(Task::Debounce, 50), Ok(()));
    assert_eq!(scheduler.deadline_of(Task::Debounce), Some(1_050));
    assert_eq!(scheduler.dispatch_at(1_049), None);
    assert!(scheduler.is_waiting(Task::Debounce));
    assert_eq!(scheduler.dispatch_at(1_050), Some(Task::Debounce));
    assert!(!scheduler.is_waiting(Task::Debounce));
}

#[test]
fn clock_of_the_scheduler_never_steps_back() {
    let mut scheduler = Scheduler::new(Priorities::uniform());
    scheduler.advance_to(500);
    scheduler.advance_to(200);
    assert_eq!(scheduler.now(), 500);
    assert_eq!(scheduler.spawn_after(Task::Debounce, 50), Ok(()));
    assert_eq!(scheduler.deadline_of(Task::Debounce), Some(550));
}

#[test]
fn delay_at_the_end_of_the_range_saturates() {
    let mut scheduler = Scheduler::new(Priorities::uniform());
    scheduler.advance_to(u64::MAX - 10);
    assert_eq!(scheduler.spawn_after(Task::Debounce, 50), Ok(()));
    assert_eq!(scheduler.deadline_of(Task::Debounce), Some(u64::MAX));
    assert_eq!(scheduler.dispatch_at(u64::MAX - 1), None);
    assert_eq!(scheduler.dispatch_at(u64::MAX), Some(Task::Debounce));
    assert_eq!(scheduler.complete(), Some(Task::Debounce));
    // At the last tick every deadline has come.
    assert_eq!(scheduler.spawn_after(Task::Debounce, 50), Ok(()));
    assert!(scheduler.is_ready(Task::Debounce));
}

#[test]
fn after_adds_and_saturates() {
    assert_eq!(after(0, 50), 50);
    assert_eq!(after(1_000, 0), 1_000);
    assert_eq!(after(u64::MAX - 1, 1), u64::MAX);
    assert_eq!(after(u64::MAX - 1, 2), u64::MAX);
    assert_eq!(after(u64::MAX, u64::MAX), u64::MAX);
}

#[test]
fn millis_counts_a_thousand_ticks_each() {
    assert_eq!(millis(0), 0);
    assert_eq!(millis(1), 1_000);
    assert_eq!(millis(DEBOUNCE_WINDOW_MS), 50_000);
    assert_eq!(millis(HEARTBEAT_PERIOD_MS), 2_000_000);
    assert_eq!(millis(u32::MAX), 4_294_967_295_000);
}

#[test]
fn clock_takes_the_later_reading() {
    let mut clock = Clock::new();
    assert_eq!(clock.now(), 0);
    clock.advance_to(17);
    assert_eq!(clock.now(), 17);
    clock.advance_to(3);
    assert_eq!(clock.now(), 17);
    clock.advance_to(17);
    assert_eq!(clock.now(), 17);
    clock.advance_to(u64::MAX);
    assert_eq!(clock.now(), u64::MAX);
}

#[test]
fn heartbeat_request_is_dropped_while_one_is_outstanding() {
    let mut scheduler = Scheduler::new(Priorities::uniform());
    assert!(foo(&mut scheduler, 2_000));
    assert_eq!(scheduler.deadline_of(Task::Heartbeat), Some(2_000));
    scheduler.advance_to(500);
    assert!(!foo(&mut scheduler, 2_000));
    assert_eq!(scheduler.deadline_of(Task::Heartbeat), Some(2_000));
    assert_eq!(scheduler.dispatch_at(2_000), Some(Task::Heartbeat));
    assert!(!foo(&mut scheduler, 2_000));
    assert_eq!(scheduler.complete(), Some(Task::Heartbeat));
    assert!(foo(&mut scheduler, 2_000));
    assert_eq!(scheduler.deadline_of(Task::Heartbeat), Some(4_000));
}

#[test]
fn edge_handler_acknowledges_and_schedules_once() {
    let mut gpiote = InterruptSource::new();
    gpiote.configure(14, EdgeDirection::HiToLo);
    gpiote.enable();
    let mut scheduler = Scheduler::new(Priorities::uniform());
    scheduler.advance_to(7);

    assert!(gpiote.sense(14, EdgeDirection::HiToLo));
    assert!(on_gpiote(&mut gpiote, &mut scheduler, 50));
    assert!(!gpiote.is_triggered());
    assert_eq!(scheduler.deadline_of(Task::Debounce), Some(57));

    scheduler.advance_to(20);
    assert!(gpiote.sense(14, EdgeDirection::HiToLo));
    assert!(!on_gpiote(&mut gpiote, &mut scheduler, 50));
    assert!(!gpiote.is_triggered());
    assert_eq!(scheduler.deadline_of(Task::Debounce), Some(57));
}

#[test]
fn wide_counter_follows_the_hardware_counter_across_a_wrap() {
    let mut wide = button_debounce::clock::WideCounter::new(100);
    assert_eq!(wide.read(100), 0);
    assert_eq!(wide.read(150), 50);
    assert_eq!(wide.read(u32::MAX), 4_294_967_195);
    // The counter wraps: from the last value to 9 it counted ten ticks.
    assert_eq!(wide.read(9), 4_294_967_205);
    assert_eq!(wide.read(9), 4_294_967_205);
    assert_eq!(wide.read(8), 4_294_967_205 + 4_294_967_295);
}
