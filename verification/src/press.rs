//! What holds of the board over every course of events: its invariant, and the
//! course of one press from the edge to the confirmed action.

use vstd::prelude::*;
use crate::board::{debounce_state_of, BoardState, Config, DebounceState};
use crate::clock::{deadline_after, later_of, Tick};
use crate::interrupt::EdgeDirection;
use crate::led::confirmed;
use crate::scheduler::{due_count, first_entry, tasks_of, Delayed, SchedulerState};
use crate::seq_facts::{lemma_concat, lemma_insert, lemma_push, lemma_remove};
use crate::task::Task;
use crate::upkeep::{
    lemma_advance_to_keeps_wf,
    lemma_best_upto,
    lemma_complete_keeps_wf,
    lemma_dispatch_keeps_wf,
    lemma_due_count_sorted,
    lemma_flight_by_queue,
    lemma_idle_is_wf,
    lemma_spawn_after_keeps_wf,
    lemma_spawn_keeps_wf,
};

verus! {

/// One event on the board.
pub enum Event {
    /// The hardware saw a transition on a pin.
    Edge(u8, EdgeDirection),
    /// The clock was read.
    AdvanceTo(Tick),
    /// The dispatcher was given one turn, with the button at this level.
    RunNext(bool),
    /// An unrecoverable fault occurred.
    Halt,
}

/// The board after one event.
pub open spec fn occur(board: BoardState, event: Event) -> BoardState {
    match event {
        Event::Edge(pin, direction) => board.edge(pin, direction),
        Event::AdvanceTo(reading) => board.advance_to(reading),
        Event::RunNext(pressed) => board.run_next(pressed),
        Event::Halt => board.halt(),
    }
}

/// The board after a course of events.
pub open spec fn unfold(board: BoardState, events: Seq<Event>) -> BoardState
    decreases events.len(),
{
    if events.len() == 0 {
        board
    } else {
        occur(unfold(board, events.drop_last()), events.last())
    }
}

/// Which tasks are outstanding after a request with a delay: those that were,
/// and the one that was asked for.
pub proof fn lemma_spawn_after_flight(state: SchedulerState, task: Task, duration: u64)
    ensures
        forall|other: Task|
            #![trigger state.spawn_after(task, duration).in_flight(other)]
            state.spawn_after(task, duration).in_flight(other) <==> (state.in_flight(other)
                || other == task),
        forall|other: Task|
            #![trigger state.spawn_after(task, duration).running.contains(other)]
            state.spawn_after(task, duration).running.contains(other) <==> state.running.contains(
                other,
            ),
        forall|other: Task|
            #![trigger state.spawn_after(task, duration).ready.contains(other)]
            other != task ==> (state.spawn_after(task, duration).ready.contains(other)
                <==> state.ready.contains(other)),
        forall|other: Task|
            #![trigger state.spawn_after(task, duration).is_waiting(other)]
            other != task ==> (state.spawn_after(task, duration).is_waiting(other)
                <==> state.is_waiting(other)),
{
    let after = state.spawn_after(task, duration);
    let deadline = deadline_after(state.now, duration);
    if state.in_flight(task) {
    } else if deadline <= state.now {
        lemma_push(state.ready, task);
    } else {
        let at = due_count(state.waiting, deadline);
        crate::upkeep::lemma_due_from(state.waiting, deadline, 0);
        state.waiting.insert_ensures(at, Delayed { task, deadline });
        assert(tasks_of(after.waiting) =~= tasks_of(state.waiting).insert(at, task));
        lemma_insert(tasks_of(state.waiting), at, task);
    }
}

/// The board as startup leaves it meets the invariant.
pub proof fn lemma_started_is_wf(config: Config)
    ensures
        BoardState::started(config).wf(),
{
    let idle = SchedulerState::idle(config.priorities);
    lemma_idle_is_wf(config.priorities);
    lemma_spawn_keeps_wf(idle, Task::Heartbeat);
    assert(tasks_of(idle.waiting) =~= Seq::<Task>::empty());
    lemma_push(idle.ready, Task::Heartbeat);
}

/// A turn of the dispatcher keeps the invariant.
pub proof fn lemma_run_next_keeps_wf(board: BoardState, pressed: bool)
    requires
        board.wf(),
    ensures
        board.run_next(pressed).wf(),
{
    let after = board.run_next(pressed);
    if !board.halted && board.scheduler.next() is Some {
        let state = board.scheduler;
        let task = state.next()->0;
        let started = state.dispatch();
        let best = state.best();
        lemma_best_upto(state.priorities, state.ready, state.ready.len() as int);
        lemma_dispatch_keeps_wf(state);
        lemma_flight_by_queue(state);
        lemma_remove(state.ready, best);
        assert(started.running =~= seq![task]);
        assert(started.running.drop_last() =~= Seq::<Task>::empty());
        match task {
            Task::EdgeHandler => {
                let asked = started.spawn_after(Task::Debounce, board.config.window);
                lemma_spawn_after_keeps_wf(started, Task::Debounce, board.config.window);
                lemma_spawn_after_flight(started, Task::Debounce, board.config.window);
                lemma_complete_keeps_wf(asked);
                assert(asked.running =~= seq![task]);
                assert(asked.running.drop_last() =~= Seq::<Task>::empty());
                assert(!asked.ready.contains(Task::EdgeHandler));
                assert(!asked.is_waiting(Task::EdgeHandler));
            },
            Task::Debounce => {
                lemma_complete_keeps_wf(started);
                assert(state.ready.contains(Task::EdgeHandler) <==> started.ready.contains(
                    Task::EdgeHandler,
                ));
            },
            Task::Heartbeat => {
                let ended = started.complete();
                lemma_complete_keeps_wf(started);
                lemma_spawn_after_keeps_wf(ended, Task::Heartbeat, board.config.heartbeat_period);
                lemma_spawn_after_flight(ended, Task::Heartbeat, board.config.heartbeat_period);
                assert(state.ready.contains(Task::EdgeHandler) <==> started.ready.contains(
                    Task::EdgeHandler,
                ));
                assert(ended.running.len() == 0);
                assert(after.scheduler.running.len() == 0) by {
                    assert forall|other: Task| !after.scheduler.running.contains(other) by {
                        assert(!ended.running.contains(other));
                    }
                    if after.scheduler.running.len() > 0 {
                        assert(after.scheduler.running.contains(after.scheduler.running[0]));
                    }
                }
            },
        }
    }
}

/// Every event keeps the invariant of the board.
pub proof fn lemma_event_keeps_wf(board: BoardState, event: Event)
    requires
        board.wf(),
    ensures
        occur(board, event).wf(),
{
    match event {
        Event::Edge(pin, direction) => {
            if board.gpiote.fires(pin, direction) {
                lemma_spawn_keeps_wf(board.scheduler, Task::EdgeHandler);
                lemma_push(board.scheduler.ready, Task::EdgeHandler);
                assert(!board.scheduler.running.contains(Task::EdgeHandler));
            }
        },
        Event::AdvanceTo(reading) => {
            let state = board.scheduler;
            let now = later_of(state.now, reading);
            let due = due_count(state.waiting, now);
            lemma_advance_to_keeps_wf(state, reading);
            lemma_due_count_sorted(state.waiting, now);
            let w = tasks_of(state.waiting);
            assert(tasks_of(state.waiting.take(due)) =~= w.take(due));
            assert(tasks_of(state.waiting.skip(due)) =~= w.skip(due));
            assert(w.take(due) + w.skip(due) =~= w);
            lemma_concat(w.take(due), w.skip(due));
            lemma_concat(state.ready, w.take(due));
        },
        Event::RunNext(pressed) => {
            lemma_run_next_keeps_wf(board, pressed);
        },
        Event::Halt => {},
    }
}

/// Every course of events keeps the invariant of the board.
pub proof fn lemma_events_keep_wf(board: BoardState, events: Seq<Event>)
    requires
        board.wf(),
    ensures
        unfold(board, events).wf(),
    decreases events.len(),
{
    if events.len() > 0 {
        lemma_events_keep_wf(board, events.drop_last());
        lemma_event_keeps_wf(unfold(board, events.drop_last()), events.last());
    }
}

/// At most one in flight on the board: whatever edges arrive, whenever the
/// clock is read and however the dispatcher is driven from startup on, no task,
/// and so no re-sample of the button, has two instances scheduled or running.
pub proof fn lemma_one_instance_on_board(config: Config, events: Seq<Event>, occurred: int)
    requires
        0 <= occurred <= events.len(),
    ensures
        unfold(BoardState::started(config), events.take(occurred)).wf(),
        unfold(BoardState::started(config), events.take(occurred)).scheduler.flight().no_duplicates(),
{
    lemma_started_is_wf(config);
    lemma_events_keep_wf(BoardState::started(config), events.take(occurred));
}

/// Which tasks are outstanding after a reading of the clock: the same as
/// before. Reading the clock moves instances between queues and neither makes
/// nor ends one.
pub proof fn lemma_advance_to_flight(state: SchedulerState, reading: Tick)
    ensures
        forall|task: Task|
            #![trigger state.advance_to(reading).in_flight(task)]
            state.advance_to(reading).in_flight(task) <==> state.in_flight(task),
        forall|task: Task|
            #![trigger state.advance_to(reading).ready.contains(task)]
            state.ready.contains(task) ==> state.advance_to(reading).ready.contains(task),
{
    let now = later_of(state.now, reading);
    let due = due_count(state.waiting, now);
    crate::upkeep::lemma_due_from(state.waiting, now, 0);
    let w = tasks_of(state.waiting);
    assert(tasks_of(state.waiting.take(due)) =~= w.take(due));
    assert(tasks_of(state.waiting.skip(due)) =~= w.skip(due));
    assert(w.take(due) + w.skip(due) =~= w);
    lemma_concat(w.take(due), w.skip(due));
    lemma_concat(state.ready, w.take(due));
}

/// What one turn of the dispatcher does, task by task. Whichever task runs, it
/// has ended when the turn is over. The edge handler clears the flag and leaves
/// a re-sample outstanding; the re-sample acts on the bank exactly if the button
/// is held; the heartbeat leaves its next instance outstanding. No turn touches
/// an instance of another task.
pub proof fn lemma_turn_effect(board: BoardState, pressed: bool)
    requires
        board.wf(),
        !board.halted,
    ensures
        board.scheduler.next() is None ==> board.run_next(pressed) == board,
        board.scheduler.next() is Some ==> board.scheduler.ready.contains(
            board.scheduler.next()->0,
        ),
        board.scheduler.next() == Some(Task::EdgeHandler) ==> {
            let end = board.run_next(pressed);
            &&& end.led_rows == board.led_rows
            &&& end.gpiote == board.gpiote.reset()
            &&& !end.scheduler.in_flight(Task::EdgeHandler)
            &&& end.scheduler.in_flight(Task::Debounce)
            &&& end.scheduler.in_flight(Task::Heartbeat) <==> board.scheduler.in_flight(
                Task::Heartbeat,
            )
        },
        board.scheduler.next() == Some(Task::Debounce) ==> {
            let end = board.run_next(pressed);
            &&& end.led_rows == if pressed {
                confirmed(board.led_rows, board.config.action)
            } else {
                board.led_rows
            }
            &&& end.gpiote == board.gpiote
            &&& !end.scheduler.in_flight(Task::Debounce)
            &&& end.scheduler.in_flight(Task::EdgeHandler) <==> board.scheduler.in_flight(
                Task::EdgeHandler,
            )
            &&& end.scheduler.in_flight(Task::Heartbeat) <==> board.scheduler.in_flight(
                Task::Heartbeat,
            )
        },
        board.scheduler.next() == Some(Task::Heartbeat) ==> {
            let end = board.run_next(pressed);
            &&& end.led_rows == board.led_rows
            &&& end.gpiote == board.gpiote
            &&& end.scheduler.in_flight(Task::Heartbeat)
            &&& end.scheduler.in_flight(Task::EdgeHandler) <==> board.scheduler.in_flight(
                Task::EdgeHandler,
            )
            &&& end.scheduler.in_flight(Task::Debounce) <==> board.scheduler.in_flight(
                Task::Debounce,
            )
        },
{
    if board.scheduler.next() is Some {
        let state = board.scheduler;
        let task = state.next()->0;
        let started = state.dispatch();
        let best = state.best();
        lemma_best_upto(state.priorities, state.ready, state.ready.len() as int);
        lemma_flight_by_queue(state);
        lemma_remove(state.ready, best);
        assert(state.ready.contains(task));
        assert(started.running =~= seq![task]);
        assert(started.running.drop_last() =~= Seq::<Task>::empty());
        assert(!started.is_waiting(task));
        let end = board.run_next(pressed).scheduler;
        assert forall|other: Task| other != task implies (started.in_flight(other)
            <==> state.in_flight(other)) by {
            assert(started.waiting == state.waiting);
            assert(!state.running.contains(other));
            assert(!started.running.contains(other));
        }
        match task {
            Task::EdgeHandler => {
                let asked = started.spawn_after(Task::Debounce, board.config.window);
                lemma_spawn_after_flight(started, Task::Debounce, board.config.window);
                assert(asked.running =~= seq![task]);
                assert(end.running =~= Seq::<Task>::empty());
                assert(end.waiting == asked.waiting && end.ready == asked.ready);
                assert forall|other: Task| !end.running.contains(other) by {}
                assert(!asked.running.contains(Task::Debounce));
                assert(!asked.running.contains(Task::Heartbeat));
                assert(!started.running.contains(Task::Heartbeat));
                assert(asked.is_waiting(Task::EdgeHandler) <==> started.is_waiting(
                    Task::EdgeHandler,
                ));
                assert(asked.ready.contains(Task::EdgeHandler) <==> started.ready.contains(
                    Task::EdgeHandler,
                ));
                assert(asked.in_flight(Task::Debounce));
                assert(asked.in_flight(Task::Heartbeat) <==> started.in_flight(Task::Heartbeat));
                assert(end.in_flight(Task::Debounce) <==> asked.in_flight(Task::Debounce));
                assert(end.in_flight(Task::Heartbeat) <==> asked.in_flight(Task::Heartbeat));
            },
            Task::Debounce => {
                assert(end.running =~= Seq::<Task>::empty());
                assert(end.waiting == started.waiting && end.ready == started.ready);
                assert forall|other: Task| !end.running.contains(other) by {}
                assert(!started.running.contains(Task::EdgeHandler));
                assert(!started.running.contains(Task::Heartbeat));
                assert(end.in_flight(Task::EdgeHandler) <==> started.in_flight(
                    Task::EdgeHandler,
                ));
                assert(end.in_flight(Task::Heartbeat) <==> started.in_flight(Task::Heartbeat));
            },
            Task::Heartbeat => {
                let ended = started.complete();
                lemma_spawn_after_flight(ended, Task::Heartbeat, board.config.heartbeat_period);
                assert(ended.running =~= Seq::<Task>::empty());
                assert(ended.waiting == started.waiting && ended.ready == started.ready);
                assert forall|other: Task| !ended.running.contains(other) by {}
                assert(!started.running.contains(Task::EdgeHandler));
                assert(!started.running.contains(Task::Debounce));
                assert(ended.in_flight(Task::EdgeHandler) <==> started.in_flight(
                    Task::EdgeHandler,
                ));
                assert(ended.in_flight(Task::Debounce) <==> started.in_flight(Task::Debounce));
                assert(end.in_flight(Task::EdgeHandler) <==> ended.in_flight(Task::EdgeHandler));
                assert(end.in_flight(Task::Debounce) <==> ended.in_flight(Task::Debounce));
                assert(end.in_flight(Task::Heartbeat));
            },
        }
    }
}

/// Every turn in the course of events sampled the button released.
pub open spec fn all_released(events: Seq<Event>) -> bool {
    forall|i: int|
        0 <= i < events.len() ==> match #[trigger] events[i] {
            Event::RunNext(pressed) => !pressed,
            _ => true,
        }
}

/// The course of events holds readings of the clock and turns of the
/// dispatcher only, and every turn sampled the button held.
pub open spec fn held_throughout(events: Seq<Event>) -> bool {
    forall|i: int|
        0 <= i < events.len() ==> match #[trigger] events[i] {
            Event::AdvanceTo(_) => true,
            Event::RunNext(pressed) => pressed,
            _ => false,
        }
}

/// Bounce is suppressed: over any course of events, from any board, in which
/// every re-sample finds the button released, the LED bank stays as it was,
/// however many edges arrive and whenever their windows end.
pub proof fn lemma_bounce_is_suppressed(board: BoardState, events: Seq<Event>)
    requires
        all_released(events),
    ensures
        unfold(board, events).led_rows == board.led_rows,
    decreases events.len(),
{
    if events.len() > 0 {
        let before = events.drop_last();
        assert forall|i: int| 0 <= i < before.len() implies match #[trigger] before[i] {
            Event::RunNext(pressed) => !pressed,
            _ => true,
        } by {
            assert(before[i] == events[i]);
        }
        lemma_bounce_is_suppressed(board, before);
        assert(events.last() == events[events.len() - 1]);
    }
}

/// A press is confirmed exactly once: on a board that settles after an
/// acknowledged edge, while the button stays held and time passes, the bank is
/// what it was for as long as the re-sample is outstanding, and from the moment
/// the re-sample has run it is what the action made of it; no later turn
/// applies the action again.
pub proof fn lemma_confirmed_exactly_once(board: BoardState, events: Seq<Event>)
    requires
        board.wf(),
        !board.halted,
        !board.gpiote.pending,
        debounce_state_of(board.scheduler) == DebounceState::Settling,
        held_throughout(events),
    ensures
        unfold(board, events).wf(),
        !unfold(board, events).halted,
        !unfold(board, events).gpiote.pending,
        unfold(board, events).config == board.config,
        debounce_state_of(unfold(board, events).scheduler) == DebounceState::Settling ==> unfold(
            board,
            events,
        ).led_rows == board.led_rows,
        debounce_state_of(unfold(board, events).scheduler) == DebounceState::Idle ==> unfold(
            board,
            events,
        ).led_rows == confirmed(board.led_rows, board.config.action),
    decreases events.len(),
{
    if events.len() > 0 {
        let before = events.drop_last();
        assert forall|i: int| 0 <= i < before.len() implies match #[trigger] before[i] {
            Event::AdvanceTo(_) => true,
            Event::RunNext(pressed) => pressed,
            _ => false,
        } by {
            assert(before[i] == events[i]);
        }
        lemma_confirmed_exactly_once(board, before);
        let mid = unfold(board, before);
        let event = events.last();
        assert(event == events[events.len() - 1]);
        lemma_event_keeps_wf(mid, event);
        match event {
            Event::AdvanceTo(reading) => {
                lemma_advance_to_flight(mid.scheduler, reading);
            },
            Event::RunNext(pressed) => {
                lemma_turn_effect(mid, pressed);
            },
            _ => {},
        }
    }
}

/// A press starts the window: on a board that has not halted and has no edge
/// pending, a falling edge on the button raises the interrupt, the edge handler
/// is the task that the next turn runs, whatever else is ready, and after that
/// turn the flag is clear, the bank is untouched and the debounce machine
/// settles. If it was idle before, the re-sample waits for the deadline that
/// lies one window after the edge, or is ready at once where that deadline has
/// already come.
pub proof fn lemma_press_starts_settling(board: BoardState, pressed: bool)
    requires
        board.wf(),
        !board.halted,
        !board.gpiote.pending,
    ensures
        board.gpiote.fires(board.config.button_pin, EdgeDirection::HiToLo),
        board.edge(board.config.button_pin, EdgeDirection::HiToLo).scheduler.next() == Some(
            Task::EdgeHandler,
        ),
        ({
            let end = board.edge(board.config.button_pin, EdgeDirection::HiToLo).run_next(pressed);
            let deadline = deadline_after(board.scheduler.now, board.config.window);
            &&& end.wf()
            &&& !end.gpiote.pending
            &&& end.led_rows == board.led_rows
            &&& debounce_state_of(end.scheduler) == DebounceState::Settling
            &&& debounce_state_of(board.scheduler) == DebounceState::Idle ==> if deadline
                > board.scheduler.now {
                end.scheduler.deadline_of(Task::Debounce) == Some(deadline)
            } else {
                end.scheduler.ready.contains(Task::Debounce)
            }
        }),
{
    let pin = board.config.button_pin;
    let edged = board.edge(pin, EdgeDirection::HiToLo);
    let state = edged.scheduler;
    lemma_event_keeps_wf(board, Event::Edge(pin, EdgeDirection::HiToLo));
    lemma_push(board.scheduler.ready, Task::EdgeHandler);
    assert(state.ready.contains(Task::EdgeHandler));
    lemma_best_upto(state.priorities, state.ready, state.ready.len() as int);
    let at = choose|i: int| 0 <= i < state.ready.len() && state.ready[i] == Task::EdgeHandler;
    assert(state.priorities.rank(state.ready[at]) <= state.priorities.rank(
        state.ready[state.best()],
    ));
    assert(state.next() == Some(Task::EdgeHandler));
    lemma_turn_effect(edged, pressed);
    lemma_run_next_keeps_wf(edged, pressed);
    if debounce_state_of(board.scheduler) == DebounceState::Idle {
        let started = state.dispatch();
        let window = board.config.window;
        let deadline = deadline_after(board.scheduler.now, window);
        lemma_flight_by_queue(state);
        lemma_remove(state.ready, state.best());
        assert(started.running =~= seq![Task::EdgeHandler]);
        assert(!started.in_flight(Task::Debounce));
        let asked = started.spawn_after(Task::Debounce, window);
        if deadline > board.scheduler.now {
            lemma_spawned_waits(started, Task::Debounce, window);
        } else {
            lemma_push(started.ready, Task::Debounce);
        }
    }
}

/// A task that was asked for with a delay, had no instance outstanding and has
/// a deadline ahead waits for exactly that deadline.
pub proof fn lemma_spawned_waits(state: SchedulerState, task: Task, duration: u64)
    requires
        !state.in_flight(task),
        deadline_after(state.now, duration) > state.now,
    ensures
        state.spawn_after(task, duration).deadline_of(task) == Some(
            deadline_after(state.now, duration),
        ),
        state.spawn_after(task, duration).is_waiting(task),
{
    let deadline = deadline_after(state.now, duration);
    let after = state.spawn_after(task, duration);
    let at = due_count(state.waiting, deadline);
    crate::upkeep::lemma_due_from(state.waiting, deadline, 0);
    state.waiting.insert_ensures(at, Delayed { task, deadline });
    assert forall|i: int| 0 <= i < at implies (#[trigger] after.waiting[i]).task != task by {
        assert(tasks_of(state.waiting)[i] == state.waiting[i].task);
    }
    assert(after.waiting[at].task == task);
    crate::upkeep::lemma_first_entry_at(after.waiting, task, at);
    crate::upkeep::lemma_first_entry_found(after.waiting, task);
}

/// A task that waits has its deadline ahead, is not ready, and is not the task
/// that a dispatch starts.
pub proof fn lemma_waiting_is_not_started(state: SchedulerState, task: Task)
    requires
        state.wf(),
        state.deadline_of(task) is Some,
    ensures
        state.is_waiting(task),
        state.deadline_of(task)->0 > state.now,
        !state.ready.contains(task),
        state.next() != Some(task),
{
    crate::upkeep::lemma_first_entry(state.waiting, task, 0);
    crate::upkeep::lemma_first_entry_found(state.waiting, task);
    lemma_flight_by_queue(state);
    if state.next() is Some {
        lemma_best_upto(state.priorities, state.ready, state.ready.len() as int);
        assert(state.ready.contains(state.ready[state.best()]));
    }
}

/// Not before the deadline: a reading of the clock that lies before the
/// deadline of a waiting task leaves it waiting for the same deadline.
pub proof fn lemma_early_reading_keeps_waiting(state: SchedulerState, task: Task, reading: Tick)
    requires
        state.wf(),
        state.deadline_of(task) is Some,
        reading < state.deadline_of(task)->0,
    ensures
        state.advance_to(reading).deadline_of(task) == state.deadline_of(task),
{
    let at = first_entry(state.waiting, task, 0);
    let now = later_of(state.now, reading);
    let due = due_count(state.waiting, now);
    let after = state.advance_to(reading);
    crate::upkeep::lemma_first_entry(state.waiting, task, 0);
    lemma_due_count_sorted(state.waiting, now);
    assert(state.waiting[at].deadline > state.now);
    assert(at >= due);
    assert(after.waiting[at - due] == state.waiting[at]);
    assert forall|i: int| 0 <= i < at - due implies (#[trigger] after.waiting[i]).task != task by {
        assert(after.waiting[i] == state.waiting[due + i]);
    }
    crate::upkeep::lemma_first_entry_at(after.waiting, task, at - due);
}

/// At the deadline: a reading of the clock that reaches the deadline of a
/// waiting task moves it into the ready set.
pub proof fn lemma_due_reading_makes_ready(state: SchedulerState, task: Task, reading: Tick)
    requires
        state.wf(),
        state.deadline_of(task) is Some,
        reading >= state.deadline_of(task)->0,
    ensures
        state.advance_to(reading).ready.contains(task),
        !state.advance_to(reading).is_waiting(task),
{
    let at = first_entry(state.waiting, task, 0);
    let now = later_of(state.now, reading);
    let due = due_count(state.waiting, now);
    let after = state.advance_to(reading);
    let w = tasks_of(state.waiting);
    crate::upkeep::lemma_first_entry(state.waiting, task, 0);
    lemma_due_count_sorted(state.waiting, now);
    assert(at < due);
    assert(tasks_of(state.waiting.take(due)) =~= w.take(due));
    assert(w.take(due)[at] == task);
    lemma_concat(state.ready, w.take(due));
    lemma_advance_to_keeps_wf(state, reading);
    lemma_flight_by_queue(after);
}

/// The action does occur: once the re-sample is ready, with no edge pending,
/// the button held and a heartbeat whose next deadline lies ahead, two turns of
/// the dispatcher are enough for the press to be confirmed.
pub proof fn lemma_confirmed_within_two_turns(board: BoardState)
    requires
        board.wf(),
        !board.halted,
        !board.gpiote.pending,
        board.scheduler.ready.contains(Task::Debounce),
        deadline_after(board.scheduler.now, board.config.heartbeat_period) > board.scheduler.now,
    ensures
        debounce_state_of(board.run_next(true).run_next(true).scheduler) == DebounceState::Idle,
        board.run_next(true).run_next(true).led_rows == confirmed(
            board.led_rows,
            board.config.action,
        ),
{
    let state = board.scheduler;
    let first = board.run_next(true);
    lemma_best_upto(state.priorities, state.ready, state.ready.len() as int);
    lemma_turn_effect(board, true);
    lemma_run_next_keeps_wf(board, true);
    lemma_flight_by_queue(state);
    assert(state.next() is Some);
    assert(state.next() != Some(Task::EdgeHandler));
    if state.next() == Some(Task::Debounce) {
        lemma_turn_effect(first, true);
        if first.scheduler.next() is Some {
            assert(first.scheduler.next() != Some(Task::Debounce));
            assert(first.scheduler.next() != Some(Task::EdgeHandler));
        }
    } else {
        assert(state.next() == Some(Task::Heartbeat));
        let started = state.dispatch();
        let ended = started.complete();
        let period = board.config.heartbeat_period;
        lemma_remove(state.ready, state.best());
        assert(started.running =~= seq![Task::Heartbeat]);
        assert(started.running.drop_last() =~= Seq::<Task>::empty());
        assert(!ended.in_flight(Task::Heartbeat));
        let again = first.scheduler;
        assert(again == ended.spawn_after(Task::Heartbeat, period));
        assert(again.ready == ended.ready);
        assert(again.ready.contains(Task::Debounce));
        assert(!again.ready.contains(Task::Heartbeat));
        assert(!again.ready.contains(Task::EdgeHandler));
        lemma_best_upto(again.priorities, again.ready, again.ready.len() as int);
        assert(again.ready.contains(again.ready[again.best()]));
        assert(again.next() == Some(Task::Debounce));
        lemma_turn_effect(first, true);
    }
}

} // verus!
