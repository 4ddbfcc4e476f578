//! The invariant of the scheduler, and the proof that every operation keeps it.

use vstd::prelude::*;
use crate::clock::{deadline_after, later_of, Tick};
use crate::scheduler::{
    best_upto,
    due_count,
    due_from,
    first_entry,
    tasks_of,
    Delayed,
    SchedulerState,
};
use crate::seq_facts::{apart, lemma_concat, lemma_insert, lemma_push, lemma_remove, lemma_split};
use crate::task::{Priorities, Task};

verus! {

/// Where the scan for the first deadline that lies ahead ends: every entry it
/// passed is due, and the entry at which it stopped is not.
pub proof fn lemma_due_from(waiting: Seq<Delayed>, tick: Tick, from: int)
    requires
        0 <= from <= waiting.len(),
    ensures
        from <= due_from(waiting, tick, from) <= waiting.len(),
        forall|i: int|
            from <= i < due_from(waiting, tick, from) ==> (#[trigger] waiting[i]).deadline <= tick,
        due_from(waiting, tick, from) < waiting.len() ==> waiting[due_from(
            waiting,
            tick,
            from,
        )].deadline > tick,
    decreases waiting.len() - from,
{
    if from < waiting.len() && waiting[from].deadline <= tick {
        lemma_due_from(waiting, tick, from + 1);
    }
}

/// In a waiting set ordered by deadline, the due prefix holds exactly the
/// entries whose deadline has passed.
pub proof fn lemma_due_count_sorted(waiting: Seq<Delayed>, tick: Tick)
    requires
        forall|i: int, j: int|
            0 <= i < j < waiting.len() ==> waiting[i].deadline <= waiting[j].deadline,
    ensures
        0 <= due_count(waiting, tick) <= waiting.len(),
        forall|i: int|
            0 <= i < waiting.len() ==> ((#[trigger] waiting[i]).deadline <= tick <==> i
                < due_count(waiting, tick)),
{
    lemma_due_from(waiting, tick, 0);
    let due = due_count(waiting, tick);
    assert forall|i: int| 0 <= i < waiting.len() implies ((#[trigger] waiting[i]).deadline <= tick
        <==> i < due) by {
        if i >= due {
            assert(waiting[due].deadline <= waiting[i].deadline || i == due);
        }
    }
}

/// Where the search for a waiting task ends: no entry that it passed names the
/// task, and the entry at which it stopped does.
pub proof fn lemma_first_entry(waiting: Seq<Delayed>, task: Task, from: int)
    requires
        0 <= from <= waiting.len(),
    ensures
        from <= first_entry(waiting, task, from) <= waiting.len(),
        forall|i: int|
            from <= i < first_entry(waiting, task, from) ==> (#[trigger] waiting[i]).task != task,
        first_entry(waiting, task, from) < waiting.len() ==> waiting[first_entry(
            waiting,
            task,
            from,
        )].task == task,
    decreases waiting.len() - from,
{
    if from < waiting.len() && waiting[from].task != task {
        lemma_first_entry(waiting, task, from + 1);
    }
}

/// A task waits exactly when the search for it ends inside the waiting set.
pub proof fn lemma_first_entry_found(waiting: Seq<Delayed>, task: Task)
    ensures
        tasks_of(waiting).contains(task) <==> first_entry(waiting, task, 0) < waiting.len(),
{
    lemma_first_entry(waiting, task, 0);
    let found = first_entry(waiting, task, 0);
    let tasks = tasks_of(waiting);
    if found < waiting.len() {
        assert(tasks[found] == task);
    }
    if tasks.contains(task) {
        let i = choose|i: int| 0 <= i < tasks.len() && tasks[i] == task;
        assert(waiting[i].task == task);
    }
}

/// The search for a waiting task ends at the first entry that names it.
pub proof fn lemma_first_entry_at(waiting: Seq<Delayed>, task: Task, at: int)
    requires
        0 <= at < waiting.len(),
        waiting[at].task == task,
        forall|i: int| 0 <= i < at ==> (#[trigger] waiting[i]).task != task,
    ensures
        first_entry(waiting, task, 0) == at,
{
    lemma_first_entry(waiting, task, 0);
    let found = first_entry(waiting, task, 0);
    if found < at {
        assert(waiting[found].task != task);
    }
}

/// The task picked among the first `n` ready tasks has the highest rank of them,
/// and every task that arrived before it ranks strictly lower.
pub proof fn lemma_best_upto(priorities: Priorities, ready: Seq<Task>, n: int)
    requires
        1 <= n <= ready.len(),
    ensures
        0 <= best_upto(priorities, ready, n) < n,
        forall|i: int|
            0 <= i < n ==> priorities.rank(#[trigger] ready[i]) <= priorities.rank(
                ready[best_upto(priorities, ready, n)],
            ),
        forall|i: int|
            0 <= i < best_upto(priorities, ready, n) ==> priorities.rank(#[trigger] ready[i])
                < priorities.rank(ready[best_upto(priorities, ready, n)]),
    decreases n,
{
    if n > 1 {
        lemma_best_upto(priorities, ready, n - 1);
    }
}

/// The parts of the invariant that speak of repeats, queue by queue.
pub open spec fn queues_apart(state: SchedulerState) -> bool {
    &&& tasks_of(state.waiting).no_duplicates()
    &&& state.ready.no_duplicates()
    &&& state.running.no_duplicates()
    &&& apart(tasks_of(state.waiting), state.ready)
    &&& apart(tasks_of(state.waiting), state.running)
    &&& apart(state.ready, state.running)
}

/// No task has two outstanding instances exactly when no queue names a task
/// twice and no two queues name the same task.
pub proof fn lemma_flight_by_queue(state: SchedulerState)
    ensures
        state.flight().no_duplicates() <==> queues_apart(state),
        forall|task: Task| #[trigger] state.flight().contains(task) <==> state.in_flight(task),
{
    let w = tasks_of(state.waiting);
    lemma_concat(w, state.ready);
    lemma_concat(w + state.ready, state.running);
    if queues_apart(state) {
        assert(apart(w + state.ready, state.running));
    }
    if state.flight().no_duplicates() {
        assert(apart(w, state.running)) by {
            assert forall|x: Task| !(w.contains(x) && #[trigger] state.running.contains(x)) by {
                if w.contains(x) {
                    assert((w + state.ready).contains(x));
                }
            }
        }
        assert(apart(state.ready, state.running)) by {
            assert forall|x: Task| !(state.ready.contains(x) && #[trigger] state.running.contains(
                x,
            )) by {
                if state.ready.contains(x) {
                    assert((w + state.ready).contains(x));
                }
            }
        }
    }
}

/// A scheduler with nothing outstanding meets the invariant.
pub proof fn lemma_idle_is_wf(priorities: Priorities)
    ensures
        SchedulerState::idle(priorities).wf(),
{
    let state = SchedulerState::idle(priorities);
    assert(state.flight() =~= Seq::<Task>::empty());
}

/// `spawn` keeps the invariant.
pub proof fn lemma_spawn_keeps_wf(state: SchedulerState, task: Task)
    requires
        state.wf(),
    ensures
        state.spawn(task).wf(),
{
    if !state.in_flight(task) {
        let after = state.spawn(task);
        lemma_flight_by_queue(state);
        lemma_flight_by_queue(after);
        lemma_push(state.ready, task);
        assert(queues_apart(after));
    }
}

/// `spawn_after` keeps the invariant.
pub proof fn lemma_spawn_after_keeps_wf(state: SchedulerState, task: Task, duration: u64)
    requires
        state.wf(),
    ensures
        state.spawn_after(task, duration).wf(),
{
    let deadline = deadline_after(state.now, duration);
    let after = state.spawn_after(task, duration);
    if state.in_flight(task) {
    } else if deadline <= state.now {
        lemma_flight_by_queue(state);
        lemma_flight_by_queue(after);
        lemma_push(state.ready, task);
        assert(queues_apart(after));
    } else {
        let at = due_count(state.waiting, deadline);
        let entry = Delayed { task, deadline };
        lemma_due_count_sorted(state.waiting, deadline);
        lemma_flight_by_queue(state);
        lemma_flight_by_queue(after);
        state.waiting.insert_ensures(at, entry);
        assert(tasks_of(after.waiting) =~= tasks_of(state.waiting).insert(at, task));
        lemma_insert(tasks_of(state.waiting), at, task);
        assert(queues_apart(after));
        let old_at = |i: int| if i < at { i } else { i - 1 };
        assert forall|i: int| 0 <= i < after.waiting.len() && i != at implies after.waiting[i]
            == state.waiting[old_at(i)] by {
            if i > at {
                assert(after.waiting[(i - 1) + 1] == state.waiting[i - 1]);
            }
        }
        assert forall|i: int, j: int| 0 <= i < j < after.waiting.len() implies after.waiting[i].deadline
            <= after.waiting[j].deadline by {
            if i != at {
                assert(after.waiting[i] == state.waiting[old_at(i)]);
            }
            if j != at {
                assert(after.waiting[j] == state.waiting[old_at(j)]);
            }
        }
        assert forall|i: int| 0 <= i < after.waiting.len() implies after.waiting[i].deadline
            > after.now by {
            if i != at {
                assert(after.waiting[i] == state.waiting[old_at(i)]);
            }
        }
    }
}

/// `advance_to` keeps the invariant.
pub proof fn lemma_advance_to_keeps_wf(state: SchedulerState, reading: Tick)
    requires
        state.wf(),
    ensures
        state.advance_to(reading).wf(),
{
    let after = state.advance_to(reading);
    let now = later_of(state.now, reading);
    let due = due_count(state.waiting, now);
    lemma_due_count_sorted(state.waiting, now);
    lemma_flight_by_queue(state);
    lemma_flight_by_queue(after);
    let w = tasks_of(state.waiting);
    assert(tasks_of(state.waiting.take(due)) =~= w.take(due));
    assert(tasks_of(state.waiting.skip(due)) =~= w.skip(due));
    lemma_split(w, due);
    lemma_concat(state.ready, w.take(due));
    assert(apart(state.ready, w.take(due)));
    assert(queues_apart(after));
    assert forall|i: int| 0 <= i < after.waiting.len() implies after.waiting[i].deadline
        > after.now by {
        assert(after.waiting[i] == state.waiting[due + i]);
    }
    assert forall|i: int, j: int| 0 <= i < j < after.waiting.len() implies after.waiting[i].deadline
        <= after.waiting[j].deadline by {
        assert(after.waiting[i] == state.waiting[due + i]);
        assert(after.waiting[j] == state.waiting[due + j]);
    }
}

/// `dispatch` keeps the invariant.
pub proof fn lemma_dispatch_keeps_wf(state: SchedulerState)
    requires
        state.wf(),
    ensures
        state.dispatch().wf(),
{
    let after = state.dispatch();
    if state.next() is Some {
        let task = state.next()->0;
        let best = state.best();
        lemma_best_upto(state.priorities, state.ready, state.ready.len() as int);
        lemma_flight_by_queue(state);
        lemma_flight_by_queue(after);
        lemma_remove(state.ready, best);
        lemma_push(state.running, task);
        assert(state.ready.contains(task));
        assert(queues_apart(after));
        assert forall|i: int| 1 <= i < after.running.len() implies after.priorities.preempts(
            #[trigger] after.running[i],
            after.running[i - 1],
        ) by {
            if i < state.running.len() {
                assert(after.running[i] == state.running[i]);
            }
        }
    }
}

/// `complete` keeps the invariant.
pub proof fn lemma_complete_keeps_wf(state: SchedulerState)
    requires
        state.wf(),
    ensures
        state.complete().wf(),
{
    let after = state.complete();
    if state.running.len() > 0 {
        lemma_flight_by_queue(state);
        lemma_flight_by_queue(after);
        let last = state.running.len() - 1;
        assert(state.running.drop_last() =~= state.running.remove(last));
        lemma_remove(state.running, last);
        assert(queues_apart(after));
        assert forall|i: int| 1 <= i < after.running.len() implies after.priorities.preempts(
            #[trigger] after.running[i],
            after.running[i - 1],
        ) by {
            assert(after.running[i] == state.running[i]);
        }
    }
}

/// One call on the scheduler.
pub enum Request {
    Spawn(Task),
    SpawnAfter(Task, u64),
    AdvanceTo(Tick),
    Dispatch,
    Complete,
}

/// The state after one call.
pub open spec fn apply(state: SchedulerState, request: Request) -> SchedulerState {
    match request {
        Request::Spawn(task) => state.spawn(task),
        Request::SpawnAfter(task, duration) => state.spawn_after(task, duration),
        Request::AdvanceTo(reading) => state.advance_to(reading),
        Request::Dispatch => state.dispatch(),
        Request::Complete => state.complete(),
    }
}

/// The state after a sequence of calls, made in order.
pub open spec fn apply_all(state: SchedulerState, requests: Seq<Request>) -> SchedulerState
    decreases requests.len(),
{
    if requests.len() == 0 {
        state
    } else {
        apply(apply_all(state, requests.drop_last()), requests.last())
    }
}

/// Every call keeps the invariant.
pub proof fn lemma_apply_keeps_wf(state: SchedulerState, request: Request)
    requires
        state.wf(),
    ensures
        apply(state, request).wf(),
{
    match request {
        Request::Spawn(task) => lemma_spawn_keeps_wf(state, task),
        Request::SpawnAfter(task, duration) => lemma_spawn_after_keeps_wf(state, task, duration),
        Request::AdvanceTo(reading) => lemma_advance_to_keeps_wf(state, reading),
        Request::Dispatch => lemma_dispatch_keeps_wf(state),
        Request::Complete => lemma_complete_keeps_wf(state),
    }
}

/// Every sequence of calls keeps the invariant.
pub proof fn lemma_apply_all_keeps_wf(state: SchedulerState, requests: Seq<Request>)
    requires
        state.wf(),
    ensures
        apply_all(state, requests).wf(),
    decreases requests.len(),
{
    if requests.len() > 0 {
        lemma_apply_all_keeps_wf(state, requests.drop_last());
        lemma_apply_keeps_wf(apply_all(state, requests.drop_last()), requests.last());
    }
}

/// At most one in flight: whatever calls are made on a new scheduler, and
/// however many of them have been made, no task has two outstanding instances,
/// be they waiting, ready or running.
pub proof fn lemma_at_most_one_in_flight(priorities: Priorities, requests: Seq<Request>, made: int)
    requires
        0 <= made <= requests.len(),
    ensures
        apply_all(SchedulerState::idle(priorities), requests.take(made)).wf(),
        apply_all(SchedulerState::idle(priorities), requests.take(made)).flight().no_duplicates(),
{
    lemma_idle_is_wf(priorities);
    lemma_apply_all_keeps_wf(SchedulerState::idle(priorities), requests.take(made));
}

/// In a state that meets the invariant, a task that is outstanding is in
/// exactly one queue, and there at exactly one place.
pub proof fn lemma_one_place(state: SchedulerState, task: Task)
    requires
        state.wf(),
    ensures
        !(state.is_waiting(task) && state.ready.contains(task)),
        !(state.is_waiting(task) && state.running.contains(task)),
        !(state.ready.contains(task) && state.running.contains(task)),
        forall|i: int, j: int|
            0 <= i < j < state.waiting.len() ==> !(state.waiting[i].task == task
                && state.waiting[j].task == task),
        forall|i: int, j: int|
            0 <= i < j < state.ready.len() ==> !(state.ready[i] == task && state.ready[j] == task),
        forall|i: int, j: int|
            0 <= i < j < state.running.len() ==> !(state.running[i] == task && state.running[j]
                == task),
{
    lemma_flight_by_queue(state);
    let w = tasks_of(state.waiting);
    assert forall|i: int, j: int| 0 <= i < j < state.waiting.len() implies !(state.waiting[i].task
        == task && state.waiting[j].task == task) by {
        assert(w[i] == state.waiting[i].task && w[j] == state.waiting[j].task);
    }
}

/// The task that a dispatch starts is ready, no ready task outranks it, and
/// every ready task that arrived before it ranks strictly lower.
pub proof fn lemma_next_is_best(state: SchedulerState)
    requires
        state.next() is Some,
    ensures
        0 <= state.best() < state.ready.len(),
        state.next() == Some(state.ready[state.best()]),
        forall|i: int|
            0 <= i < state.ready.len() ==> state.priorities.rank(#[trigger] state.ready[i])
                <= state.priorities.rank(state.next()->0),
        forall|i: int|
            0 <= i < state.best() ==> state.priorities.rank(#[trigger] state.ready[i])
                < state.priorities.rank(state.next()->0),
{
    lemma_best_upto(state.priorities, state.ready, state.ready.len() as int);
}

/// Priority ordering: with an interrupt-bound task and a time-triggered task
/// both ready, a dispatch never starts the time-triggered one; and unless an
/// interrupt-bound task is executing, it starts an interrupt-bound one.
pub proof fn lemma_interrupt_bound_goes_first(state: SchedulerState, bound: Task, timed: Task)
    requires
        state.ready.contains(bound),
        state.ready.contains(timed),
        bound.is_interrupt_bound(),
        !timed.is_interrupt_bound(),
    ensures
        state.next() != Some(timed),
        state.running.len() == 0 || !state.running.last().is_interrupt_bound() ==> state.next()
            is Some && state.next()->0.is_interrupt_bound(),
{
    lemma_best_upto(state.priorities, state.ready, state.ready.len() as int);
    let at = choose|i: int| 0 <= i < state.ready.len() && state.ready[i] == bound;
    let candidate = state.ready[state.best()];
    assert(state.priorities.rank(state.ready[at]) <= state.priorities.rank(candidate));
}

} // verus!
