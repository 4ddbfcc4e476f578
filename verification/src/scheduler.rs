//! The task scheduler: a waiting set ordered by deadline, a ready set in order of
//! arrival, and the stack of tasks that are running.

use vstd::prelude::*;
use crate::clock::{after, deadline_after, later_of, Clock, Deadline, Tick};
use crate::error::Error;
use crate::task::{Priorities, Task};
use crate::upkeep::{
    lemma_advance_to_keeps_wf,
    lemma_complete_keeps_wf,
    lemma_dispatch_keeps_wf,
    lemma_idle_is_wf,
    lemma_spawn_after_keeps_wf,
    lemma_spawn_keeps_wf,
};

verus! {

/// A task that waits for its deadline.
#[derive(Clone, Copy, PartialEq, Eq, Structural, Debug)]
pub struct Delayed {
    pub task: Task,
    pub deadline: Deadline,
}

/// The tasks of a waiting set, in its order.
pub open spec fn tasks_of(waiting: Seq<Delayed>) -> Seq<Task> {
    waiting.map_values(|entry: Delayed| entry.task)
}

/// The first place at or after `from` whose deadline lies after `tick`, or the
/// length of the set if there is none.
pub open spec fn due_from(waiting: Seq<Delayed>, tick: Tick, from: int) -> int
    decreases waiting.len() - from,
{
    if 0 <= from < waiting.len() && waiting[from].deadline <= tick {
        due_from(waiting, tick, from + 1)
    } else {
        from
    }
}

/// The length of the longest prefix of the waiting set whose deadlines have all
/// passed at `tick`.
pub open spec fn due_count(waiting: Seq<Delayed>, tick: Tick) -> int {
    due_from(waiting, tick, 0)
}

/// The first place at or after `from` at which `task` waits, or the length of
/// the set if it does not wait there.
pub open spec fn first_entry(waiting: Seq<Delayed>, task: Task, from: int) -> int
    decreases waiting.len() - from,
{
    if 0 <= from < waiting.len() && waiting[from].task != task {
        first_entry(waiting, task, from + 1)
    } else {
        from
    }
}

/// The place of the task to serve among the first `n` ready tasks: the one of
/// highest rank, and of those the one that arrived first.
pub open spec fn best_upto(priorities: Priorities, ready: Seq<Task>, n: int) -> int
    decreases n,
{
    if n <= 1 {
        0
    } else {
        let best = best_upto(priorities, ready, n - 1);
        if priorities.rank(ready[n - 1]) > priorities.rank(ready[best]) {
            n - 1
        } else {
            best
        }
    }
}

/// What the scheduler holds.
pub struct SchedulerState {
    /// The fixed priorities of the tasks.
    pub priorities: Priorities,
    /// The latest reading of the clock.
    pub now: Tick,
    /// The delayed tasks whose deadline lies ahead, earliest first.
    pub waiting: Seq<Delayed>,
    /// The tasks that may run, in order of arrival.
    pub ready: Seq<Task>,
    /// The tasks that have started and not completed; the last one executes,
    /// those below it were interrupted.
    pub running: Seq<Task>,
}

impl SchedulerState {
    /// A scheduler with nothing outstanding, at tick zero.
    pub open spec fn idle(priorities: Priorities) -> SchedulerState {
        SchedulerState {
            priorities,
            now: 0,
            waiting: Seq::empty(),
            ready: Seq::empty(),
            running: Seq::empty(),
        }
    }

    /// Every outstanding instance, queue by queue.
    pub open spec fn flight(self) -> Seq<Task> {
        tasks_of(self.waiting) + self.ready + self.running
    }

    /// An instance of `task` waits for its deadline.
    pub open spec fn is_waiting(self, task: Task) -> bool {
        tasks_of(self.waiting).contains(task)
    }

    /// An instance of `task` is outstanding: waiting, ready or running.
    pub open spec fn in_flight(self, task: Task) -> bool {
        self.is_waiting(task) || self.ready.contains(task) || self.running.contains(task)
    }

    /// The deadline for which `task` waits, if it waits.
    pub open spec fn deadline_of(self, task: Task) -> Option<Deadline> {
        let at = first_entry(self.waiting, task, 0);
        if at < self.waiting.len() {
            Some(self.waiting[at].deadline)
        } else {
            None
        }
    }

    /// The invariant of the scheduler: the waiting set is ordered by deadline
    /// and holds only deadlines that lie ahead, no task has two outstanding
    /// instances, and every task above the bottom of the running stack
    /// interrupted the one below it.
    pub open spec fn wf(self) -> bool {
        &&& forall|i: int, j: int|
            0 <= i < j < self.waiting.len() ==> self.waiting[i].deadline
                <= self.waiting[j].deadline
        &&& forall|i: int| 0 <= i < self.waiting.len() ==> self.waiting[i].deadline > self.now
        &&& self.flight().no_duplicates()
        &&& forall|i: int|
            1 <= i < self.running.len() ==> self.priorities.preempts(
                #[trigger] self.running[i],
                self.running[i - 1],
            )
    }

    /// The state after a request to run `task` now: it joins the ready set
    /// unless an instance of it is outstanding.
    pub open spec fn spawn(self, task: Task) -> SchedulerState {
        if self.in_flight(task) {
            self
        } else {
            SchedulerState { ready: self.ready.push(task), ..self }
        }
    }

    /// The state after a request to run `task` no earlier than `duration` ticks
    /// from now. The request is dropped if an instance is outstanding. A
    /// deadline that has already come puts the task in the ready set; any other
    /// puts it in the waiting set behind every entry that is due no later.
    pub open spec fn spawn_after(self, task: Task, duration: u64) -> SchedulerState {
        let deadline = deadline_after(self.now, duration);
        if self.in_flight(task) {
            self
        } else if deadline <= self.now {
            SchedulerState { ready: self.ready.push(task), ..self }
        } else {
            SchedulerState {
                waiting: self.waiting.insert(
                    due_count(self.waiting, deadline),
                    Delayed { task, deadline },
                ),
                ..self
            }
        }
    }

    /// The state after the clock was read: the clock never steps back, and the
    /// waiting tasks whose deadline has passed join the ready set in the order
    /// of their deadlines.
    pub open spec fn advance_to(self, reading: Tick) -> SchedulerState {
        let now = later_of(self.now, reading);
        let due = due_count(self.waiting, now);
        SchedulerState {
            now,
            waiting: self.waiting.skip(due),
            ready: self.ready + tasks_of(self.waiting.take(due)),
            ..self
        }
    }

    /// The place in the ready set of the task to serve next.
    pub open spec fn best(self) -> int {
        best_upto(self.priorities, self.ready, self.ready.len() as int)
    }

    /// The task that a dispatch starts, if any: the best ready task, provided
    /// that nothing is running or that it may interrupt what is running.
    pub open spec fn next(self) -> Option<Task> {
        if self.ready.len() == 0 {
            None
        } else {
            let candidate = self.ready[self.best()];
            if self.running.len() == 0 || self.priorities.preempts(
                candidate,
                self.running.last(),
            ) {
                Some(candidate)
            } else {
                None
            }
        }
    }

    /// The state after a dispatch: the task that starts leaves the ready set and
    /// goes on top of the running stack.
    pub open spec fn dispatch(self) -> SchedulerState {
        match self.next() {
            Some(task) => SchedulerState {
                ready: self.ready.remove(self.best()),
                running: self.running.push(task),
                ..self
            },
            None => self,
        }
    }

    /// The task that executes, if any.
    pub open spec fn current(self) -> Option<Task> {
        if self.running.len() == 0 {
            None
        } else {
            Some(self.running.last())
        }
    }

    /// The state after the executing task ran to completion.
    pub open spec fn complete(self) -> SchedulerState {
        if self.running.len() == 0 {
            self
        } else {
            SchedulerState { running: self.running.drop_last(), ..self }
        }
    }
}

/// The task scheduler. Its view is the `SchedulerState` that it holds.
pub struct Scheduler {
    priorities: Priorities,
    clock: Clock,
    waiting: Vec<Delayed>,
    ready: Vec<Task>,
    running: Vec<Task>,
}

impl View for Scheduler {
    type V = SchedulerState;

    closed spec fn view(&self) -> SchedulerState {
        SchedulerState {
            priorities: self.priorities,
            now: self.clock@,
            waiting: self.waiting@,
            ready: self.ready@,
            running: self.running@,
        }
    }
}

/// Tells whether `queue` names `task`.
fn names(queue: &Vec<Task>, task: Task) -> (found: bool)
    ensures
        found == queue@.contains(task),
{
    let mut i: usize = 0;
    while i < queue.len()
        invariant
            i <= queue.len(),
            forall|j: int| 0 <= j < i ==> queue@[j] != task,
        decreases queue.len() - i,
    {
        if queue[i] == task {
            return true;
        }
        i = i + 1;
    }
    false
}

/// Finds the first place at which `task` waits.
fn find_entry(waiting: &Vec<Delayed>, task: Task) -> (at: usize)
    ensures
        at == first_entry(waiting@, task, 0),
        at <= waiting.len(),
        at < waiting.len() ==> waiting@[at as int].task == task,
        forall|j: int| 0 <= j < at ==> waiting@[j].task != task,
{
    let mut i: usize = 0;
    while i < waiting.len() && waiting[i].task != task
        invariant
            i <= waiting.len(),
            first_entry(waiting@, task, 0) == first_entry(waiting@, task, i as int),
            forall|j: int| 0 <= j < i ==> waiting@[j].task != task,
        decreases waiting.len() - i,
    {
        i = i + 1;
    }
    i
}

/// Finds the place behind the entries of `waiting` that are due at `tick`.
fn find_due(waiting: &Vec<Delayed>, tick: Tick) -> (at: usize)
    ensures
        at == due_count(waiting@, tick),
        at <= waiting.len(),
{
    let mut i: usize = 0;
    while i < waiting.len() && waiting[i].deadline <= tick
        invariant
            i <= waiting.len(),
            due_from(waiting@, tick, 0) == due_from(waiting@, tick, i as int),
        decreases waiting.len() - i,
    {
        i = i + 1;
    }
    i
}

/// Finds the place of the ready task to serve next.
fn find_best(priorities: &Priorities, ready: &Vec<Task>) -> (best: usize)
    requires
        ready.len() > 0,
    ensures
        best == best_upto(*priorities, ready@, ready.len() as int),
        best < ready.len(),
{
    let mut best: usize = 0;
    let mut i: usize = 1;
    while i < ready.len()
        invariant
            1 <= i <= ready.len(),
            best < i,
            best == best_upto(*priorities, ready@, i as int),
        decreases ready.len() - i,
    {
        if priorities.rank_of(ready[i]) > priorities.rank_of(ready[best]) {
            best = i;
        }
        i = i + 1;
    }
    best
}

impl Scheduler {
    /// A scheduler with nothing outstanding, its clock at tick zero.
    pub fn new(priorities: Priorities) -> (scheduler: Scheduler)
        ensures
            scheduler@ == SchedulerState::idle(priorities),
            scheduler@.wf(),
    {
        proof {
            lemma_idle_is_wf(priorities);
        }
        Scheduler {
            priorities,
            clock: Clock::new(),
            waiting: Vec::new(),
            ready: Vec::new(),
            running: Vec::new(),
        }
    }

    /// The latest reading of the clock.
    pub fn now(&self) -> (tick: Tick)
        ensures
            tick == self@.now,
    {
        self.clock.now()
    }

    /// The priorities that the scheduler was made with.
    pub fn priorities(&self) -> (priorities: Priorities)
        ensures
            priorities == self@.priorities,
    {
        self.priorities
    }

    /// Tells whether an instance of `task` waits for its deadline.
    pub fn is_waiting(&self, task: Task) -> (waits: bool)
        ensures
            waits == self@.is_waiting(task),
    {
        let at: usize = find_entry(&self.waiting, task);
        proof {
            let tasks = tasks_of(self.waiting@);
            if at < self.waiting.len() {
                assert(tasks[at as int] == task);
            } else {
                assert forall|j: int| 0 <= j < tasks.len() implies tasks[j] != task by {
                    assert(self.waiting@[j].task != task);
                }
            }
        }
        at < self.waiting.len()
    }

    /// Tells whether an instance of `task` is in the ready set.
    pub fn is_ready(&self, task: Task) -> (ready: bool)
        ensures
            ready == self@.ready.contains(task),
    {
        names(&self.ready, task)
    }

    /// Tells whether an instance of `task` has started and not completed.
    pub fn is_running(&self, task: Task) -> (running: bool)
        ensures
            running == self@.running.contains(task),
    {
        names(&self.running, task)
    }

    /// Tells whether an instance of `task` is outstanding.
    pub fn in_flight(&self, task: Task) -> (outstanding: bool)
        ensures
            outstanding == self@.in_flight(task),
    {
        self.is_waiting(task) || self.is_ready(task) || self.is_running(task)
    }

    /// The deadline for which `task` waits, if it waits.
    pub fn deadline_of(&self, task: Task) -> (deadline: Option<Deadline>)
        ensures
            deadline == self@.deadline_of(task),
    {
        let at: usize = find_entry(&self.waiting, task);
        if at < self.waiting.len() {
            Some(self.waiting[at].deadline)
        } else {
            None
        }
    }

    /// The task that executes, if any.
    pub fn current(&self) -> (task: Option<Task>)
        ensures
            task == self@.current(),
    {
        if self.running.len() == 0 {
            None
        } else {
            Some(self.running[self.running.len() - 1])
        }
    }

    /// Asks for `task` to run now. The request is rejected, and nothing changes,
    /// exactly when an instance of `task` is outstanding.
    pub fn spawn(&mut self, task: Task) -> (outcome: Result<(), Error>)
        ensures
            outcome == (if old(self)@.in_flight(task) {
                Err::<(), Error>(Error::SchedulingRejected)
            } else {
                Ok::<(), Error>(())
            }),
            final(self)@ == old(self)@.spawn(task),
            old(self)@.wf() ==> final(self)@.wf(),
    {
        proof {
            if self@.wf() {
                lemma_spawn_keeps_wf(self@, task);
            }
        }
        if self.in_flight(task) {
            return Err(Error::SchedulingRejected);
        }
        self.ready.push(task);
        Ok(())
    }

    /// Asks for `task` to run no earlier than `duration` ticks from now. The
    /// request is rejected, and nothing changes, exactly when an instance of
    /// `task` is outstanding.
    pub fn spawn_after(&mut self, task: Task, duration: u64) -> (outcome: Result<(), Error>)
        ensures
            outcome == (if old(self)@.in_flight(task) {
                Err::<(), Error>(Error::SchedulingRejected)
            } else {
                Ok::<(), Error>(())
            }),
            final(self)@ == old(self)@.spawn_after(task, duration),
            old(self)@.wf() ==> final(self)@.wf(),
    {
        proof {
            if self@.wf() {
                lemma_spawn_after_keeps_wf(self@, task, duration);
            }
        }
        if self.in_flight(task) {
            return Err(Error::SchedulingRejected);
        }
        let now: Tick = self.clock.now();
        let deadline: Deadline = after(now, duration);
        if deadline <= now {
            self.ready.push(task);
        } else {
            let at: usize = find_due(&self.waiting, deadline);
            self.waiting.insert(at, Delayed { task, deadline });
        }
        Ok(())
    }

    /// Takes a reading of the clock and moves the waiting tasks whose deadline
    /// has passed into the ready set.
    pub fn advance_to(&mut self, reading: Tick)
        ensures
            final(self)@ == old(self)@.advance_to(reading),
            old(self)@.wf() ==> final(self)@.wf(),
    {
        let ghost before = self@;
        proof {
            if before.wf() {
                lemma_advance_to_keeps_wf(before, reading);
            }
        }
        self.clock.advance_to(reading);
        let now: Tick = self.clock.now();
        let ghost mut moved: int = 0;
        assert(before.waiting.skip(0) =~= before.waiting);
        assert(before.ready + tasks_of(before.waiting.take(0)) =~= before.ready);
        while self.waiting.len() > 0 && self.waiting[0].deadline <= now
            invariant
                0 <= moved <= before.waiting.len(),
                self.waiting@ == before.waiting.skip(moved),
                self.ready@ == before.ready + tasks_of(before.waiting.take(moved)),
                due_from(before.waiting, now, 0) == due_from(before.waiting, now, moved),
                self.clock@ == now,
                self.priorities == before.priorities,
                self.running@ == before.running,
            decreases self.waiting.len(),
        {
            let entry: Delayed = self.waiting.remove(0);
            self.ready.push(entry.task);
            proof {
                assert(entry == before.waiting[moved]);
                assert(before.waiting.skip(moved).remove(0) =~= before.waiting.skip(moved + 1));
                assert(tasks_of(before.waiting.take(moved)).push(entry.task) =~= tasks_of(
                    before.waiting.take(moved + 1),
                ));
                assert((before.ready + tasks_of(before.waiting.take(moved))).push(entry.task)
                    =~= before.ready + tasks_of(before.waiting.take(moved + 1)));
                moved = moved + 1;
            }
        }
        proof {
            if self.waiting.len() > 0 {
                assert(self.waiting@[0] == before.waiting[moved]);
            }
            assert(due_count(before.waiting, now) == moved);
        }
    }

    /// Starts the next task, if one may start: the ready task of highest rank,
    /// and of those the one that arrived first. With a task running, only an
    /// interrupt-bound task that the running one does not outrank may start.
    pub fn dispatch(&mut self) -> (started: Option<Task>)
        ensures
            started == old(self)@.next(),
            final(self)@ == old(self)@.dispatch(),
            old(self)@.wf() ==> final(self)@.wf(),
    {
        proof {
            if self@.wf() {
                lemma_dispatch_keeps_wf(self@);
            }
        }
        if self.ready.len() == 0 {
            return None;
        }
        let best: usize = find_best(&self.priorities, &self.ready);
        let candidate: Task = self.ready[best];
        let starts: bool = if self.running.len() == 0 {
            true
        } else {
            self.priorities.may_preempt(candidate, self.running[self.running.len() - 1])
        };
        if starts {
            self.ready.remove(best);
            self.running.push(candidate);
            Some(candidate)
        } else {
            None
        }
    }

    /// One round of the dispatch loop: takes a reading of the clock, which moves
    /// the waiting tasks whose deadline has passed into the ready set, and then
    /// starts the next task, if one may start.
    pub fn dispatch_at(&mut self, reading: Tick) -> (started: Option<Task>)
        ensures
            started == old(self)@.advance_to(reading).next(),
            final(self)@ == old(self)@.advance_to(reading).dispatch(),
            old(self)@.wf() ==> final(self)@.wf(),
    {
        self.advance_to(reading);
        self.dispatch()
    }

    /// Ends the task that executes, if any, and names it. A task that it had
    /// interrupted executes again.
    pub fn complete(&mut self) -> (ended: Option<Task>)
        ensures
            ended == old(self)@.current(),
            final(self)@ == old(self)@.complete(),
            old(self)@.wf() ==> final(self)@.wf(),
    {
        proof {
            if self@.wf() {
                lemma_complete_keeps_wf(self@);
            }
        }
        self.running.pop()
    }
}

} // verus!
