//! The task kinds of the pipeline and the order in which they are served.

use vstd::prelude::*;

verus! {

/// The statically known tasks. At most one instance of each is outstanding at
/// any time.
#[derive(Clone, Copy, PartialEq, Eq, Structural, Debug)]
pub enum Task {
    /// The periodic background task.
    Heartbeat,
    /// The handler bound to the GPIO edge interrupt.
    EdgeHandler,
    /// The deferred re-sample of the button.
    Debounce,
}

impl Task {
    /// The task is started by a hardware interrupt rather than by the clock.
    pub open spec fn is_interrupt_bound(self) -> bool {
        self == Task::EdgeHandler
    }

    /// Tells whether the task is started by a hardware interrupt.
    pub fn interrupt_bound(self) -> (bound: bool)
        ensures
            bound == self.is_interrupt_bound(),
    {
        match self {
            Task::EdgeHandler => true,
            _ => false,
        }
    }
}

/// The fixed priority of each task. A lower number is a lower priority.
#[derive(Clone, Copy, PartialEq, Eq, Structural, Debug)]
pub struct Priorities {
    pub heartbeat: u8,
    pub edge_handler: u8,
    pub debounce: u8,
}

/// The rank at which the interrupt tier starts: above every priority of a
/// time-triggered task.
pub const INTERRUPT_TIER: u16 = 256;

impl Priorities {
    /// The priority of `task`.
    pub open spec fn of(self, task: Task) -> u8 {
        match task {
            Task::Heartbeat => self.heartbeat,
            Task::EdgeHandler => self.edge_handler,
            Task::Debounce => self.debounce,
        }
    }

    /// The place of `task` in the order of service: interrupt-bound tasks form a
    /// tier above all time-triggered ones, and within a tier the priority
    /// decides.
    pub open spec fn rank(self, task: Task) -> int {
        if task.is_interrupt_bound() {
            INTERRUPT_TIER + self.of(task)
        } else {
            self.of(task) as int
        }
    }

    /// `candidate` may interrupt `current`: it is interrupt-bound and `current`
    /// does not outrank it.
    pub open spec fn preempts(self, candidate: Task, current: Task) -> bool {
        candidate.is_interrupt_bound() && self.rank(candidate) >= self.rank(current)
    }

    /// Every task at priority 1.
    pub fn uniform() -> (priorities: Priorities)
        ensures
            priorities == (Priorities { heartbeat: 1, edge_handler: 1, debounce: 1 }),
    {
        Priorities { heartbeat: 1, edge_handler: 1, debounce: 1 }
    }

    /// The priority of `task`.
    pub fn priority(&self, task: Task) -> (priority: u8)
        ensures
            priority == self.of(task),
    {
        match task {
            Task::Heartbeat => self.heartbeat,
            Task::EdgeHandler => self.edge_handler,
            Task::Debounce => self.debounce,
        }
    }

    /// The rank of `task` in the order of service.
    pub fn rank_of(&self, task: Task) -> (rank: u16)
        ensures
            rank == self.rank(task),
    {
        let priority: u16 = self.priority(task) as u16;
        if task.interrupt_bound() {
            INTERRUPT_TIER + priority
        } else {
            priority
        }
    }

    /// Tells whether `candidate` may interrupt `current`.
    pub fn may_preempt(&self, candidate: Task, current: Task) -> (allowed: bool)
        ensures
            allowed == self.preempts(candidate, current),
    {
        candidate.interrupt_bound() && self.rank_of(candidate) >= self.rank_of(current)
    }
}

/// An interrupt-bound task outranks every time-triggered task, whatever their
/// priorities.
pub proof fn lemma_interrupt_tier_outranks(priorities: Priorities, bound: Task, timed: Task)
    requires
        bound.is_interrupt_bound(),
        !timed.is_interrupt_bound(),
    ensures
        priorities.rank(bound) > priorities.rank(timed),
        priorities.preempts(bound, timed),
        !priorities.preempts(timed, bound),
{
}

} // verus!
