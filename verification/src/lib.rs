//! A debounced push-button pipeline for a small LED board.
//!
//! A hardware edge on the button latches a pending flag; the edge handler
//! acknowledges the flag and schedules one deferred re-sample of the pin a fixed
//! window later; the re-sample acts on the LED bank only if the button is still
//! held. The crate holds the decisions of that pipeline as plain state machines:
//! the monotonic clock, the task scheduler with its one-in-flight rule, the edge
//! interrupt channel, the LED bank and the task bodies. Pins, timers and the
//! interrupt controller stay with the program that drives the board.
//!
//! Every type has a view, a plain mathematical value, and every operation says
//! which view it leaves behind. What holds over whole courses of events is
//! proved of those views: `upkeep` for the scheduler, `press` for the board.
//!
//! An operation takes the state that it changes by exclusive reference. A
//! program that shares a board between an interrupt handler and its idle loop
//! makes each call inside the critical section that gives it that reference, so
//! that no handler sees a state between two views.

pub mod board;
pub mod clock;
pub mod error;
pub mod interrupt;
pub mod led;
pub mod press;
pub mod scheduler;
pub mod seq_facts;
pub mod task;
pub mod tasks;
pub mod upkeep;
