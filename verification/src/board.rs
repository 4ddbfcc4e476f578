//! The board as a whole: the scheduler, the edge channel and the LED bank, and
//! the events that drive them.

use vstd::prelude::*;
use crate::clock::{millis, millis_ticks, Tick};
use crate::error::Error;
use crate::interrupt::{ChannelState, EdgeDirection, InterruptSource};
use crate::led::{confirmed, uniform, ConfirmAction, LedRows};
use crate::scheduler::{Scheduler, SchedulerState};
use crate::task::{Priorities, Task};
use crate::press::{lemma_event_keeps_wf, lemma_started_is_wf, Event};
use crate::tasks::{debounce, foo, on_gpiote, DEBOUNCE_WINDOW_MS, HEARTBEAT_PERIOD_MS};

verus! {

/// The pin of the button.
pub const BUTTON_PIN: u8 = 14;

/// The choices that are fixed when the board is started.
#[derive(Clone, Copy, PartialEq, Eq, Structural, Debug)]
pub struct Config {
    /// The priority of each task.
    pub priorities: Priorities,
    /// The pin whose falling edge is a press.
    pub button_pin: u8,
    /// The debounce window, in ticks.
    pub window: u64,
    /// The time between two heartbeats, in ticks.
    pub heartbeat_period: u64,
    /// What a confirmed press does to the LED bank.
    pub action: ConfirmAction,
}

impl Config {
    /// The configuration of the board as shipped: every task at priority 1, the
    /// button on `BUTTON_PIN`, a window of `DEBOUNCE_WINDOW_MS`, a heartbeat
    /// every `HEARTBEAT_PERIOD_MS`, and a confirmed press that sets the bank to
    /// the opposite of what it shows.
    pub open spec fn shipped() -> Config {
        Config {
            priorities: Priorities { heartbeat: 1, edge_handler: 1, debounce: 1 },
            button_pin: BUTTON_PIN,
            window: millis_ticks(DEBOUNCE_WINDOW_MS),
            heartbeat_period: millis_ticks(HEARTBEAT_PERIOD_MS),
            action: ConfirmAction::SetOpposite,
        }
    }

    /// The configuration of the board as shipped.
    pub fn standard() -> (config: Config)
        ensures
            config == Config::shipped(),
    {
        Config {
            priorities: Priorities::uniform(),
            button_pin: BUTTON_PIN,
            window: millis(DEBOUNCE_WINDOW_MS),
            heartbeat_period: millis(HEARTBEAT_PERIOD_MS),
            action: ConfirmAction::SetOpposite,
        }
    }
}

/// The two states of the debounce machine.
#[derive(Clone, Copy, PartialEq, Eq, Structural, Debug)]
pub enum DebounceState {
    /// No re-sample is outstanding.
    Idle,
    /// A re-sample is outstanding.
    Settling,
}

/// The state of the debounce machine: it settles exactly while a re-sample is
/// outstanding.
pub open spec fn debounce_state_of(scheduler: SchedulerState) -> DebounceState {
    if scheduler.in_flight(Task::Debounce) {
        DebounceState::Settling
    } else {
        DebounceState::Idle
    }
}

/// What the board holds.
pub struct BoardState {
    pub config: Config,
    pub scheduler: SchedulerState,
    pub gpiote: ChannelState,
    pub led_rows: Seq<bool>,
    /// An unrecoverable fault has stopped the board.
    pub halted: bool,
}

impl BoardState {
    /// The board as startup leaves it: every LED off, the channel watching the
    /// button for a falling edge with its interrupt on, and the first heartbeat
    /// ready.
    pub open spec fn started(config: Config) -> BoardState {
        BoardState {
            config,
            scheduler: SchedulerState::idle(config.priorities).spawn(Task::Heartbeat),
            gpiote: ChannelState::idle().configure(
                config.button_pin,
                EdgeDirection::HiToLo,
            ).with_enabled(true),
            led_rows: uniform(false),
            halted: false,
        }
    }

    /// The board after the hardware saw a transition on a pin: the channel
    /// latches it if it is watched, and a transition that raises the interrupt
    /// makes the edge handler ready.
    pub open spec fn edge(self, pin: u8, direction: EdgeDirection) -> BoardState {
        BoardState {
            gpiote: self.gpiote.sense(pin, direction),
            scheduler: if self.gpiote.fires(pin, direction) {
                self.scheduler.spawn(Task::EdgeHandler)
            } else {
                self.scheduler
            },
            ..self
        }
    }

    /// The board after the clock was read.
    pub open spec fn advance_to(self, reading: Tick) -> BoardState {
        BoardState { scheduler: self.scheduler.advance_to(reading), ..self }
    }

    /// The board after `task` was started, ran its body and completed, with
    /// `pressed` the level of the button at that moment. The heartbeat asks for
    /// its next run as its instance ends.
    pub open spec fn run(self, task: Task, pressed: bool) -> BoardState {
        let started = self.scheduler.dispatch();
        match task {
            Task::EdgeHandler => BoardState {
                gpiote: self.gpiote.reset(),
                scheduler: started.spawn_after(Task::Debounce, self.config.window).complete(),
                ..self
            },
            Task::Debounce => BoardState {
                led_rows: if pressed {
                    confirmed(self.led_rows, self.config.action)
                } else {
                    self.led_rows
                },
                scheduler: started.complete(),
                ..self
            },
            Task::Heartbeat => BoardState {
                scheduler: started.complete().spawn_after(
                    Task::Heartbeat,
                    self.config.heartbeat_period,
                ),
                ..self
            },
        }
    }

    /// The board after the dispatcher was given one turn: a halted board stays
    /// as it is; otherwise the task that may start, if any, runs to completion.
    pub open spec fn run_next(self, pressed: bool) -> BoardState {
        if self.halted {
            self
        } else {
            match self.scheduler.next() {
                Some(task) => self.run(task, pressed),
                None => self,
            }
        }
    }

    /// The board after an unrecoverable fault: it dispatches no more, and the
    /// interrupt of its channel is off.
    pub open spec fn halt(self) -> BoardState {
        BoardState { halted: true, gpiote: self.gpiote.with_enabled(false), ..self }
    }

    /// The invariant of the board: its scheduler meets its own invariant and
    /// runs with the configured priorities; between two events no task is
    /// running; the channel watches the button for a falling edge; a halted
    /// board has its interrupt off; and on a board that has not halted the
    /// interrupt is on and an edge is pending exactly while the edge handler is
    /// ready, so that no edge is lost and none is handled twice.
    pub open spec fn wf(self) -> bool {
        &&& self.scheduler.wf()
        &&& self.scheduler.priorities == self.config.priorities
        &&& self.scheduler.running.len() == 0
        &&& self.gpiote.watches(self.config.button_pin, EdgeDirection::HiToLo)
        &&& !self.scheduler.is_waiting(Task::EdgeHandler)
        &&& self.halted ==> !self.gpiote.enabled
        &&& !self.halted ==> self.gpiote.enabled && (self.gpiote.pending
            <==> self.scheduler.ready.contains(Task::EdgeHandler))
    }
}

/// The board.
pub struct Board {
    config: Config,
    scheduler: Scheduler,
    gpiote: InterruptSource,
    led_rows: LedRows,
    halted: bool,
}

impl View for Board {
    type V = BoardState;

    closed spec fn view(&self) -> BoardState {
        BoardState {
            config: self.config,
            scheduler: self.scheduler@,
            gpiote: self.gpiote@,
            led_rows: self.led_rows@,
            halted: self.halted,
        }
    }
}

/// Starts the board. `claimed` tells whether the program holds the hardware that
/// the board needs: the pins, the timer and the edge channel. Without it there
/// is no board.
pub fn init(claimed: bool, config: Config) -> (outcome: Result<Board, Error>)
    ensures
        claimed ==> outcome is Ok && outcome->Ok_0@ == BoardState::started(config)
            && outcome->Ok_0@.wf(),
        !claimed ==> outcome is Err && outcome->Err_0 == Error::PeripheralUnavailable,
{
    proof {
        lemma_started_is_wf(config);
    }
    if !claimed {
        return Err(Error::PeripheralUnavailable);
    }
    let led_rows = LedRows::new();
    let mut gpiote = InterruptSource::new();
    gpiote.configure(config.button_pin, EdgeDirection::HiToLo);
    gpiote.enable();
    let mut scheduler = Scheduler::new(config.priorities);
    let _ = scheduler.spawn(Task::Heartbeat);
    Ok(Board { config, scheduler, gpiote, led_rows, halted: false })
}

impl Board {
    /// The configuration that the board was started with.
    pub fn config(&self) -> (config: Config)
        ensures
            config == self@.config,
    {
        self.config
    }

    /// The scheduler of the board.
    pub fn scheduler(&self) -> (scheduler: &Scheduler)
        ensures
            scheduler@ == self@.scheduler,
    {
        &self.scheduler
    }

    /// The edge channel of the board.
    pub fn gpiote(&self) -> (gpiote: &InterruptSource)
        ensures
            gpiote@ == self@.gpiote,
    {
        &self.gpiote
    }

    /// The LED bank of the board. A reader outside the critical section of the
    /// tasks may read it for display; it sees each LED as some task left it.
    pub fn led_rows(&self) -> (led_rows: &LedRows)
        ensures
            led_rows@ == self@.led_rows,
    {
        &self.led_rows
    }

    /// Tells whether an unrecoverable fault has stopped the board.
    pub fn is_halted(&self) -> (halted: bool)
        ensures
            halted == self@.halted,
    {
        self.halted
    }

    /// The state of the debounce machine.
    pub fn debounce_state(&self) -> (state: DebounceState)
        ensures
            state == debounce_state_of(self@.scheduler),
    {
        if self.scheduler.in_flight(Task::Debounce) {
            DebounceState::Settling
        } else {
            DebounceState::Idle
        }
    }

    /// Records a transition that the hardware saw on `pin`, and tells whether it
    /// raised the interrupt.
    pub fn edge(&mut self, pin: u8, direction: EdgeDirection) -> (fired: bool)
        ensures
            fired == old(self)@.gpiote.fires(pin, direction),
            final(self)@ == old(self)@.edge(pin, direction),
            old(self)@.wf() ==> final(self)@.wf(),
    {
        proof {
            if self@.wf() {
                lemma_event_keeps_wf(self@, Event::Edge(pin, direction));
            }
        }
        let fired: bool = self.gpiote.sense(pin, direction);
        if fired {
            let _ = self.scheduler.spawn(Task::EdgeHandler);
        }
        fired
    }

    /// Takes a reading of the clock.
    pub fn advance_to(&mut self, reading: Tick)
        ensures
            final(self)@ == old(self)@.advance_to(reading),
            old(self)@.wf() ==> final(self)@.wf(),
    {
        proof {
            if self@.wf() {
                lemma_event_keeps_wf(self@, Event::AdvanceTo(reading));
            }
        }
        self.scheduler.advance_to(reading);
    }

    /// Gives the dispatcher one turn: starts the task that may start, runs its
    /// body to completion and names it. `btn1_pressed` is the level of the
    /// button now; only the re-sample reads it. A halted board reports the
    /// fault and does nothing.
    pub fn run_next(&mut self, btn1_pressed: bool) -> (ran: Result<Option<Task>, Error>)
        ensures
            ran == (if old(self)@.halted {
                Err::<Option<Task>, Error>(Error::UnrecoverableFault)
            } else {
                Ok::<Option<Task>, Error>(old(self)@.scheduler.next())
            }),
            final(self)@ == old(self)@.run_next(btn1_pressed),
            old(self)@.wf() ==> final(self)@.wf(),
    {
        proof {
            if self@.wf() {
                lemma_event_keeps_wf(self@, Event::RunNext(btn1_pressed));
            }
        }
        if self.halted {
            return Err(Error::UnrecoverableFault);
        }
        let started: Option<Task> = self.scheduler.dispatch();
        match started {
            Some(Task::EdgeHandler) => {
                let _ = on_gpiote(&mut self.gpiote, &mut self.scheduler, self.config.window);
                let _ = self.scheduler.complete();
            },
            Some(Task::Debounce) => {
                let _ = debounce(btn1_pressed, &mut self.led_rows, self.config.action);
                let _ = self.scheduler.complete();
            },
            Some(Task::Heartbeat) => {
                let _ = self.scheduler.complete();
                let _ = foo(&mut self.scheduler, self.config.heartbeat_period);
            },
            None => {},
        }
        Ok(started)
    }

    /// Stops the board after an unrecoverable fault.
    pub fn halt(&mut self)
        ensures
            final(self)@ == old(self)@.halt(),
            old(self)@.wf() ==> final(self)@.wf(),
    {
        self.halted = true;
        self.gpiote.disable();
    }
}

} // verus!
