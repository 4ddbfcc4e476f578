//! The bodies of the three tasks. Each takes the state that it shares and the
//! values that the hardware gave, and decides; none of them waits.

use vstd::prelude::*;
use crate::interrupt::InterruptSource;
use crate::led::{confirmed, ConfirmAction, LedRows};
use crate::scheduler::Scheduler;
use crate::task::Task;

verus! {

/// The debounce window, in milliseconds.
pub const DEBOUNCE_WINDOW_MS: u32 = 50;

/// The time between two heartbeats, in milliseconds.
pub const HEARTBEAT_PERIOD_MS: u32 = 2_000;

/// The heartbeat: asks for its next run, `period` ticks from now. The request is
/// accepted exactly when no heartbeat is outstanding; a rejected one is dropped.
pub fn foo(scheduler: &mut Scheduler, period: u64) -> (armed: bool)
    ensures
        armed == !old(scheduler)@.in_flight(Task::Heartbeat),
        final(scheduler)@ == old(scheduler)@.spawn_after(Task::Heartbeat, period),
        old(scheduler)@.wf() ==> final(scheduler)@.wf(),
{
    scheduler.spawn_after(Task::Heartbeat, period).is_ok()
}

/// The edge handler: acknowledges the edge, then asks for the button to be
/// sampled again `window` ticks from now. While a re-sample is outstanding the
/// request is dropped, so an edge inside the window neither restarts the window
/// nor adds a second re-sample.
pub fn on_gpiote(gpiote: &mut InterruptSource, scheduler: &mut Scheduler, window: u64) -> (scheduled:
    bool)
    ensures
        final(gpiote)@ == old(gpiote)@.reset(),
        scheduled == !old(scheduler)@.in_flight(Task::Debounce),
        final(scheduler)@ == old(scheduler)@.spawn_after(Task::Debounce, window),
        old(scheduler)@.wf() ==> final(scheduler)@.wf(),
{
    gpiote.reset();
    scheduler.spawn_after(Task::Debounce, window).is_ok()
}

/// The re-sample: with the button still held, the press is confirmed and the
/// action is applied to the bank once; with the button released, the edge was
/// bounce and the bank is left as it is.
pub fn debounce(btn1_pressed: bool, led_rows: &mut LedRows, action: ConfirmAction) -> (acted: bool)
    ensures
        acted == btn1_pressed,
        btn1_pressed ==> final(led_rows)@ == confirmed(old(led_rows)@, action),
        !btn1_pressed ==> final(led_rows)@ == old(led_rows)@,
{
    let led_is_light: bool = led_rows.is_all_turned_on();
    if btn1_pressed {
        match action {
            ConfirmAction::SetOpposite => {
                if led_is_light {
                    led_rows.turn_off_all();
                } else {
                    led_rows.turn_on_all();
                }
            },
            ConfirmAction::ToggleEach => {
                led_rows.toggle_all();
            },
        }
    }
    btn1_pressed
}

} // verus!
