//! The monotonic clock: ticks of a free-running counter, deadlines derived from
//! them, and the conversion from milliseconds to ticks.

use vstd::prelude::*;

verus! {

/// A reading of the free-running counter.
pub type Tick = u64;

/// The tick at or after which a delayed task may run.
pub type Deadline = u64;

/// The rate of the counter, in ticks per second.
pub const TICK_HZ: u32 = 1_000_000;

/// Ticks in one millisecond at `TICK_HZ`.
pub const TICKS_PER_MILLI: u64 = 1_000;

/// The deadline that lies `duration` ticks after `now`, held at the last tick
/// where the sum would pass it.
pub open spec fn deadline_after(now: Tick, duration: u64) -> Deadline {
    if now + duration > u64::MAX {
        u64::MAX
    } else {
        (now + duration) as u64
    }
}

/// The number of ticks in `ms` milliseconds.
pub open spec fn millis_ticks(ms: u32) -> u64 {
    (TICKS_PER_MILLI * ms) as u64
}

/// The later of two readings.
pub open spec fn later_of(a: Tick, b: Tick) -> Tick {
    if a >= b {
        a
    } else {
        b
    }
}

/// The counter is fine enough for a window of whole milliseconds never to be
/// taken for no time at all, and conversion keeps the order of durations.
pub proof fn lemma_millis_are_never_lost(shorter: u32, longer: u32)
    requires
        shorter <= longer,
    ensures
        TICK_HZ >= 1_000,
        millis_ticks(shorter) <= millis_ticks(longer),
        shorter > 0 ==> millis_ticks(shorter) >= TICKS_PER_MILLI,
        millis_ticks(0) == 0,
{
}

/// Computes the deadline `duration` ticks after `now`. The sum saturates, so the
/// call never fails near the end of the counter's range.
pub fn after(now: Tick, duration: u64) -> (deadline: Deadline)
    ensures
        deadline == deadline_after(now, duration),
        deadline >= now,
{
    now.saturating_add(duration)
}

/// Calls `fugit::ExtU64::millis` for a duration at one tick per microsecond
/// and takes its tick count. fugit computes the count as the value times
/// `DENOM / gcd(1000 * NOM, DENOM)`, divided by `1000 * NOM / gcd(..)`; with
/// `NOM = 1` and `DENOM = 1_000_000` that is the value times 1000, which for a
/// value that fits 32 bits cannot pass the 64-bit range.
#[verifier::external_body]
fn fugit_millis(ms: u32) -> (ticks: u64)
    ensures
        ticks == 1_000 * ms,
{
    let span: fugit::Duration<u64, 1, 1_000_000> = fugit::ExtU64::millis(u64::from(ms));
    span.ticks()
}

/// Converts milliseconds to ticks of the counter.
pub fn millis(ms: u32) -> (ticks: u64)
    ensures
        ticks == millis_ticks(ms),
{
    fugit_millis(ms)
}

/// The monotonic clock service. It holds the latest reading that the timer
/// driver gave and never steps back.
pub struct Clock {
    ticks: Tick,
}

impl View for Clock {
    type V = Tick;

    closed spec fn view(&self) -> Tick {
        self.ticks
    }
}

impl Clock {
    /// A clock that has counted no tick yet.
    pub fn new() -> (clock: Clock)
        ensures
            clock@ == 0,
    {
        Clock { ticks: 0 }
    }

    /// The current tick count.
    pub fn now(&self) -> (tick: Tick)
        ensures
            tick == self@,
    {
        self.ticks
    }

    /// Takes a reading of the counter. A reading behind the clock is ignored, so
    /// the clock is non-decreasing for its whole life.
    pub fn advance_to(&mut self, reading: Tick)
        ensures
            final(self)@ == later_of(old(self)@, reading),
            final(self)@ >= old(self)@,
    {
        if reading > self.ticks {
            self.ticks = reading;
        }
    }
}

/// The number of ticks that a 32-bit counter has counted between two readings,
/// given that it wrapped at most once between them.
pub open spec fn counter_distance(from: u32, to: u32) -> u64 {
    if to >= from {
        (to - from) as u64
    } else {
        (to + 0x1_0000_0000 - from) as u64
    }
}

/// What a wide counter holds: the last reading of the hardware counter and the
/// ticks counted so far.
pub struct WideCounterState {
    pub last: u32,
    pub ticks: Tick,
}

/// A 32-bit hardware counter, which wraps, widened to ticks that do not: each
/// reading adds what the counter has counted since the reading before.
pub struct WideCounter {
    last: u32,
    ticks: Tick,
}

impl View for WideCounter {
    type V = WideCounterState;

    closed spec fn view(&self) -> WideCounterState {
        WideCounterState { last: self.last, ticks: self.ticks }
    }
}

impl WideCounter {
    /// Starts at tick zero with the hardware counter at `counter`.
    pub fn new(counter: u32) -> (wide: WideCounter)
        ensures
            wide@ == (WideCounterState { last: counter, ticks: 0 }),
    {
        WideCounter { last: counter, ticks: 0 }
    }

    /// Takes a reading of the hardware counter and gives the tick that it
    /// stands for. The tick never steps back, and it stays at the last tick
    /// once the range is used up.
    pub fn read(&mut self, counter: u32) -> (tick: Tick)
        ensures
            tick == deadline_after(old(self)@.ticks, counter_distance(old(self)@.last, counter)),
            tick >= old(self)@.ticks,
            final(self)@ == (WideCounterState { last: counter, ticks: tick }),
    {
        let elapsed: u64 = if counter >= self.last {
            (counter - self.last) as u64
        } else {
            counter as u64 + 0x1_0000_0000 - self.last as u64
        };
        self.ticks = after(self.ticks, elapsed);
        self.last = counter;
        self.ticks
    }
}

} // verus!
