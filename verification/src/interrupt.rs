//! The interrupt source: one GPIO edge channel with its latched pending flag.

use vstd::prelude::*;

verus! {

/// The direction of a pin transition.
#[derive(Clone, Copy, PartialEq, Eq, Structural, Debug)]
pub enum EdgeDirection {
    /// From high to low: with a pull-up, the button going down.
    HiToLo,
    /// From low to high: the button coming up.
    LoToHi,
}

/// What a channel holds: the pin and edge it watches, whether its interrupt is
/// enabled, and its pending flag.
pub struct ChannelState {
    pub pin: Option<u8>,
    pub direction: EdgeDirection,
    pub enabled: bool,
    pub pending: bool,
}

impl ChannelState {
    /// A channel that watches no pin, with its interrupt off and its flag clear.
    pub open spec fn idle() -> ChannelState {
        ChannelState { pin: None, direction: EdgeDirection::HiToLo, enabled: false, pending: false }
    }

    /// The channel set to watch `pin` for `direction`.
    pub open spec fn configure(self, pin: u8, direction: EdgeDirection) -> ChannelState {
        ChannelState { pin: Some(pin), direction, ..self }
    }

    /// The channel with its interrupt enabled or disabled.
    pub open spec fn with_enabled(self, enabled: bool) -> ChannelState {
        ChannelState { enabled, ..self }
    }

    /// The transition is the one that the channel watches.
    pub open spec fn watches(self, pin: u8, direction: EdgeDirection) -> bool {
        self.pin == Some(pin) && self.direction == direction
    }

    /// The transition raises the interrupt: it is watched, the interrupt is
    /// enabled, and no earlier edge is still unacknowledged.
    pub open spec fn fires(self, pin: u8, direction: EdgeDirection) -> bool {
        self.watches(pin, direction) && self.enabled && !self.pending
    }

    /// The channel after the hardware saw the transition: a watched one latches
    /// the flag, any other leaves the channel as it is.
    pub open spec fn sense(self, pin: u8, direction: EdgeDirection) -> ChannelState {
        if self.watches(pin, direction) {
            ChannelState { pending: true, ..self }
        } else {
            self
        }
    }

    /// The channel with its flag cleared.
    pub open spec fn reset(self) -> ChannelState {
        ChannelState { pending: false, ..self }
    }
}

/// Clearing the flag when no edge is pending changes nothing, and clearing it
/// twice is clearing it once.
pub proof fn lemma_reset_is_idempotent(channel: ChannelState)
    ensures
        !channel.pending ==> channel.reset() == channel,
        channel.reset().reset() == channel.reset(),
        !channel.reset().pending,
{
}

/// A pending flag keeps later edges from raising the interrupt until it is
/// cleared.
pub proof fn lemma_pending_blocks_refire(channel: ChannelState, pin: u8, direction: EdgeDirection)
    ensures
        channel.pending ==> !channel.fires(pin, direction),
        channel.watches(pin, direction) ==> !channel.sense(pin, direction).fires(pin, direction),
        channel.watches(pin, direction) && channel.enabled ==> channel.sense(pin, direction).reset().fires(
            pin,
            direction,
        ),
{
}

/// The GPIO edge channel.
pub struct InterruptSource {
    pin: Option<u8>,
    direction: EdgeDirection,
    enabled: bool,
    pending: bool,
}

impl View for InterruptSource {
    type V = ChannelState;

    closed spec fn view(&self) -> ChannelState {
        ChannelState {
            pin: self.pin,
            direction: self.direction,
            enabled: self.enabled,
            pending: self.pending,
        }
    }
}

impl InterruptSource {
    /// A channel that watches no pin yet.
    pub fn new() -> (source: InterruptSource)
        ensures
            source@ == ChannelState::idle(),
    {
        InterruptSource { pin: None, direction: EdgeDirection::HiToLo, enabled: false, pending: false }
    }

    /// Sets the pin and the edge that the channel watches.
    pub fn configure(&mut self, pin: u8, edge_direction: EdgeDirection)
        ensures
            final(self)@ == old(self)@.configure(pin, edge_direction),
    {
        self.pin = Some(pin);
        self.direction = edge_direction;
    }

    /// Enables the channel's interrupt.
    pub fn enable(&mut self)
        ensures
            final(self)@ == old(self)@.with_enabled(true),
    {
        self.enabled = true;
    }

    /// Disables the channel's interrupt. The flag still latches watched edges.
    pub fn disable(&mut self)
        ensures
            final(self)@ == old(self)@.with_enabled(false),
    {
        self.enabled = false;
    }

    /// Tells whether the channel's interrupt is enabled.
    pub fn is_enabled(&self) -> (enabled: bool)
        ensures
            enabled == self@.enabled,
    {
        self.enabled
    }

    /// Tells whether an edge is latched and not yet acknowledged.
    pub fn is_triggered(&self) -> (pending: bool)
        ensures
            pending == self@.pending,
    {
        self.pending
    }

    /// Acknowledges the edge: clears the pending flag. With no edge pending the
    /// channel is left exactly as it was.
    pub fn reset(&mut self)
        ensures
            final(self)@ == old(self)@.reset(),
            !old(self)@.pending ==> final(self)@ == old(self)@,
    {
        self.pending = false;
    }

    /// Records a transition that the hardware saw on `pin`, and tells whether it
    /// raises the interrupt.
    pub fn sense(&mut self, pin: u8, direction: EdgeDirection) -> (fires: bool)
        ensures
            fires == old(self)@.fires(pin, direction),
            final(self)@ == old(self)@.sense(pin, direction),
    {
        let watched: bool = match self.pin {
            Some(p) => p == pin && self.direction == direction,
            None => false,
        };
        if watched {
            let fires: bool = self.enabled && !self.pending;
            self.pending = true;
            fires
        } else {
            false
        }
    }
}

} // verus!
