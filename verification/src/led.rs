//! The shared output state: a bank of five LEDs, each a logical level.

use vstd::prelude::*;

verus! {

/// The number of LEDs in the bank.
pub const LED_COUNT: usize = 5;

/// The wiring of the bank: an LED that is on has its pin driven high.
pub const LED_ACTIVE_HIGH: bool = true;

/// One LED of the bank.
#[derive(Clone, Copy, PartialEq, Eq, Structural, Debug)]
pub enum Led {
    Led1,
    Led2,
    Led3,
    Led4,
    Led5,
}

impl Led {
    /// The place of the LED in the bank, counted from zero.
    pub open spec fn index(self) -> int {
        match self {
            Led::Led1 => 0,
            Led::Led2 => 1,
            Led::Led3 => 2,
            Led::Led4 => 3,
            Led::Led5 => 4,
        }
    }

    /// The place of the LED in the bank, counted from zero.
    pub fn position(self) -> (i: usize)
        ensures
            i == self.index(),
            i < LED_COUNT,
    {
        match self {
            Led::Led1 => 0,
            Led::Led2 => 1,
            Led::Led3 => 2,
            Led::Led4 => 3,
            Led::Led5 => 4,
        }
    }
}

/// What a confirmed press does to the bank.
#[derive(Clone, Copy, PartialEq, Eq, Structural, Debug)]
pub enum ConfirmAction {
    /// The whole bank goes off if every LED is on, and on otherwise.
    SetOpposite,
    /// Every LED takes the level it does not have.
    ToggleEach,
}

/// A bank in which every LED has the level `on`.
pub open spec fn uniform(on: bool) -> Seq<bool> {
    Seq::new(LED_COUNT as nat, |i: int| on)
}

/// Every LED of the bank is on.
pub open spec fn all_lit(bank: Seq<bool>) -> bool {
    forall|i: int| 0 <= i < bank.len() ==> bank[i]
}

/// The bank with every level inverted.
pub open spec fn inverted(bank: Seq<bool>) -> Seq<bool> {
    Seq::new(bank.len(), |i: int| !bank[i])
}

/// The bank after a confirmed press under the given action.
pub open spec fn confirmed(bank: Seq<bool>, action: ConfirmAction) -> Seq<bool> {
    match action {
        ConfirmAction::SetOpposite => uniform(!all_lit(bank)),
        ConfirmAction::ToggleEach => inverted(bank),
    }
}

/// The LED bank. Its view is the sequence of the five levels, `true` for on.
pub struct LedRows {
    levels: [bool; 5],
}

impl View for LedRows {
    type V = Seq<bool>;

    closed spec fn view(&self) -> Seq<bool> {
        self.levels@
    }
}

impl LedRows {
    /// The bank as it is at startup: every LED off.
    pub fn new() -> (rows: LedRows)
        ensures
            rows@ == uniform(false),
    {
        let rows = LedRows { levels: [false; 5] };
        assert(rows@ =~= uniform(false));
        rows
    }

    /// The bank always holds `LED_COUNT` levels.
    pub proof fn lemma_bank_size(&self)
        ensures
            self@.len() == LED_COUNT,
    {
    }

    /// Sets one LED.
    pub fn set(&mut self, led: Led, on: bool)
        ensures
            final(self)@ == old(self)@.update(led.index(), on),
    {
        let i: usize = led.position();
        self.levels[i] = on;
    }

    /// Reads one LED.
    pub fn is_on(&self, led: Led) -> (on: bool)
        ensures
            on == self@[led.index()],
    {
        let i: usize = led.position();
        self.levels[i]
    }

    /// The level at which the pin of one LED is to be driven, `true` for high.
    pub fn pin_level(&self, led: Led) -> (high: bool)
        ensures
            high == (self@[led.index()] == LED_ACTIVE_HIGH),
    {
        self.is_on(led) == LED_ACTIVE_HIGH
    }

    /// Tells whether every LED of the bank is on.
    pub fn all_on(&self) -> (lit: bool)
        ensures
            lit == all_lit(self@),
    {
        let mut i: usize = 0;
        while i < LED_COUNT
            invariant
                i <= LED_COUNT,
                forall|j: int| 0 <= j < i ==> self@[j],
            decreases LED_COUNT - i,
        {
            if !self.levels[i] {
                return false;
            }
            i = i + 1;
        }
        true
    }

    /// Gives every LED the level `on`.
    pub fn set_all(&mut self, on: bool)
        ensures
            final(self)@ == uniform(on),
    {
        let mut i: usize = 0;
        while i < LED_COUNT
            invariant
                i <= LED_COUNT,
                forall|j: int| 0 <= j < i ==> self@[j] == on,
            decreases LED_COUNT - i,
        {
            let ghost before = self@;
            self.levels[i] = on;
            assert(self@ == before.update(i as int, on));
            i = i + 1;
        }
        assert(self@ =~= uniform(on));
    }

    /// Inverts every LED.
    pub fn toggle_all(&mut self)
        ensures
            final(self)@ == inverted(old(self)@),
    {
        let mut i: usize = 0;
        while i < LED_COUNT
            invariant
                i <= LED_COUNT,
                forall|j: int| 0 <= j < i ==> self@[j] == !old(self)@[j],
                forall|j: int| i <= j < LED_COUNT ==> self@[j] == old(self)@[j],
            decreases LED_COUNT - i,
        {
            let level: bool = self.levels[i];
            self.levels[i] = !level;
            i = i + 1;
        }
        assert(self@ =~= inverted(old(self)@));
    }

    /// Tells whether every LED is on. The bank is left as it is.
    pub fn is_all_turned_on(&mut self) -> (lit: bool)
        ensures
            lit == all_lit(old(self)@),
            final(self)@ == old(self)@,
    {
        self.all_on()
    }

    /// Turns every LED on.
    pub fn turn_on_all(&mut self)
        ensures
            final(self)@ == uniform(true),
    {
        self.set_all(true);
    }

    /// Turns every LED off.
    pub fn turn_off_all(&mut self)
        ensures
            final(self)@ == uniform(false),
    {
        self.set_all(false);
    }
}

} // verus!
