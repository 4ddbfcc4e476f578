use button_debounce::interrupt::{EdgeDirection, InterruptSource};
use button_debounce::led::{Led, LedRows};

const LEDS: [Led; 5] = [Led::Led1, Led::Led2, Led::Led3, Led::Led4, Led::Led5];

#[test]
fn new_bank_is_dark() {
    let mut rows = LedRows::new();
    for led in LEDS {
        assert!(!rows.is_on(led));
    }
    assert!(!rows.all_on());
    assert!(!rows.is_all_turned_on());
}

#[test]
fn set_changes_one_led_only() {
    let mut rows = LedRows::new();
    rows.set(Led::Led3, true);
    assert!(rows.is_on(Led::Led3));
    for led in [Led::Led1, Led::Led2, Led::Led4, Led::Led5] {
        assert!(!rows.is_on(led));
    }
    rows.set(Led::Led3, false);
    assert!(!rows.is_on(Led::Led3));
}

#[test]
fn bank_is_all_on_only_when_every_led_is() {
    let mut rows = LedRows::new();
    for (count, led) in LEDS.iter().enumerate() {
        assert!(!rows.all_on());
        rows.set(*led, true);
        assert_eq!(rows.all_on(), count == 4);
    }
    assert!(rows.is_all_turned_on());
    rows.set(Led::Led1, false);
    assert!(!rows.is_all_turned_on());
    assert!(rows.is_on(Led::Led2));
}

#[test]
fn turn_on_all_and_turn_off_all() {
    let mut rows = LedRows::new();
    rows.set(Led::Led4, true);
    rows.turn_on_all();
    assert!(rows.is_all_turned_on());
    for led in LEDS {
        assert!(rows.is_on(led));
    }
    rows.turn_off_all();
    assert!(!rows.is_all_turned_on());
    for led in LEDS {
        assert!(!rows.is_on(led));
    }
}

#[test]
fn set_all_gives_every_led_the_level() {
    let mut rows = LedRows::new();
    rows.set_all(true);
    assert!(rows.all_on());
    rows.set_all(true);
    assert!(rows.all_on());
    rows.set_all(false);
    for led in LEDS {
        assert!(!rows.is_on(led));
    }
}

#[test]
fn toggle_all_inverts_each_led() {
    let mut rows = LedRows::new();
    rows.set(Led::Led1, true);
    rows.set(Led::Led3, true);
    rows.toggle_all();
    assert!(!rows.is_on(Led::Led1));
    assert!(rows.is_on(Led::Led2));
    assert!(!rows.is_on(Led::Led3));
    assert!(rows.is_on(Led::Led4));
    assert!(rows.is_on(Led::Led5));
    rows.toggle_all();
    assert!(rows.is_on(Led::Led1));
    assert!(!rows.is_on(Led::Led2));
}

#[test]
fn led_positions_count_from_zero() {
    for (place, led) in LEDS.iter().enumerate() {
        assert_eq!(led.position(), place);
    }
}

#[test]
fn reset_without_a_pending_edge_changes_nothing() {
    let mut source = InterruptSource::new();
    source.configure(14, EdgeDirection::HiToLo);
    source.enable();
    assert!(!source.is_triggered());
    source.reset();
    source.reset();
    assert!(!source.is_triggered());
    assert!(source.is_enabled());
    // The channel still watches the same edge and fires on it.
    assert!(source.sense(14, EdgeDirection::HiToLo));
    assert!(source.is_triggered());
}

#[test]
fn reset_clears_a_pending_edge() {
    let mut source = InterruptSource::new();
    source.configure(14, EdgeDirection::HiToLo);
    source.enable();
    assert!(source.sense(14, EdgeDirection::HiToLo));
    source.reset();
    assert!(!source.is_triggered());
    source.reset();
    assert!(!source.is_triggered());
    assert!(source.sense(14, EdgeDirection::HiToLo));
}

#[test]
fn channel_fires_once_until_it_is_reset() {
    let mut source = InterruptSource::new();
    source.configure(14, EdgeDirection::HiToLo);
    source.enable();
    assert!(source.sense(14, EdgeDirection::HiToLo));
    assert!(!source.sense(14, EdgeDirection::HiToLo));
    assert!(source.is_triggered());
    source.reset();
    assert!(source.sense(14, EdgeDirection::HiToLo));
}

#[test]
fn channel_ignores_other_pins_and_the_other_edge() {
    let mut source = InterruptSource::new();
    source.configure(14, EdgeDirection::HiToLo);
    source.enable();
    assert!(!source.sense(15, EdgeDirection::HiToLo));
    assert!(!source.sense(14, EdgeDirection::LoToHi));
    assert!(!source.is_triggered());
    source.configure(14, EdgeDirection::LoToHi);
    assert!(source.sense(14, EdgeDirection::LoToHi));
}

#[test]
fn unconfigured_channel_latches_nothing() {
    let mut source = InterruptSource::new();
    source.enable();
    assert!(!source.sense(0, EdgeDirection::HiToLo));
    assert!(!source.sense(14, EdgeDirection::HiToLo));
    assert!(!source.is_triggered());
}

#[test]
fn disabled_channel_latches_without_firing() {
    let mut source = InterruptSource::new();
    source.configure(14, EdgeDirection::HiToLo);
    assert!(!source.is_enabled());
    assert!(!source.sense(14, EdgeDirection::HiToLo));
    assert!(source.is_triggered());
    source.enable();
    assert!(!source.sense(14, EdgeDirection::HiToLo));
    source.reset();
    assert!(source.sense(14, EdgeDirection::HiToLo));
    source.disable();
    source.reset();
    assert!(!source.sense(14, EdgeDirection::HiToLo));
}

#[test]
fn lit_led_drives_its_pin_high() {
    let mut rows = LedRows::new();
    rows.set(Led::Led2, true);
    assert!(rows.pin_level(Led::Led2));
    assert!(!rows.pin_level(Led::Led1));
    assert!(button_debounce::led::LED_ACTIVE_HIGH);
}
