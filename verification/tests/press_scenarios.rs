use button_debounce::board::{init, Board, Config, DebounceState, BUTTON_PIN};
use button_debounce::error::Error;
use button_debounce::interrupt::EdgeDirection;
use button_debounce::led::{ConfirmAction, Led, LedRows};
use button_debounce::task::{Priorities, Task};
use button_debounce::tasks::debounce;

fn config(window: u64, action: ConfirmAction) -> Config {
    Config {
        priorities: Priorities::uniform(),
        button_pin: BUTTON_PIN,
        window,
        heartbeat_period: 2_000,
        action,
    }
}

/// A board at tick 0 whose first heartbeat has run, so that only the heartbeat
/// for tick 2000 is outstanding.
fn quiet_board(window: u64, action: ConfirmAction) -> Board {
    let mut board = init(true, config(window, action)).unwrap();
    assert_eq!(board.run_next(false), Ok(Some(Task::Heartbeat)));
    assert_eq!(board.run_next(false), Ok(None));
    board
}

fn press(board: &mut Board) -> bool {
    board.edge(BUTTON_PIN, EdgeDirection::HiToLo)
}

#[test]
fn held_button_toggles_the_bank_at_the_deadline() {
    let mut board = quiet_board(50, ConfirmAction::SetOpposite);
    assert!(press(&mut board));
    assert_eq!(board.run_next(true), Ok(Some(Task::EdgeHandler)));
    assert_eq!(board.debounce_state(), DebounceState::Settling);
    assert_eq!(board.scheduler().deadline_of(Task::Debounce), Some(50));

    board.advance_to(49);
    assert_eq!(board.run_next(true), Ok(None));
    assert!(!board.led_rows().all_on());
    assert!(!board.led_rows().is_on(Led::Led1));

    board.advance_to(50);
    assert_eq!(board.run_next(true), Ok(Some(Task::Debounce)));
    assert!(board.led_rows().all_on());
    assert_eq!(board.debounce_state(), DebounceState::Idle);
}

#[test]
fn button_released_inside_the_window_leaves_the_bank() {
    let mut board = quiet_board(50, ConfirmAction::SetOpposite);
    assert!(press(&mut board));
    assert_eq!(board.run_next(true), Ok(Some(Task::EdgeHandler)));

    // The pin goes back up at tick 10; the channel does not watch that edge.
    board.advance_to(10);
    assert!(!board.edge(BUTTON_PIN, EdgeDirection::LoToHi));
    assert_eq!(board.run_next(false), Ok(None));

    board.advance_to(50);
    assert_eq!(board.run_next(false), Ok(Some(Task::Debounce)));
    for led in [Led::Led1, Led::Led2, Led::Led3, Led::Led4, Led::Led5] {
        assert!(!board.led_rows().is_on(led));
    }
    assert_eq!(board.debounce_state(), DebounceState::Idle);
}

#[test]
fn second_edge_inside_the_window_is_absorbed() {
    let mut board = quiet_board(50, ConfirmAction::SetOpposite);
    assert!(press(&mut board));
    assert_eq!(board.run_next(true), Ok(Some(Task::EdgeHandler)));
    assert_eq!(board.scheduler().deadline_of(Task::Debounce), Some(50));

    board.advance_to(5);
    assert!(press(&mut board));
    assert_eq!(board.run_next(true), Ok(Some(Task::EdgeHandler)));
    // The window was neither restarted nor doubled.
    assert_eq!(board.scheduler().deadline_of(Task::Debounce), Some(50));
    assert!(!board.gpiote().is_triggered());

    board.advance_to(50);
    assert_eq!(board.run_next(true), Ok(Some(Task::Debounce)));
    assert!(board.led_rows().all_on());
    assert_eq!(board.run_next(true), Ok(None));

    // Nothing is left for tick 55, where a restarted window would have ended.
    board.advance_to(55);
    assert_eq!(board.run_next(true), Ok(None));
    assert!(board.led_rows().all_on());
    assert!(!board.scheduler().in_flight(Task::Debounce));
}

#[test]
fn confirmed_press_acts_exactly_once() {
    let mut board = quiet_board(50, ConfirmAction::SetOpposite);
    assert!(press(&mut board));
    assert_eq!(board.run_next(true), Ok(Some(Task::EdgeHandler)));
    board.advance_to(50);
    assert_eq!(board.run_next(true), Ok(Some(Task::Debounce)));
    assert!(board.led_rows().all_on());
    // The button stays held for a long time; only heartbeats run.
    let mut tick = 50;
    while tick < 10_000 {
        tick += 250;
        board.advance_to(tick);
        let ran = board.run_next(true).unwrap();
        assert!(ran.is_none() || ran == Some(Task::Heartbeat));
        assert!(board.led_rows().all_on());
    }
}

#[test]
fn second_confirmed_press_turns_the_bank_off_again() {
    let mut board = quiet_board(50, ConfirmAction::SetOpposite);
    assert!(press(&mut board));
    assert_eq!(board.run_next(true), Ok(Some(Task::EdgeHandler)));
    board.advance_to(50);
    assert_eq!(board.run_next(true), Ok(Some(Task::Debounce)));
    assert!(board.led_rows().all_on());

    board.advance_to(300);
    assert!(press(&mut board));
    assert_eq!(board.run_next(true), Ok(Some(Task::EdgeHandler)));
    assert_eq!(board.scheduler().deadline_of(Task::Debounce), Some(350));
    board.advance_to(350);
    assert_eq!(board.run_next(true), Ok(Some(Task::Debounce)));
    for led in [Led::Led1, Led::Led2, Led::Led3, Led::Led4, Led::Led5] {
        assert!(!board.led_rows().is_on(led));
    }
}

#[test]
fn bounce_burst_never_touches_the_bank() {
    let mut board = quiet_board(50, ConfirmAction::ToggleEach);
    let mut tick = 0;
    for _ in 0..20 {
        press(&mut board);
        let _ = board.run_next(false);
        tick += 7;
        board.advance_to(tick);
        let _ = board.run_next(false);
        for led in [Led::Led1, Led::Led2, Led::Led3, Led::Led4, Led::Led5] {
            assert!(!board.led_rows().is_on(led));
        }
        assert!(!board.scheduler().is_running(Task::Debounce));
    }
}

#[test]
fn edge_handler_runs_before_a_ready_heartbeat() {
    let mut board = init(true, config(50, ConfirmAction::SetOpposite)).unwrap();
    // The heartbeat has been ready since startup and arrived first.
    assert!(board.scheduler().is_ready(Task::Heartbeat));
    assert!(press(&mut board));
    assert_eq!(board.run_next(true), Ok(Some(Task::EdgeHandler)));
    assert_eq!(board.run_next(true), Ok(Some(Task::Heartbeat)));
    assert_eq!(board.run_next(true), Ok(None));
}

#[test]
fn pending_edge_does_not_fire_again_before_it_is_acknowledged() {
    let mut board = quiet_board(50, ConfirmAction::SetOpposite);
    assert!(press(&mut board));
    assert!(board.gpiote().is_triggered());
    assert!(!press(&mut board));
    assert!(!press(&mut board));
    assert_eq!(board.run_next(true), Ok(Some(Task::EdgeHandler)));
    assert!(!board.gpiote().is_triggered());
    assert_eq!(board.run_next(true), Ok(None));
}

#[test]
fn edge_on_another_pin_is_ignored() {
    let mut board = quiet_board(50, ConfirmAction::SetOpposite);
    assert!(!board.edge(BUTTON_PIN + 1, EdgeDirection::HiToLo));
    assert!(!board.gpiote().is_triggered());
    assert_eq!(board.run_next(true), Ok(None));
    assert_eq!(board.debounce_state(), DebounceState::Idle);
}

#[test]
fn zero_window_makes_the_resample_ready_at_once() {
    let mut board = quiet_board(0, ConfirmAction::SetOpposite);
    assert!(press(&mut board));
    assert_eq!(board.run_next(true), Ok(Some(Task::EdgeHandler)));
    assert!(board.scheduler().is_ready(Task::Debounce));
    assert_eq!(board.scheduler().deadline_of(Task::Debounce), None);
    assert_eq!(board.run_next(true), Ok(Some(Task::Debounce)));
    assert!(board.led_rows().all_on());
}

#[test]
fn heartbeat_rearms_itself_one_period_after_it_ran() {
    let mut board = init(true, config(50, ConfirmAction::SetOpposite)).unwrap();
    board.advance_to(100);
    assert_eq!(board.run_next(false), Ok(Some(Task::Heartbeat)));
    assert_eq!(board.scheduler().deadline_of(Task::Heartbeat), Some(2_100));
    board.advance_to(2_099);
    assert_eq!(board.run_next(false), Ok(None));
    board.advance_to(2_100);
    assert_eq!(board.run_next(false), Ok(Some(Task::Heartbeat)));
    assert_eq!(board.scheduler().deadline_of(Task::Heartbeat), Some(4_100));
}

#[test]
fn startup_without_the_hardware_is_refused() {
    match init(false, Config::standard()) {
        Err(error) => assert_eq!(error, Error::PeripheralUnavailable),
        Ok(_) => panic!("a board was made without its hardware"),
    }
}

#[test]
fn startup_leaves_the_bank_off_and_the_channel_armed() {
    let board = init(true, Config::standard()).unwrap();
    for led in [Led::Led1, Led::Led2, Led::Led3, Led::Led4, Led::Led5] {
        assert!(!board.led_rows().is_on(led));
    }
    assert!(board.gpiote().is_enabled());
    assert!(!board.gpiote().is_triggered());
    assert!(!board.is_halted());
    assert_eq!(board.scheduler().now(), 0);
    assert!(board.scheduler().is_ready(Task::Heartbeat));
    assert_eq!(board.debounce_state(), DebounceState::Idle);
}

#[test]
fn standard_configuration_counts_the_window_in_microsecond_ticks() {
    let config = Config::standard();
    assert_eq!(config.window, 50_000);
    assert_eq!(config.heartbeat_period, 2_000_000);
    assert_eq!(config.button_pin, 14);
    assert_eq!(config.action, ConfirmAction::SetOpposite);
    assert_eq!(config.priorities, Priorities { heartbeat: 1, edge_handler: 1, debounce: 1 });

    let mut board = init(true, config).unwrap();
    assert!(press(&mut board));
    assert_eq!(board.run_next(true), Ok(Some(Task::EdgeHandler)));
    assert_eq!(board.scheduler().deadline_of(Task::Debounce), Some(50_000));
}

#[test]
fn halted_board_reports_the_fault_and_stays_silent() {
    let mut board = quiet_board(50, ConfirmAction::SetOpposite);
    assert!(press(&mut board));
    board.halt();
    assert!(board.is_halted());
    assert!(!board.gpiote().is_enabled());
    assert_eq!(board.run_next(true), Err(Error::UnrecoverableFault));
    board.advance_to(1_000);
    assert_eq!(board.run_next(true), Err(Error::UnrecoverableFault));
    assert!(!board.led_rows().all_on());
    // Further edges raise no interrupt.
    board.halt();
    assert!(!press(&mut board));
}

#[test]
fn toggle_each_inverts_a_mixed_bank() {
    let mut rows = LedRows::new();
    rows.set(Led::Led2, true);
    rows.set(Led::Led5, true);
    assert!(debounce(true, &mut rows, ConfirmAction::ToggleEach));
    assert!(rows.is_on(Led::Led1));
    assert!(!rows.is_on(Led::Led2));
    assert!(rows.is_on(Led::Led3));
    assert!(rows.is_on(Led::Led4));
    assert!(!rows.is_on(Led::Led5));
}

#[test]
fn set_opposite_lights_a_mixed_bank() {
    let mut rows = LedRows::new();
    rows.set(Led::Led2, true);
    assert!(debounce(true, &mut rows, ConfirmAction::SetOpposite));
    assert!(rows.all_on());
    assert!(debounce(true, &mut rows, ConfirmAction::SetOpposite));
    for led in [Led::Led1, Led::Led2, Led::Led3, Led::Led4, Led::Led5] {
        assert!(!rows.is_on(led));
    }
}

#[test]
fn released_resample_leaves_a_mixed_bank() {
    let mut rows = LedRows::new();
    rows.set(Led::Led4, true);
    assert!(!debounce(false, &mut rows, ConfirmAction::SetOpposite));
    assert!(!debounce(false, &mut rows, ConfirmAction::ToggleEach));
    assert!(rows.is_on(Led::Led4));
    assert!(!rows.is_on(Led::Led1));
    assert!(!rows.is_on(Led::Led2));
    assert!(!rows.is_on(Led::Led3));
    assert!(!rows.is_on(Led::Led5));
}
