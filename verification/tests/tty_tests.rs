use std::cell::Cell;

use doctrine::tty::{bracket, color_enabled, endpoint, terminal_width, Endpoint, QueryError, MIN_WRAP_WIDTH};

fn io_err() -> std::io::Error {
    std::io::Error::other("synthetic")
}

#[test]
fn no_color_present_disables_colour_even_when_empty() {
    assert!(!color_enabled(true, true));
}

#[test]
fn absent_no_color_follows_the_tty() {
    assert!(color_enabled(false, true));
    assert!(!color_enabled(false, false));
}

#[test]
fn terminal_width_decides_from_injected_tty_and_cols() {
    assert_eq!(terminal_width(false, None), None);
    assert_eq!(terminal_width(false, Some(80)), None);
    assert_eq!(terminal_width(true, Some(80)), Some(80));
    assert_eq!(terminal_width(true, Some(0)), None);
    assert_eq!(terminal_width(true, Some(8)), None);
    assert_eq!(terminal_width(true, None), None);
    assert_eq!(terminal_width(true, Some(MIN_WRAP_WIDTH)), Some(MIN_WRAP_WIDTH));
}

#[test]
fn endpoint_decides_from_injected_probe_results() {
    assert_eq!(endpoint(false, 0x8801, Some(0x8801)), Endpoint::NotTerminal);
    assert_eq!(endpoint(true, 0x8801, None), Endpoint::NotControlling);
    assert_eq!(endpoint(true, 0x8801, Some(0x8802)), Endpoint::NotControlling);
    assert_eq!(endpoint(true, 0x8801, Some(0x8801)), Endpoint::Same);
}

#[test]
fn bracket_returns_the_body_result_when_every_stage_succeeds() {
    let ran_exit = Cell::new(false);
    let out = bracket(
        || Ok(7u8),
        |state: &u8| Ok(u32::from(*state) + 1),
        |_state| {
            ran_exit.set(true);
            Ok(())
        },
    );
    assert!(matches!(out, Ok(8)));
    assert!(ran_exit.get(), "exit runs on the success path");
}

#[test]
fn bracket_runs_exit_and_reports_io_when_the_body_fails() {
    let ran_exit = Cell::new(false);
    let out = bracket(
        || Ok(7u8),
        |_state: &u8| Err::<u32, _>(io_err()),
        |_state| {
            ran_exit.set(true);
            Ok(())
        },
    );
    assert!(matches!(out, Err(QueryError::Io(_))));
    assert!(ran_exit.get(), "exit runs whenever enter succeeded");
}

#[test]
fn bracket_lets_a_restore_error_beat_a_successful_body() {
    let out = bracket(|| Ok(7u8), |_state: &u8| Ok(1u32), |_state| Err(io_err()));
    assert!(matches!(out, Err(QueryError::Restore(_))), "a restore failure beats the body's Ok");
}

#[test]
fn bracket_lets_a_restore_error_beat_a_body_error() {
    let out = bracket(|| Ok(7u8), |_state: &u8| Err::<u32, _>(io_err()), |_state| Err(io_err()));
    assert!(matches!(out, Err(QueryError::Restore(_))), "a restore failure beats a body failure too");
}

#[test]
fn bracket_runs_neither_body_nor_exit_when_enter_fails() {
    let ran_body = Cell::new(false);
    let ran_exit = Cell::new(false);
    let out = bracket::<u8, u32, _, _, _>(
        || Err(io_err()),
        |_state: &u8| {
            ran_body.set(true);
            Ok(1)
        },
        |_state| {
            ran_exit.set(true);
            Ok(())
        },
    );
    assert!(matches!(out, Err(QueryError::Io(_))));
    assert!(!ran_body.get(), "the body must not run after a failed enter");
    assert!(!ran_exit.get(), "there is nothing to restore");
}
