//! Terminal-capability decisions with every probe injected: whether colour is
//! on, how wide to wrap, whether stdout is the controlling terminal, and the
//! enter/run/restore bracket around a raw-mode exchange.

use vstd::prelude::*;

verus! {

/// `std::io::Error`, carried through the bracket without being looked into.
#[verifier::external_type_specification]
#[verifier::external_body]
pub struct ExIoError(std::io::Error);

/// Below this many columns a terminal is treated as unreadably narrow and
/// output is not wrapped.
pub const MIN_WRAP_WIDTH: u16 = 16;

/// Whether colour is on: the mere presence of `NO_COLOR` (even empty) turns it
/// off; otherwise it follows whether stdout is a terminal.
pub fn color_enabled(no_color_present: bool, is_tty: bool) -> (r: bool)
    ensures
        r == (!no_color_present && is_tty),
{
    if no_color_present {
        return false;
    }
    is_tty
}

/// The wrap width: the terminal's column count when stdout is a terminal whose
/// width was read and is at least [`MIN_WRAP_WIDTH`]; otherwise no wrapping.
pub fn terminal_width(is_tty: bool, cols: Option<u16>) -> (r: Option<u16>)
    ensures
        r == (match cols {
            Some(w) if is_tty && w >= MIN_WRAP_WIDTH => Some(w),
            _ => None::<u16>,
        }),
{
    if !is_tty {
        return None;
    }
    match cols {
        Some(w) => {
            if w >= MIN_WRAP_WIDTH {
                Some(w)
            } else {
                None
            }
        },
        None => None,
    }
}

/// How stdout relates to the controlling terminal.
#[derive(Debug, Clone, Copy, PartialEq, Eq, Structural)]
pub enum Endpoint {
    NotTerminal,
    NotControlling,
    Same,
}

/// The endpoint decision over the probes: stdout not a terminal; the
/// controlling terminal missing (`None`) or a different device; or the same
/// device as stdout.
pub fn endpoint(stdout_is_tty: bool, stdout_device: u64, tty_device: Option<u64>) -> (e: Endpoint)
    ensures
        e == (if !stdout_is_tty {
            Endpoint::NotTerminal
        } else if tty_device == Some(stdout_device) {
            Endpoint::Same
        } else {
            Endpoint::NotControlling
        }),
{
    if !stdout_is_tty {
        return Endpoint::NotTerminal;
    }
    match tty_device {
        Some(device) => {
            if device == stdout_device {
                Endpoint::Same
            } else {
                Endpoint::NotControlling
            }
        },
        None => Endpoint::NotControlling,
    }
}

/// The window size a terminal reports; `0` in a field means it was not
/// reported.
#[derive(Debug, Clone, Copy, PartialEq, Eq, Structural)]
pub struct WindowGeometry {
    pub columns: u16,
    pub rows: u16,
    pub pixel_width: u16,
    pub pixel_height: u16,
}

/// How a query exchange failed: the exchange itself (the terminal was
/// restored), or the restore of the saved settings.
#[derive(Debug)]
pub enum QueryError {
    Io(std::io::Error),
    Restore(std::io::Error),
}

/// Enter, run, always exit. A failed `enter` runs neither `body` nor `exit`
/// and is `Io`. Otherwise `exit` runs whichever way `body` went; an `exit`
/// error beats the body's result, value or error alike, as `Restore`; then a
/// body error is `Io`, and a clean run gives the body's value.
pub fn bracket<S, R, FEnter, FBody, FExit>(enter: FEnter, body: FBody, exit: FExit) -> (r: Result<R, QueryError>)
    where
        FEnter: FnOnce() -> std::io::Result<S>,
        FBody: FnOnce(&S) -> std::io::Result<R>,
        FExit: FnOnce(S) -> std::io::Result<()>,
    requires
        enter.requires(()),
        forall|s: S| enter.ensures((), Ok(s)) ==> #[trigger] body.requires((&s,)),
        forall|s: S| enter.ensures((), Ok(s)) ==> #[trigger] exit.requires((s,)),
    ensures
        match r {
            Ok(v) => exists|s: S| #[trigger] enter.ensures((), Ok(s)) && body.ensures((&s,), Ok(v))
                && exit.ensures((s,), Ok(())),
            Err(QueryError::Io(e)) => enter.ensures((), Err(e)) || exists|s: S| #[trigger] enter.ensures((), Ok(s))
                && body.ensures((&s,), Err(e)) && exit.ensures((s,), Ok(())),
            Err(QueryError::Restore(e)) => exists|s: S| #[trigger] enter.ensures((), Ok(s))
                && exit.ensures((s,), Err(e)),
        },
{
    let state = match enter() {
        Ok(s) => s,
        Err(e) => {
            return Err(QueryError::Io(e));
        },
    };
    let ghost s0 = state;
    let outcome = body(&state);
    let closed = exit(state);
    match closed {
        Err(restore) => Err(QueryError::Restore(restore)),
        Ok(u) => match outcome {
            Ok(value) => {
                assert(u == ());
                Ok(value)
            },
            Err(io) => Err(QueryError::Io(io)),
        },
    }
}

} // verus!
