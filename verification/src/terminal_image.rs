//! The `--render` guard: the checks that decide whether a graph may be drawn
//! in the terminal and at what size, and the messages for each refusal.
//!
//! Every check is a pure decision over values the shell gathered; nothing here
//! touches a terminal.

use vstd::prelude::*;
use crate::kitty::{CellGeometry, PngSize, FitBox, SupportReply, cell_geometry, cell_geometry_spec,
    classify_support_reply, classify_support_reply_spec};
use crate::tty::WindowGeometry;
use crate::text::{decimal, decimal_string, replace_all, replace_all_spec};

verus! {

/// How long the support probe waits for an answer, in seconds.
pub const SUPPORT_PROBE_TIMEOUT_SECS: u64 = 2;

/// Bytes a terminal spends on one decoded pixel (8-bit RGBA).
pub const BYTES_PER_PIXEL: u64 = 4;

/// The kitty graphics protocol's default image storage quota.
pub const TERMINAL_IMAGE_QUOTA_BYTES: u64 = 320_000_000;

/// Pixels per megapixel.
pub const PIXELS_PER_MEGAPIXEL: u64 = 1_000_000;

/// The largest raster handed to the terminal, in pixels.
pub const MAX_IMAGE_PIXELS: u64 = TERMINAL_IMAGE_QUOTA_BYTES / BYTES_PER_PIXEL;

/// The largest raster either terminal accepts on a single side.
pub const MAX_IMAGE_DIMENSION: u32 = 10_000;

/// Points per inch.
pub const POINTS_PER_INCH: u32 = 72;

/// Graphviz's default label size, in points.
pub const LABEL_POINT_SIZE: u32 = 14;

pub const PLACEHOLDER_FORMAT: &'static str = "{format}";
pub const PLACEHOLDER_ERROR: &'static str = "{error}";
pub const PLACEHOLDER_TIMEOUT: &'static str = "{timeout}";
pub const PLACEHOLDER_RASTER: &'static str = "{raster}";
pub const PLACEHOLDER_SIDE: &'static str = "{side}";
pub const PLACEHOLDER_LIMIT: &'static str = "{limit}";
pub const PLACEHOLDER_STATUS: &'static str = "{status}";
pub const PLACEHOLDER_STDERR: &'static str = "{stderr}";
pub const PLACEHOLDER_CODE: &'static str = "{code}";

pub const MSG_FORMAT_NOT_DOT: &'static str = "--render needs --format dot, got '{format}'; drop -X or the --format";
pub const MSG_NOT_TERMINAL: &'static str = "--render needs stdout to be a terminal; drop -X to emit DOT";
pub const MSG_NOT_CONTROLLING_TERMINAL: &'static str = "--render needs stdout to be the terminal you are running in; it is another terminal, or there is none; drop -X to emit DOT";
pub const MSG_NO_PIXEL_SIZE: &'static str = "--render needs the terminal to report its size in pixels, and it did not; drop -X to emit DOT";
pub const MSG_UNSUPPORTED: &'static str = "--render needs a terminal that supports the kitty graphics protocol (kitty, ghostty); this one does not, and under tmux or screen it never will; drop -X to emit DOT";
pub const MSG_UNCONFIRMED: &'static str = "--render could not confirm kitty graphics support: the terminal did not answer within {timeout}; drop -X to emit DOT";
pub const MSG_TERMINAL_INSPECT: &'static str = "--render could not inspect the terminal: {error}; drop -X to emit DOT";
pub const MSG_TTY_QUERY_IO: &'static str = "--render could not query the terminal: {error}";
pub const MSG_TERMINAL_RESTORE: &'static str = "--render could not restore the terminal's settings: {error}; run 'reset'";
pub const MSG_DOT_NOT_FOUND: &'static str = "--render needs graphviz: 'dot' was not found on PATH; install graphviz or drop -X";
pub const MSG_DOT_FAILED: &'static str = "'dot' failed ({status}): {stderr}";
pub const MSG_DOT_IO: &'static str = "could not run 'dot': {error}";
pub const MSG_NOT_A_PNG: &'static str = "'dot -Tpng' produced output that is not a PNG";
pub const MSG_IMAGE_TOO_LARGE: &'static str = "--render needs a smaller graph: 'dot' produced a {raster} image and the terminal takes at most {side} px on a side and {limit} Mpx in total; narrow it with a focus id or --depth, or drop -X to emit DOT";
pub const MSG_DOT_NOTES: &'static str = "warning: {stderr}";
pub const DOT_STATUS_EXIT: &'static str = "exit {code}";
pub const DOT_STATUS_SIGNAL: &'static str = "killed by signal";

/// The probe budget as the user reads it, e.g. `2s`.
pub open spec fn support_probe_timeout_spec() -> Seq<char> {
    decimal(SUPPORT_PROBE_TIMEOUT_SECS as nat) + "s"@
}

/// The probe budget as the user reads it.
pub fn support_probe_timeout_text() -> (s: String)
    ensures
        s@ == support_probe_timeout_spec(),
{
    let mut s = decimal_string(SUPPORT_PROBE_TIMEOUT_SECS);
    s.append("s");
    s
}

/// Whole megapixels in `pixels`, rounded up.
pub open spec fn megapixels_spec(pixels: nat) -> nat {
    (pixels + 999_999) / 1_000_000
}

/// Whole megapixels, rounded up, so a refused raster never reads as smaller
/// than the limit it exceeded.
pub fn megapixels(pixels: u64) -> (m: u64)
    ensures
        m == megapixels_spec(pixels as nat),
        m * 1_000_000 >= pixels,
        m == 0 || (m - 1) * 1_000_000 < pixels,
{
    let q = pixels / PIXELS_PER_MEGAPIXEL;
    let m = if pixels % PIXELS_PER_MEGAPIXEL > 0 { q + 1 } else { q };
    assert(m == megapixels_spec(pixels as nat));
    m
}

/// A template with every `{error}` replaced by an error's text.
pub fn io_message(template: &str, error: &str) -> (s: String)
    ensures
        s@ == replace_all_spec(template@, PLACEHOLDER_ERROR@, error@),
{
    proof {
        reveal_strlit("{error}");
    }
    replace_all(template, PLACEHOLDER_ERROR, error)
}

/// How the support probe's exchange failed, with the I/O error's text: the
/// exchange itself (the terminal was restored), or the restore of the saved
/// settings.
#[derive(Debug, Clone, PartialEq, Eq)]
pub enum ProbeFailure {
    Io(String),
    Restore(String),
}

/// Why `--render` declined to draw: each a condition the user can act on.
#[derive(Debug, Clone, PartialEq, Eq)]
pub enum RenderRefusal {
    FormatNotDot { format: String },
    NotTerminal,
    NotControllingTerminal,
    Unsupported,
    Unconfirmed,
    NoPixelSize,
    ImageTooLarge { width: u32, height: u32 },
}

/// The refusal's message: its template with the placeholders filled.
pub open spec fn refusal_message_spec(r: RenderRefusal) -> Seq<char> {
    match r {
        RenderRefusal::FormatNotDot { format } => replace_all_spec(MSG_FORMAT_NOT_DOT@, PLACEHOLDER_FORMAT@, format@),
        RenderRefusal::NotTerminal => MSG_NOT_TERMINAL@,
        RenderRefusal::NotControllingTerminal => MSG_NOT_CONTROLLING_TERMINAL@,
        RenderRefusal::Unsupported => MSG_UNSUPPORTED@,
        RenderRefusal::Unconfirmed => replace_all_spec(MSG_UNCONFIRMED@, PLACEHOLDER_TIMEOUT@, support_probe_timeout_spec()),
        RenderRefusal::NoPixelSize => MSG_NO_PIXEL_SIZE@,
        RenderRefusal::ImageTooLarge { width, height } => replace_all_spec(
            replace_all_spec(
                replace_all_spec(MSG_IMAGE_TOO_LARGE@, PLACEHOLDER_RASTER@,
                    decimal(width as nat) + "x"@ + decimal(height as nat)),
                PLACEHOLDER_SIDE@, decimal(MAX_IMAGE_DIMENSION as nat)),
            PLACEHOLDER_LIMIT@, decimal(megapixels_spec(MAX_IMAGE_PIXELS as nat))),
    }
}

impl RenderRefusal {
    /// The message shown for this refusal.
    pub fn message(&self) -> (s: String)
        ensures
            s@ == refusal_message_spec(*self),
    {
        proof {
            reveal_strlit("{format}");
            reveal_strlit("{timeout}");
            reveal_strlit("{raster}");
            reveal_strlit("{side}");
            reveal_strlit("{limit}");
        }
        match self {
            RenderRefusal::FormatNotDot { format } => replace_all(MSG_FORMAT_NOT_DOT, PLACEHOLDER_FORMAT, format.as_str()),
            RenderRefusal::NotTerminal => String::from_str(MSG_NOT_TERMINAL),
            RenderRefusal::NotControllingTerminal => String::from_str(MSG_NOT_CONTROLLING_TERMINAL),
            RenderRefusal::Unsupported => String::from_str(MSG_UNSUPPORTED),
            RenderRefusal::Unconfirmed => {
                let t = support_probe_timeout_text();
                replace_all(MSG_UNCONFIRMED, PLACEHOLDER_TIMEOUT, t.as_str())
            },
            RenderRefusal::NoPixelSize => String::from_str(MSG_NO_PIXEL_SIZE),
            RenderRefusal::ImageTooLarge { width, height } => {
                let mut raster = decimal_string(*width as u64);
                raster.append("x");
                let h = decimal_string(*height as u64);
                raster.append(h.as_str());
                let side = decimal_string(MAX_IMAGE_DIMENSION as u64);
                let limit = decimal_string(megapixels(MAX_IMAGE_PIXELS));
                let a = replace_all(MSG_IMAGE_TOO_LARGE, PLACEHOLDER_RASTER, raster.as_str());
                let b = replace_all(a.as_str(), PLACEHOLDER_SIDE, side.as_str());
                replace_all(b.as_str(), PLACEHOLDER_LIMIT, limit.as_str())
            },
        }
    }
}

/// Why a check stopped the render: a refusal the user can act on, or a
/// failure of the exchange with the terminal, already worded.
#[derive(Debug)]
pub enum RenderError {
    Refused(RenderRefusal),
    Failed(String),
}

/// Stop 1: the requested output format must be DOT.
pub fn check_format(format: &str, is_dot: bool) -> (r: Result<(), RenderRefusal>)
    ensures
        is_dot ==> r is Ok,
        !is_dot ==> (r matches Err(RenderRefusal::FormatNotDot { format: f }) && f@ == format@),
{
    if is_dot {
        return Ok(());
    }
    Err(RenderRefusal::FormatNotDot { format: String::from_str(format) })
}

/// Stop 3: the cell size the window implies, or `NoPixelSize` when the
/// terminal did not report usable pixels.
pub fn check_geometry(window: &WindowGeometry) -> (r: Result<CellGeometry, RenderRefusal>)
    ensures
        r == (match cell_geometry_spec(*window) {
            Some(c) => Ok::<CellGeometry, RenderRefusal>(c),
            None => Err(RenderRefusal::NoPixelSize),
        }),
{
    match cell_geometry(window) {
        Some(c) => Ok(c),
        None => Err(RenderRefusal::NoPixelSize),
    }
}

/// Stop 4: the verdict of the support probe over the exchange's result.
pub fn check_support(reply: Result<Option<Vec<u8>>, ProbeFailure>) -> (r: Result<(), RenderError>)
    ensures
        match reply {
            Err(ProbeFailure::Io(t)) => r matches Err(RenderError::Failed(m))
                && m@ == replace_all_spec(MSG_TTY_QUERY_IO@, PLACEHOLDER_ERROR@, t@),
            Err(ProbeFailure::Restore(t)) => r matches Err(RenderError::Failed(m))
                && m@ == replace_all_spec(MSG_TERMINAL_RESTORE@, PLACEHOLDER_ERROR@, t@),
            Ok(None) => r == Err::<(), RenderError>(RenderError::Refused(RenderRefusal::Unconfirmed)),
            Ok(Some(bytes)) => r == match classify_support_reply_spec(bytes@) {
                SupportReply::Supported => Ok::<(), RenderError>(()),
                SupportReply::Unsupported => Err(RenderError::Refused(RenderRefusal::Unsupported)),
                SupportReply::Incomplete => Err(RenderError::Refused(RenderRefusal::Unconfirmed)),
            },
        },
{
    match reply {
        Err(ProbeFailure::Io(t)) => Err(RenderError::Failed(io_message(MSG_TTY_QUERY_IO, t.as_str()))),
        Err(ProbeFailure::Restore(t)) => Err(RenderError::Failed(io_message(MSG_TERMINAL_RESTORE, t.as_str()))),
        Ok(None) => Err(RenderError::Refused(RenderRefusal::Unconfirmed)),
        Ok(Some(bytes)) => match classify_support_reply(bytes.as_slice()) {
            SupportReply::Supported => Ok(()),
            SupportReply::Unsupported => Err(RenderError::Refused(RenderRefusal::Unsupported)),
            SupportReply::Incomplete => Err(RenderError::Refused(RenderRefusal::Unconfirmed)),
        },
    }
}

/// A raster within both bounds: each side at most [`MAX_IMAGE_DIMENSION`],
/// the area at most [`MAX_IMAGE_PIXELS`].
pub open spec fn image_within_budget(size: PngSize) -> bool {
    size.width <= MAX_IMAGE_DIMENSION && size.height <= MAX_IMAGE_DIMENSION
        && size.width * size.height <= MAX_IMAGE_PIXELS
}

/// Stop 5: the rasterised image against the budget.
pub fn check_image_size(size: PngSize) -> (r: Result<(), RenderRefusal>)
    ensures
        r == (if image_within_budget(size) {
            Ok::<(), RenderRefusal>(())
        } else {
            Err(RenderRefusal::ImageTooLarge { width: size.width, height: size.height })
        }),
{
    let within_sides = size.width <= MAX_IMAGE_DIMENSION && size.height <= MAX_IMAGE_DIMENSION;
    assert((size.width as u64) * (size.height as u64) <= u64::MAX) by (nonlinear_arith)
        requires
            size.width <= u32::MAX,
            size.height <= u32::MAX,
    ;
    let within_total = (size.width as u64) * (size.height as u64) <= MAX_IMAGE_PIXELS;
    if within_sides && within_total {
        return Ok(());
    }
    Err(RenderRefusal::ImageTooLarge { width: size.width, height: size.height })
}

/// The resolution that draws a label about one terminal row tall.
pub open spec fn raster_dpi_spec(cell_height: nat) -> nat {
    ((POINTS_PER_INCH as nat) * cell_height) / (LABEL_POINT_SIZE as nat)
}

/// The resolution a graph is drawn at.
pub fn raster_dpi(cell: CellGeometry) -> (d: u32)
    ensures
        d == raster_dpi_spec(cell.cell_height as nat),
{
    (POINTS_PER_INCH * (cell.cell_height as u32)) / LABEL_POINT_SIZE
}

/// The fit box: as wide as the widest placement (`columns - 1` cells, at
/// least one), as tall as the pixel budget allows at that width, each side
/// clamped to [`MAX_IMAGE_DIMENSION`]; drawn at [`raster_dpi`].
pub open spec fn fit_box_spec(cell: CellGeometry) -> FitBox {
    let cols: nat = if cell.columns >= 2 { (cell.columns - 1) as nat } else { 1 };
    let w: nat = cols * (cell.cell_width as nat);
    let h: nat = (MAX_IMAGE_PIXELS as nat) / (if w >= 1 { w } else { 1 });
    FitBox {
        width_px: (if w <= MAX_IMAGE_DIMENSION { w } else { MAX_IMAGE_DIMENSION as nat }) as u32,
        height_px: (if h <= MAX_IMAGE_DIMENSION { h } else { MAX_IMAGE_DIMENSION as nat }) as u32,
        dpi: raster_dpi_spec(cell.cell_height as nat) as u32,
    }
}

/// The box `dot` must fit the drawing inside.
pub fn fit_box(cell: CellGeometry) -> (b: FitBox)
    ensures
        b == fit_box_spec(cell),
        image_within_budget(PngSize { width: b.width_px, height: b.height_px }),
{
    let cols: u32 = if cell.columns >= 2 { (cell.columns - 1) as u32 } else { 1 };
    assert(cols * (cell.cell_width as u32) <= 65535 * 65535) by (nonlinear_arith)
        requires
            cols <= 65535,
            cell.cell_width <= 65535,
    ;
    let width_px: u32 = cols * (cell.cell_width as u32);
    let divisor: u64 = if width_px >= 1 { width_px as u64 } else { 1 };
    let height_px: u64 = MAX_IMAGE_PIXELS / divisor;
    let b = FitBox {
        width_px: if width_px <= MAX_IMAGE_DIMENSION { width_px } else { MAX_IMAGE_DIMENSION },
        height_px: if height_px <= MAX_IMAGE_DIMENSION as u64 { height_px as u32 } else { MAX_IMAGE_DIMENSION },
        dpi: raster_dpi(cell),
    };
    proof {
        lemma_fit_box_within_budget(cell);
    }
    b
}

/// Anything that fits the box is within budget: each side of the box is at
/// most [`MAX_IMAGE_DIMENSION`] and its area at most [`MAX_IMAGE_PIXELS`],
/// whatever the window.
pub proof fn lemma_fit_box_within_budget(cell: CellGeometry)
    ensures
        image_within_budget(PngSize { width: fit_box_spec(cell).width_px, height: fit_box_spec(cell).height_px }),
{
    let cols: nat = if cell.columns >= 2 { (cell.columns - 1) as nat } else { 1 };
    let w: nat = cols * (cell.cell_width as nat);
    let d: nat = if w >= 1 { w } else { 1 };
    let h: nat = (MAX_IMAGE_PIXELS as nat) / d;
    let bw: nat = if w <= 10_000 { w } else { 10_000 };
    let bh: nat = if h <= 10_000 { h } else { 10_000 };
    assert(d * h <= 80_000_000) by (nonlinear_arith)
        requires
            d >= 1,
            h == 80_000_000nat / d,
    ;
    assert(bw * bh <= 80_000_000) by (nonlinear_arith)
        requires
            d * h <= 80_000_000,
            bw <= d,
            bh <= h,
    ;
    assert(cols * cell.cell_width <= 65535 * 65535) by (nonlinear_arith)
        requires
            cols <= 65535,
            cell.cell_width <= 65535,
    ;
}

/// A label drawn at [`raster_dpi`] lands within one pixel of the row height.
pub proof fn lemma_label_about_one_row(cell_height: nat)
    ensures
        cell_height - 1 <= ((LABEL_POINT_SIZE as nat) * raster_dpi_spec(cell_height)) / (POINTS_PER_INCH as nat) <= cell_height,
{
    let dpi = (72 * cell_height) / 14;
    assert(14 * dpi <= 72 * cell_height && 72 * cell_height < 14 * dpi + 14) by (nonlinear_arith)
        requires
            dpi == (72 * cell_height) / 14,
    ;
    let label = (14 * dpi) / 72;
    assert(label <= cell_height && cell_height - 1 <= label) by (nonlinear_arith)
        requires
            label == (14 * dpi) / 72,
            14 * dpi <= 72 * cell_height,
            72 * cell_height < 14 * dpi + 14,
    ;
}

/// The box's width moves with the window, its resolution does not: two
/// cells of one size draw text alike, and the wider window gets the box at
/// least as wide.
pub proof fn lemma_fit_box_width_independent_of_dpi(narrow: CellGeometry, wide: CellGeometry)
    requires
        narrow.cell_width == wide.cell_width,
        narrow.cell_height == wide.cell_height,
        narrow.columns <= wide.columns,
    ensures
        fit_box_spec(narrow).dpi == fit_box_spec(wide).dpi,
        fit_box_spec(narrow).width_px <= fit_box_spec(wide).width_px,
{
    let cn: nat = if narrow.columns >= 2 { (narrow.columns - 1) as nat } else { 1 };
    let cw: nat = if wide.columns >= 2 { (wide.columns - 1) as nat } else { 1 };
    assert(cn * narrow.cell_width <= cw * wide.cell_width) by (nonlinear_arith)
        requires
            cn <= cw,
            narrow.cell_width == wide.cell_width,
    ;
    assert(cw * wide.cell_width <= 65535 * 65535) by (nonlinear_arith)
        requires
            cw <= 65535,
            wide.cell_width <= 65535,
    ;
}

/// The support probe's stop-reading predicate: any verdict ends it.
pub fn support_reply_complete(bytes: &[u8]) -> (r: bool)
    ensures
        r == (classify_support_reply_spec(bytes@) != SupportReply::Incomplete),
{
    match classify_support_reply(bytes) {
        SupportReply::Incomplete => false,
        _ => true,
    }
}

/// The decimal spelling of a possibly negative integer.
pub open spec fn signed_decimal(i: int) -> Seq<char> {
    if i < 0 {
        "-"@ + decimal((-i) as nat)
    } else {
        decimal(i as nat)
    }
}

/// How `dot` terminated, as the failure message spells it.
pub open spec fn dot_status_spec(status: Option<i32>) -> Seq<char> {
    match status {
        Some(code) => replace_all_spec(DOT_STATUS_EXIT@, PLACEHOLDER_CODE@, signed_decimal(code as int)),
        None => DOT_STATUS_SIGNAL@,
    }
}

/// How `dot` terminated: `exit N`, or `killed by signal` without a code.
pub fn dot_status_text(status: Option<i32>) -> (s: String)
    ensures
        s@ == dot_status_spec(status),
{
    proof {
        reveal_strlit("{code}");
    }
    match status {
        Some(code) => {
            let c = if code < 0 {
                let mut c = String::from_str("-");
                let d = decimal_string((-(code as i64)) as u64);
                c.append(d.as_str());
                c
            } else {
                decimal_string(code as u64)
            };
            replace_all(DOT_STATUS_EXIT, PLACEHOLDER_CODE, c.as_str())
        },
        None => String::from_str(DOT_STATUS_SIGNAL),
    }
}

/// The message for a `dot` run that failed: how it ended, then what it said
/// (already trimmed).
pub fn dot_failed_message(status: Option<i32>, stderr: &str) -> (s: String)
    ensures
        s@ == replace_all_spec(replace_all_spec(MSG_DOT_FAILED@, PLACEHOLDER_STATUS@, dot_status_spec(status)),
            PLACEHOLDER_STDERR@, stderr@),
{
    proof {
        reveal_strlit("{status}");
        reveal_strlit("{stderr}");
    }
    let st = dot_status_text(status);
    let a = replace_all(MSG_DOT_FAILED, PLACEHOLDER_STATUS, st.as_str());
    replace_all(a.as_str(), PLACEHOLDER_STDERR, stderr)
}

/// Where stdout leads, as the terminal probe found it: not a terminal, a
/// terminal other than the one the command runs in, or that terminal with its
/// window size and a handle to query it through.
pub enum ProbeTarget<T> {
    NotTerminal,
    NotControllingTerminal,
    Terminal(WindowGeometry, T),
}

/// Stops 2 and 3 over the probe's finding: no terminal, or another than the
/// command's own, is refused as such, ahead of any pixel-size check; a
/// terminal then needs a usable cell size.
pub fn check_terminal<T>(target: &ProbeTarget<T>) -> (r: Result<(&T, CellGeometry), RenderRefusal>)
    ensures
        match *target {
            ProbeTarget::NotTerminal => r == Err::<(&T, CellGeometry), RenderRefusal>(RenderRefusal::NotTerminal),
            ProbeTarget::NotControllingTerminal => r == Err::<(&T, CellGeometry), RenderRefusal>(
                RenderRefusal::NotControllingTerminal),
            ProbeTarget::Terminal(w, t) => match cell_geometry_spec(w) {
                Some(c) => r matches Ok((h, c2)) && *h == t && c2 == c,
                None => r == Err::<(&T, CellGeometry), RenderRefusal>(RenderRefusal::NoPixelSize),
            },
        },
{
    match target {
        ProbeTarget::NotTerminal => Err(RenderRefusal::NotTerminal),
        ProbeTarget::NotControllingTerminal => Err(RenderRefusal::NotControllingTerminal),
        ProbeTarget::Terminal(window, handle) => {
            let cell = check_geometry(window)?;
            Ok((handle, cell))
        },
    }
}

/// The `--render` preflight, every stop in order, stopping at the first
/// refusal: the format must be DOT (checked before the terminal is even
/// looked for); `open` finds the terminal, which must be a terminal, the one
/// the command runs in, and report its pixel size; `query` runs the support
/// probe through the terminal's handle, whose answer must confirm the
/// graphics protocol. The result is the cell geometry to render for.
pub fn prepare<T, FOpen, FQuery>(format: &str, is_dot: bool, open: FOpen, query: FQuery) -> (r: Result<CellGeometry, RenderError>)
    where
        FOpen: FnOnce() -> Result<ProbeTarget<T>, String>,
        FQuery: FnOnce(&T) -> Result<Option<Vec<u8>>, ProbeFailure>,
    requires
        is_dot ==> open.requires(()),
        forall|w: WindowGeometry, t: T| #[trigger] open.ensures((), Ok(ProbeTarget::Terminal(w, t))) ==> query.requires((&t,)),
    ensures
        !is_dot ==> (r matches Err(RenderError::Refused(RenderRefusal::FormatNotDot { format: f })) && f@ == format@),
        is_dot ==> match r {
            Ok(cell) => exists|w: WindowGeometry, t: T, bytes: Vec<u8>| #[trigger] open.ensures((), Ok(ProbeTarget::Terminal(w, t)))
                && cell_geometry_spec(w) == Some(cell) && #[trigger] query.ensures((&t,), Ok(Some(bytes)))
                && classify_support_reply_spec(bytes@) == SupportReply::Supported,
            Err(RenderError::Refused(RenderRefusal::NotTerminal)) => open.ensures((), Ok(ProbeTarget::NotTerminal)),
            Err(RenderError::Refused(RenderRefusal::NotControllingTerminal)) =>
                open.ensures((), Ok(ProbeTarget::NotControllingTerminal)),
            Err(RenderError::Refused(RenderRefusal::NoPixelSize)) => exists|w: WindowGeometry, t: T|
                #[trigger] open.ensures((), Ok(ProbeTarget::Terminal(w, t))) && cell_geometry_spec(w) is None,
            Err(RenderError::Refused(RenderRefusal::Unsupported)) => exists|w: WindowGeometry, t: T, bytes: Vec<u8>|
                #[trigger] open.ensures((), Ok(ProbeTarget::Terminal(w, t))) && cell_geometry_spec(w) is Some
                && #[trigger] query.ensures((&t,), Ok(Some(bytes))) && classify_support_reply_spec(bytes@) == SupportReply::Unsupported,
            Err(RenderError::Refused(RenderRefusal::Unconfirmed)) => exists|w: WindowGeometry, t: T|
                #[trigger] open.ensures((), Ok(ProbeTarget::Terminal(w, t))) && cell_geometry_spec(w) is Some
                && (query.ensures((&t,), Ok(None)) || exists|bytes: Vec<u8>| query.ensures((&t,), Ok(Some(bytes)))
                    && classify_support_reply_spec(bytes@) == SupportReply::Incomplete),
            Err(RenderError::Refused(RenderRefusal::FormatNotDot { .. })) => false,
            Err(RenderError::Refused(RenderRefusal::ImageTooLarge { .. })) => false,
            Err(RenderError::Failed(m)) => {
                ||| exists|e: String| #[trigger] open.ensures((), Err(e))
                    && m@ == replace_all_spec(MSG_TERMINAL_INSPECT@, PLACEHOLDER_ERROR@, e@)
                ||| exists|w: WindowGeometry, t: T| #[trigger] open.ensures((), Ok(ProbeTarget::Terminal(w, t)))
                    && cell_geometry_spec(w) is Some && (
                    (exists|e: String| #[trigger] query.ensures((&t,), Err(ProbeFailure::Io(e)))
                        && m@ == replace_all_spec(MSG_TTY_QUERY_IO@, PLACEHOLDER_ERROR@, e@))
                    || (exists|e: String| #[trigger] query.ensures((&t,), Err(ProbeFailure::Restore(e)))
                        && m@ == replace_all_spec(MSG_TERMINAL_RESTORE@, PLACEHOLDER_ERROR@, e@)))
            },
        },
{
    match check_format(format, is_dot) {
        Ok(()) => {},
        Err(refusal) => {
            return Err(RenderError::Refused(refusal));
        },
    }
    let target = match open() {
        Ok(t) => t,
        Err(e) => {
            let m = io_message(MSG_TERMINAL_INSPECT, e.as_str());
            return Err(RenderError::Failed(m));
        },
    };
    let ghost tg = target;
    let (handle, cell) = match check_terminal(&target) {
        Ok(found) => found,
        Err(refusal) => {
            proof {
                match tg {
                    ProbeTarget::Terminal(w, t) => {
                        assert(open.ensures((), Ok(ProbeTarget::Terminal(w, t))));
                    },
                    _ => {},
                }
            }
            return Err(RenderError::Refused(refusal));
        },
    };
    let ghost w = tg->Terminal_0;
    let reply = query(handle);
    let ghost rep = reply;
    match check_support(reply) {
        Ok(()) => {
            proof {
                let bytes = rep->Ok_0->0;
                assert(open.ensures((), Ok(ProbeTarget::Terminal(w, *handle))));
                assert(query.ensures((handle,), Ok(Some(bytes))));
            }
            Ok(cell)
        },
        Err(e) => {
            proof {
                assert(open.ensures((), Ok(ProbeTarget::Terminal(w, *handle))));
                match rep {
                    Ok(Some(bytes)) => {
                        assert(query.ensures((handle,), Ok(Some(bytes))));
                    },
                    Ok(None) => {},
                    Err(ProbeFailure::Io(x)) => {
                        assert(query.ensures((handle,), Err(ProbeFailure::Io(x))));
                    },
                    Err(ProbeFailure::Restore(x)) => {
                        assert(query.ensures((handle,), Err(ProbeFailure::Restore(x))));
                    },
                }
            }
            Err(e)
        },
    }
}

} // verus!
