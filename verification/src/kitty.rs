//! The kitty graphics protocol pieces the render guard decides with: the cell
//! size a window implies, a PNG's pixel size, the fit box handed to `dot`, and
//! the verdict of the support probe's reply.

use vstd::prelude::*;
use crate::tty::WindowGeometry;

verus! {

/// The terminal's cell grid: how many columns, and one cell's pixel size.
#[derive(Debug, Clone, Copy, PartialEq, Eq, Structural)]
pub struct CellGeometry {
    pub columns: u16,
    pub cell_width: u16,
    pub cell_height: u16,
}

/// A raster's size in pixels.
#[derive(Debug, Clone, Copy, PartialEq, Eq, Structural)]
pub struct PngSize {
    pub width: u32,
    pub height: u32,
}

/// The box `dot` fits the drawing inside, and the resolution it draws at.
#[derive(Debug, Clone, Copy, PartialEq, Eq, Structural)]
pub struct FitBox {
    pub width_px: u32,
    pub height_px: u32,
    pub dpi: u32,
}

/// The cell size a window implies: pixels over cells on each axis; none when
/// any field was not reported or a quotient is zero.
pub open spec fn cell_geometry_spec(w: WindowGeometry) -> Option<CellGeometry> {
    if w.columns == 0 || w.rows == 0 || w.pixel_width == 0 || w.pixel_height == 0
        || w.pixel_width / w.columns == 0 || w.pixel_height / w.rows == 0 {
        None
    } else {
        Some(CellGeometry {
            columns: w.columns,
            cell_width: (w.pixel_width / w.columns) as u16,
            cell_height: (w.pixel_height / w.rows) as u16,
        })
    }
}

/// The cell geometry of a window, or `None` when it cannot place an image.
pub fn cell_geometry(window: &WindowGeometry) -> (r: Option<CellGeometry>)
    ensures
        r == cell_geometry_spec(*window),
{
    if window.columns == 0 || window.rows == 0 || window.pixel_width == 0 || window.pixel_height == 0 {
        return None;
    }
    let cell_width = window.pixel_width / window.columns;
    let cell_height = window.pixel_height / window.rows;
    if cell_width == 0 || cell_height == 0 {
        return None;
    }
    Some(CellGeometry { columns: window.columns, cell_width, cell_height })
}

/// What the support probe's reply says so far.
#[derive(Debug, Clone, Copy, PartialEq, Eq, Structural)]
pub enum SupportReply {
    Supported,
    Unsupported,
    Incomplete,
}

/// The start of the graphics reply to the probe: APC `G` with the probe's id.
pub open spec fn graphics_reply_head() -> Seq<u8> {
    seq![0x1bu8, 0x5fu8, 0x47u8, 0x69u8, 0x3du8, 0x33u8, 0x31u8]
}

/// The start of a primary device attributes reply: CSI `?`.
pub open spec fn da1_reply_head() -> Seq<u8> {
    seq![0x1bu8, 0x5bu8, 0x3fu8]
}

/// Whether `b` starts with `h`.
pub open spec fn starts_with(b: Seq<u8>, h: Seq<u8>) -> bool {
    h.len() <= b.len() && b.take(h.len() as int) == h
}

/// The graphics reply came first and its string terminator (ESC `\`) has
/// arrived.
pub open spec fn graphics_reply_complete(b: Seq<u8>) -> bool {
    starts_with(b, graphics_reply_head())
        && exists|i: int| 7 <= i && i + 1 < b.len() && b[i] == 0x1bu8 && #[trigger] b[i + 1] == 0x5cu8
}

/// The device attributes reply came first and its final `c` has arrived.
pub open spec fn da1_reply_complete(b: Seq<u8>) -> bool {
    starts_with(b, da1_reply_head()) && exists|i: int| 3 <= i < b.len() && #[trigger] b[i] == 0x63u8
}

/// What the bytes read so far say: a whole graphics reply at the head means
/// the terminal draws kitty images; a whole device-attributes reply at the
/// head means it ignored the graphics query; anything else is not yet known.
pub open spec fn classify_support_reply_spec(b: Seq<u8>) -> SupportReply {
    if graphics_reply_complete(b) {
        SupportReply::Supported
    } else if da1_reply_complete(b) {
        SupportReply::Unsupported
    } else {
        SupportReply::Incomplete
    }
}

fn starts_with_bytes(b: &[u8], h: &[u8]) -> (r: bool)
    ensures
        r == starts_with(b@, h@),
{
    if h.len() > b.len() {
        return false;
    }
    let mut i: usize = 0;
    while i < h.len()
        invariant
            h@.len() <= b@.len(),
            i <= h@.len(),
            forall|k: int| 0 <= k < i ==> b@[k] == h@[k],
        decreases h.len() - i,
    {
        if b[i] != h[i] {
            assert(b@.take(h@.len() as int)[i as int] != h@[i as int]);
            return false;
        }
        i = i + 1;
    }
    assert(b@.take(h@.len() as int) =~= h@);
    true
}

/// Classify the bytes the probe has read so far.
pub fn classify_support_reply(bytes: &[u8]) -> (r: SupportReply)
    ensures
        r == classify_support_reply_spec(bytes@),
{
    let graphics: [u8; 7] = [0x1b, 0x5f, 0x47, 0x69, 0x3d, 0x33, 0x31];
    let da1: [u8; 3] = [0x1b, 0x5b, 0x3f];
    assert(graphics@ == graphics_reply_head());
    assert(da1@ == da1_reply_head());
    if starts_with_bytes(bytes, graphics.as_slice()) {
        let mut i: usize = 7;
        while i < bytes.len() - 1
            invariant
                7 <= i,
                7 <= bytes@.len(),
                starts_with(bytes@, graphics_reply_head()),
                forall|k: int| 7 <= k < i && k + 1 < bytes@.len() ==> !(bytes@[k] == 0x1bu8 && #[trigger] bytes@[k + 1] == 0x5cu8),
            decreases bytes.len() - i,
        {
            if bytes[i] == 0x1b && bytes[i + 1] == 0x5c {
                return SupportReply::Supported;
            }
            i = i + 1;
        }
        assert(!graphics_reply_complete(bytes@));
        assert(!starts_with(bytes@, da1_reply_head())) by {
            assert(bytes@[1] == 0x5fu8);
        }
        SupportReply::Incomplete
    } else if starts_with_bytes(bytes, da1.as_slice()) {
        assert(!graphics_reply_complete(bytes@));
        let mut i: usize = 3;
        while i < bytes.len()
            invariant
                3 <= i,
                starts_with(bytes@, da1_reply_head()),
                !graphics_reply_complete(bytes@),
                forall|k: int| 3 <= k < i && k < bytes@.len() ==> #[trigger] bytes@[k] != 0x63u8,
            decreases bytes.len() - i,
        {
            if bytes[i] == 0x63 {
                return SupportReply::Unsupported;
            }
            i = i + 1;
        }
        SupportReply::Incomplete
    } else {
        SupportReply::Incomplete
    }
}

} // verus!
