//! From a placement and margins in percent to the anchor mask and the
//! margins in pixels that a layer surface is given.

use crate::parser::{Edges, MarginProps, Placement};
use vstd::prelude::*;

verus! {

/// The anchor bit of the top edge.
pub const ANCHOR_TOP: u32 = 1;

/// The anchor bit of the bottom edge.
pub const ANCHOR_BOTTOM: u32 = 2;

/// The anchor bit of the left edge.
pub const ANCHOR_LEFT: u32 = 4;

/// The anchor bit of the right edge.
pub const ANCHOR_RIGHT: u32 = 8;

/// The anchor mask of a surface pinned to all four edges.
pub const ANCHOR_FILL: u32 = 15;

/// The distance of a surface from each edge of its monitor, in pixels.
#[derive(Debug, Clone, Copy, PartialEq, Eq, Structural)]
pub struct Margins {
    pub top: u32,
    pub right: u32,
    pub bottom: u32,
    pub left: u32,
}

/// Where a surface is pinned and how far from the edges.
#[derive(Debug, Clone, Copy, PartialEq, Eq, Structural)]
pub struct Anchoring {
    pub anchor: u32,
    pub margins: Margins,
}

/// A percentage of an extent in pixels, rounded down.
pub open spec fn margin_px(percentage: int, extent: int) -> int {
    percentage * extent / 100
}

/// The anchoring of a surface with the given placement on a monitor of the
/// given size. The anchor holds the edges of both placements. A surface
/// pinned to all four edges fills the monitor and has no margins; any other
/// has the vertical margin at the top and bottom edges it is pinned to, the
/// horizontal margin at the left and right ones, and none elsewhere.
pub open spec fn anchoring(
    vertical: Placement,
    horizontal: Placement,
    margins: MarginProps,
    monitor: (u32, u32),
) -> Anchoring {
    let edges = vertical.edges().union(horizontal.edges());
    let h = margin_px(margins.horizontal_percentage as int, monitor.0 as int) as u32;
    let v = margin_px(margins.vertical_percentage as int, monitor.1 as int) as u32;
    Anchoring {
        anchor: edges.mask() as u32,
        margins: if edges.all() {
            Margins { top: 0, right: 0, bottom: 0, left: 0 }
        } else {
            Margins {
                top: if edges.top { v } else { 0 },
                right: if edges.right { h } else { 0 },
                bottom: if edges.bottom { v } else { 0 },
                left: if edges.left { h } else { 0 },
            }
        },
    }
}

/// The bits of two anchor masks joined, bit by bit and as numbers.
proof fn lemma_anchor_bits(a: u32, b: u32)
    by (bit_vector)
    requires
        a < 16,
        b < 16,
    ensures
        (a | b) < 16,
        ((a | b) & 1 != 0) == (a % 2 == 1 || b % 2 == 1),
        ((a | b) & 2 != 0) == ((a / 2) % 2 == 1 || (b / 2) % 2 == 1),
        ((a | b) & 4 != 0) == ((a / 4) % 2 == 1 || (b / 4) % 2 == 1),
        ((a | b) & 8 != 0) == ((a / 8) % 2 == 1 || (b / 8) % 2 == 1),
        ((a | b) & 1 != 0) == ((a | b) % 2 == 1),
        ((a | b) & 2 != 0) == (((a | b) / 2) % 2 == 1),
        ((a | b) & 4 != 0) == (((a | b) / 4) % 2 == 1),
        ((a | b) & 8 != 0) == (((a | b) / 8) % 2 == 1),
{
}

/// Joining the anchor bits of two placements gives the mask of the edges of
/// both.
pub proof fn lemma_anchor_union(vertical: Placement, horizontal: Placement)
    ensures
        (vertical.edges().mask() as u32) | (horizontal.edges().mask() as u32)
            == vertical.edges().union(horizontal.edges()).mask(),
        vertical.edges().union(horizontal.edges()).all() <==> vertical.edges().union(
            horizontal.edges(),
        ).mask() == 15,
{
    let a = vertical.edges().mask() as u32;
    let b = horizontal.edges().mask() as u32;
    lemma_anchor_bits(a, b);
}

/// A percentage of an extent in pixels.
fn margin_pixels(percentage: u8, extent: u32) -> (px: u32)
    requires
        percentage <= 100,
    ensures
        px == margin_px(percentage as int, extent as int),
{
    assert(percentage * extent <= 100 * extent) by (nonlinear_arith)
        requires
            percentage <= 100,
            0 <= extent,
    ;
    ((percentage as u64) * (extent as u64) / 100) as u32
}

/// The anchor mask and the margins of a surface with the given placement
/// on a monitor of the given size.
pub fn resolve_placement(
    vertical: Placement,
    horizontal: Placement,
    margins: MarginProps,
    monitor: (u32, u32),
) -> (out: Anchoring)
    requires
        margins.valid(),
    ensures
        out == anchoring(vertical, horizontal, margins, monitor),
        out.anchor == (vertical.edges().mask() as u32) | (horizontal.edges().mask() as u32),
        out.anchor == 15 ==> out.margins == (Margins { top: 0, right: 0, bottom: 0, left: 0 }),
{
    let anchor = vertical.to_raw() | horizontal.to_raw();
    proof {
        lemma_anchor_union(vertical, horizontal);
        lemma_anchor_bits(vertical.edges().mask() as u32, horizontal.edges().mask() as u32);
    }
    if anchor == ANCHOR_FILL {
        return Anchoring { anchor, margins: Margins { top: 0, right: 0, bottom: 0, left: 0 } };
    }
    let h = margin_pixels(margins.horizontal_percentage, monitor.0);
    let v = margin_pixels(margins.vertical_percentage, monitor.1);
    Anchoring {
        anchor,
        margins: Margins {
            top: if anchor & ANCHOR_TOP != 0 { v } else { 0 },
            right: if anchor & ANCHOR_RIGHT != 0 { h } else { 0 },
            bottom: if anchor & ANCHOR_BOTTOM != 0 { v } else { 0 },
            left: if anchor & ANCHOR_LEFT != 0 { h } else { 0 },
        },
    }
}

} // verus!
