//! Measuring text: the width of a line of positioned glyphs and the size of
//! the window that holds a list of lines.
//!
//! Lengths that a font gives in fractions of a pixel are held as integers
//! in units of 1/64 pixel. They are summed exactly and rounded up to whole
//! pixels once, at the end.

use vstd::prelude::*;

verus! {

/// The number of length units in one pixel.
pub const UNITS_PER_PIXEL: u32 = 64;

/// A glyph placed on its line: where the pen stood, how far it advanced,
/// and the coverage of each pixel of the glyph's bounding box.
#[derive(Debug, Clone, PartialEq, Eq)]
pub struct Glyph {
    /// The pen's horizontal position, in 1/64 pixel from the line's left edge.
    pub pen_x: i32,
    /// The advance width, in 1/64 pixel.
    pub advance: i32,
    /// The bounding box's left column, in pixels from the line's left edge.
    pub left: i32,
    /// The bounding box's top row, in pixels from the line's top.
    pub top: i32,
    /// The bounding box's width in pixels.
    pub width: u32,
    /// The bounding box's height in pixels.
    pub height: u32,
    /// The coverage of each pixel of the bounding box, row by row, 0 to 255.
    pub coverage: Vec<u8>,
}

impl Glyph {
    /// The coverage holds one value for each pixel of the bounding box.
    pub open spec fn wf(&self) -> bool {
        self.coverage@.len() == self.width * self.height
    }

    /// Where the glyph ends: the pen's position plus the advance width, in
    /// 1/64 pixel.
    pub open spec fn right_edge(&self) -> int {
        self.pen_x + self.advance
    }

    /// Whether the bounding box holds the pixel at column `x`, row `y` of
    /// the line.
    pub open spec fn covers(&self, x: int, y: int) -> bool {
        self.left <= x < self.left + self.width && self.top <= y < self.top + self.height
    }

    /// The place of the pixel at column `x`, row `y` of the line in
    /// `coverage`.
    pub open spec fn sample_index(&self, x: int, y: int) -> int {
        (y - self.top) * self.width + (x - self.left)
    }

    /// The coverage of the pixel at column `x`, row `y` of the line.
    pub open spec fn coverage_at(&self, x: int, y: int) -> u8 {
        self.coverage@[self.sample_index(x, y)]
    }

    /// A glyph with the given geometry and coverage, if the coverage holds
    /// one value for each pixel of the bounding box.
    pub fn new(
        pen_x: i32,
        advance: i32,
        left: i32,
        top: i32,
        width: u32,
        height: u32,
        coverage: Vec<u8>,
    ) -> (glyph: Option<Glyph>)
        ensures
            glyph is Some <==> coverage@.len() == width * height,
            glyph matches Some(g) ==> g.wf() && g.pen_x == pen_x && g.advance == advance && g.left
                == left && g.top == top && g.width == width && g.height == height && g.coverage@
                == coverage@,
    {
        assert(width * height <= 0xffff_ffff * 0xffff_ffff) by (nonlinear_arith)
            requires
                width <= 0xffff_ffff,
                height <= 0xffff_ffff,
        ;
        let area: u64 = (width as u64) * (height as u64);
        if coverage.len() as u64 == area {
            Some(Glyph { pen_x, advance, left, top, width, height, coverage })
        } else {
            None
        }
    }

    /// Whether the coverage holds one value for each pixel of the bounding
    /// box.
    pub fn is_wf(&self) -> (ok: bool)
        ensures
            ok == self.wf(),
    {
        assert(self.width * self.height <= 0xffff_ffff * 0xffff_ffff) by (nonlinear_arith)
            requires
                self.width <= 0xffff_ffff,
                self.height <= 0xffff_ffff,
        ;
        self.coverage.len() as u64 == (self.width as u64) * (self.height as u64)
    }

    /// A glyph without ink, such as a space.
    pub fn blank(pen_x: i32, advance: i32) -> (glyph: Glyph)
        ensures
            glyph.wf(),
            glyph.pen_x == pen_x,
            glyph.advance == advance,
            glyph.left == 0,
            glyph.top == 0,
            glyph.width == 0,
            glyph.height == 0,
            glyph.coverage@.len() == 0,
    {
        Glyph { pen_x, advance, left: 0, top: 0, width: 0, height: 0, coverage: Vec::new() }
    }
}

/// A length of 1/64 pixels in whole pixels, rounded up; nothing for a
/// length that is not positive.
pub open spec fn pixels_up(units: int) -> int {
    if units <= 0 {
        0
    } else {
        (units + UNITS_PER_PIXEL - 1) / (UNITS_PER_PIXEL as int)
    }
}

/// A length of 1/64 pixels in whole pixels, rounded down.
pub open spec fn pixels_down(units: int) -> int {
    units / (UNITS_PER_PIXEL as int)
}

/// The width of a line in pixels: the right edge of its last glyph, rounded
/// up. A line without glyphs is 0 wide.
pub open spec fn measure(glyphs: Seq<Glyph>) -> int {
    if glyphs.len() == 0 {
        0
    } else {
        pixels_up(glyphs.last().right_edge())
    }
}

/// The glyphs of one line of text, in order, and the line's width in pixels.
#[derive(Debug, Clone, PartialEq, Eq)]
pub struct PositionedLine {
    pub glyphs: Vec<Glyph>,
    pub line_width: u32,
}

impl PositionedLine {
    /// Every glyph is well formed, and the width is the measured one.
    pub open spec fn wf(&self) -> bool {
        &&& self.line_width == measure(self.glyphs@)
        &&& forall|i: int| 0 <= i < self.glyphs@.len() ==> (#[trigger] self.glyphs@[i]).wf()
    }

    /// Whether every glyph is well formed and the width is the measured
    /// one.
    pub fn is_wf(&self) -> (ok: bool)
        ensures
            ok == self.wf(),
    {
        if self.line_width != line_width(&self.glyphs) {
            return false;
        }
        let n = self.glyphs.len();
        let mut i: usize = 0;
        while i < n
            invariant
                i <= n,
                n == self.glyphs@.len(),
                forall|k: int| 0 <= k < i ==> (#[trigger] self.glyphs@[k]).wf(),
            decreases n - i,
        {
            if !self.glyphs[i].is_wf() {
                return false;
            }
            i += 1;
        }
        true
    }

    /// The line of the given glyphs, with its width measured. It is well
    /// formed if the glyphs are.
    pub fn new(glyphs: Vec<Glyph>) -> (line: PositionedLine)
        ensures
            line.wf() <==> forall|i: int| 0 <= i < glyphs@.len() ==> (#[trigger] glyphs@[i]).wf(),
            line.glyphs@ == glyphs@,
            line.line_width == measure(glyphs@),
            glyphs@.len() == 0 ==> line.line_width == 0,
    {
        let line_width = line_width(&glyphs);
        PositionedLine { glyphs, line_width }
    }
}

/// Whether every line of the list is well formed.
pub open spec fn lines_wf(lines: Seq<PositionedLine>) -> bool {
    forall|i: int| 0 <= i < lines.len() ==> (#[trigger] lines[i]).wf()
}

/// Whether every line of the list is well formed.
pub fn well_formed(lines: &Vec<PositionedLine>) -> (ok: bool)
    ensures
        ok == lines_wf(lines@),
{
    let n = lines.len();
    let mut i: usize = 0;
    while i < n
        invariant
            i <= n,
            n == lines@.len(),
            forall|k: int| 0 <= k < i ==> (#[trigger] lines@[k]).wf(),
        decreases n - i,
    {
        if !lines[i].is_wf() {
            return false;
        }
        i += 1;
    }
    true
}

/// The width in pixels of a line of glyphs.
pub fn line_width(glyphs: &Vec<Glyph>) -> (width: u32)
    ensures
        width == measure(glyphs@),
        glyphs@.len() == 0 ==> width == 0,
{
    let n = glyphs.len();
    if n == 0 {
        return 0;
    }
    let last = &glyphs[n - 1];
    let edge: i64 = last.pen_x as i64 + last.advance as i64;
    if edge <= 0 {
        0
    } else {
        ((edge + UNITS_PER_PIXEL as i64 - 1) / UNITS_PER_PIXEL as i64) as u32
    }
}

/// The widest line's width; 0 for no lines.
pub open spec fn max_line_width(lines: Seq<PositionedLine>) -> int
    decreases lines.len(),
{
    if lines.len() == 0 {
        0
    } else {
        let rest = max_line_width(lines.drop_last());
        if lines.last().line_width > rest {
            lines.last().line_width as int
        } else {
            rest
        }
    }
}

/// No line is wider than the widest, and where there are lines one of them
/// is that wide.
pub proof fn lemma_max_line_width(lines: Seq<PositionedLine>)
    ensures
        forall|i: int| 0 <= i < lines.len() ==> (#[trigger] lines[i]).line_width <= max_line_width(lines),
        lines.len() > 0 ==> exists|i: int|
            0 <= i < lines.len() && (#[trigger] lines[i]).line_width == max_line_width(lines),
        lines.len() == 0 ==> max_line_width(lines) == 0,
        0 <= max_line_width(lines) <= u32::MAX,
    decreases lines.len(),
{
    if lines.len() > 0 {
        let rest = lines.drop_last();
        lemma_max_line_width(rest);
        assert forall|i: int| 0 <= i < lines.len() implies (#[trigger] lines[i]).line_width
            <= max_line_width(lines) by {
            if i < rest.len() {
                assert(rest[i] == lines[i]);
            }
        }
        if lines.last().line_width > max_line_width(rest) {
            assert(lines[lines.len() - 1].line_width == max_line_width(lines));
        } else if rest.len() > 0 {
            let j = choose|j: int|
                0 <= j < rest.len() && (#[trigger] rest[j]).line_width == max_line_width(rest);
            assert(lines[j] == rest[j]);
        } else {
            assert(lines[0].line_width == max_line_width(lines));
        }
    }
}

/// The size in pixels of a font of the given point size, both in 1/64
/// units: 96 pixels to the inch, 72 points to the inch.
pub open spec fn scale_of(point_size: int) -> int {
    point_size * 96 / 72
}

/// The height of one line in pixels and fractions of 1/64 pixel.
pub fn pixel_scale(point_size: u32) -> (scale: u64)
    ensures
        scale == scale_of(point_size as int),
{
    (point_size as u64) * 96 / 72
}

/// The width of the window: the widest line and the padding on both sides.
pub open spec fn window_width(lines: Seq<PositionedLine>, h_padding: int) -> int {
    max_line_width(lines) + 2 * h_padding
}

/// The height of `count` lines of the given scale stacked without gaps: the
/// exact sum of their heights, rounded up to whole pixels once.
pub open spec fn lines_height(count: int, scale: int) -> int {
    pixels_up(count * scale)
}

/// The number of gaps between `count` lines.
pub open spec fn gaps(count: int) -> int {
    if count > 1 {
        count - 1
    } else {
        0
    }
}

/// The height of the window: the lines, the spacing between each two of
/// them, and the padding above and below.
pub open spec fn window_height(count: int, scale: int, spacing: int, v_padding: int) -> int {
    lines_height(count, scale) + spacing * gaps(count) + 2 * v_padding
}

/// The window's size in pixels, if both sides fit in 32 bits.
pub fn window_size(
    lines: &Vec<PositionedLine>,
    scale: u64,
    spacing: u32,
    h_padding: u32,
    v_padding: u32,
) -> (size: Option<(u32, u32)>)
    ensures
        size is Some <==> window_width(lines@, h_padding as int) <= u32::MAX && window_height(
            lines@.len() as int,
            scale as int,
            spacing as int,
            v_padding as int,
        ) <= u32::MAX,
        size matches Some((w, h)) ==> w == window_width(lines@, h_padding as int) && h
            == window_height(lines@.len() as int, scale as int, spacing as int, v_padding as int),
{
    let n = lines.len();
    let mut widest: u32 = 0;
    let mut i: usize = 0;
    while i < n
        invariant
            i <= n,
            n == lines@.len(),
            widest == max_line_width(lines@.take(i as int)),
        decreases n - i,
    {
        proof {
            assert(lines@.take(i + 1).drop_last() == lines@.take(i as int));
        }
        if lines[i].line_width > widest {
            widest = lines[i].line_width;
        }
        i += 1;
    }
    proof {
        assert(lines@.take(n as int) == lines@);
    }
    let width: u64 = widest as u64 + 2 * (h_padding as u64);
    if n > 0 && scale > 0x100_0000_0000 {
        // One line alone is higher than 32 bits can say.
        assert(n * scale >= scale) by (nonlinear_arith)
            requires
                n >= 1,
                scale >= 0,
        ;
        assert(spacing * gaps(n as int) >= 0) by (nonlinear_arith)
            requires
                spacing >= 0,
                gaps(n as int) >= 0,
        ;
        return None;
    }
    let count: u128 = n as u128;
    let between: u128 = if n > 1 {
        (n - 1) as u128
    } else {
        0
    };
    assert(count * (scale as u128) <= 0xffff_ffff_ffff_ffff * 0x100_0000_0000) by (nonlinear_arith)
        requires
            count <= 0xffff_ffff_ffff_ffff,
            count == 0 || scale <= 0x100_0000_0000,
    ;
    assert((spacing as u128) * between <= 0xffff_ffff * 0xffff_ffff_ffff_ffff) by (nonlinear_arith)
        requires
            between <= 0xffff_ffff_ffff_ffff,
            spacing <= 0xffff_ffff,
    ;
    let height: u128 = (count * (scale as u128) + 63) / 64 + (spacing as u128) * between + 2 * (
    v_padding as u128);
    if width <= 0xffff_ffff && height <= 0xffff_ffff {
        Some((width as u32, height as u32))
    } else {
        None
    }
}

/// Rounding the sum of the line heights up once never asks for more rows
/// than rounding each line up would, and never for fewer than the lines
/// need.
pub proof fn lemma_lines_height_bounds(count: int, scale: int)
    requires
        0 <= count,
        0 <= scale,
    ensures
        count * scale <= 64 * lines_height(count, scale) < count * scale + 64,
        lines_height(count, scale) <= count * lines_height(1, scale),
        count * pixels_down(scale) <= lines_height(count, scale),
{
    let up = lines_height(1, scale);
    let down = scale / 64;
    assert(count * scale <= count * (64 * up)) by (nonlinear_arith)
        requires
            0 <= count,
            scale <= 64 * up,
    ;
    assert(count * (64 * up) == 64 * (count * up)) by (nonlinear_arith);
    assert(count * (64 * down) <= count * scale) by (nonlinear_arith)
        requires
            0 <= count,
            64 * down <= scale,
    ;
    assert(count * (64 * down) == 64 * (count * down)) by (nonlinear_arith);
}

/// The window's height depends on the lines only through their number.
pub proof fn lemma_height_ignores_content(
    a: Seq<PositionedLine>,
    b: Seq<PositionedLine>,
    scale: int,
    spacing: int,
    v_padding: int,
)
    requires
        a.len() == b.len(),
    ensures
        window_height(a.len() as int, scale, spacing, v_padding) == window_height(
            b.len() as int,
            scale,
            spacing,
            v_padding,
        ),
{
}

} // verus!
