//! Painting lines of glyphs into a canvas of packed pixels.
//!
//! A canvas is a flat sequence of pixels, row by row: the pixel in column
//! `x` of row `y` of a canvas `width` wide stands at `x + y * width`.

use crate::layout::{
    lines_wf, pixel_scale, pixels_down, scale_of, window_height, window_size, window_width, Glyph,
    PositionedLine, UNITS_PER_PIXEL,
};
use crate::parser::{Config, TextAlignment};
use crate::pixel::{
    add_opacity, argb, blend, blend_spec, blue, green, lemma_blend_channels, percentage_alpha,
    percentage_to_u8, red, COVERAGE_THRESHOLD,
};
use vstd::arithmetic::div_mod::{
    lemma_div_pos_is_pos, lemma_fundamental_div_mod, lemma_fundamental_div_mod_converse_div,
    lemma_fundamental_div_mod_converse_mod, lemma_mod_pos_bound, lemma_multiply_divide_lt,
};
use vstd::prelude::*;

verus! {

/// What the compositor takes from the configuration: the two colours as
/// packed pixels, the padding, and the advance from one line to the next.
#[derive(Debug, Clone, Copy, PartialEq, Eq, Structural)]
pub struct Style {
    pub alignment: TextAlignment,
    /// The background colour with the background's opacity as its alpha.
    pub background: u32,
    /// The text colour, fully opaque.
    pub foreground: u32,
    pub h_padding: u32,
    pub v_padding: u32,
    /// The space between two lines, in pixels.
    pub spacing: u32,
    /// The whole pixel rows of one line.
    pub line_rows: u32,
}

/// The part of the canvas that one line may paint: its left column, its top
/// row, and its extent.
pub struct LineBox {
    pub x: int,
    pub y: int,
    pub width: int,
    pub height: int,
}

impl LineBox {
    /// Whether the pixel in the given column and row of the canvas lies in
    /// the box.
    pub open spec fn holds(self, column: int, row: int) -> bool {
        self.x <= column < self.x + self.width && self.y <= row < self.y + self.height
    }
}

impl Style {
    /// The style that a configuration asks for.
    pub open spec fn of(config: Config) -> Style {
        Style {
            alignment: config.font.text_alignment,
            background: argb(
                percentage_alpha(config.window.background_opacity as int),
                red(config.window.background_color),
                green(config.window.background_color),
                blue(config.window.background_color),
            ) as u32,
            foreground: argb(
                255,
                red(config.font.color),
                green(config.font.color),
                blue(config.font.color),
            ) as u32,
            h_padding: config.window.horizontal_padding,
            v_padding: config.window.vertical_padding,
            spacing: config.font.intra_line,
            line_rows: pixels_down(scale_of(config.font.size as int)) as u32,
        }
    }

    /// The style that a configuration asks for.
    pub fn new(config: &Config) -> (style: Style)
        requires
            config.window.background_opacity <= 100,
        ensures
            style == Style::of(*config),
    {
        let opacity = percentage_to_u8(config.window.background_opacity);
        Style {
            alignment: config.font.text_alignment,
            background: add_opacity(config.window.background_color, opacity),
            foreground: add_opacity(config.font.color, 255),
            h_padding: config.window.horizontal_padding,
            v_padding: config.window.vertical_padding,
            spacing: config.font.intra_line,
            line_rows: (pixel_scale(config.font.size) / UNITS_PER_PIXEL as u64) as u32,
        }
    }

    /// The column at which a line of the given width starts in a canvas of
    /// the given width. It is negative where the line is wider than the
    /// room the canvas leaves.
    pub open spec fn origin_x(self, canvas_width: int, line_width: int) -> int {
        match self.alignment {
            TextAlignment::Left => self.h_padding as int,
            TextAlignment::Right => canvas_width - self.h_padding - line_width,
            TextAlignment::Center => canvas_width / 2 - line_width / 2,
        }
    }

    /// The row at which the line of the given index starts.
    pub open spec fn origin_y(self, index: int) -> int {
        self.v_padding + index * (self.spacing + self.line_rows)
    }

    /// The box of the line of the given index and width.
    pub open spec fn line_box(self, canvas_width: int, index: int, line_width: int) -> LineBox {
        LineBox {
            x: self.origin_x(canvas_width, line_width),
            y: self.origin_y(index),
            width: line_width,
            height: self.line_rows as int,
        }
    }
}

/// Whether a glyph of a line with the given box paints the pixel in the
/// given column and row of the canvas: the pixel lies in the line's box
/// and in the glyph's bounding box, and the glyph covers it by at least the
/// threshold.
pub open spec fn inks(g: Glyph, b: LineBox, column: int, row: int) -> bool {
    &&& 0 <= column - b.x < b.width
    &&& 0 <= row - b.y < b.height
    &&& g.covers(column - b.x, row - b.y)
    &&& g.coverage_at(column - b.x, row - b.y) >= COVERAGE_THRESHOLD
}

/// The pixel that a glyph paints in the given column and row.
pub open spec fn ink(g: Glyph, b: LineBox, column: int, row: int, fg: u32, bg: u32) -> u32 {
    blend_spec(g.coverage_at(column - b.x, row - b.y), fg, bg) as u32
}

/// The canvas after the first `done` samples of a glyph, taken row by row,
/// were painted.
spec fn painted_samples(
    canvas: Seq<u32>,
    width: int,
    g: Glyph,
    b: LineBox,
    fg: u32,
    bg: u32,
    done: int,
) -> Seq<u32> {
    Seq::new(
        canvas.len(),
        |i: int|
            if inks(g, b, i % width, i / width) && g.sample_index(
                i % width - b.x,
                i / width - b.y,
            ) < done {
                ink(g, b, i % width, i / width, fg, bg)
            } else {
                canvas[i]
            },
    )
}

/// The canvas after a glyph was painted: each pixel that the glyph inks is
/// the blend of the two colours by the glyph's coverage there, every other
/// pixel is as before.
pub open spec fn painted_glyph(
    canvas: Seq<u32>,
    width: int,
    g: Glyph,
    b: LineBox,
    fg: u32,
    bg: u32,
) -> Seq<u32> {
    Seq::new(
        canvas.len(),
        |i: int|
            if inks(g, b, i % width, i / width) {
                ink(g, b, i % width, i / width, fg, bg)
            } else {
                canvas[i]
            },
    )
}

/// The canvas after the glyphs were painted in order, each over the ones
/// before it.
pub open spec fn painted_glyphs(
    canvas: Seq<u32>,
    width: int,
    glyphs: Seq<Glyph>,
    b: LineBox,
    fg: u32,
    bg: u32,
) -> Seq<u32>
    decreases glyphs.len(),
{
    if glyphs.len() == 0 {
        canvas
    } else {
        painted_glyph(
            painted_glyphs(canvas, width, glyphs.drop_last(), b, fg, bg),
            width,
            glyphs.last(),
            b,
            fg,
            bg,
        )
    }
}

/// The canvas after the lines were painted in order, the line of index `k`
/// in the box of index `k`.
pub open spec fn painted_lines(
    canvas: Seq<u32>,
    width: int,
    lines: Seq<PositionedLine>,
    style: Style,
) -> Seq<u32>
    decreases lines.len(),
{
    if lines.len() == 0 {
        canvas
    } else {
        painted_glyphs(
            painted_lines(canvas, width, lines.drop_last(), style),
            width,
            lines.last().glyphs@,
            style.line_box(width, lines.len() - 1, lines.last().line_width as int),
            style.foreground,
            style.background,
        )
    }
}

/// A canvas of the given size filled with the background.
pub open spec fn blank_canvas(style: Style, width: int, height: int) -> Seq<u32> {
    Seq::new((width * height) as nat, |i: int| style.background)
}

/// The finished canvas: the background with the lines painted over it.
pub open spec fn composed(
    style: Style,
    lines: Seq<PositionedLine>,
    width: int,
    height: int,
) -> Seq<u32> {
    painted_lines(blank_canvas(style, width, height), width, lines, style)
}

/// The pixel at a place of a canvas lies in a column and a row of it.
pub proof fn lemma_cell(width: int, height: int, i: int)
    requires
        0 <= i < width * height,
        0 <= width,
        0 <= height,
    ensures
        0 < width,
        0 <= i % width < width,
        0 <= i / width < height,
        i == (i / width) * width + i % width,
{
    assert(width != 0) by (nonlinear_arith)
        requires
            0 <= i < width * height,
    ;
    lemma_mod_pos_bound(i, width);
    lemma_div_pos_is_pos(i, width);
    lemma_fundamental_div_mod(i, width);
    lemma_multiply_divide_lt(i, width, height);
    assert(width * (i / width) == (i / width) * width) by (nonlinear_arith);
}

/// The pixel in a column and a row of a canvas stands at one place of it,
/// from which the column and the row are had back.
pub proof fn lemma_place(width: int, height: int, column: int, row: int)
    requires
        0 <= column < width,
        0 <= row < height,
    ensures
        0 <= column + row * width < width * height,
        (column + row * width) % width == column,
        (column + row * width) / width == row,
{
    assert(0 <= column + row * width < width * height) by (nonlinear_arith)
        requires
            0 <= column < width,
            0 <= row < height,
    ;
    lemma_fundamental_div_mod_converse_mod(column + row * width, width, row, column);
    lemma_fundamental_div_mod_converse_div(column + row * width, width, row, column);
}

/// Painting changes no pixel outside the line's box, and keeps the canvas's
/// length.
pub proof fn lemma_painted_glyph_clipped(
    canvas: Seq<u32>,
    width: int,
    g: Glyph,
    b: LineBox,
    fg: u32,
    bg: u32,
)
    ensures
        painted_glyph(canvas, width, g, b, fg, bg).len() == canvas.len(),
        forall|i: int|
            0 <= i < canvas.len() && !b.holds(i % width, i / width) ==> #[trigger] painted_glyph(
                canvas,
                width,
                g,
                b,
                fg,
                bg,
            )[i] == canvas[i],
{
}

/// Painting a line changes no pixel outside the line's box, and keeps the
/// canvas's length.
pub proof fn lemma_painted_glyphs_clipped(
    canvas: Seq<u32>,
    width: int,
    glyphs: Seq<Glyph>,
    b: LineBox,
    fg: u32,
    bg: u32,
)
    ensures
        painted_glyphs(canvas, width, glyphs, b, fg, bg).len() == canvas.len(),
        forall|i: int|
            0 <= i < canvas.len() && !b.holds(i % width, i / width) ==> #[trigger] painted_glyphs(
                canvas,
                width,
                glyphs,
                b,
                fg,
                bg,
            )[i] == canvas[i],
    decreases glyphs.len(),
{
    if glyphs.len() > 0 {
        let before = painted_glyphs(canvas, width, glyphs.drop_last(), b, fg, bg);
        lemma_painted_glyphs_clipped(canvas, width, glyphs.drop_last(), b, fg, bg);
        lemma_painted_glyph_clipped(before, width, glyphs.last(), b, fg, bg);
    }
}

/// The painted canvas is as long as the canvas was.
pub proof fn lemma_painted_lines_len(
    canvas: Seq<u32>,
    width: int,
    lines: Seq<PositionedLine>,
    style: Style,
)
    ensures
        painted_lines(canvas, width, lines, style).len() == canvas.len(),
    decreases lines.len(),
{
    if lines.len() > 0 {
        lemma_painted_lines_len(canvas, width, lines.drop_last(), style);
        lemma_painted_glyphs_clipped(
            painted_lines(canvas, width, lines.drop_last(), style),
            width,
            lines.last().glyphs@,
            style.line_box(width, lines.len() - 1, lines.last().line_width as int),
            style.foreground,
            style.background,
        );
    }
}

/// A pixel that lies in no line's box is as it was before the lines were
/// painted.
pub proof fn lemma_painted_lines_clipped(
    canvas: Seq<u32>,
    width: int,
    lines: Seq<PositionedLine>,
    style: Style,
    i: int,
)
    requires
        0 <= i < canvas.len(),
        forall|k: int|
            0 <= k < lines.len() ==> !(#[trigger] style.line_box(
                width,
                k,
                lines[k].line_width as int,
            )).holds(i % width, i / width),
    ensures
        painted_lines(canvas, width, lines, style)[i] == canvas[i],
    decreases lines.len(),
{
    if lines.len() > 0 {
        let rest = lines.drop_last();
        let k = lines.len() - 1;
        assert forall|j: int| 0 <= j < rest.len() implies !(#[trigger] style.line_box(
            width,
            j,
            rest[j].line_width as int,
        )).holds(i % width, i / width) by {
            assert(rest[j] == lines[j]);
        }
        lemma_painted_lines_clipped(canvas, width, rest, style, i);
        lemma_painted_lines_len(canvas, width, rest, style);
        let b = style.line_box(width, k, lines[k].line_width as int);
        assert(!b.holds(i % width, i / width));
        lemma_painted_glyphs_clipped(
            painted_lines(canvas, width, rest, style),
            width,
            lines.last().glyphs@,
            b,
            style.foreground,
            style.background,
        );
    }
}

/// Whether a pixel is a blend of the two colours by a coverage that reaches
/// the threshold.
pub open spec fn is_ink(pixel: u32, fg: u32, bg: u32) -> bool {
    exists|coverage: u8|
        coverage >= COVERAGE_THRESHOLD && pixel == #[trigger] blend_spec(coverage, fg, bg) as u32
}

/// A pixel of a canvas on which glyphs were painted is as it was or a blend
/// of the two colours.
pub proof fn lemma_painted_glyphs_pixels(
    canvas: Seq<u32>,
    width: int,
    glyphs: Seq<Glyph>,
    b: LineBox,
    fg: u32,
    bg: u32,
    i: int,
)
    requires
        0 <= i < canvas.len(),
    ensures
        painted_glyphs(canvas, width, glyphs, b, fg, bg)[i] == canvas[i] || is_ink(
            painted_glyphs(canvas, width, glyphs, b, fg, bg)[i],
            fg,
            bg,
        ),
    decreases glyphs.len(),
{
    if glyphs.len() > 0 {
        let g = glyphs.last();
        lemma_painted_glyphs_pixels(canvas, width, glyphs.drop_last(), b, fg, bg, i);
        lemma_painted_glyphs_clipped(canvas, width, glyphs.drop_last(), b, fg, bg);
        if inks(g, b, i % width, i / width) {
            let coverage = g.coverage_at(i % width - b.x, i / width - b.y);
            assert(painted_glyphs(canvas, width, glyphs, b, fg, bg)[i] == blend_spec(
                coverage,
                fg,
                bg,
            ) as u32);
        }
    }
}

/// Every pixel of the finished canvas is the background or a blend of the
/// two colours.
pub proof fn lemma_composed_pixels(
    style: Style,
    lines: Seq<PositionedLine>,
    width: int,
    height: int,
    i: int,
)
    requires
        0 <= i < composed(style, lines, width, height).len(),
    ensures
        composed(style, lines, width, height)[i] == style.background || is_ink(
            composed(style, lines, width, height)[i],
            style.foreground,
            style.background,
        ),
    decreases lines.len(),
{
    if lines.len() > 0 {
        let blank = blank_canvas(style, width, height);
        let rest = lines.drop_last();
        let b = style.line_box(width, lines.len() - 1, lines.last().line_width as int);
        lemma_painted_lines_len(blank, width, rest, style);
        lemma_painted_lines_len(blank, width, lines, style);
        lemma_composed_pixels(style, rest, width, height, i);
        lemma_painted_glyphs_pixels(
            composed(style, rest, width, height),
            width,
            lines.last().glyphs@,
            b,
            style.foreground,
            style.background,
            i,
        );
    }
}

/// Text in the colour of its background does not show: every pixel of the
/// finished canvas is the background.
pub proof fn lemma_composed_same_colour(
    style: Style,
    lines: Seq<PositionedLine>,
    width: int,
    height: int,
)
    requires
        style.foreground == style.background,
    ensures
        composed(style, lines, width, height) == blank_canvas(style, width, height),
{
    let canvas = composed(style, lines, width, height);
    let blank = blank_canvas(style, width, height);
    lemma_painted_lines_len(blank, width, lines, style);
    assert forall|i: int| 0 <= i < canvas.len() implies canvas[i] == blank[i] by {
        lemma_composed_pixels(style, lines, width, height, i);
        if is_ink(canvas[i], style.foreground, style.background) {
            let coverage = choose|coverage: u8|
                coverage >= COVERAGE_THRESHOLD && canvas[i] == #[trigger] blend_spec(
                    coverage,
                    style.foreground,
                    style.background,
                ) as u32;
            lemma_blend_channels(coverage, style.foreground, style.background);
        }
    }
    assert(canvas =~= blank);
}

/// The finished canvas has one pixel for each place of the window, and a
/// pixel that lies in no line's box is the background.
pub proof fn lemma_composed_clipped(
    style: Style,
    lines: Seq<PositionedLine>,
    width: int,
    height: int,
    i: int,
)
    requires
        0 <= width,
        0 <= height,
        0 <= i < width * height,
        forall|k: int|
            0 <= k < lines.len() ==> !(#[trigger] style.line_box(
                width,
                k,
                lines[k].line_width as int,
            )).holds(i % width, i / width),
    ensures
        composed(style, lines, width, height).len() == width * height,
        composed(style, lines, width, height)[i] == style.background,
{
    let blank = blank_canvas(style, width, height);
    lemma_painted_lines_len(blank, width, lines, style);
    lemma_painted_lines_clipped(blank, width, lines, style, i);
}

/// Fills a canvas: appends one background pixel for each place of a window
/// of the given size.
pub fn set_background(style: &Style, canvas: &mut Vec<u32>, dimensions: (u32, u32))
    ensures
        final(canvas)@ == old(canvas)@ + blank_canvas(
            *style,
            dimensions.0 as int,
            dimensions.1 as int,
        ),
{
    let ghost start = canvas@;
    let pixel = style.background;
    assert(dimensions.0 * dimensions.1 <= 0xffff_ffff * 0xffff_ffff) by (nonlinear_arith)
        requires
            dimensions.0 <= 0xffff_ffff,
            dimensions.1 <= 0xffff_ffff,
    ;
    let places: u64 = (dimensions.0 as u64) * (dimensions.1 as u64);
    let mut filled: u64 = 0;
    while filled < places
        invariant
            filled <= places,
            pixel == style.background,
            canvas@ == start + Seq::new(filled as nat, |i: int| pixel),
        decreases places - filled,
    {
        canvas.push(pixel);
        filled += 1;
    }
}

/// The sample in column `sx`, row `sy` of a glyph's bounding box is painted:
/// it lies in the line's box and on the canvas, and the coverage reaches the
/// threshold.
spec fn sample_lands(g: Glyph, b: LineBox, width: int, height: int, sx: int, sy: int) -> bool {
    &&& 0 <= sx + g.left < b.width
    &&& 0 <= sy + g.top < b.height
    &&& g.coverage@[sy * g.width + sx] >= COVERAGE_THRESHOLD
    &&& 0 <= b.x + sx + g.left < width
    &&& 0 <= b.y + sy + g.top < height
}

/// A sample that is painted changes the one pixel it lands on.
proof fn lemma_sample_painted(
    canvas: Seq<u32>,
    width: int,
    height: int,
    g: Glyph,
    b: LineBox,
    fg: u32,
    bg: u32,
    sx: int,
    sy: int,
)
    requires
        canvas.len() == width * height,
        0 <= width,
        0 <= height,
        0 <= sx < g.width,
        0 <= sy < g.height,
        sample_lands(g, b, width, height, sx, sy),
    ensures
        0 <= (b.x + sx + g.left) + (b.y + sy + g.top) * width < canvas.len(),
        painted_samples(canvas, width, g, b, fg, bg, sy * g.width + sx + 1) == painted_samples(
            canvas,
            width,
            g,
            b,
            fg,
            bg,
            sy * g.width + sx,
        ).update(
            (b.x + sx + g.left) + (b.y + sy + g.top) * width,
            blend_spec(g.coverage@[sy * g.width + sx], fg, bg) as u32,
        ),
{
    let column = b.x + sx + g.left;
    let row = b.y + sy + g.top;
    let k = sy * g.width + sx;
    let j = column + row * width;
    lemma_place(width, height, column, row);
    let before = painted_samples(canvas, width, g, b, fg, bg, k);
    let after = painted_samples(canvas, width, g, b, fg, bg, k + 1);
    let written = before.update(j, blend_spec(g.coverage@[k], fg, bg) as u32);
    assert forall|i: int| 0 <= i < canvas.len() implies after[i] == written[i] by {
        if i == j {
            assert(g.sample_index(column - b.x, row - b.y) == k);
        } else {
            lemma_cell(width, height, i);
            let x = i % width - b.x;
            let y = i / width - b.y;
            if inks(g, b, i % width, i / width) && g.sample_index(x, y) == k {
                lemma_fundamental_div_mod_converse_mod(k, g.width as int, y - g.top, x - g.left);
                lemma_fundamental_div_mod_converse_div(k, g.width as int, y - g.top, x - g.left);
                lemma_fundamental_div_mod_converse_mod(k, g.width as int, sy, sx);
                lemma_fundamental_div_mod_converse_div(k, g.width as int, sy, sx);
                assert(false);
            }
        }
    }
    assert(after =~= written);
}

/// A sample that is not painted changes nothing.
proof fn lemma_sample_skipped(
    canvas: Seq<u32>,
    width: int,
    height: int,
    g: Glyph,
    b: LineBox,
    fg: u32,
    bg: u32,
    sx: int,
    sy: int,
)
    requires
        canvas.len() == width * height,
        0 <= width,
        0 <= height,
        0 <= sx < g.width,
        0 <= sy < g.height,
        !sample_lands(g, b, width, height, sx, sy),
    ensures
        painted_samples(canvas, width, g, b, fg, bg, sy * g.width + sx + 1) == painted_samples(
            canvas,
            width,
            g,
            b,
            fg,
            bg,
            sy * g.width + sx,
        ),
{
    let k = sy * g.width + sx;
    let before = painted_samples(canvas, width, g, b, fg, bg, k);
    let after = painted_samples(canvas, width, g, b, fg, bg, k + 1);
    assert forall|i: int| 0 <= i < canvas.len() implies after[i] == before[i] by {
        lemma_cell(width, height, i);
        let x = i % width - b.x;
        let y = i / width - b.y;
        if inks(g, b, i % width, i / width) && g.sample_index(x, y) == k {
            lemma_fundamental_div_mod_converse_mod(k, g.width as int, y - g.top, x - g.left);
            lemma_fundamental_div_mod_converse_div(k, g.width as int, y - g.top, x - g.left);
            lemma_fundamental_div_mod_converse_mod(k, g.width as int, sy, sx);
            lemma_fundamental_div_mod_converse_div(k, g.width as int, sy, sx);
            assert(false);
        }
    }
    assert(after =~= before);
}

/// Once every sample was taken the glyph is painted.
proof fn lemma_samples_done(
    canvas: Seq<u32>,
    width: int,
    g: Glyph,
    b: LineBox,
    fg: u32,
    bg: u32,
)
    ensures
        painted_samples(canvas, width, g, b, fg, bg, g.height * g.width) == painted_glyph(
            canvas,
            width,
            g,
            b,
            fg,
            bg,
        ),
        painted_samples(canvas, width, g, b, fg, bg, 0) == canvas,
{
    let all = painted_samples(canvas, width, g, b, fg, bg, g.height * g.width);
    let whole = painted_glyph(canvas, width, g, b, fg, bg);
    assert forall|i: int| 0 <= i < canvas.len() implies all[i] == whole[i] by {
        let x = i % width - b.x;
        let y = i / width - b.y;
        if inks(g, b, i % width, i / width) {
            assert((y - g.top) * g.width + (x - g.left) < g.height * g.width) by (nonlinear_arith)
                requires
                    0 <= y - g.top < g.height,
                    0 <= x - g.left < g.width,
            ;
        }
    }
    assert(all =~= whole);
    let none = painted_samples(canvas, width, g, b, fg, bg, 0);
    assert forall|i: int| 0 <= i < canvas.len() implies none[i] == canvas[i] by {
        let x = i % width - b.x;
        let y = i / width - b.y;
        if inks(g, b, i % width, i / width) {
            assert(0 <= (y - g.top) * g.width + (x - g.left)) by (nonlinear_arith)
                requires
                    0 <= y - g.top,
                    0 <= x - g.left,
                    0 <= g.width,
            ;
        }
    }
    assert(none =~= canvas);
}

/// Paints one glyph of a line whose box starts at column `x0`, row `y0`.
fn paint_glyph(
    canvas: &mut Vec<u32>,
    dimensions: (u32, u32),
    glyph: &Glyph,
    x0: i64,
    y0: i128,
    line_width: u32,
    line_rows: u32,
    fg: u32,
    bg: u32,
)
    requires
        old(canvas)@.len() == dimensions.0 * dimensions.1,
        glyph.wf(),
        -0x2_0000_0000 <= x0 <= 0x2_0000_0000,
        0 <= y0 <= 0x1_0000_0000_0000_0000_0000_0000_0000,
    ensures
        final(canvas)@ == painted_glyph(
            old(canvas)@,
            dimensions.0 as int,
            *glyph,
            LineBox { x: x0 as int, y: y0 as int, width: line_width as int, height: line_rows as int },
            fg,
            bg,
        ),
{
    let ghost start = canvas@;
    let ghost width = dimensions.0 as int;
    let ghost height = dimensions.1 as int;
    let ghost b = LineBox {
        x: x0 as int,
        y: y0 as int,
        width: line_width as int,
        height: line_rows as int,
    };
    proof {
        lemma_samples_done(start, width, *glyph, b, fg, bg);
    }
    let mut k: usize = 0;
    let mut sy: u32 = 0;
    while sy < glyph.height
        invariant
            sy <= glyph.height,
            glyph.wf(),
            k == sy * glyph.width,
            start.len() == width * height,
            width == dimensions.0,
            height == dimensions.1,
            b == (LineBox {
                x: x0 as int,
                y: y0 as int,
                width: line_width as int,
                height: line_rows as int,
            }),
            -0x2_0000_0000 <= x0 <= 0x2_0000_0000,
            0 <= y0 <= 0x1_0000_0000_0000_0000_0000_0000_0000,
            canvas@ == painted_samples(start, width, *glyph, b, fg, bg, k as int),
        decreases glyph.height - sy,
    {
        let mut sx: u32 = 0;
        while sx < glyph.width
            invariant
                sy < glyph.height,
                sx <= glyph.width,
                glyph.wf(),
                k == sy * glyph.width + sx,
                start.len() == width * height,
                width == dimensions.0,
                height == dimensions.1,
                b == (LineBox {
                    x: x0 as int,
                    y: y0 as int,
                    width: line_width as int,
                    height: line_rows as int,
                }),
                -0x2_0000_0000 <= x0 <= 0x2_0000_0000,
                0 <= y0 <= 0x1_0000_0000_0000_0000_0000_0000_0000,
                canvas@ == painted_samples(start, width, *glyph, b, fg, bg, k as int),
            decreases glyph.width - sx,
        {
            proof {
                assert(sy * glyph.width + sx < glyph.width * glyph.height) by (nonlinear_arith)
                    requires
                        0 <= sx < glyph.width,
                        0 <= sy < glyph.height,
                ;
            }
            assert(k < glyph.coverage.len());
            let coverage = glyph.coverage[k];
            let x: i64 = sx as i64 + glyph.left as i64;
            let y: i64 = sy as i64 + glyph.top as i64;
            let column: i64 = x0 + x;
            let row: i128 = y0 + y as i128;
            if 0 <= x && x < line_width as i64 && 0 <= y && y < line_rows as i64 && coverage
                >= COVERAGE_THRESHOLD && 0 <= column && column < dimensions.0 as i64 && 0 <= row
                && row < dimensions.1 as i128 {
                proof {
                    lemma_sample_painted(start, width, height, *glyph, b, fg, bg, sx as int, sy as int);
                }
                assert(0 <= row * dimensions.0 <= 0xffff_ffff * 0xffff_ffff) by (nonlinear_arith)
                    requires
                        0 <= row <= 0xffff_ffff,
                        0 <= dimensions.0 <= 0xffff_ffff,
                ;
                let place: u64 = column as u64 + (row as u64) * (dimensions.0 as u64);
                assert(place == (b.x + sx + glyph.left) + (b.y + sy + glyph.top) * width);
                assert(place < canvas.len());
                canvas.set(place as usize, blend(coverage, fg, bg));
            } else {
                proof {
                    lemma_sample_skipped(start, width, height, *glyph, b, fg, bg, sx as int, sy as int);
                }
            }
            sx += 1;
            k += 1;
        }
        assert(sy * glyph.width + glyph.width == (sy + 1) * glyph.width) by (nonlinear_arith);
        sy += 1;
    }
    assert(glyph.height * glyph.width == glyph.width * glyph.height) by (nonlinear_arith);
}

/// Paints the glyphs of one line, whose box starts at column `x0`, row `y0`.
fn paint_line(
    canvas: &mut Vec<u32>,
    dimensions: (u32, u32),
    line: &PositionedLine,
    x0: i64,
    y0: i128,
    line_rows: u32,
    fg: u32,
    bg: u32,
)
    requires
        old(canvas)@.len() == dimensions.0 * dimensions.1,
        line.wf(),
        -0x2_0000_0000 <= x0 <= 0x2_0000_0000,
        0 <= y0 <= 0x1_0000_0000_0000_0000_0000_0000_0000,
    ensures
        final(canvas)@ == painted_glyphs(
            old(canvas)@,
            dimensions.0 as int,
            line.glyphs@,
            LineBox {
                x: x0 as int,
                y: y0 as int,
                width: line.line_width as int,
                height: line_rows as int,
            },
            fg,
            bg,
        ),
{
    let ghost start = canvas@;
    let ghost b = LineBox {
        x: x0 as int,
        y: y0 as int,
        width: line.line_width as int,
        height: line_rows as int,
    };
    let n = line.glyphs.len();
    let mut i: usize = 0;
    while i < n
        invariant
            i <= n,
            n == line.glyphs@.len(),
            line.wf(),
            start.len() == dimensions.0 * dimensions.1,
            b == (LineBox {
                x: x0 as int,
                y: y0 as int,
                width: line.line_width as int,
                height: line_rows as int,
            }),
            -0x2_0000_0000 <= x0 <= 0x2_0000_0000,
            0 <= y0 <= 0x1_0000_0000_0000_0000_0000_0000_0000,
            canvas@ == painted_glyphs(
                start,
                dimensions.0 as int,
                line.glyphs@.take(i as int),
                b,
                fg,
                bg,
            ),
        decreases n - i,
    {
        proof {
            assert(line.glyphs@.take(i + 1).drop_last() == line.glyphs@.take(i as int));
            lemma_painted_glyphs_clipped(
                start,
                dimensions.0 as int,
                line.glyphs@.take(i as int),
                b,
                fg,
                bg,
            );
        }
        paint_glyph(canvas, dimensions, &line.glyphs[i], x0, y0, line.line_width, line_rows, fg, bg);
        i += 1;
    }
    proof {
        assert(line.glyphs@.take(n as int) == line.glyphs@);
    }
}

/// The canvas of a window of the given size: the background, and over it
/// the lines, each in its box. What falls outside a line's box or outside
/// the canvas is left out.
pub fn get_canvas(style: &Style, lines: &Vec<PositionedLine>, dimensions: (u32, u32)) -> (canvas:
    Vec<u32>)
    requires
        lines_wf(lines@),
    ensures
        canvas@ == composed(*style, lines@, dimensions.0 as int, dimensions.1 as int),
        canvas@.len() == dimensions.0 * dimensions.1,
{
    let ghost width = dimensions.0 as int;
    let ghost height = dimensions.1 as int;
    let mut canvas: Vec<u32> = Vec::new();
    set_background(style, &mut canvas, dimensions);
    let ghost blank = blank_canvas(*style, width, height);
    assert(canvas@ == blank);
    let step: i128 = style.spacing as i128 + style.line_rows as i128;
    let n = lines.len();
    let mut k: usize = 0;
    while k < n
        invariant
            k <= n,
            n == lines@.len(),
            lines_wf(lines@),
            width == dimensions.0,
            height == dimensions.1,
            blank.len() == width * height,
            step == style.spacing + style.line_rows,
            canvas@ == painted_lines(blank, width, lines@.take(k as int), *style),
        decreases n - k,
    {
        let line = &lines[k];
        let x0: i64 = match style.alignment {
            TextAlignment::Left => style.h_padding as i64,
            TextAlignment::Right => dimensions.0 as i64 - style.h_padding as i64
                - line.line_width as i64,
            TextAlignment::Center => (dimensions.0 / 2) as i64 - (line.line_width / 2) as i64,
        };
        assert(0 <= (k as i128) * step <= 0xffff_ffff_ffff_ffff * 0x1_ffff_fffe) by (nonlinear_arith)
            requires
                0 <= k <= 0xffff_ffff_ffff_ffff,
                0 <= step <= 0x1_ffff_fffe,
        ;
        let y0: i128 = style.v_padding as i128 + (k as i128) * step;
        proof {
            assert(lines@.take(k + 1).drop_last() == lines@.take(k as int));
            lemma_painted_lines_len(blank, width, lines@.take(k as int), *style);
        }
        paint_line(
            &mut canvas,
            dimensions,
            line,
            x0,
            y0,
            style.line_rows,
            style.foreground,
            style.background,
        );
        k += 1;
    }
    proof {
        assert(lines@.take(n as int) == lines@);
        lemma_painted_lines_len(blank, width, lines@, *style);
    }
    canvas
}

/// The size that the window for the lines has by the configuration: its
/// width and its height in pixels.
pub open spec fn natural_size(config: Config, lines: Seq<PositionedLine>) -> (int, int) {
    (
        window_width(lines, config.window.horizontal_padding as int),
        window_height(
            lines.len() as int,
            scale_of(config.font.size as int),
            config.font.intra_line as int,
            config.window.vertical_padding as int,
        ),
    )
}

/// Whether both sides of the window's size fit in 32 bits.
pub open spec fn size_fits(config: Config, lines: Seq<PositionedLine>) -> bool {
    natural_size(config, lines).0 <= u32::MAX && natural_size(config, lines).1 <= u32::MAX
}

/// The size of the window for the lines, if it fits in 32 bits.
pub fn get_dimensions(config: &Config, lines: &Vec<PositionedLine>) -> (size: Option<(u32, u32)>)
    ensures
        size is Some <==> size_fits(*config, lines@),
        size matches Some(d) ==> d.0 == natural_size(*config, lines@).0 && d.1 == natural_size(
            *config,
            lines@,
        ).1,
{
    window_size(
        lines,
        pixel_scale(config.font.size),
        config.font.intra_line,
        config.window.horizontal_padding,
        config.window.vertical_padding,
    )
}

/// The size of the window for the lines and the canvas of a window of that
/// size, if the size fits in 32 bits.
pub fn get_dimensions_and_canvas(config: &Config, lines: &Vec<PositionedLine>) -> (out: Option<
    ((u32, u32), Vec<u32>),
>)
    requires
        config.window.background_opacity <= 100,
        lines_wf(lines@),
    ensures
        out is Some <==> size_fits(*config, lines@),
        out matches Some((d, canvas)) ==> d.0 == natural_size(*config, lines@).0 && d.1
            == natural_size(*config, lines@).1 && canvas@ == composed(
            Style::of(*config),
            lines@,
            d.0 as int,
            d.1 as int,
        ),
{
    match get_dimensions(config, lines) {
        Some(d) => {
            let style = Style::new(config);
            Some((d, get_canvas(&style, lines, d)))
        },
        None => None,
    }
}

} // verus!
