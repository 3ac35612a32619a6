use gwstuff::layout::{
    line_width, pixel_scale, well_formed, window_size, Glyph, PositionedLine, UNITS_PER_PIXEL,
};

fn blank(pen_x: i32, advance: i32) -> Glyph {
    Glyph::blank(pen_x, advance)
}

fn line_of_width(pixels: i32) -> PositionedLine {
    PositionedLine::new(vec![blank(0, pixels * 64)])
}

#[test]
fn sixty_four_units_make_a_pixel() {
    assert_eq!(UNITS_PER_PIXEL, 64);
}

#[test]
fn a_glyph_needs_one_coverage_value_for_each_pixel() {
    let g = Glyph::new(64, 128, -1, 2, 3, 2, vec![0, 1, 2, 3, 4, 5]).unwrap();
    assert_eq!(g.pen_x, 64);
    assert_eq!(g.advance, 128);
    assert_eq!(g.left, -1);
    assert_eq!(g.top, 2);
    assert_eq!(g.width, 3);
    assert_eq!(g.height, 2);
    assert_eq!(g.coverage, vec![0, 1, 2, 3, 4, 5]);
    assert_eq!(Glyph::new(0, 0, 0, 0, 3, 2, vec![0; 5]), None);
    assert_eq!(Glyph::new(0, 0, 0, 0, 3, 2, vec![0; 7]), None);
    assert_eq!(Glyph::new(0, 0, 0, 0, 0, 9, vec![0; 1]), None);
    assert!(Glyph::new(0, 0, 0, 0, 0, 9, Vec::new()).is_some());
    assert!(Glyph::new(0, 0, 0, 0, 65536, 65536, Vec::new()).is_none());
}

#[test]
fn a_blank_glyph_has_no_pixels() {
    let g = blank(10, 20);
    assert_eq!(Some(g), Glyph::new(10, 20, 0, 0, 0, 0, Vec::new()));
}

#[test]
fn an_empty_line_is_zero_wide() {
    assert_eq!(line_width(&Vec::new()), 0);
    assert_eq!(PositionedLine::new(Vec::new()).line_width, 0);
}

#[test]
fn the_width_is_the_last_glyphs_right_edge_rounded_up() {
    assert_eq!(line_width(&vec![blank(640, 650)]), 21);
    assert_eq!(line_width(&vec![blank(0, 64)]), 1);
    assert_eq!(line_width(&vec![blank(0, 65)]), 2);
    assert_eq!(line_width(&vec![blank(0, 1)]), 1);
    assert_eq!(line_width(&vec![blank(0, 0)]), 0);
}

#[test]
fn only_the_last_glyph_counts() {
    assert_eq!(line_width(&vec![blank(6400, 640), blank(0, 64)]), 1);
    assert_eq!(line_width(&vec![blank(0, 64), blank(64, 64), blank(128, 70)]), 4);
}

#[test]
fn a_line_that_ends_left_of_its_start_is_zero_wide() {
    assert_eq!(line_width(&vec![blank(-200, 100)]), 0);
    assert_eq!(line_width(&vec![blank(i32::MIN, i32::MIN)]), 0);
}

#[test]
fn the_widest_line_that_can_be() {
    assert_eq!(line_width(&vec![blank(i32::MAX, i32::MAX)]), 67108864);
}

#[test]
fn a_line_keeps_its_glyphs() {
    let glyphs = vec![blank(0, 64), blank(64, 100)];
    let line = PositionedLine::new(glyphs.clone());
    assert_eq!(line.glyphs, glyphs);
    assert_eq!(line.line_width, 3);
}

#[test]
fn points_to_pixels_at_ninety_six_to_the_inch() {
    assert_eq!(pixel_scale(960), 1280);
    assert_eq!(pixel_scale(640), 853);
    assert_eq!(pixel_scale(800), 1066);
    assert_eq!(pixel_scale(0), 0);
    assert_eq!(pixel_scale(u32::MAX), 5726623060);
}

#[test]
fn window_of_three_lines() {
    let lines = vec![line_of_width(30), line_of_width(120), line_of_width(7)];
    // width: 120 + 2 * 10; height: 3 * 20 + 1 * 2 + 2 * 5
    assert_eq!(window_size(&lines, 1280, 1, 10, 5), Some((140, 72)));
}

#[test]
fn window_height_is_rounded_up_once() {
    let lines = vec![line_of_width(1), line_of_width(1), line_of_width(1)];
    // 3 * 853 / 64 = 39.98..., not 3 * 14
    assert_eq!(window_size(&lines, 853, 0, 0, 0), Some((1, 40)));
    assert_eq!(window_size(&lines, 853, 2, 0, 1), Some((1, 46)));
}

#[test]
fn window_height_does_not_depend_on_what_the_lines_hold() {
    let a = vec![line_of_width(3), line_of_width(500)];
    let b = vec![PositionedLine::new(Vec::new()), PositionedLine::new(Vec::new())];
    let ha = window_size(&a, 1280, 4, 0, 10).unwrap().1;
    let hb = window_size(&b, 1280, 4, 0, 10).unwrap().1;
    assert_eq!(ha, 64);
    assert_eq!(hb, 64);
}

#[test]
fn spacing_stands_between_lines_only() {
    let one = vec![line_of_width(1)];
    assert_eq!(window_size(&one, 853, 7, 0, 0), Some((1, 14)));
    let none: Vec<PositionedLine> = Vec::new();
    assert_eq!(window_size(&none, 853, 7, 0, 3), Some((0, 6)));
}

#[test]
fn window_width_is_the_widest_line_and_the_padding() {
    let lines = vec![line_of_width(9), line_of_width(2), line_of_width(9), line_of_width(4)];
    assert_eq!(window_size(&lines, 64, 0, 3, 0).unwrap().0, 15);
    let empty = vec![PositionedLine::new(Vec::new())];
    assert_eq!(window_size(&empty, 64, 0, 3, 0), Some((6, 1)));
}

#[test]
fn a_window_too_large_for_32_bits_is_none() {
    let lines = vec![line_of_width(2)];
    assert_eq!(window_size(&lines, 64, 0, u32::MAX / 2, 0), None);
    assert_eq!(window_size(&lines, 64, 0, 0, u32::MAX / 2 + 1), None);
    assert_eq!(window_size(&lines, 64, 0, u32::MAX / 2 - 1, 0), Some((u32::MAX - 1, 1)));
    assert_eq!(window_size(&lines, 64, 0, 0, u32::MAX / 2), Some((2, u32::MAX)));
    let two = vec![line_of_width(2), line_of_width(2)];
    assert_eq!(window_size(&two, 64, u32::MAX, 0, 0), None);
    assert_eq!(window_size(&two, 64, u32::MAX - 2, 0, 0), Some((2, u32::MAX)));
}

#[test]
fn what_the_constructors_make_is_well_formed() {
    let g = Glyph::new(0, 100, 0, 0, 2, 2, vec![1, 2, 3, 4]).unwrap();
    assert!(g.is_wf());
    assert!(Glyph::blank(3, 4).is_wf());
    let line = PositionedLine::new(vec![g, Glyph::blank(100, 28)]);
    assert!(line.is_wf());
    assert!(well_formed(&vec![line, PositionedLine::new(Vec::new())]));
    assert!(well_formed(&Vec::new()));
}

#[test]
fn a_glyph_with_coverage_missing_is_not_well_formed() {
    let mut g = Glyph::new(0, 100, 0, 0, 2, 2, vec![1, 2, 3, 4]).unwrap();
    g.coverage.pop();
    assert!(!g.is_wf());
    let mut line = PositionedLine::new(vec![Glyph::blank(0, 64)]);
    line.glyphs.push(g);
    line.line_width = 2;
    assert!(!line.is_wf());
    assert!(!well_formed(&vec![PositionedLine::new(Vec::new()), line]));
}

#[test]
fn a_line_with_another_width_is_not_well_formed() {
    let mut line = PositionedLine::new(vec![Glyph::blank(0, 64)]);
    assert_eq!(line.line_width, 1);
    line.line_width = 2;
    assert!(!line.is_wf());
    assert!(!well_formed(&vec![line]));
}

#[test]
fn a_scale_beyond_any_window() {
    let one = vec![PositionedLine::new(Vec::new())];
    assert_eq!(window_size(&one, u64::MAX, 0, 0, 0), None);
    assert_eq!(window_size(&one, 0x100_0000_0001, 0, 0, 0), None);
    assert_eq!(window_size(&one, 64 * 0xffff_ffff, 0, 0, 0), Some((0, u32::MAX)));
    assert_eq!(window_size(&one, 64 * 0xffff_ffff + 1, 0, 0, 0), None);
    let none: Vec<PositionedLine> = Vec::new();
    assert_eq!(window_size(&none, u64::MAX, 9, 1, 2), Some((2, 4)));
}
