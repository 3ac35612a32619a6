use gwstuff::parser::{MarginProps, Placement};
use gwstuff::placement::{
    resolve_placement, Margins, ANCHOR_BOTTOM, ANCHOR_FILL, ANCHOR_LEFT, ANCHOR_RIGHT, ANCHOR_TOP,
};

fn margins(vertical: u8, horizontal: u8) -> MarginProps {
    MarginProps { vertical_percentage: vertical, horizontal_percentage: horizontal }
}

#[test]
fn raw_bits_of_each_placement() {
    assert_eq!(Placement::Top.to_raw(), 1);
    assert_eq!(Placement::Bottom.to_raw(), 2);
    assert_eq!(Placement::Left.to_raw(), 4);
    assert_eq!(Placement::Right.to_raw(), 8);
    assert_eq!(Placement::CenterVertical.to_raw(), 3);
    assert_eq!(Placement::CenterHorizontal.to_raw(), 12);
}

#[test]
fn anchor_constants_are_the_edge_bits() {
    assert_eq!(ANCHOR_TOP, Placement::Top.to_raw());
    assert_eq!(ANCHOR_BOTTOM, Placement::Bottom.to_raw());
    assert_eq!(ANCHOR_LEFT, Placement::Left.to_raw());
    assert_eq!(ANCHOR_RIGHT, Placement::Right.to_raw());
    assert_eq!(ANCHOR_FILL, 15);
}

#[test]
fn top_left_on_full_hd() {
    let out = resolve_placement(Placement::Top, Placement::Left, margins(5, 5), (1920, 1080));
    assert_eq!(out.anchor, 5);
    assert_eq!(out.margins, Margins { top: 54, right: 0, bottom: 0, left: 96 });
}

#[test]
fn bottom_right_uses_its_own_edges() {
    let out = resolve_placement(Placement::Bottom, Placement::Right, margins(10, 25), (1000, 500));
    assert_eq!(out.anchor, 10);
    assert_eq!(out.margins, Margins { top: 0, right: 250, bottom: 50, left: 0 });
}

#[test]
fn centred_on_both_axes_fills_without_margins() {
    let out = resolve_placement(
        Placement::CenterVertical,
        Placement::CenterHorizontal,
        margins(100, 37),
        (1920, 1080),
    );
    assert_eq!(out.anchor, 15);
    assert_eq!(out.margins, Margins { top: 0, right: 0, bottom: 0, left: 0 });
}

#[test]
fn centred_on_one_axis_has_margins_on_both_edges_of_it() {
    let out = resolve_placement(
        Placement::CenterVertical,
        Placement::Left,
        margins(10, 20),
        (200, 300),
    );
    assert_eq!(out.anchor, 7);
    assert_eq!(out.margins, Margins { top: 30, right: 0, bottom: 30, left: 40 });

    let out = resolve_placement(
        Placement::Top,
        Placement::CenterHorizontal,
        margins(10, 20),
        (200, 300),
    );
    assert_eq!(out.anchor, 13);
    assert_eq!(out.margins, Margins { top: 30, right: 40, bottom: 0, left: 40 });
}

#[test]
fn margins_are_rounded_down() {
    let out = resolve_placement(Placement::Top, Placement::Left, margins(33, 1), (199, 101));
    assert_eq!(out.margins.top, 33);
    assert_eq!(out.margins.left, 1);
}

#[test]
fn margins_of_the_largest_monitor_do_not_overflow() {
    let out = resolve_placement(
        Placement::Bottom,
        Placement::Right,
        margins(100, 99),
        (u32::MAX, u32::MAX),
    );
    assert_eq!(out.margins.bottom, u32::MAX);
    assert_eq!(out.margins.right, 4252017622);
}

#[test]
fn no_margin_in_percent_is_no_margin_in_pixels() {
    let out = resolve_placement(Placement::Top, Placement::Right, margins(0, 0), (1920, 1080));
    assert_eq!(out.anchor, 9);
    assert_eq!(out.margins, Margins { top: 0, right: 0, bottom: 0, left: 0 });
}
