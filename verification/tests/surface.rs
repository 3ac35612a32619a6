use gwstuff::compositor::{get_canvas, Style};
use gwstuff::layout::{Glyph, PositionedLine};
use gwstuff::parser::{Config, FontProps, MarginProps, Placement, TextAlignment, WindowProps};
use gwstuff::placement::{Anchoring, Margins};
use gwstuff::surface::{coalesce, LayerRequest, Outcome, RenderEvent, Surface, SurfaceState};

fn config() -> Config {
    Config {
        window: WindowProps {
            width: 600,
            height: 600,
            background_color: 0x262626,
            background_opacity: 80,
            horizontal_padding: 1,
            vertical_padding: 1,
            duration: 2000,
            win_position_str: "Top, Left".to_string(),
            win_position: (Placement::Top, Placement::Left),
        },
        margins: MarginProps { vertical_percentage: 5, horizontal_percentage: 5 },
        font: FontProps {
            name: "Roboto Condensed".to_string(),
            size: 96,
            color: 0x808080,
            intra_line: 1,
            text_alignment: TextAlignment::Left,
        },
    }
}

fn lines() -> Vec<PositionedLine> {
    let pair = Glyph::new(0, 128, 0, 0, 2, 1, vec![255, 200]).unwrap();
    let square = Glyph::new(0, 128, 0, 0, 2, 2, vec![255, 0, 26, 25]).unwrap();
    vec![PositionedLine::new(vec![pair]), PositionedLine::new(vec![square])]
}

fn surface() -> Surface {
    Surface::new(&config(), lines(), (1920, 1080)).unwrap().0
}

fn configured(width: u32, height: u32) -> Surface {
    let mut s = surface();
    s.post(configure(width, height));
    s.handle_events();
    s
}

fn configure(width: u32, height: u32) -> RenderEvent {
    RenderEvent::Configure { width, height }
}

#[test]
fn a_new_surface_waits_with_an_empty_canvas() {
    let (s, request) = Surface::new(&config(), lines(), (1920, 1080)).unwrap();
    assert_eq!(s.state(), SurfaceState::AwaitingConfigure);
    assert_eq!(s.next_render_event(), None);
    assert_eq!(s.canvas(), &Vec::<u32>::new());
    assert_eq!(s.lines(), &lines());
    assert_eq!(s.style(), Style::new(&config()));
    assert_eq!(s.size(), (0, 0));
    assert_eq!(
        request,
        LayerRequest {
            width: 4,
            height: 7,
            anchoring: Anchoring {
                anchor: 5,
                margins: Margins { top: 54, right: 0, bottom: 0, left: 96 },
            },
        }
    );
}

#[test]
fn a_surface_centred_on_both_axes_asks_to_fill() {
    let mut c = config();
    c.window.win_position = (Placement::CenterVertical, Placement::CenterHorizontal);
    let (_, request) = Surface::new(&c, lines(), (1920, 1080)).unwrap();
    assert_eq!(request.anchoring.anchor, 15);
    assert_eq!(request.anchoring.margins, Margins { top: 0, right: 0, bottom: 0, left: 0 });
}

#[test]
fn no_surface_for_a_window_too_large() {
    let mut c = config();
    c.window.horizontal_padding = u32::MAX;
    assert!(Surface::new(&c, lines(), (1920, 1080)).is_none());
}

#[test]
fn closed_stays_in_the_slot() {
    assert_eq!(coalesce(Some(RenderEvent::Closed), configure(1, 2)), Some(RenderEvent::Closed));
    assert_eq!(coalesce(Some(RenderEvent::Closed), RenderEvent::Closed), Some(RenderEvent::Closed));
}

#[test]
fn the_last_configure_wins() {
    assert_eq!(coalesce(None, configure(1, 2)), Some(configure(1, 2)));
    assert_eq!(coalesce(Some(configure(1, 2)), configure(3, 4)), Some(configure(3, 4)));
    assert_eq!(coalesce(Some(configure(1, 2)), RenderEvent::Closed), Some(RenderEvent::Closed));
    assert_eq!(coalesce(None, RenderEvent::Closed), Some(RenderEvent::Closed));
}

#[test]
fn nothing_waits_nothing_happens() {
    let mut s = surface();
    assert_eq!(s.handle_events(), Outcome::Idle);
    assert_eq!(s, surface());
}

#[test]
fn the_first_configure_draws() {
    let mut s = surface();
    s.post(configure(4, 7));
    assert_eq!(s.next_render_event(), Some(configure(4, 7)));
    assert_eq!(s.handle_events(), Outcome::Redrawn);
    assert_eq!(s.state(), SurfaceState::Configured { width: 4, height: 7 });
    assert_eq!(s.size(), (4, 7));
    assert_eq!(s.next_render_event(), None);
    assert_eq!(s.canvas(), &get_canvas(&Style::new(&config()), &lines(), (4, 7)));
    assert_eq!(s.canvas()[5], 0xff80_8080);
    assert_eq!(s.lines(), &lines());
}

#[test]
fn a_configure_of_the_current_size_changes_nothing() {
    let mut s = configured(4, 7);
    s.post(configure(4, 7));
    assert_eq!(s.handle_events(), Outcome::Idle);
    assert_eq!(s, configured(4, 7));
}

#[test]
fn a_configure_of_no_size_leaves_a_new_surface_waiting() {
    let mut s = surface();
    s.post(configure(0, 0));
    assert_eq!(s.handle_events(), Outcome::Idle);
    assert_eq!(s, surface());
}

#[test]
fn a_configure_of_another_size_draws_anew() {
    let mut s = surface();
    s.post(configure(4, 7));
    s.handle_events();
    s.post(configure(2, 2));
    assert_eq!(s.handle_events(), Outcome::Redrawn);
    assert_eq!(s.size(), (2, 2));
    assert_eq!(s.canvas(), &vec![0xcc26_2626, 0xcc26_2626, 0xcc26_2626, 0xff80_8080]);
    assert_eq!(s, configured(2, 2));
    s.post(configure(2, 3));
    assert_eq!(s.handle_events(), Outcome::Redrawn);
    assert_eq!(s.canvas().len(), 6);
}

#[test]
fn configures_do_not_queue() {
    let mut s = surface();
    s.post(configure(9, 9));
    s.post(configure(4, 7));
    s.post(configure(1, 3));
    assert_eq!(s.handle_events(), Outcome::Redrawn);
    assert_eq!(s.size(), (1, 3));
    assert_eq!(s.handle_events(), Outcome::Idle);
    assert_eq!(s.size(), (1, 3));
}

#[test]
fn closed_is_not_overwritten() {
    let mut s = surface();
    s.post(configure(4, 7));
    s.post(RenderEvent::Closed);
    s.post(configure(2, 2));
    s.post(configure(3, 3));
    assert_eq!(s.next_render_event(), Some(RenderEvent::Closed));
    assert_eq!(s.handle_events(), Outcome::Closed);
    assert_eq!(s.state(), SurfaceState::Closed);
    assert_eq!(s.canvas(), &Vec::<u32>::new());
}

#[test]
fn closing_releases_the_canvas() {
    let mut s = surface();
    s.post(configure(4, 7));
    s.handle_events();
    assert_eq!(s.canvas().len(), 28);
    s.post(RenderEvent::Closed);
    assert_eq!(s.handle_events(), Outcome::Closed);
    assert_eq!(s.canvas().len(), 0);
    assert_eq!(s.size(), (0, 0));
}

#[test]
fn a_closed_surface_stays_closed() {
    let mut s = surface();
    s.post(RenderEvent::Closed);
    s.handle_events();
    assert_eq!(s.handle_events(), Outcome::Closed);
    s.post(configure(4, 7));
    assert_eq!(s.handle_events(), Outcome::Closed);
    assert_eq!(s.state(), SurfaceState::Closed);
    assert_eq!(s.canvas(), &Vec::<u32>::new());
    assert_eq!(s.next_render_event(), None);
}

#[test]
fn a_frame_holds_the_canvas_as_bytes() {
    let mut s = surface();
    s.post(configure(2, 2));
    s.handle_events();
    let frame = s.draw().unwrap();
    assert_eq!(frame.width, 2);
    assert_eq!(frame.height, 2);
    assert_eq!(frame.stride, 8);
    assert_eq!(frame.bytes.len(), 16);
    let mut pixels = Vec::new();
    for four in frame.bytes.chunks_exact(4) {
        pixels.push(u32::from_ne_bytes([four[0], four[1], four[2], four[3]]));
    }
    assert_eq!(&pixels, s.canvas());
}

#[test]
fn a_frame_of_a_new_surface_is_empty() {
    let frame = surface().draw().unwrap();
    assert_eq!(frame.width, 0);
    assert_eq!(frame.height, 0);
    assert_eq!(frame.stride, 0);
    assert_eq!(frame.bytes, Vec::<u8>::new());
}

#[test]
fn no_frame_for_a_row_longer_than_a_signed_stride() {
    let mut s = surface();
    s.post(configure(0x2000_0000, 0));
    assert_eq!(s.handle_events(), Outcome::Redrawn);
    assert_eq!(s.draw(), None);
    s.post(configure(0, 0x8000_0000));
    assert_eq!(s.handle_events(), Outcome::Redrawn);
    assert_eq!(s.draw(), None);
    s.post(configure(0x1fff_ffff, 0));
    assert_eq!(s.handle_events(), Outcome::Redrawn);
    let frame = s.draw().unwrap();
    assert_eq!(frame.stride, 0x7fff_fffc);
    s.post(configure(0, 0x7fff_ffff));
    assert_eq!(s.handle_events(), Outcome::Redrawn);
    assert_eq!(s.draw().unwrap().height, i32::MAX);
}

#[test]
fn an_event_is_taken_unless_closed_waits() {
    let mut s = surface();
    assert!(s.takes(configure(1, 2)));
    assert!(s.takes(RenderEvent::Closed));
    s.post(configure(1, 2));
    assert!(s.takes(configure(3, 4)));
    assert!(s.takes(RenderEvent::Closed));
    s.post(RenderEvent::Closed);
    assert!(!s.takes(configure(3, 4)));
    assert!(s.takes(RenderEvent::Closed));
    assert_eq!(s.next_render_event(), Some(RenderEvent::Closed));
    s.handle_events();
    assert!(s.takes(configure(3, 4)));
}

#[test]
fn text_in_the_colour_of_the_background_does_not_show() {
    let mut c = config();
    c.window.background_opacity = 100;
    c.font.color = c.window.background_color;
    let mut s = Surface::new(&c, lines(), (1920, 1080)).unwrap().0;
    s.post(configure(4, 7));
    assert_eq!(s.handle_events(), Outcome::Redrawn);
    assert_eq!(s.canvas(), &vec![0xff26_2626; 28]);
}
