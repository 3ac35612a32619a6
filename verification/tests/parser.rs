use gwstuff::parser::{
    config_name, config_path, is_whitespace, parse_position, user_config_path, Config, FontProps,
    MarginProps,
    Placement, TextAlignment, WindowProps,
};

fn window(position: &str) -> WindowProps {
    WindowProps {
        width: 600,
        height: 600,
        background_color: 0x262626,
        background_opacity: 80,
        horizontal_padding: 10,
        vertical_padding: 5,
        duration: 2000,
        win_position_str: position.to_string(),
        win_position: (Placement::Bottom, Placement::Right),
    }
}

fn config(position: &str) -> Config {
    Config {
        window: window(position),
        margins: MarginProps { vertical_percentage: 5, horizontal_percentage: 5 },
        font: FontProps {
            name: "Roboto Condensed".to_string(),
            size: 960,
            color: 0x808080,
            intra_line: 1,
            text_alignment: TextAlignment::Left,
        },
    }
}

#[test]
fn top_left_is_read_as_vertical_then_horizontal() {
    assert_eq!(parse_position("Top, Left"), (Placement::Top, Placement::Left));
    assert_eq!(parse_position("Left, Top"), (Placement::Top, Placement::Left));
}

#[test]
fn every_name_is_known() {
    assert_eq!(parse_position("Bottom,Right"), (Placement::Bottom, Placement::Right));
    assert_eq!(
        parse_position("CenterVertical,CenterHorizontal"),
        (Placement::CenterVertical, Placement::CenterHorizontal)
    );
    assert_eq!(parse_position("Top,Right"), (Placement::Top, Placement::Right));
    assert_eq!(parse_position("Bottom,Left"), (Placement::Bottom, Placement::Left));
}

#[test]
fn an_empty_text_is_centred() {
    assert_eq!(parse_position(""), (Placement::CenterVertical, Placement::CenterHorizontal));
    assert_eq!(parse_position("   "), (Placement::CenterVertical, Placement::CenterHorizontal));
    assert_eq!(parse_position(",,"), (Placement::CenterVertical, Placement::CenterHorizontal));
}

#[test]
fn one_axis_alone_leaves_the_other_centred() {
    assert_eq!(parse_position("Top"), (Placement::Top, Placement::CenterHorizontal));
    assert_eq!(parse_position("Right"), (Placement::CenterVertical, Placement::Right));
}

#[test]
fn unknown_names_are_passed_over() {
    assert_eq!(parse_position("Middle, Left"), (Placement::CenterVertical, Placement::Left));
    assert_eq!(parse_position("top, left"), (Placement::CenterVertical, Placement::CenterHorizontal));
    assert_eq!(parse_position("Top;Left"), (Placement::CenterVertical, Placement::CenterHorizontal));
    assert_eq!(parse_position("Topp,Lef"), (Placement::CenterVertical, Placement::CenterHorizontal));
}

#[test]
fn the_last_name_of_an_axis_stands() {
    assert_eq!(parse_position("Top,Bottom"), (Placement::Bottom, Placement::CenterHorizontal));
    assert_eq!(parse_position("Left,Top,Right"), (Placement::Top, Placement::Right));
    assert_eq!(
        parse_position("Top,Left,CenterVertical"),
        (Placement::CenterVertical, Placement::Left)
    );
}

#[test]
fn white_space_is_dropped_wherever_it_stands() {
    assert_eq!(parse_position(" T o p ,\tLe ft\n"), (Placement::Top, Placement::Left));
    assert_eq!(parse_position("Top\u{a0},\u{3000}Left"), (Placement::Top, Placement::Left));
    assert_eq!(parse_position("Bot\u{2003}tom"), (Placement::Bottom, Placement::CenterHorizontal));
}

#[test]
fn white_space_is_what_the_standard_library_calls_so() {
    let mut c = 0u32;
    while c < 0x11_0000 {
        if let Some(ch) = char::from_u32(c) {
            assert_eq!(is_whitespace(ch), ch.is_whitespace());
        }
        c += 1;
    }
}

#[test]
fn calc_win_position_sets_the_placement_alone() {
    let mut w = window("Top, Left");
    w.calc_win_position();
    assert_eq!(w.win_position, (Placement::Top, Placement::Left));
    assert_eq!(w.win_position_str, "Top, Left");
    assert_eq!(w.width, 600);
    assert_eq!(w.height, 600);
    assert_eq!(w.background_color, 0x262626);
    assert_eq!(w.background_opacity, 80);
    assert_eq!(w.horizontal_padding, 10);
    assert_eq!(w.vertical_padding, 5);
    assert_eq!(w.duration, 2000);
}

#[test]
fn calc_win_position_falls_back_to_the_centre() {
    let mut w = window("nowhere");
    w.calc_win_position();
    assert_eq!(w.win_position, (Placement::CenterVertical, Placement::CenterHorizontal));
}

#[test]
fn init_reads_the_placement_and_keeps_the_rest() {
    let ready = Config::init(config("Bottom, Right"));
    assert_eq!(ready.window.win_position, (Placement::Bottom, Placement::Right));
    let mut expected = config("Bottom, Right");
    expected.window.win_position = (Placement::Bottom, Placement::Right);
    assert_eq!(ready, expected);

    let ready = Config::init(config("Top"));
    assert_eq!(ready.window.win_position, (Placement::Top, Placement::CenterHorizontal));
}

#[test]
fn percentages_above_a_hundred_are_not_valid() {
    assert!(config("Top").is_valid());
    let mut c = config("Top");
    c.window.background_opacity = 100;
    c.margins = MarginProps { vertical_percentage: 100, horizontal_percentage: 100 };
    assert!(c.is_valid());
    c.window.background_opacity = 101;
    assert!(!c.is_valid());
    c.window.background_opacity = 0;
    c.margins.vertical_percentage = 101;
    assert!(!c.is_valid());
    c.margins.vertical_percentage = 0;
    c.margins.horizontal_percentage = 255;
    assert!(!c.is_valid());
}

#[test]
fn a_cloned_window_is_the_same_window() {
    let w = window("Top, Left");
    assert_eq!(w.clone(), w);
}

#[test]
fn the_configuration_lies_under_the_users_home() {
    assert_eq!(config_path("alice", "main"), "/home/alice/.config/gwstuff/main.toml");
    assert_eq!(config_path("", ""), "/home//.config/gwstuff/.toml");
}

#[test]
fn the_running_users_configuration() {
    let path = user_config_path("night");
    assert!(path.starts_with("/home/"));
    assert!(path.ends_with("/.config/gwstuff/night.toml"));
    let user = &path["/home/".len()..path.len() - "/.config/gwstuff/night.toml".len()];
    assert_eq!(path, config_path(user, "night"));
}

#[test]
fn two_hyphens_name_a_configuration() {
    assert_eq!(config_name("--night"), Some("night".to_string()));
    assert_eq!(config_name("--"), Some(String::new()));
    assert_eq!(config_name("---x"), Some("-x".to_string()));
    assert_eq!(config_name("--\u{e9}t\u{e9}"), Some("\u{e9}t\u{e9}".to_string()));
}

#[test]
fn anything_else_is_text() {
    assert_eq!(config_name("night"), None);
    assert_eq!(config_name("-n"), None);
    assert_eq!(config_name("-"), None);
    assert_eq!(config_name(""), None);
    assert_eq!(config_name("a--b"), None);
    assert_eq!(config_name("\u{e9}"), None);
    assert_eq!(config_name("a\u{e9}"), None);
}
