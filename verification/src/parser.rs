//! The overlay's configuration record and the placement of its window.

use vstd::prelude::*;
use vstd::string::StringExecFns;

verus! {

/// The screen edges a surface is pinned to.
pub struct Edges {
    pub top: bool,
    pub bottom: bool,
    pub left: bool,
    pub right: bool,
}

impl Edges {
    /// The edges of either operand.
    pub open spec fn union(self, other: Edges) -> Edges {
        Edges {
            top: self.top || other.top,
            bottom: self.bottom || other.bottom,
            left: self.left || other.left,
            right: self.right || other.right,
        }
    }

    /// All four edges: the surface fills its monitor.
    pub open spec fn all(self) -> bool {
        self.top && self.bottom && self.left && self.right
    }

    /// The anchor bit mask: top is 1, bottom 2, left 4, right 8.
    pub open spec fn mask(self) -> int {
        (if self.top { 1int } else { 0 }) + (if self.bottom { 2int } else { 0 })
            + (if self.left { 4int } else { 0 }) + (if self.right { 8int } else { 0 })
    }
}

/// Where the window sits along one axis of the screen.
#[derive(Debug, Clone, Copy, PartialEq, Eq, Structural)]
pub enum Placement {
    Top,
    Bottom,
    Left,
    Right,
    CenterVertical,
    CenterHorizontal,
}

impl Placement {
    /// The edges a placement pins the window to. A centred placement pins
    /// both edges of its axis.
    pub open spec fn edges(self) -> Edges {
        match self {
            Placement::Top => Edges { top: true, bottom: false, left: false, right: false },
            Placement::Bottom => Edges { top: false, bottom: true, left: false, right: false },
            Placement::Left => Edges { top: false, bottom: false, left: true, right: false },
            Placement::Right => Edges { top: false, bottom: false, left: false, right: true },
            Placement::CenterVertical => Edges {
                top: true,
                bottom: true,
                left: false,
                right: false,
            },
            Placement::CenterHorizontal => Edges {
                top: false,
                bottom: false,
                left: true,
                right: true,
            },
        }
    }

    /// Whether the placement is a choice for the vertical axis.
    pub open spec fn is_vertical(self) -> bool {
        self == Placement::Top || self == Placement::Bottom || self == Placement::CenterVertical
    }

    /// Whether the placement is a choice for the horizontal axis.
    pub open spec fn is_horizontal(self) -> bool {
        !self.is_vertical()
    }

    /// The placement's anchor bits.
    pub fn to_raw(self) -> (raw: u32)
        ensures
            raw == self.edges().mask(),
            0 < raw < 16,
    {
        match self {
            Placement::Top => 1,
            Placement::Bottom => 2,
            Placement::Left => 4,
            Placement::Right => 8,
            Placement::CenterVertical => 3,
            Placement::CenterHorizontal => 12,
        }
    }
}

/// How the lines are aligned inside the window.
#[derive(Debug, Clone, Copy, PartialEq, Eq, Structural)]
pub enum TextAlignment {
    Center,
    Left,
    Right,
}

/// The window: its colours, its padding and where it sits on the screen.
#[derive(Debug, PartialEq, Eq)]
pub struct WindowProps {
    pub width: u32,
    pub height: u32,
    /// The background colour, red, green and blue in the low three bytes.
    pub background_color: u32,
    /// The background's opacity in percent.
    pub background_opacity: u32,
    /// The space left and right of the text, in pixels.
    pub horizontal_padding: u32,
    /// The space above and below the text, in pixels.
    pub vertical_padding: u32,
    /// How long the overlay is shown, in milliseconds.
    pub duration: u32,
    /// The placement as written: names separated by commas.
    pub win_position_str: String,
    /// The vertical and the horizontal placement.
    pub win_position: (Placement, Placement),
}

/// Whether a character is white space: the characters that Unicode gives
/// the property `White_Space`.
pub open spec fn is_space(c: char) -> bool {
    let u = c as u32;
    (0x09 <= u <= 0x0d) || u == 0x20 || u == 0x85 || u == 0xa0 || u == 0x1680 || (0x2000 <= u
        <= 0x200a) || u == 0x2028 || u == 0x2029 || u == 0x202f || u == 0x205f || u == 0x3000
}

/// The text without its white space.
pub open spec fn without_spaces(text: Seq<char>) -> Seq<char>
    decreases text.len(),
{
    if text.len() == 0 {
        text
    } else if is_space(text.last()) {
        without_spaces(text.drop_last())
    } else {
        without_spaces(text.drop_last()).push(text.last())
    }
}

/// The pieces of a text between its commas, in order. A text without a
/// comma is one piece; a piece may be empty.
pub open spec fn tokens(text: Seq<char>) -> Seq<Seq<char>>
    decreases text.len(),
{
    if text.len() == 0 {
        seq![Seq::empty()]
    } else {
        let before = tokens(text.drop_last());
        if text.last() == ',' {
            before.push(Seq::empty())
        } else {
            before.drop_last().push(before.last().push(text.last()))
        }
    }
}

/// The pieces put together again, with a comma between each two.
pub open spec fn joined(pieces: Seq<Seq<char>>) -> Seq<char>
    decreases pieces.len(),
{
    if pieces.len() == 0 {
        Seq::empty()
    } else if pieces.len() == 1 {
        pieces[0]
    } else {
        joined(pieces.drop_last()) + seq![','] + pieces.last()
    }
}

/// The pieces of a text hold no comma, and put together with commas they
/// are the text.
pub proof fn lemma_tokens(text: Seq<char>)
    ensures
        tokens(text).len() >= 1,
        forall|i: int, j: int|
            0 <= i < tokens(text).len() && 0 <= j < tokens(text)[i].len() ==> #[trigger] tokens(
                text,
            )[i][j] != ',',
        joined(tokens(text)) == text,
    decreases text.len(),
{
    if text.len() == 0 {
        assert(joined(tokens(text)) =~= text);
    } else {
        let rest = text.drop_last();
        let before = tokens(rest);
        lemma_tokens(rest);
        if text.last() == ',' {
            let now = before.push(Seq::empty());
            assert(now.drop_last() =~= before);
            assert(joined(now) =~= rest + seq![','] + Seq::<char>::empty());
            assert(rest + seq![','] + Seq::<char>::empty() =~= text);
        } else {
            let last = before.last().push(text.last());
            let now = before.drop_last().push(last);
            assert(now.drop_last() =~= before.drop_last());
            if before.len() == 1 {
                assert(before[0] == rest);
                assert(joined(now) =~= text);
            } else {
                assert(joined(now) =~= joined(before.drop_last()) + seq![','] + last);
                assert(joined(before) =~= joined(before.drop_last()) + seq![','] + before.last());
                assert(joined(before.drop_last()) + seq![','] + last =~= (joined(
                    before.drop_last(),
                ) + seq![','] + before.last()).push(text.last()));
                assert(rest.push(text.last()) =~= text);
            }
        }
    }
}

/// The placement after one name was read. A name of a vertical placement
/// replaces the vertical one, a name of a horizontal placement the
/// horizontal one, and anything else changes nothing.
pub open spec fn applied(position: (Placement, Placement), name: Seq<char>) -> (
    Placement,
    Placement,
) {
    if name == "CenterHorizontal"@ {
        (position.0, Placement::CenterHorizontal)
    } else if name == "CenterVertical"@ {
        (Placement::CenterVertical, position.1)
    } else if name == "Left"@ {
        (position.0, Placement::Left)
    } else if name == "Right"@ {
        (position.0, Placement::Right)
    } else if name == "Top"@ {
        (Placement::Top, position.1)
    } else if name == "Bottom"@ {
        (Placement::Bottom, position.1)
    } else {
        position
    }
}

/// The placement after the names were read in order.
pub open spec fn applied_all(position: (Placement, Placement), names: Seq<Seq<char>>) -> (
    Placement,
    Placement,
)
    decreases names.len(),
{
    if names.len() == 0 {
        position
    } else {
        applied(applied_all(position, names.drop_last()), names.last())
    }
}

/// The placement that a text asks for: centred on both axes, unless the
/// text, read without its white space as names between commas, says
/// otherwise. Where it names a placement for an axis more than once, the
/// last one stands.
pub open spec fn parsed_position(text: Seq<char>) -> (Placement, Placement) {
    applied_all(
        (Placement::CenterVertical, Placement::CenterHorizontal),
        tokens(without_spaces(text)),
    )
}

/// Reading names keeps a vertical placement first and a horizontal one
/// second.
pub proof fn lemma_applied_all_axes(position: (Placement, Placement), names: Seq<Seq<char>>)
    requires
        position.0.is_vertical(),
        position.1.is_horizontal(),
    ensures
        applied_all(position, names).0.is_vertical(),
        applied_all(position, names).1.is_horizontal(),
    decreases names.len(),
{
    if names.len() > 0 {
        lemma_applied_all_axes(position, names.drop_last());
    }
}

/// The vertical placement that a name stands for, if it stands for one.
pub open spec fn vertical_of(name: Seq<char>) -> Option<Placement> {
    if name == "CenterVertical"@ {
        Some(Placement::CenterVertical)
    } else if name == "Top"@ {
        Some(Placement::Top)
    } else if name == "Bottom"@ {
        Some(Placement::Bottom)
    } else {
        None
    }
}

/// The horizontal placement that a name stands for, if it stands for one.
pub open spec fn horizontal_of(name: Seq<char>) -> Option<Placement> {
    if name == "CenterHorizontal"@ {
        Some(Placement::CenterHorizontal)
    } else if name == "Left"@ {
        Some(Placement::Left)
    } else if name == "Right"@ {
        Some(Placement::Right)
    } else {
        None
    }
}

/// A name stands for a placement on one axis at most, and reading it
/// replaces the placement on that axis alone.
pub proof fn lemma_applied(position: (Placement, Placement), name: Seq<char>)
    ensures
        !(vertical_of(name) is Some && horizontal_of(name) is Some),
        applied(position, name).0 == match vertical_of(name) {
            Some(v) => v,
            None => position.0,
        },
        applied(position, name).1 == match horizontal_of(name) {
            Some(h) => h,
            None => position.1,
        },
{
    reveal_strlit("CenterHorizontal");
    reveal_strlit("CenterVertical");
    reveal_strlit("Left");
    reveal_strlit("Right");
    reveal_strlit("Top");
    reveal_strlit("Bottom");
    assert("CenterHorizontal"@.len() == 16);
    assert("CenterVertical"@.len() == 14);
    assert("Left"@.len() == 4);
    assert("Right"@.len() == 5);
    assert("Top"@.len() == 3);
    assert("Bottom"@.len() == 6);
}

/// Where no name stands for a placement on an axis, the placement on that
/// axis is as it was.
pub proof fn lemma_no_name_keeps(position: (Placement, Placement), names: Seq<Seq<char>>)
    ensures
        (forall|j: int| 0 <= j < names.len() ==> vertical_of(#[trigger] names[j]) is None)
            ==> applied_all(position, names).0 == position.0,
        (forall|j: int| 0 <= j < names.len() ==> horizontal_of(#[trigger] names[j]) is None)
            ==> applied_all(position, names).1 == position.1,
    decreases names.len(),
{
    if names.len() > 0 {
        let rest = names.drop_last();
        lemma_applied(applied_all(position, rest), names.last());
        lemma_no_name_keeps(position, rest);
        assert(names[names.len() - 1] == names.last());
        assert forall|j: int| 0 <= j < rest.len() implies rest[j] == names[j] by {}
    }
}

/// On each axis the last name that stands for a placement on it decides.
pub proof fn lemma_last_name_stands(
    position: (Placement, Placement),
    names: Seq<Seq<char>>,
    i: int,
)
    requires
        0 <= i < names.len(),
    ensures
        vertical_of(names[i]) is Some && (forall|j: int|
            i < j < names.len() ==> vertical_of(#[trigger] names[j]) is None) ==> applied_all(
            position,
            names,
        ).0 == vertical_of(names[i])->0,
        horizontal_of(names[i]) is Some && (forall|j: int|
            i < j < names.len() ==> horizontal_of(#[trigger] names[j]) is None) ==> applied_all(
            position,
            names,
        ).1 == horizontal_of(names[i])->0,
    decreases names.len(),
{
    let rest = names.drop_last();
    lemma_applied(applied_all(position, rest), names.last());
    assert(names[names.len() - 1] == names.last());
    if i < rest.len() {
        assert(rest[i] == names[i]);
        assert forall|j: int| 0 <= j < rest.len() implies rest[j] == names[j] by {}
        lemma_last_name_stands(position, rest, i);
    }
}

/// Whether a character is white space.
pub fn is_whitespace(c: char) -> (space: bool)
    ensures
        space == is_space(c),
{
    let u = c as u32;
    (0x09 <= u && u <= 0x0d) || u == 0x20 || u == 0x85 || u == 0xa0 || u == 0x1680 || (0x2000 <= u
        && u <= 0x200a) || u == 0x2028 || u == 0x2029 || u == 0x202f || u == 0x205f || u == 0x3000
}

/// Whether the characters spell the name.
fn spells(token: &Vec<char>, name: &str) -> (same: bool)
    ensures
        same == (token@ == name@),
{
    let n = name.unicode_len();
    if token.len() != n {
        return false;
    }
    let mut i: usize = 0;
    while i < n
        invariant
            i <= n,
            n == name@.len(),
            n == token@.len(),
            forall|j: int| 0 <= j < i ==> token@[j] == name@[j],
        decreases n - i,
    {
        if token[i] != name.get_char(i) {
            return false;
        }
        i += 1;
    }
    assert(token@ =~= name@);
    true
}

/// The placement after one name was read.
fn apply_token(position: (Placement, Placement), token: &Vec<char>) -> (out: (Placement, Placement))
    ensures
        out == applied(position, token@),
{
    if spells(token, "CenterHorizontal") {
        (position.0, Placement::CenterHorizontal)
    } else if spells(token, "CenterVertical") {
        (Placement::CenterVertical, position.1)
    } else if spells(token, "Left") {
        (position.0, Placement::Left)
    } else if spells(token, "Right") {
        (position.0, Placement::Right)
    } else if spells(token, "Top") {
        (Placement::Top, position.1)
    } else if spells(token, "Bottom") {
        (Placement::Bottom, position.1)
    } else {
        position
    }
}

/// The placement that a text asks for.
pub fn parse_position(text: &str) -> (position: (Placement, Placement))
    ensures
        position == parsed_position(text@),
        position.0.is_vertical(),
        position.1.is_horizontal(),
{
    let mut position = (Placement::CenterVertical, Placement::CenterHorizontal);
    let mut token: Vec<char> = Vec::new();
    for c in it: text.chars()
        invariant
            it.seq() == text@,
            token@ == tokens(without_spaces(text@.take(it.index()))).last(),
            position == applied_all(
                (Placement::CenterVertical, Placement::CenterHorizontal),
                tokens(without_spaces(text@.take(it.index()))).drop_last(),
            ),
    {
        proof {
            let before = text@.take(it.index());
            let now = text@.take(it.index() + 1);
            assert(now.drop_last() == before);
            assert(now.last() == c);
            lemma_tokens(without_spaces(before));
            if !is_space(c) {
                assert(without_spaces(now).drop_last() == without_spaces(before));
                let pieces = tokens(without_spaces(before));
                if c == ',' {
                    assert(pieces.push(Seq::empty()).drop_last() == pieces);
                    assert(pieces.drop_last().push(pieces.last()) == pieces);
                } else {
                    assert(pieces.drop_last().push(pieces.last().push(c)).drop_last()
                        == pieces.drop_last());
                }
            }
        }
        if is_whitespace(c) {
        } else if c == ',' {
            position = apply_token(position, &token);
            token = Vec::new();
        } else {
            token.push(c);
        }
    }
    proof {
        assert(text@.take(text@.len() as int) == text@);
        let pieces = tokens(without_spaces(text@));
        lemma_tokens(without_spaces(text@));
        assert(pieces.drop_last().push(pieces.last()) == pieces);
        lemma_applied_all_axes((Placement::CenterVertical, Placement::CenterHorizontal), pieces);
    }
    apply_token(position, &token)
}

impl WindowProps {
    /// Sets the placement to what the placement's text asks for.
    pub fn calc_win_position(&mut self)
        ensures
            *final(self) == (WindowProps {
                win_position: parsed_position(old(self).win_position_str@),
                ..*old(self)
            }),
            final(self).win_position.0.is_vertical(),
            final(self).win_position.1.is_horizontal(),
    {
        self.win_position = parse_position(self.win_position_str.as_str());
    }
}

impl Clone for WindowProps {
    fn clone(&self) -> (res: Self)
        ensures
            res == *self,
    {
        WindowProps {
            width: self.width,
            height: self.height,
            background_color: self.background_color,
            background_opacity: self.background_opacity,
            horizontal_padding: self.horizontal_padding,
            vertical_padding: self.vertical_padding,
            duration: self.duration,
            win_position_str: self.win_position_str.clone(),
            win_position: (self.win_position.0, self.win_position.1),
        }
    }
}

/// The distance from the screen's edges, in percent of the monitor's size.
#[derive(Debug, Clone, Copy, PartialEq, Eq, Structural)]
pub struct MarginProps {
    pub vertical_percentage: u8,
    pub horizontal_percentage: u8,
}

impl MarginProps {
    /// Both percentages are at most 100.
    pub open spec fn valid(&self) -> bool {
        self.vertical_percentage <= 100 && self.horizontal_percentage <= 100
    }
}

/// The font and how the text is set in it.
#[derive(Debug, Clone, PartialEq, Eq)]
pub struct FontProps {
    pub name: String,
    /// The size in 1/64 point.
    pub size: u32,
    /// The text colour, red, green and blue in the low three bytes.
    pub color: u32,
    /// The space between two lines, in pixels.
    pub intra_line: u32,
    pub text_alignment: TextAlignment,
}

/// The whole configuration of an overlay.
#[derive(Debug, Clone, PartialEq, Eq)]
pub struct Config {
    pub window: WindowProps,
    pub margins: MarginProps,
    pub font: FontProps,
}

/// The name of the configuration that an argument asks for: what follows
/// two hyphens at its start. An argument that does not start so is text.
pub fn config_name(argument: &str) -> (name: Option<String>)
    ensures
        name is Some <==> argument@.len() >= 2 && argument@[0] == '-' && argument@[1] == '-',
        name matches Some(n) ==> n@ == argument@.skip(2),
{
    let n = argument.unicode_len();
    if n >= 2 && argument.get_char(0) == '-' && argument.get_char(1) == '-' {
        let rest = argument.substring_char(2, n);
        proof {
            assert(argument@.subrange(2, n as int) == argument@.skip(2));
        }
        Some(String::from_str(rest))
    } else {
        None
    }
}

/// The file that holds a user's configuration of the given name.
pub open spec fn config_path_of(user: Seq<char>, name: Seq<char>) -> Seq<char> {
    "/home/"@ + user + "/.config/gwstuff/"@ + name + ".toml"@
}

/// The file that holds a user's configuration of the given name.
pub fn config_path(user: &str, name: &str) -> (path: String)
    ensures
        path@ == config_path_of(user@, name@),
{
    let mut path = String::from_str("/home/");
    path.append(user);
    path.append("/.config/gwstuff/");
    path.append(name);
    path.append(".toml");
    path
}

/// `whoami::username`: the name of the user that runs the program, as the
/// system gives it. Nothing is said of the name.
#[verifier::external_body]
fn current_user() -> (user: String) {
    whoami::username()
}

/// The file that holds the configuration of the given name of the user
/// that runs the program.
pub fn user_config_path(name: &str) -> (path: String)
    ensures
        exists|user: Seq<char>| path@ == config_path_of(user, name@),
{
    let user = current_user();
    config_path(user.as_str(), name)
}

impl Config {
    /// The opacity and the margins are percentages: none is above 100.
    pub open spec fn valid(&self) -> bool {
        self.window.background_opacity <= 100 && self.margins.valid()
    }

    /// Whether the opacity and the margins are at most 100 percent.
    pub fn is_valid(&self) -> (ok: bool)
        ensures
            ok == self.valid(),
    {
        self.window.background_opacity <= 100 && self.margins.vertical_percentage <= 100
            && self.margins.horizontal_percentage <= 100
    }

    /// The configuration as it was read, made ready for use: the window's
    /// placement is what the placement's text asks for, and nothing else is
    /// changed.
    pub fn init(config: Config) -> (ready: Config)
        ensures
            ready == (Config {
                window: WindowProps {
                    win_position: parsed_position(config.window.win_position_str@),
                    ..config.window
                },
                ..config
            }),
            ready.window.win_position.0.is_vertical(),
            ready.window.win_position.1.is_horizontal(),
    {
        let mut ready = config;
        ready.window.calc_win_position();
        ready
    }
}

} // verus!
