//! One monitor's surface: the events its compositor sends, the single slot
//! in which the next one waits, and what the surface does when it takes the
//! event out.

use crate::compositor::{
    blank_canvas, composed, get_canvas, get_dimensions, lemma_painted_lines_len, natural_size,
    size_fits, Style,
};
use crate::layout::{lines_wf, PositionedLine};
use crate::parser::Config;
use crate::pixel::{holds_pixels, pixel_bytes};
use crate::placement::{anchoring, resolve_placement, Anchoring};
use vstd::prelude::*;

verus! {

/// What the compositor tells a surface.
#[derive(Debug, Clone, Copy, PartialEq, Eq, Structural)]
pub enum RenderEvent {
    /// The surface has been given this size.
    Configure { width: u32, height: u32 },
    /// The surface has been closed.
    Closed,
}

/// The slot after an event arrived. A waiting `Closed` stays; anything else
/// gives way to the event that arrived.
pub open spec fn coalesced(pending: Option<RenderEvent>, event: RenderEvent) -> Option<
    RenderEvent,
> {
    if pending == Some(RenderEvent::Closed) {
        pending
    } else {
        Some(event)
    }
}

/// The slot after the events arrived one after the other.
pub open spec fn coalesced_all(pending: Option<RenderEvent>, events: Seq<RenderEvent>) -> Option<
    RenderEvent,
>
    decreases events.len(),
{
    if events.len() == 0 {
        pending
    } else {
        coalesced(coalesced_all(pending, events.drop_last()), events.last())
    }
}

/// The slot after an event arrived.
pub fn coalesce(pending: Option<RenderEvent>, event: RenderEvent) -> (slot: Option<RenderEvent>)
    ensures
        slot == coalesced(pending, event),
        slot is Some,
        pending == Some(RenderEvent::Closed) ==> slot == Some(RenderEvent::Closed),
        event == RenderEvent::Closed ==> slot == Some(RenderEvent::Closed),
{
    match pending {
        Some(RenderEvent::Closed) => pending,
        _ => Some(event),
    }
}

/// Once `Closed` waits in the slot, or arrives, it is what waits after any
/// further events; without a `Closed` the last event that arrived waits.
pub proof fn lemma_coalesced_all(pending: Option<RenderEvent>, events: Seq<RenderEvent>)
    ensures
        pending == Some(RenderEvent::Closed) ==> coalesced_all(pending, events) == Some(
            RenderEvent::Closed,
        ),
        events.contains(RenderEvent::Closed) ==> coalesced_all(pending, events) == Some(
            RenderEvent::Closed,
        ),
        pending != Some(RenderEvent::Closed) && !events.contains(RenderEvent::Closed)
            && events.len() > 0 ==> coalesced_all(pending, events) == Some(events.last()),
    decreases events.len(),
{
    if events.len() > 0 {
        let rest = events.drop_last();
        lemma_coalesced_all(pending, rest);
        if events.contains(RenderEvent::Closed) {
            let i = choose|i: int| 0 <= i < events.len() && events[i] == RenderEvent::Closed;
            if i < rest.len() {
                assert(rest[i] == RenderEvent::Closed);
                assert(rest.contains(RenderEvent::Closed));
            }
        } else {
            if rest.contains(RenderEvent::Closed) {
                let i = choose|i: int| 0 <= i < rest.len() && rest[i] == RenderEvent::Closed;
                assert(events[i] == RenderEvent::Closed);
            }
        }
    }
}

/// Where a surface stands in its life.
#[derive(Debug, Clone, Copy, PartialEq, Eq, Structural)]
pub enum SurfaceState {
    /// Created; the compositor has not given it a size yet.
    AwaitingConfigure,
    /// Drawn at the size the compositor gave it last.
    Configured { width: u32, height: u32 },
    /// Closed for good.
    Closed,
}

impl SurfaceState {
    /// The size of a surface in this state: what the compositor gave last,
    /// and nothing before the first time and after the surface is closed.
    pub open spec fn extent(self) -> (u32, u32) {
        match self {
            SurfaceState::Configured { width, height } => (width, height),
            _ => (0, 0),
        }
    }
}

/// What taking the waiting event out has done.
#[derive(Debug, Clone, Copy, PartialEq, Eq, Structural)]
pub enum Outcome {
    /// Nothing to do.
    Idle,
    /// The canvas was drawn anew and is to be shown.
    Redrawn,
    /// The surface is closed and is to be destroyed.
    Closed,
}

/// What a new surface asks of its compositor: a size, and where to be
/// pinned.
#[derive(Debug, Clone, Copy, PartialEq, Eq, Structural)]
pub struct LayerRequest {
    pub width: u32,
    pub height: u32,
    pub anchoring: Anchoring,
}

/// A canvas made ready for a buffer of the compositor's: the buffer's
/// geometry, and the pixels as bytes.
#[derive(Debug, Clone, PartialEq, Eq)]
pub struct Frame {
    pub width: i32,
    pub height: i32,
    /// The bytes of one row.
    pub stride: i32,
    pub bytes: Vec<u8>,
}

/// What a surface is at one moment.
pub struct SurfaceView {
    pub state: SurfaceState,
    /// The event that waits to be handled, if any.
    pub next_render_event: Option<RenderEvent>,
    /// The pixels, row by row.
    pub canvas: Seq<u32>,
    /// The text, laid out once when the surface was made.
    pub lines: Seq<PositionedLine>,
    pub style: Style,
}

impl SurfaceView {
    /// A surface as it is made: it waits for its first `Configure`, and its
    /// canvas is empty.
    pub open spec fn fresh(config: Config, lines: Seq<PositionedLine>) -> SurfaceView {
        SurfaceView {
            state: SurfaceState::AwaitingConfigure,
            next_render_event: None,
            canvas: Seq::empty(),
            lines,
            style: Style::of(config),
        }
    }

    /// The current size.
    pub open spec fn dimensions(self) -> (u32, u32) {
        self.state.extent()
    }

    /// The lines are well formed, and the canvas is the text drawn at the
    /// current size.
    pub open spec fn wf(self) -> bool {
        &&& lines_wf(self.lines)
        &&& self.canvas == composed(
            self.style,
            self.lines,
            self.dimensions().0 as int,
            self.dimensions().1 as int,
        )
    }

    /// Whether handling the waiting event draws the canvas anew: the surface
    /// is not closed, and a `Configure` waits whose size is not the current
    /// one.
    pub open spec fn redraws(self) -> bool {
        &&& self.state != SurfaceState::Closed
        &&& self.next_render_event matches Some(RenderEvent::Configure { width, height })
        &&& (width, height) != self.dimensions()
    }

    /// Whether handling the waiting event ends with the surface closed: it
    /// is closed already, or `Closed` waits.
    pub open spec fn closes(self) -> bool {
        self.state == SurfaceState::Closed || self.next_render_event == Some(RenderEvent::Closed)
    }

    /// The state after the waiting event is handled.
    pub open spec fn next_state(self) -> SurfaceState {
        if self.closes() {
            SurfaceState::Closed
        } else if self.redraws() {
            match self.next_render_event {
                Some(RenderEvent::Configure { width, height }) => SurfaceState::Configured {
                    width,
                    height,
                },
                _ => self.state,
            }
        } else {
            self.state
        }
    }

    /// What handling the waiting event does.
    pub open spec fn outcome(self) -> Outcome {
        if self.closes() {
            Outcome::Closed
        } else if self.redraws() {
            Outcome::Redrawn
        } else {
            Outcome::Idle
        }
    }

    /// The surface after an event arrived: the slot holds what it holds
    /// after the event, and nothing else has changed.
    pub open spec fn posted(self, event: RenderEvent) -> SurfaceView {
        SurfaceView { next_render_event: coalesced(self.next_render_event, event), ..self }
    }

    /// The surface after the events arrived one after the other.
    pub open spec fn posted_all(self, events: Seq<RenderEvent>) -> SurfaceView {
        SurfaceView { next_render_event: coalesced_all(self.next_render_event, events), ..self }
    }

    /// The surface after the waiting event was handled: it is in the state
    /// that follows, its slot is empty, and its canvas is the text drawn at
    /// the size of that state.
    pub open spec fn handled(self) -> SurfaceView {
        SurfaceView {
            state: self.next_state(),
            next_render_event: None,
            canvas: composed(
                self.style,
                self.lines,
                self.next_state().extent().0 as int,
                self.next_state().extent().1 as int,
            ),
            lines: self.lines,
            style: self.style,
        }
    }
}

/// The canvas of a well-formed surface has one pixel for each place of the
/// current size.
pub proof fn lemma_canvas_len(surface: SurfaceView)
    requires
        surface.wf(),
    ensures
        surface.canvas.len() == surface.dimensions().0 * surface.dimensions().1,
{
    let (w, h) = surface.dimensions();
    lemma_painted_lines_len(
        blank_canvas(surface.style, w as int, h as int),
        w as int,
        surface.lines,
        surface.style,
    );
}

/// Arriving events and handling them keep a surface well formed. A surface
/// without a size, as a new and a closed one are, has an empty canvas.
pub proof fn lemma_wf_kept(surface: SurfaceView, event: RenderEvent)
    requires
        surface.wf(),
    ensures
        surface.posted(event).wf(),
        surface.handled().wf(),
        surface.dimensions() == (0u32, 0u32) ==> surface.canvas.len() == 0,
{
    lemma_canvas_len(surface);
}

/// Handling a `Configure` of the current size changes neither the state nor
/// the canvas, and draws nothing.
pub proof fn lemma_same_size_is_idle(surface: SurfaceView, width: u32, height: u32)
    requires
        surface.wf(),
        surface.next_render_event == Some(RenderEvent::Configure { width, height }),
        surface.dimensions() == (width, height),
    ensures
        surface.handled().canvas == surface.canvas,
        surface.handled().state == surface.state,
        surface.outcome() != Outcome::Redrawn,
        surface.state != SurfaceState::Closed ==> surface.outcome() == Outcome::Idle,
{
}

/// Whatever arrives after a `Closed` and before the slot is emptied, the
/// surface then closes.
pub proof fn lemma_closed_is_absorbing(surface: SurfaceView, events: Seq<RenderEvent>)
    requires
        surface.next_render_event == Some(RenderEvent::Closed),
    ensures
        surface.posted_all(events).next_render_event == Some(RenderEvent::Closed),
        surface.posted_all(events).outcome() == Outcome::Closed,
        surface.posted_all(events).handled().state == SurfaceState::Closed,
{
    lemma_coalesced_all(surface.next_render_event, events);
}

/// The state of a surface and the canvas drawn for it.
#[derive(Debug, PartialEq, Eq)]
struct Drawing {
    state: SurfaceState,
    canvas: Vec<u32>,
}

/// The surface on one monitor.
#[derive(Debug, PartialEq, Eq)]
pub struct Surface {
    drawing: Drawing,
    next_render_event: Option<RenderEvent>,
    lines: Vec<PositionedLine>,
    style: Style,
}

impl View for Surface {
    type V = SurfaceView;

    closed spec fn view(&self) -> SurfaceView {
        SurfaceView {
            state: self.drawing.state,
            next_render_event: self.next_render_event,
            canvas: self.drawing.canvas@,
            lines: self.lines@,
            style: self.style,
        }
    }
}

impl Surface {
    #[verifier::type_invariant]
    pub(crate) open spec fn inv(&self) -> bool {
        self@.wf()
    }

    /// A surface for the lines on a monitor of the given size, and what it
    /// asks of the compositor: the window's size by the configuration, and
    /// the anchoring of the configured placement. The surface waits for its
    /// first `Configure` with an empty canvas. There is none if the window's
    /// size does not fit in 32 bits.
    pub fn new(config: &Config, lines: Vec<PositionedLine>, display_dimensions: (u32, u32)) -> (out:
        Option<(Surface, LayerRequest)>)
        requires
            config.valid(),
            lines_wf(lines@),
        ensures
            out is Some <==> size_fits(*config, lines@),
            out matches Some((surface, request)) ==> {
                &&& surface@ == SurfaceView::fresh(*config, lines@)
                &&& surface@.wf()
                &&& request.width == natural_size(*config, lines@).0
                &&& request.height == natural_size(*config, lines@).1
                &&& request.anchoring == anchoring(
                    config.window.win_position.0,
                    config.window.win_position.1,
                    config.margins,
                    display_dimensions,
                )
            },
    {
        match get_dimensions(config, &lines) {
            Some((width, height)) => {
                let style = Style::new(config);
                let request = LayerRequest {
                    width,
                    height,
                    anchoring: resolve_placement(
                        config.window.win_position.0,
                        config.window.win_position.1,
                        config.margins,
                        display_dimensions,
                    ),
                };
                proof {
                    lemma_painted_lines_len(blank_canvas(style, 0, 0), 0, lines@, style);
                    assert(Seq::<u32>::empty() =~= composed(style, lines@, 0, 0));
                }
                let surface = Surface {
                    drawing: Drawing { state: SurfaceState::AwaitingConfigure, canvas: Vec::new() },
                    next_render_event: None,
                    lines,
                    style,
                };
                Some((surface, request))
            },
            None => None,
        }
    }

    /// Where the surface stands in its life.
    pub fn state(&self) -> (state: SurfaceState)
        ensures
            state == self@.state,
    {
        self.drawing.state
    }

    /// The event that waits to be handled, if any.
    pub fn next_render_event(&self) -> (event: Option<RenderEvent>)
        ensures
            event == self@.next_render_event,
    {
        self.next_render_event
    }

    /// The pixels, row by row: one for each place of the current size.
    pub fn canvas(&self) -> (canvas: &Vec<u32>)
        ensures
            canvas@ == self@.canvas,
            canvas@.len() == self@.dimensions().0 * self@.dimensions().1,
    {
        proof {
            use_type_invariant(self);
            lemma_canvas_len(self@);
        }
        &self.drawing.canvas
    }

    /// The text, laid out once when the surface was made.
    pub fn lines(&self) -> (lines: &Vec<PositionedLine>)
        ensures
            lines@ == self@.lines,
            lines_wf(lines@),
    {
        proof {
            use_type_invariant(self);
        }
        &self.lines
    }

    /// The colours and distances the text is drawn with.
    pub fn style(&self) -> (style: Style)
        ensures
            style == self@.style,
    {
        self.style
    }

    /// The current size.
    pub fn size(&self) -> (d: (u32, u32))
        ensures
            d == self@.dimensions(),
    {
        match self.drawing.state {
            SurfaceState::Configured { width, height } => (width, height),
            _ => (0, 0),
        }
    }

    /// The canvas as a frame for one buffer, if the buffer's geometry can be
    /// given in signed 32-bit numbers: four bytes for each pixel, all pixels
    /// in the same byte order, which is the machine's.
    pub fn draw(&self) -> (frame: Option<Frame>)
        ensures
            frame is Some <==> 4 * self@.dimensions().0 <= i32::MAX && self@.dimensions().1
                <= i32::MAX,
            frame matches Some(f) ==> {
                &&& f.width == self@.dimensions().0
                &&& f.height == self@.dimensions().1
                &&& f.stride == 4 * self@.dimensions().0
                &&& holds_pixels(f.bytes@, self@.canvas)
            },
    {
        let (width, height) = self.size();
        if width <= 0x1fff_ffff && height <= 0x7fff_ffff {
            Some(
                Frame {
                    width: width as i32,
                    height: height as i32,
                    stride: (4 * width) as i32,
                    bytes: pixel_bytes(&self.drawing.canvas),
                },
            )
        } else {
            None
        }
    }

    /// Whether an event that arrives now is taken into the slot: it is, unless
    /// a `Closed` waits there and the event is another one.
    pub fn takes(&self, event: RenderEvent) -> (taken: bool)
        ensures
            taken == (coalesced(self@.next_render_event, event) == Some(event)),
            taken == (self@.posted(event).next_render_event == Some(event)),
    {
        match coalesce(self.next_render_event, event) {
            Some(waiting) => waiting == event,
            None => false,
        }
    }

    /// Takes note of an event from the compositor. It waits in the slot
    /// until it is handled, unless a later one takes its place.
    pub fn post(&mut self, event: RenderEvent)
        ensures
            final(self)@ == old(self)@.posted(event),
            final(self)@.wf(),
    {
        proof {
            use_type_invariant(&*self);
        }
        self.next_render_event = coalesce(self.next_render_event, event);
    }

    /// Takes the waiting event out of the slot and acts on it.
    ///
    /// `Closed` closes the surface and empties its canvas; a closed surface
    /// stays closed. A `Configure` with a size other than the current one
    /// makes that size the current one and draws the canvas anew. A
    /// `Configure` with the current size, or no event, changes nothing.
    pub fn handle_events(&mut self) -> (outcome: Outcome)
        ensures
            final(self)@ == old(self)@.handled(),
            outcome == old(self)@.outcome(),
            final(self)@.wf(),
            final(self)@.canvas.len() == final(self)@.dimensions().0 * final(self)@.dimensions().1,
            outcome == Outcome::Idle ==> final(self)@.canvas == old(self)@.canvas,
            old(self)@.next_render_event matches Some(RenderEvent::Configure { width, height })
                && (width, height) == old(self)@.dimensions() ==> final(self)@.canvas == old(
                self,
            )@.canvas && final(self)@.state == old(self)@.state && outcome != Outcome::Redrawn,
    {
        proof {
            use_type_invariant(&*self);
            lemma_wf_kept(self@, RenderEvent::Closed);
            lemma_canvas_len(self@.handled());
        }
        let event = self.next_render_event;
        self.next_render_event = None;
        if self.drawing.state == SurfaceState::Closed {
            return Outcome::Closed;
        }
        match event {
            Some(RenderEvent::Closed) => {
                proof {
                    lemma_painted_lines_len(
                        blank_canvas(self.style, 0, 0),
                        0,
                        self.lines@,
                        self.style,
                    );
                    assert(Seq::<u32>::empty() =~= composed(self.style, self.lines@, 0, 0));
                }
                self.drawing = Drawing { state: SurfaceState::Closed, canvas: Vec::new() };
                Outcome::Closed
            },
            Some(RenderEvent::Configure { width, height }) => {
                let current = self.size();
                if current.0 != width || current.1 != height {
                    let canvas = get_canvas(&self.style, &self.lines, (width, height));
                    self.drawing = Drawing {
                        state: SurfaceState::Configured { width, height },
                        canvas,
                    };
                    Outcome::Redrawn
                } else {
                    Outcome::Idle
                }
            },
            None => Outcome::Idle,
        }
    }
}

} // verus!
