//! The monitors that are there, each with its surface, found by the
//! monitor's id.

use crate::compositor::{natural_size, size_fits};
use crate::layout::{lines_wf, PositionedLine};
use crate::parser::Config;
use crate::placement::anchoring;
use crate::surface::{
    lemma_wf_kept, LayerRequest, Outcome, RenderEvent, Surface, SurfaceView,
};
use vstd::prelude::*;

verus! {

/// One of the video modes that a monitor offers.
#[derive(Debug, Clone, Copy, PartialEq, Eq)]
pub struct OutputMode {
    /// The width and the height in pixels, as the compositor gives them.
    pub dimensions: (i32, i32),
    /// Whether the monitor is in this mode now.
    pub is_current: bool,
}

/// What the compositor tells of a monitor.
#[derive(Debug, Clone, PartialEq, Eq)]
pub struct MonitorDescriptor {
    pub id: u32,
    pub modes: Vec<OutputMode>,
    /// Whether the monitor is gone.
    pub obsolete: bool,
}

/// A signed 32-bit number read as an unsigned one of the same bits.
pub open spec fn unsigned(v: i32) -> u32 {
    if v >= 0 {
        v as u32
    } else {
        (v + 0x1_0000_0000) as u32
    }
}

/// The size of the mode that a monitor is in: that of the last mode marked
/// as the current one, and one pixel by one pixel where none is.
pub open spec fn current_size(modes: Seq<OutputMode>) -> (u32, u32)
    decreases modes.len(),
{
    if modes.len() == 0 {
        (1, 1)
    } else if modes.last().is_current {
        (unsigned(modes.last().dimensions.0), unsigned(modes.last().dimensions.1))
    } else {
        current_size(modes.drop_last())
    }
}

/// A signed 32-bit number read as an unsigned one of the same bits.
fn to_unsigned(v: i32) -> (u: u32)
    ensures
        u == unsigned(v),
{
    if v >= 0 {
        v as u32
    } else {
        (v as i64 + 0x1_0000_0000) as u32
    }
}

/// The size of the mode that a monitor is in.
pub fn display_dimensions(modes: &Vec<OutputMode>) -> (size: (u32, u32))
    ensures
        size == current_size(modes@),
{
    let mut size: (u32, u32) = (1, 1);
    let n = modes.len();
    let mut i: usize = 0;
    while i < n
        invariant
            i <= n,
            n == modes@.len(),
            size == current_size(modes@.take(i as int)),
        decreases n - i,
    {
        proof {
            assert(modes@.take(i + 1).drop_last() == modes@.take(i as int));
        }
        if modes[i].is_current {
            size = (to_unsigned(modes[i].dimensions.0), to_unsigned(modes[i].dimensions.1));
        }
        i += 1;
    }
    proof {
        assert(modes@.take(n as int) == modes@);
    }
    size
}

/// A monitor's id and what the surface on it is.
pub struct MonitorView {
    pub id: u32,
    pub surface: SurfaceView,
}

/// Whether a monitor of the given id is among the monitors.
pub open spec fn has_id(monitors: Seq<MonitorView>, id: u32) -> bool {
    exists|i: int| 0 <= i < monitors.len() && (#[trigger] monitors[i]).id == id
}

/// No two of the monitors have the same id.
pub open spec fn distinct_ids(monitors: Seq<MonitorView>) -> bool {
    forall|i: int, j: int|
        0 <= i < j < monitors.len() ==> (#[trigger] monitors[i]).id != (#[trigger] monitors[j]).id
}

/// No two of the monitors have the same id, and every surface is well
/// formed.
pub open spec fn monitors_wf(monitors: Seq<MonitorView>) -> bool {
    &&& distinct_ids(monitors)
    &&& forall|i: int| 0 <= i < monitors.len() ==> (#[trigger] monitors[i]).surface.wf()
}

/// The monitors but those of the given id, in order.
pub open spec fn without(monitors: Seq<MonitorView>, id: u32) -> Seq<MonitorView>
    decreases monitors.len(),
{
    if monitors.len() == 0 {
        monitors
    } else if monitors.last().id == id {
        without(monitors.drop_last(), id)
    } else {
        without(monitors.drop_last(), id).push(monitors.last())
    }
}

/// The monitors after an event arrived for the one of the given id: its
/// surface is as it is after the event, and every other is as it was.
pub open spec fn posted_to(monitors: Seq<MonitorView>, id: u32, event: RenderEvent) -> Seq<
    MonitorView,
> {
    Seq::new(
        monitors.len(),
        |i: int|
            if monitors[i].id == id {
                MonitorView { id, surface: monitors[i].surface.posted(event) }
            } else {
                monitors[i]
            },
    )
}

/// The monitors after each surface has handled its waiting event: those
/// whose surface does not close, in order, each with its surface as it is
/// after handling.
pub open spec fn dispatched(monitors: Seq<MonitorView>) -> Seq<MonitorView>
    decreases monitors.len(),
{
    if monitors.len() == 0 {
        monitors
    } else if monitors.last().surface.closes() {
        dispatched(monitors.drop_last())
    } else {
        dispatched(monitors.drop_last()).push(
            MonitorView { id: monitors.last().id, surface: monitors.last().surface.handled() },
        )
    }
}

/// What handling the waiting event does on each monitor, in order, with the
/// monitor's id.
pub open spec fn outcomes_of(monitors: Seq<MonitorView>) -> Seq<(u32, Outcome)> {
    Seq::new(monitors.len(), |i: int| (monitors[i].id, monitors[i].surface.outcome()))
}

/// Leaving the last monitor out keeps the ids distinct and the surfaces
/// well formed.
proof fn lemma_drop_last_wf(monitors: Seq<MonitorView>)
    requires
        monitors.len() > 0,
    ensures
        distinct_ids(monitors) ==> distinct_ids(monitors.drop_last()),
        monitors_wf(monitors) ==> monitors_wf(monitors.drop_last()),
        forall|id: u32|
            has_id(monitors.drop_last(), id) ==> has_id(monitors, id) && (distinct_ids(monitors)
                ==> id != monitors.last().id),
{
    let rest = monitors.drop_last();
    if distinct_ids(monitors) {
        assert forall|i: int, j: int| 0 <= i < j < rest.len() implies (#[trigger] rest[i]).id != (
        #[trigger] rest[j]).id by {
            assert(monitors[i].id != monitors[j].id);
        }
    }
    if monitors_wf(monitors) {
        assert forall|i: int| 0 <= i < rest.len() implies (#[trigger] rest[i]).surface.wf() by {
            assert(monitors[i].surface.wf());
        }
    }
    assert forall|id: u32| has_id(rest, id) implies has_id(monitors, id) && (distinct_ids(monitors)
        ==> id != monitors.last().id) by {
        let k = choose|k: int| 0 <= k < rest.len() && (#[trigger] rest[k]).id == id;
        assert(monitors[k].id == id);
        if distinct_ids(monitors) {
            assert(monitors[k].id != monitors[monitors.len() - 1].id);
        }
    }
}

/// Taking a monitor of a new id in keeps the ids distinct.
proof fn lemma_push_wf(monitors: Seq<MonitorView>, monitor: MonitorView)
    requires
        monitors_wf(monitors),
        monitor.surface.wf(),
        !has_id(monitors, monitor.id),
    ensures
        monitors_wf(monitors.push(monitor)),
{
    let now = monitors.push(monitor);
    assert forall|i: int, j: int| 0 <= i < j < now.len() implies (#[trigger] now[i]).id != (
    #[trigger] now[j]).id by {
        if j < monitors.len() {
            assert(monitors[i].id != monitors[j].id);
        } else {
            assert(monitors[i].id != monitor.id);
        }
    }
    assert forall|i: int| 0 <= i < now.len() implies (#[trigger] now[i]).surface.wf() by {
        if i < monitors.len() {
            assert(monitors[i].surface.wf());
        }
    }
}

/// The monitors without those of an id hold none of that id and every
/// monitor of another id, and are all of them where none had the id. What
/// held of all the monitors holds of the ones that stay.
pub proof fn lemma_without(monitors: Seq<MonitorView>, id: u32)
    ensures
        !has_id(without(monitors, id), id),
        forall|other: u32|
            other != id ==> (has_id(without(monitors, id), other) <==> has_id(monitors, other)),
        !has_id(monitors, id) ==> without(monitors, id) == monitors,
        monitors_wf(monitors) ==> monitors_wf(without(monitors, id)),
        without(monitors, id).len() <= monitors.len(),
    decreases monitors.len(),
{
    let out = without(monitors, id);
    if monitors.len() > 0 {
        let rest = monitors.drop_last();
        let last = monitors.last();
        let sub = without(rest, id);
        lemma_without(rest, id);
        lemma_drop_last_wf(monitors);
        if has_id(out, id) {
            let i = choose|i: int| 0 <= i < out.len() && (#[trigger] out[i]).id == id;
            if i < sub.len() {
                assert(sub[i].id == id);
            }
            assert(false);
        }
        assert forall|other: u32| other != id implies (has_id(out, other) <==> has_id(
            monitors,
            other,
        )) by {
            if has_id(out, other) {
                let i = choose|i: int| 0 <= i < out.len() && (#[trigger] out[i]).id == other;
                if i < sub.len() {
                    assert(sub[i].id == other);
                    assert(has_id(sub, other));
                    assert(has_id(rest, other));
                } else {
                    assert(monitors[monitors.len() - 1].id == other);
                }
            }
            if has_id(monitors, other) {
                let k = choose|k: int|
                    0 <= k < monitors.len() && (#[trigger] monitors[k]).id == other;
                if k < rest.len() {
                    assert(rest[k].id == other);
                    assert(has_id(rest, other));
                    assert(has_id(sub, other));
                    let i = choose|i: int| 0 <= i < sub.len() && (#[trigger] sub[i]).id == other;
                    assert(out[i] == sub[i]);
                } else {
                    assert(out[out.len() - 1].id == other);
                }
            }
        }
        if !has_id(monitors, id) {
            assert(monitors[monitors.len() - 1].id != id);
            if has_id(rest, id) {
                let k = choose|k: int| 0 <= k < rest.len() && (#[trigger] rest[k]).id == id;
                assert(monitors[k].id == id);
            }
            assert(out =~= monitors);
        }
        if monitors_wf(monitors) && last.id != id {
            if has_id(sub, last.id) {
                assert(has_id(rest, last.id));
            }
            lemma_push_wf(sub, last);
        }
    }
}

/// The monitors that stay after handling are among those that were, in
/// their order; what held of all the monitors holds of them.
pub proof fn lemma_dispatched(monitors: Seq<MonitorView>)
    ensures
        dispatched(monitors).len() <= monitors.len(),
        forall|id: u32| has_id(dispatched(monitors), id) ==> has_id(monitors, id),
        monitors_wf(monitors) ==> monitors_wf(dispatched(monitors)),
    decreases monitors.len(),
{
    let out = dispatched(monitors);
    if monitors.len() > 0 {
        let rest = monitors.drop_last();
        let last = monitors.last();
        let sub = dispatched(rest);
        lemma_dispatched(rest);
        lemma_drop_last_wf(monitors);
        assert forall|id: u32| has_id(out, id) implies has_id(monitors, id) by {
            let i = choose|i: int| 0 <= i < out.len() && (#[trigger] out[i]).id == id;
            if i < sub.len() {
                assert(sub[i].id == id);
                assert(has_id(sub, id));
                assert(has_id(rest, id));
            } else {
                assert(monitors[monitors.len() - 1].id == id);
            }
        }
        if monitors_wf(monitors) && !last.surface.closes() {
            if has_id(sub, last.id) {
                assert(has_id(rest, last.id));
            }
            lemma_wf_kept(last.surface, RenderEvent::Closed);
            lemma_push_wf(sub, MonitorView { id: last.id, surface: last.surface.handled() });
        }
    }
}

/// A monitor's id and the surface on it.
#[derive(Debug, PartialEq, Eq)]
struct Monitor {
    id: u32,
    surface: Surface,
}

impl View for Monitor {
    type V = MonitorView;

    closed spec fn view(&self) -> MonitorView {
        MonitorView { id: self.id, surface: self.surface@ }
    }
}

/// What each of the monitors is.
spec fn views(monitors: Seq<Monitor>) -> Seq<MonitorView> {
    Seq::new(monitors.len(), |i: int| monitors[i]@)
}

/// The surfaces of the monitors that are there.
#[derive(Debug, PartialEq, Eq)]
pub struct MonitorRegistry {
    monitors: Vec<Monitor>,
}

impl View for MonitorRegistry {
    type V = Seq<MonitorView>;

    closed spec fn view(&self) -> Seq<MonitorView> {
        views(self.monitors@)
    }
}

impl MonitorRegistry {
    #[verifier::type_invariant]
    spec fn inv(&self) -> bool {
        monitors_wf(self@)
    }

    /// A registry without monitors.
    pub fn new() -> (registry: MonitorRegistry)
        ensures
            registry@.len() == 0,
            monitors_wf(registry@),
    {
        MonitorRegistry { monitors: Vec::new() }
    }

    /// The number of monitors.
    pub fn len(&self) -> (n: usize)
        ensures
            n == self@.len(),
    {
        self.monitors.len()
    }

    /// The ids of the monitors, in order.
    pub fn ids(&self) -> (ids: Vec<u32>)
        ensures
            ids@.len() == self@.len(),
            forall|i: int| 0 <= i < ids@.len() ==> ids@[i] == (#[trigger] self@[i]).id,
    {
        let mut ids: Vec<u32> = Vec::new();
        let n = self.monitors.len();
        let mut i: usize = 0;
        while i < n
            invariant
                i <= n,
                n == self.monitors@.len(),
                ids@.len() == i,
                forall|k: int| 0 <= k < i ==> ids@[k] == (#[trigger] self@[k]).id,
            decreases n - i,
        {
            ids.push(self.monitors[i].id);
            i += 1;
        }
        ids
    }

    /// Where the monitor of the given id stands, if it is there.
    pub fn position(&self, id: u32) -> (place: Option<usize>)
        ensures
            place is Some <==> has_id(self@, id),
            place matches Some(i) ==> i < self@.len() && self@[i as int].id == id,
            monitors_wf(self@),
    {
        proof {
            use_type_invariant(self);
        }
        let n = self.monitors.len();
        let mut i: usize = 0;
        while i < n
            invariant
                i <= n,
                n == self.monitors@.len(),
                monitors_wf(self@),
                forall|k: int| 0 <= k < i ==> (#[trigger] self@[k]).id != id,
            decreases n - i,
        {
            if self.monitors[i].id == id {
                assert(self@[i as int].id == id);
                return Some(i);
            }
            i += 1;
        }
        None
    }

    /// The surface of the monitor of the given id, if the monitor is there.
    pub fn surface(&self, id: u32) -> (surface: Option<&Surface>)
        ensures
            surface is Some <==> has_id(self@, id),
            surface matches Some(s) ==> exists|i: int|
                0 <= i < self@.len() && (#[trigger] self@[i]).id == id && s@ == self@[i].surface,
            monitors_wf(self@),
    {
        match self.position(id) {
            Some(i) => {
                assert(self@[i as int].surface == self.monitors@[i as int].surface@);
                Some(&self.monitors[i].surface)
            },
            None => None,
        }
    }

    /// Whether an event that arrives now for the monitor of the given id is
    /// taken into its surface's slot: the monitor is there, and no `Closed`
    /// waits in the slot unless the event is `Closed` itself.
    pub fn takes(&self, id: u32, event: RenderEvent) -> (taken: bool)
        ensures
            taken == exists|i: int|
                0 <= i < self@.len() && (#[trigger] self@[i]).id == id && self@[i].surface.posted(
                    event,
                ).next_render_event == Some(event),
            !has_id(self@, id) ==> !taken,
            monitors_wf(self@),
    {
        match self.position(id) {
            Some(i) => {
                assert(self@[i as int].surface == self.monitors@[i as int].surface@);
                let taken = self.monitors[i].surface.takes(event);
                proof {
                    if !taken {
                        assert forall|k: int|
                            0 <= k < self@.len() && (#[trigger] self@[k]).id == id implies k
                            == i by {
                            if k < i {
                                assert(self@[k].id != self@[i as int].id);
                            } else if k > i {
                                assert(self@[i as int].id != self@[k].id);
                            }
                        }
                    }
                }
                taken
            },
            None => false,
        }
    }

    /// Takes the monitors out, leaving none.
    fn take_all(&mut self) -> (monitors: Vec<Monitor>)
        ensures
            views(monitors@) == old(self)@,
            monitors_wf(old(self)@),
            final(self)@.len() == 0,
    {
        proof {
            use_type_invariant(&*self);
        }
        let mut monitors: Vec<Monitor> = Vec::new();
        core::mem::swap(&mut monitors, &mut self.monitors);
        monitors
    }

    /// Takes a monitor's surface in, unless a monitor of that id is there
    /// already. Says whether it was taken in.
    pub fn add(&mut self, id: u32, surface: Surface) -> (added: bool)
        ensures
            added == !has_id(old(self)@, id),
            added ==> final(self)@ == old(self)@.push(MonitorView { id, surface: surface@ }),
            !added ==> final(self)@ == old(self)@,
            monitors_wf(final(self)@),
    {
        proof {
            use_type_invariant(&*self);
            use_type_invariant(&surface);
        }
        match self.position(id) {
            Some(_) => false,
            None => {
                let mut monitors = self.take_all();
                let ghost before = views(monitors@);
                monitors.push(Monitor { id, surface });
                proof {
                    assert(views(monitors@) =~= before.push(MonitorView { id, surface: surface@ }));
                    lemma_push_wf(before, MonitorView { id, surface: surface@ });
                }
                self.monitors = monitors;
                true
            },
        }
    }

    /// Lets go of the monitor of the given id.
    pub fn remove(&mut self, id: u32)
        ensures
            final(self)@ == without(old(self)@, id),
            !has_id(final(self)@, id),
            monitors_wf(final(self)@),
    {
        let mut monitors = self.take_all();
        let ghost start = views(monitors@);
        let mut i: usize = 0;
        let ghost mut j: int = 0;
        while i < monitors.len()
            invariant
                0 <= i <= monitors@.len(),
                0 <= j <= start.len(),
                monitors@.len() - i == start.len() - j,
                views(monitors@).take(i as int) == without(start.take(j), id),
                views(monitors@).skip(i as int) == start.skip(j),
            decreases monitors@.len() - i,
        {
            let ghost before = views(monitors@);
            proof {
                assert(start.take(j + 1).drop_last() == start.take(j));
                assert(before[i as int] == before.skip(i as int)[0]);
                assert(start[j] == start.skip(j)[0]);
                assert(before.skip(i + 1) == before.skip(i as int).skip(1));
                assert(start.skip(j + 1) == start.skip(j).skip(1));
            }
            if monitors[i].id == id {
                monitors.remove(i);
                proof {
                    assert(views(monitors@) =~= before.remove(i as int));
                    assert(views(monitors@).take(i as int) == before.take(i as int));
                    assert(views(monitors@).skip(i as int) == before.skip(i + 1));
                }
            } else {
                i += 1;
                proof {
                    assert(before.take(i as int) == before.take(i - 1).push(before[i - 1]));
                }
            }
            proof {
                j = j + 1;
            }
        }
        proof {
            assert(views(monitors@).take(i as int) == views(monitors@));
            assert(start.take(j) == start);
            lemma_without(start, id);
        }
        self.monitors = monitors;
    }

    /// The monitors after the compositor told of one. One that is gone is
    /// let go of. One that is there and was not known gets a new surface
    /// for the lines, unless the window is too large for one. Anything else
    /// changes nothing.
    pub open spec fn output_handled(
        monitors: Seq<MonitorView>,
        output: MonitorDescriptor,
        config: Config,
        lines: Seq<PositionedLine>,
    ) -> Seq<MonitorView> {
        if output.obsolete {
            without(monitors, output.id)
        } else if has_id(monitors, output.id) || !size_fits(config, lines) {
            monitors
        } else {
            monitors.push(
                MonitorView { id: output.id, surface: SurfaceView::fresh(config, lines) },
            )
        }
    }

    /// Acts on what the compositor tells of a monitor. One that is gone is
    /// let go of. For one that is there and was not known, a surface for the
    /// lines is made, at the size of the monitor's current mode; what the
    /// surface asks of the compositor is handed back. Nothing is done for a
    /// monitor that is known already, nor where the window is too large for
    /// a surface.
    pub fn output_changed(
        &mut self,
        output: &MonitorDescriptor,
        config: &Config,
        lines: Vec<PositionedLine>,
    ) -> (request: Option<LayerRequest>)
        requires
            config.valid(),
            lines_wf(lines@),
        ensures
            final(self)@ == Self::output_handled(old(self)@, *output, *config, lines@),
            monitors_wf(final(self)@),
            request is Some <==> !output.obsolete && !has_id(old(self)@, output.id) && size_fits(
                *config,
                lines@,
            ),
            request matches Some(r) ==> {
                &&& r.width == natural_size(*config, lines@).0
                &&& r.height == natural_size(*config, lines@).1
                &&& r.anchoring == anchoring(
                    config.window.win_position.0,
                    config.window.win_position.1,
                    config.margins,
                    current_size(output.modes@),
                )
            },
    {
        proof {
            use_type_invariant(&*self);
        }
        if output.obsolete {
            self.remove(output.id);
            return None;
        }
        if self.position(output.id).is_some() {
            return None;
        }
        match Surface::new(config, lines, display_dimensions(&output.modes)) {
            Some((surface, request)) => {
                self.add(output.id, surface);
                Some(request)
            },
            None => None,
        }
    }

    /// Takes note of an event for the surface of the monitor of the given
    /// id. Says whether such a monitor is there.
    pub fn post(&mut self, id: u32, event: RenderEvent) -> (found: bool)
        ensures
            found == has_id(old(self)@, id),
            final(self)@ == posted_to(old(self)@, id, event),
            monitors_wf(final(self)@),
    {
        proof {
            use_type_invariant(&*self);
        }
        match self.position(id) {
            Some(i) => {
                let mut monitors = self.take_all();
                let ghost before = views(monitors@);
                monitors[i].surface.post(event);
                proof {
                    let now = views(monitors@);
                    assert forall|k: int| 0 <= k < before.len() implies now[k] == posted_to(
                        before,
                        id,
                        event,
                    )[k] by {
                        if k != i {
                            assert(before[k].id != before[i as int].id);
                        }
                    }
                    assert(now =~= posted_to(before, id, event));
                    assert forall|a: int, b: int| 0 <= a < b < now.len() implies (
                    #[trigger] now[a]).id != (#[trigger] now[b]).id by {
                        assert(before[a].id != before[b].id);
                    }
                    assert forall|k: int| 0 <= k < now.len() implies (
                    #[trigger] now[k]).surface.wf() by {
                        assert(before[k].surface.wf());
                        lemma_wf_kept(before[k].surface, event);
                    }
                }
                self.monitors = monitors;
                true
            },
            None => {
                proof {
                    assert forall|k: int| 0 <= k < self@.len() implies self@[k] == posted_to(
                        self@,
                        id,
                        event,
                    )[k] by {
                        assert(self@[k].id != id);
                    }
                    assert(self@ =~= posted_to(self@, id, event));
                }
                false
            },
        }
    }

    /// Lets every surface handle its waiting event, and lets go of the ones
    /// that close. Hands back, for each monitor that was there, in order,
    /// its id and what handling did.
    pub fn dispatch(&mut self) -> (outcomes: Vec<(u32, Outcome)>)
        ensures
            final(self)@ == dispatched(old(self)@),
            outcomes@ == outcomes_of(old(self)@),
            monitors_wf(final(self)@),
    {
        let mut monitors = self.take_all();
        let ghost start = views(monitors@);
        let mut outcomes: Vec<(u32, Outcome)> = Vec::new();
        let mut i: usize = 0;
        while i < monitors.len()
            invariant
                0 <= i <= monitors@.len(),
                outcomes@.len() <= start.len(),
                monitors@.len() - i == start.len() - outcomes@.len(),
                views(monitors@).take(i as int) == dispatched(start.take(outcomes@.len() as int)),
                views(monitors@).skip(i as int) == start.skip(outcomes@.len() as int),
                forall|k: int|
                    0 <= k < outcomes@.len() ==> #[trigger] outcomes@[k] == (
                        start[k].id,
                        start[k].surface.outcome(),
                    ),
            decreases monitors@.len() - i,
        {
            let ghost j = outcomes@.len() as int;
            let ghost before = views(monitors@);
            proof {
                assert(start.take(j + 1).drop_last() == start.take(j));
                assert(before[i as int] == before.skip(i as int)[0]);
                assert(start[j] == start.skip(j)[0]);
                assert(before.skip(i + 1) == before.skip(i as int).skip(1));
                assert(start.skip(j + 1) == start.skip(j).skip(1));
            }
            let id = monitors[i].id;
            let outcome = monitors[i].surface.handle_events();
            outcomes.push((id, outcome));
            let ghost after = views(monitors@);
            proof {
                assert(after =~= before.update(
                    i as int,
                    MonitorView { id, surface: before[i as int].surface.handled() },
                ));
                assert(after.take(i as int) == before.take(i as int));
                assert(after.skip(i + 1) == before.skip(i + 1));
            }
            match outcome {
                Outcome::Closed => {
                    monitors.remove(i);
                    proof {
                        assert(views(monitors@) =~= after.remove(i as int));
                        assert(views(monitors@).take(i as int) == after.take(i as int));
                        assert(views(monitors@).skip(i as int) == after.skip(i + 1));
                    }
                },
                _ => {
                    i += 1;
                    proof {
                        assert(after.take(i as int) == after.take(i - 1).push(after[i - 1]));
                    }
                },
            }
        }
        proof {
            assert(views(monitors@).take(i as int) == views(monitors@));
            assert(start.take(outcomes@.len() as int) == start);
            lemma_dispatched(start);
            assert(outcomes@ =~= outcomes_of(start));
        }
        self.monitors = monitors;
        outcomes
    }
}

} // verus!
