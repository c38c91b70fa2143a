//! Coalescing drag-hover events around the deferred preview updates they ask for: an
//! update runs only if no newer hover came in since it was asked for, and hover events
//! are ignored while an update rebuilds the layout (which fires spurious ones).
use vstd::prelude::*;

verus! {

/// The generation after `g`, wrapping around at the top of `u32`.
pub open spec fn next_generation(g: u32) -> u32 {
    if g == u32::MAX {
        0
    } else {
        (g + 1) as u32
    }
}

/// Whether a drag of session `source` over session `target`'s tile or card is passed on
/// to the workspace: a session dragged over itself is ignored.
pub fn hover_reaches(target: u32, source: u32) -> (r: bool)
    ensures
        r == (source != target),
{
    source != target
}

/// The hover generation counter and whether an update is running.
pub struct HoverGate {
    generation: u32,
    suppressed: bool,
}

/// What a `HoverGate` holds.
pub struct HoverGateView {
    pub generation: u32,
    pub suppressed: bool,
}

impl View for HoverGate {
    type V = HoverGateView;

    closed spec fn view(&self) -> HoverGateView {
        HoverGateView { generation: self.generation, suppressed: self.suppressed }
    }
}

impl HoverGate {
    /// Generation 0, no update running.
    pub fn new() -> (r: HoverGate)
        ensures
            r@ == (HoverGateView { generation: 0, suppressed: false }),
    {
        HoverGate { generation: 0, suppressed: false }
    }

    /// Whether hover events are handled now: not while an update is running.
    pub fn accepts_events(&self) -> (r: bool)
        ensures
            r == !self@.suppressed,
    {
        !self.suppressed
    }

    /// A drag entered a drop zone: a new generation begins, which makes every update asked
    /// for before stale. Returns the new generation, the token of updates asked for now.
    pub fn enter(&mut self) -> (token: u32)
        ensures
            token == next_generation(old(self)@.generation),
            final(self)@ == (HoverGateView { generation: token, ..old(self)@ }),
    {
        self.generation = if self.generation == u32::MAX { 0 } else { self.generation + 1 };
        self.generation
    }

    /// The current generation, the token of updates asked for within it.
    pub fn token(&self) -> (r: u32)
        ensures
            r == self@.generation,
    {
        self.generation
    }

    /// Whether an update asked for with `token` is still due: no newer hover came in.
    pub fn still_current(&self, token: u32) -> (r: bool)
        ensures
            r == (token == self@.generation),
    {
        token == self.generation
    }

    /// An update starts rebuilding the layout: hover events are ignored until it ends.
    pub fn begin_update(&mut self)
        ensures
            final(self)@ == (HoverGateView { suppressed: true, ..old(self)@ }),
    {
        self.suppressed = true;
    }

    /// The update's rebuild has settled: hover events count again.
    pub fn end_update(&mut self)
        ensures
            final(self)@ == (HoverGateView { suppressed: false, ..old(self)@ }),
    {
        self.suppressed = false;
    }
}

} // verus!
