use vstd::prelude::*;

use crate::math::Vec2;

verus! {

/// One step of a path outline.
#[derive(Debug, Clone, Copy, PartialEq, Eq, Structural)]
pub enum PathEvent {
    MoveTo { point: Vec2 },
    LineTo { point: Vec2 },
    QuadTo { control: Vec2, point: Vec2 },
    CubicTo { control1: Vec2, control2: Vec2, point: Vec2 },
    Close,
}

/// Builds a [`Path`] event by event.
#[derive(Debug)]
pub struct PathBuilder {
    events: Vec<PathEvent>,
}

impl PathBuilder {
    /// The events recorded so far.
    pub closed spec fn pending(&self) -> Seq<PathEvent> {
        self.events@
    }

    pub fn new() -> (b: PathBuilder)
        ensures
            b.pending() == Seq::<PathEvent>::empty(),
    {
        PathBuilder { events: Vec::new() }
    }

    pub fn clear(&mut self)
        ensures
            final(self).pending() == Seq::<PathEvent>::empty(),
    {
        self.events.clear();
    }

    pub fn move_to(&mut self, point: Vec2)
        ensures
            final(self).pending() == old(self).pending().push(PathEvent::MoveTo { point }),
    {
        self.events.push(PathEvent::MoveTo { point });
    }

    pub fn line_to(&mut self, point: Vec2)
        ensures
            final(self).pending() == old(self).pending().push(PathEvent::LineTo { point }),
    {
        self.events.push(PathEvent::LineTo { point });
    }

    pub fn quad_to(&mut self, control: Vec2, point: Vec2)
        ensures
            final(self).pending() == old(self).pending().push(PathEvent::QuadTo { control, point }),
    {
        self.events.push(PathEvent::QuadTo { control, point });
    }

    pub fn cubic_to(&mut self, control1: Vec2, control2: Vec2, point: Vec2)
        ensures
            final(self).pending() == old(self).pending().push(
                PathEvent::CubicTo { control1, control2, point },
            ),
    {
        self.events.push(PathEvent::CubicTo { control1, control2, point });
    }

    pub fn close(&mut self)
        ensures
            final(self).pending() == old(self).pending().push(PathEvent::Close),
    {
        self.events.push(PathEvent::Close);
    }

    /// Takes the recorded events as a [`Path`], leaving the builder empty.
    pub fn finish(&mut self) -> (p: Path)
        ensures
            p.events@ == old(self).pending(),
            final(self).pending() == Seq::<PathEvent>::empty(),
    {
        let events: Vec<PathEvent> = self.events.clone();
        self.events.clear();
        Path { events }
    }
}

impl Default for PathBuilder {
    fn default() -> (b: PathBuilder)
        ensures
            b.pending() == Seq::<PathEvent>::empty(),
    {
        PathBuilder { events: Vec::new() }
    }
}

/// An immutable path outline: a sequence of events. Two paths with the same
/// events are the same path; caches key on this content.
#[derive(Debug, Clone)]
pub struct Path {
    pub events: Vec<PathEvent>,
}

impl Path {
    pub fn events(&self) -> (r: &Vec<PathEvent>)
        ensures
            r == &self.events,
    {
        &self.events
    }
}

/// Whether two event sequences are the same content.
pub fn events_eq(a: &Vec<PathEvent>, b: &Vec<PathEvent>) -> (r: bool)
    ensures
        r == (a@ =~= b@),
{
    if a.len() != b.len() {
        return false;
    }
    let mut i: usize = 0;
    while i < a.len()
        invariant
            a@.len() == b@.len(),
            i <= a@.len(),
            forall|j: int| 0 <= j < i ==> a@[j] == b@[j],
        decreases a@.len() - i,
    {
        if a[i] != b[i] {
            return false;
        }
        i = i + 1;
    }
    true
}

/// The rule deciding which points are inside a filled path.
#[derive(Debug, Clone, Copy, PartialEq, Eq, Structural)]
pub enum FillRule {
    EvenOdd,
    NonZero,
}

/// Options for filling a path.
#[derive(Debug, Clone, Copy, PartialEq, Eq, Structural)]
pub struct FillOptions {
    pub fill_rule: FillRule,
}

impl Default for FillOptions {
    fn default() -> (r: FillOptions)
        ensures
            r == (FillOptions { fill_rule: FillRule::EvenOdd }),
    {
        FillOptions { fill_rule: FillRule::EvenOdd }
    }
}

/// Shape of a stroke's endpoints.
#[derive(Debug, Clone, Copy, PartialEq, Eq, Structural)]
pub enum LineCap {
    Butt,
    Square,
    Round,
}

/// Shape of a stroke's corners.
#[derive(Debug, Clone, Copy, PartialEq, Eq, Structural)]
pub enum LineJoin {
    Miter,
    MiterClip,
    Round,
    Bevel,
}

/// Options for stroking a path; widths are fixed-point pixels.
#[derive(Debug, Clone, Copy, PartialEq, Eq, Structural)]
pub struct StrokeOptions {
    pub line_cap: LineCap,
    pub line_join: LineJoin,
    pub line_width: i64,
    pub miter_limit: i64,
}

impl Default for StrokeOptions {
    fn default() -> (r: StrokeOptions)
        ensures
            r == (StrokeOptions {
                line_cap: LineCap::Butt,
                line_join: LineJoin::Miter,
                line_width: 256i64,
                miter_limit: 1024i64,
            }),
    {
        StrokeOptions {
            line_cap: LineCap::Butt,
            line_join: LineJoin::Miter,
            line_width: 256,
            miter_limit: 1024,
        }
    }
}

} // verus!
