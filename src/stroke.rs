use vstd::prelude::*;

use crate::canvas::{CanvasEvent, NormPos, Ratio};
use crate::raster::{in_bounds, line_of, line_points, Point, Sample};

verus! {

/// Where the canvas widget stands in the window: its centre and its extent,
/// in window pixels.
#[derive(Clone, Copy, Debug, PartialEq, Eq, Structural)]
pub struct NodeFrame {
    pub center: Sample,
    pub width: u32,
    pub height: u32,
}

/// `(v - c + s/2) / s` as the exact fraction `(2(v - c) + s) / 2s`.
pub open spec fn unit_coord(v: int, c: int, s: int) -> Ratio {
    Ratio { num: (2 * (v - c) + s) as i64, den: (2 * s) as i64 }
}

/// A window point as a fraction of the widget's extent on each axis.
pub open spec fn normalized(p: (int, int), f: NodeFrame) -> NormPos {
    NormPos {
        x: unit_coord(p.0, f.center.x as int, f.width as int),
        y: unit_coord(p.1, f.center.y as int, f.height as int),
    }
}

/// The intensity of a stroke: full.
pub open spec fn full() -> Ratio {
    Ratio { num: 1, den: 1 }
}

/// A full-intensity draw at each point.
pub open spec fn draws(points: Seq<(int, int)>, f: NodeFrame) -> Seq<CanvasEvent> {
    points.map_values(|p: (int, int)| CanvasEvent::DrawAt(normalized(p, f), full()))
}

/// The draws that a pointer move queues: the segment from the previous
/// sample, or nothing when the stroke has just begun.
pub open spec fn move_events(last: Option<Sample>, cursor: Sample, f: NodeFrame) -> Seq<
    CanvasEvent,
> {
    match last {
        Some(l) => draws(line_of(l, cursor), f),
        None => Seq::empty(),
    }
}

/// The previous sample after the moves `cursors`.
pub open spec fn last_after(last: Option<Sample>, cursors: Seq<Sample>) -> Option<Sample> {
    if cursors.len() == 0 {
        last
    } else {
        Some(cursors.last())
    }
}

/// The draws that a run of pointer moves queues, in order.
pub open spec fn moves_events(last: Option<Sample>, cursors: Seq<Sample>, f: NodeFrame) -> Seq<
    CanvasEvent,
>
    decreases cursors.len(),
{
    if cursors.len() == 0 {
        Seq::empty()
    } else {
        moves_events(last, cursors.drop_last(), f) + move_events(
            last_after(last, cursors.drop_last()),
            cursors.last(),
            f,
        )
    }
}

fn to_unit(v: i64, c: i32, s: u32) -> (r: Ratio)
    requires
        -0x2_0000_0000 <= v <= 0x2_0000_0000,
    ensures
        r == unit_coord(v as int, c as int, s as int),
{
    Ratio { num: 2 * (v - c as i64) + s as i64, den: 2 * (s as i64) }
}

/// The widget-relative position of a window point.
pub fn normalize(p: Point, f: NodeFrame) -> (r: NormPos)
    requires
        in_bounds(p),
    ensures
        r == normalized((p.x as int, p.y as int), f),
{
    NormPos { x: to_unit(p.x, f.center.x, f.width), y: to_unit(p.y, f.center.y, f.height) }
}

/// The pointer stroke in progress: the previous sample while the button is
/// held.
pub struct Stroke {
    pub last: Option<Sample>,
}

impl Stroke {
    /// No stroke in progress.
    pub fn new() -> (r: Stroke)
        ensures
            r.last is None,
    {
        Stroke { last: None }
    }

    /// The button went up: forget the previous sample and queue a clear.
    pub fn release(&mut self, events: &mut Vec<CanvasEvent>)
        ensures
            final(self).last is None,
            final(events)@ == old(events)@.push(CanvasEvent::Clear),
    {
        self.last = None;
        events.push(CanvasEvent::Clear);
    }

    /// The pointer moved to `cursor` with the button held: queue a
    /// full-intensity draw for each point of the segment from the previous
    /// sample, then remember `cursor`.
    pub fn pointer_moved(&mut self, cursor: Sample, frame: NodeFrame, events: &mut Vec<CanvasEvent>)
        ensures
            final(self).last == Some(cursor),
            final(events)@ == old(events)@ + move_events(old(self).last, cursor, frame),
    {
        if let Some(prev) = self.last {
            let points = line_points(prev, cursor);
            let ghost start = events@;
            let ghost pv = line_of(prev, cursor);
            let mut i: usize = 0;
            while i < points.len()
                invariant
                    i <= points@.len(),
                    points@.len() == pv.len(),
                    forall|j: int| 0 <= j < points@.len() ==> #[trigger] in_bounds(points@[j]),
                    forall|j: int|
                        0 <= j < points@.len() ==> pv[j] == (
                        #[trigger] points@[j].x as int,
                        points@[j].y as int,
                    ),
                    events@ == start + draws(pv.subrange(0, i as int), frame),
                decreases points@.len() - i,
            {
                let pos = normalize(points[i], frame);
                events.push(CanvasEvent::DrawAt(pos, Ratio { num: 1, den: 1 }));
                i = i + 1;
                assert(draws(pv.subrange(0, i as int), frame) =~= draws(
                    pv.subrange(0, i - 1),
                    frame,
                ).push(CanvasEvent::DrawAt(pos, full())));
            }
            assert(pv.subrange(0, i as int) =~= pv);
        } else {
            assert(events@ =~= old(events)@ + Seq::<CanvasEvent>::empty());
        }
        self.last = Some(cursor);
    }

    /// One frame of pointer input: a release ends the stroke and queues a
    /// clear; while the button is held over the canvas each move draws the
    /// segment from the previous sample.
    pub fn draw_on_mouse_move(
        &mut self,
        released: bool,
        pressed: bool,
        cursors: &Vec<Sample>,
        frame: NodeFrame,
    ) -> (r: Vec<CanvasEvent>)
        ensures
            ({
                let last0 = if released {
                    None
                } else {
                    old(self).last
                };
                let clear = if released {
                    seq![CanvasEvent::Clear]
                } else {
                    Seq::empty()
                };
                if pressed {
                    &&& r@ == clear + moves_events(last0, cursors@, frame)
                    &&& final(self).last == last_after(last0, cursors@)
                } else {
                    &&& r@ == clear
                    &&& final(self).last == last0
                }
            }),
    {
        let mut events: Vec<CanvasEvent> = Vec::new();
        if released {
            self.release(&mut events);
        }
        if pressed {
            let ghost last0 = self.last;
            let ghost clear = events@;
            let mut i: usize = 0;
            while i < cursors.len()
                invariant
                    i <= cursors@.len(),
                    self.last == last_after(last0, cursors@.subrange(0, i as int)),
                    events@ == clear + moves_events(last0, cursors@.subrange(0, i as int), frame),
                decreases cursors@.len() - i,
            {
                self.pointer_moved(cursors[i], frame, &mut events);
                i = i + 1;
                let ghost done = cursors@.subrange(0, i as int);
                assert(done.drop_last() =~= cursors@.subrange(0, i - 1));
            }
            assert(cursors@.subrange(0, i as int) =~= cursors@);
        }
        events
    }
}

} // verus!
