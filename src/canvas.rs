use vstd::prelude::*;

verus! {

/// Columns of the canvas bitmap.
pub const CANVAS_WIDTH: u32 = 64;

/// Rows of the canvas bitmap.
pub const CANVAS_HEIGHT: u32 = 64;

/// Pixels of the canvas bitmap.
pub const CANVAS_PIXELS: usize = 4096;

/// An exact fraction `num / den`; only a positive denominator gives it a value.
#[derive(Clone, Copy, Debug, PartialEq, Eq, Structural)]
pub struct Ratio {
    pub num: i64,
    pub den: i64,
}

/// A position on the canvas, each coordinate a fraction of the canvas extent.
#[derive(Clone, Copy, Debug, PartialEq, Eq, Structural)]
pub struct NormPos {
    pub x: Ratio,
    pub y: Ratio,
}

/// An intent queued for the canvas.
#[derive(Clone, Copy, Debug, PartialEq, Eq, Structural)]
pub enum CanvasEvent {
    /// Paint the pixel under a normalized position with an intensity.
    DrawAt(NormPos, Ratio),
    /// Paint every pixel black.
    Clear,
}

/// A fraction in `[0, 1)`.
pub open spec fn in_unit(r: Ratio) -> bool {
    r.den > 0 && 0 <= r.num && r.num < r.den
}

/// The cell under a coordinate in `[0, 1)` on an axis of `n` cells:
/// `floor(n * r + 1/2)`, kept inside the axis.
pub open spec fn cell_of(r: Ratio, n: int) -> int {
    let c = (2 * n * r.num + r.den) / (2 * r.den);
    if c > n - 1 {
        n - 1
    } else {
        c
    }
}

/// The channel value of an intensity: `round(255 * i)` with `i` held to `[0, 1]`.
pub open spec fn level_of(i: Ratio) -> int {
    if i.den <= 0 || i.num <= 0 {
        0
    } else if i.num >= i.den {
        255
    } else {
        (510 * i.num + i.den) / (2 * i.den)
    }
}

/// The pixel index under a position in range.
pub open spec fn pixel_index(p: NormPos) -> int {
    cell_of(p.y, CANVAS_HEIGHT as int) * (CANVAS_WIDTH as int) + cell_of(p.x, CANVAS_WIDTH as int)
}

pub open spec fn black() -> Seq<u8> {
    Seq::new(CANVAS_PIXELS as nat, |i: int| 0u8)
}

/// The intensities after applying `events` in order to `pixels`. A draw at a
/// position outside `[0, 1)` abandons it and every event after it.
pub open spec fn apply_events(pixels: Seq<u8>, events: Seq<CanvasEvent>) -> Seq<u8>
    decreases events.len(),
{
    if events.len() == 0 {
        pixels
    } else {
        match events[0] {
            CanvasEvent::Clear => apply_events(black(), events.drop_first()),
            CanvasEvent::DrawAt(pos, i) => {
                if in_unit(pos.x) && in_unit(pos.y) {
                    apply_events(
                        pixels.update(pixel_index(pos), level_of(i) as u8),
                        events.drop_first(),
                    )
                } else {
                    pixels
                }
            },
        }
    }
}

/// A clear leaves every pixel black, whatever the canvas held before.
pub proof fn lemma_clear_is_black(pixels: Seq<u8>)
    ensures
        apply_events(pixels, seq![CanvasEvent::Clear]) == black(),
        forall|i: int| 0 <= i < CANVAS_PIXELS ==> #[trigger] black()[i] == 0,
{
    let e = seq![CanvasEvent::Clear];
    assert(e.drop_first() =~= Seq::<CanvasEvent>::empty());
    assert(apply_events(black(), Seq::<CanvasEvent>::empty()) == black());
}

/// Intensities at or above one saturate: drawing with any of them is drawing
/// with intensity one.
pub proof fn lemma_intensity_saturates(pixels: Seq<u8>, pos: NormPos, i: Ratio)
    requires
        i.den > 0,
        i.num >= i.den,
    ensures
        apply_events(pixels, seq![CanvasEvent::DrawAt(pos, i)]) == apply_events(
            pixels,
            seq![CanvasEvent::DrawAt(pos, Ratio { num: 1, den: 1 })],
        ),
{
    let a = seq![CanvasEvent::DrawAt(pos, i)];
    let b = seq![CanvasEvent::DrawAt(pos, Ratio { num: 1, den: 1 })];
    assert(a.drop_first() =~= Seq::<CanvasEvent>::empty());
    assert(b.drop_first() =~= Seq::<CanvasEvent>::empty());
}

/// The drawing surface: row-major RGBA bytes, each pixel a grey intensity in
/// its three colour channels and full opacity.
pub struct Canvas {
    pub data: Vec<u8>,
}

impl Canvas {
    pub open spec fn wf(&self) -> bool {
        &&& self.data@.len() == 4 * CANVAS_PIXELS
        &&& forall|i: int|
            0 <= i < CANVAS_PIXELS ==> {
                &&& #[trigger] self.data@[4 * i + 1] == self.data@[4 * i]
                &&& self.data@[4 * i + 2] == self.data@[4 * i]
                &&& self.data@[4 * i + 3] == 255
            }
    }

    /// The intensity of each pixel, row by row.
    pub open spec fn pixels(&self) -> Seq<u8> {
        Seq::new(CANVAS_PIXELS as nat, |i: int| self.data@[4 * i])
    }

    /// A black canvas.
    pub fn new() -> (r: Canvas)
        ensures
            r.wf(),
            r.pixels() == black(),
    {
        let mut data: Vec<u8> = Vec::new();
        let mut i: usize = 0;
        while i < CANVAS_PIXELS
            invariant
                i <= CANVAS_PIXELS,
                data@.len() == 4 * i,
                forall|j: int|
                    0 <= j < i ==> {
                        &&& #[trigger] data@[4 * j] == 0
                        &&& data@[4 * j + 1] == 0
                        &&& data@[4 * j + 2] == 0
                        &&& data@[4 * j + 3] == 255
                    },
            decreases CANVAS_PIXELS - i,
        {
            let ghost prev = data@;
            data.push(0);
            data.push(0);
            data.push(0);
            data.push(255);
            assert forall|j: int| 0 <= j < i + 1 implies {
                &&& #[trigger] data@[4 * j] == 0
                &&& data@[4 * j + 1] == 0
                &&& data@[4 * j + 2] == 0
                &&& data@[4 * j + 3] == 255
            } by {
                if j < i {
                    assert(data@[4 * j] == prev[4 * j]);
                    assert(data@[4 * j + 1] == prev[4 * j + 1]);
                    assert(data@[4 * j + 2] == prev[4 * j + 2]);
                    assert(data@[4 * j + 3] == prev[4 * j + 3]);
                }
            }
            i = i + 1;
        }
        let r = Canvas { data };
        assert(r.pixels() =~= black());
        r
    }

    /// Sets one pixel's three colour channels to `v` and its opacity to 255.
    fn set_pixel(&mut self, idx: usize, v: u8)
        requires
            old(self).wf(),
            idx < CANVAS_PIXELS,
        ensures
            final(self).wf(),
            final(self).pixels() == old(self).pixels().update(idx as int, v),
    {
        let ghost before = self.data@;
        let o: usize = 4 * idx;
        self.data.set(o, v);
        self.data.set(o + 1, v);
        self.data.set(o + 2, v);
        self.data.set(o + 3, 255);
        assert forall|i: int| 0 <= i < CANVAS_PIXELS && i != idx implies {
            &&& #[trigger] self.data@[4 * i] == before[4 * i]
            &&& self.data@[4 * i + 1] == before[4 * i + 1]
            &&& self.data@[4 * i + 2] == before[4 * i + 2]
            &&& self.data@[4 * i + 3] == before[4 * i + 3]
        } by {}
        assert(self.wf());
        assert(self.pixels() =~= old(self).pixels().update(idx as int, v));
    }

    /// Paints every pixel black, at full opacity.
    pub fn clear(&mut self)
        requires
            old(self).wf(),
        ensures
            final(self).wf(),
            final(self).pixels() == black(),
    {
        let mut i: usize = 0;
        while i < CANVAS_PIXELS
            invariant
                i <= CANVAS_PIXELS,
                self.wf(),
                forall|j: int| 0 <= j < i ==> #[trigger] self.pixels()[j] == 0,
            decreases CANVAS_PIXELS - i,
        {
            self.set_pixel(i, 0);
            i = i + 1;
        }
        assert(self.pixels() =~= black());
    }

    /// Applies queued events in order. A draw whose position lies outside
    /// `[0, 1)` on either axis abandons the rest of the batch.
    pub fn dispatch(&mut self, events: &Vec<CanvasEvent>)
        requires
            old(self).wf(),
        ensures
            final(self).wf(),
            final(self).pixels() == apply_events(old(self).pixels(), events@),
    {
        let ghost goal = apply_events(self.pixels(), events@);
        assert(events@.skip(0) =~= events@);
        let mut k: usize = 0;
        while k < events.len()
            invariant
                k <= events@.len(),
                self.wf(),
                goal == apply_events(old(self).pixels(), events@),
                apply_events(self.pixels(), events@.skip(k as int)) == goal,
            decreases events@.len() - k,
        {
            let ghost rest = events@.skip(k as int);
            assert(rest.drop_first() =~= events@.skip(k + 1));
            assert(rest[0] == events@[k as int]);
            match events[k] {
                CanvasEvent::Clear => {
                    self.clear();
                },
                CanvasEvent::DrawAt(pos, intensity) => {
                    if !(in_range(pos.x) && in_range(pos.y)) {
                        assert(apply_events(self.pixels(), rest) == self.pixels());
                        return ;
                    }
                    let col = cell(pos.x, CANVAS_WIDTH);
                    let row = cell(pos.y, CANVAS_HEIGHT);
                    let v = level(intensity);
                    self.set_pixel(row as usize * CANVAS_WIDTH as usize + col as usize, v);
                },
            }
            k = k + 1;
        }
        assert(events@.skip(k as int) =~= Seq::<CanvasEvent>::empty());
    }
}

/// Whether a fraction lies in `[0, 1)`.
pub fn in_range(r: Ratio) -> (b: bool)
    ensures
        b == in_unit(r),
{
    r.den > 0 && 0 <= r.num && r.num < r.den
}

/// The cell under a coordinate in `[0, 1)` on an axis of `n` cells.
pub fn cell(r: Ratio, n: u32) -> (c: u32)
    requires
        in_unit(r),
        n >= 1,
    ensures
        c == cell_of(r, n as int),
        c < n,
{
    let two_n: i128 = 2 * (n as i128);
    assert(0 <= two_n * (r.num as i128) < two_n * (r.den as i128) <= 0x2_0000_0000 * 0x8000_0000_0000_0000)
        by (nonlinear_arith)
        requires
            2 <= two_n <= 0x2_0000_0000,
            0 <= r.num < r.den,
    ;
    let top: i128 = two_n * (r.num as i128) + (r.den as i128);
    let bottom: i128 = 2 * (r.den as i128);
    assert(two_n * (r.den as i128) == bottom * (n as int)) by (nonlinear_arith)
        requires
            two_n == 2 * (n as int),
            bottom == 2 * (r.den as int),
    ;
    let q: u128 = (top as u128) / (bottom as u128);
    assert(q <= n as int) by (nonlinear_arith)
        requires
            q == top / bottom,
            0 < bottom,
            0 <= top,
            top < bottom * (n as int) + bottom,
    ;
    if q > (n as u128) - 1 {
        n - 1
    } else {
        q as u32
    }
}

/// The channel value of an intensity: `round(255 * i)`, with `i` held to `[0, 1]`.
pub fn level(i: Ratio) -> (v: u8)
    ensures
        v == level_of(i),
{
    if i.den <= 0 || i.num <= 0 {
        0
    } else if i.num >= i.den {
        255
    } else {
        let top: i128 = 510 * (i.num as i128) + (i.den as i128);
        let bottom: i128 = 2 * (i.den as i128);
        let q: u128 = (top as u128) / (bottom as u128);
        assert(q <= 255) by (nonlinear_arith)
            requires
                q == top / bottom,
                0 < bottom,
                0 <= top,
                top < 256 * bottom,
        ;
        q as u8
    }
}

} // verus!
