use vstd::prelude::*;

use crate::canvas::{black, Canvas, CANVAS_HEIGHT, CANVAS_WIDTH};

verus! {

/// Side of the square grey image the model reads.
pub const MODEL_SIDE: u32 = 28;

/// Cells of the model input.
pub const MODEL_CELLS: usize = 784;

/// The grey `side`×`side` thumbnail, one byte per pixel, that the triangle
/// filter makes of a `width`×`height` RGBA image.
pub uninterp spec fn thumbnail_luma(rgba: Seq<u8>, width: nat, height: nat, side: nat) -> Seq<u8>;

/// Relies on image's `RgbaImage::from_raw` (a buffer that holds the pixels
/// gives an image), `DynamicImage::resize_exact` with the triangle filter (a
/// new `side`×`side` buffer of weighted sums of the source pixels) and
/// `DynamicImage::to_luma8` (one byte per pixel, a weighted sum of the colour
/// channels); the result depends on the pixels alone, and black stays black.
#[verifier::external_body]
fn resize_to_luma(rgba: &Vec<u8>, width: u32, height: u32, side: u32) -> (r: Vec<u8>)
    requires
        rgba@.len() == 4 * width * height,
        width > 0,
        height > 0,
        side > 0,
    ensures
        r@ == thumbnail_luma(rgba@, width as nat, height as nat, side as nat),
        r@.len() == side * side,
        (forall|i: int| 0 <= i < rgba@.len() && i % 4 != 3 ==> rgba@[i] == 0) ==> (forall|j: int|
            0 <= j < r@.len() ==> r@[j] == 0),
{
    let img = image::RgbaImage::from_raw(width, height, rgba.clone()).unwrap();
    image::DynamicImage::ImageRgba8(img).resize_exact(
        side,
        side,
        image::imageops::FilterType::Triangle,
    ).to_luma8().into_raw()
}

/// Hard threshold: only a perfectly black grey value is background.
pub open spec fn binarized(luma: Seq<u8>) -> Seq<u8> {
    luma.map_values(
        |v: u8|
            if v == 0 {
                0u8
            } else {
                1u8
            },
    )
}

/// The model input that the canvas gives: its thumbnail, binarized.
pub open spec fn pattern_of(canvas: &Canvas) -> Seq<u8> {
    binarized(
        thumbnail_luma(
            canvas.data@,
            CANVAS_WIDTH as nat,
            CANVAS_HEIGHT as nat,
            MODEL_SIDE as nat,
        ),
    )
}

/// A pattern with nothing drawn: every cell is zero, so the cells sum to zero.
pub open spec fn blank(pattern: Seq<u8>) -> bool {
    forall|i: int| 0 <= i < pattern.len() ==> pattern[i] == 0
}

/// Maps every grey value to 0 when it is exactly 0 and to 1 otherwise.
pub fn binarize(luma: &Vec<u8>) -> (r: Vec<u8>)
    ensures
        r@ == binarized(luma@),
{
    let mut out: Vec<u8> = Vec::new();
    let mut i: usize = 0;
    while i < luma.len()
        invariant
            i <= luma@.len(),
            out@ == binarized(luma@.subrange(0, i as int)),
        decreases luma@.len() - i,
    {
        let v: u8 = if luma[i] == 0 {
            0
        } else {
            1
        };
        out.push(v);
        i = i + 1;
        assert(out@ =~= binarized(luma@.subrange(0, i as int)));
    }
    assert(luma@.subrange(0, luma@.len() as int) =~= luma@);
    out
}

/// Whether every cell of a pattern is zero.
pub fn is_blank(pattern: &Vec<u8>) -> (r: bool)
    ensures
        r == blank(pattern@),
{
    let mut i: usize = 0;
    while i < pattern.len()
        invariant
            i <= pattern@.len(),
            forall|j: int| 0 <= j < i ==> pattern@[j] == 0,
        decreases pattern@.len() - i,
    {
        if pattern[i] != 0 {
            return false;
        }
        i = i + 1;
    }
    true
}

/// Downsamples the canvas to the model's resolution and binarizes it.
pub fn model_input(canvas: &Canvas) -> (r: Vec<u8>)
    requires
        canvas.wf(),
    ensures
        r@ == pattern_of(canvas),
        r@.len() == MODEL_CELLS,
        canvas.pixels() == black() ==> blank(r@),
{
    proof {
        if canvas.pixels() == black() {
            assert forall|i: int| 0 <= i < canvas.data@.len() && i % 4 != 3 implies canvas.data@[i]
                == 0 by {
                let k = i / 4;
                assert(0 <= k < 4096);
                assert(canvas.pixels()[k] == 0);
                assert(black()[k] == 0);
                assert(canvas.data@[4 * k] == 0);
                assert(canvas.data@[4 * k + 1] == canvas.data@[4 * k]);
                assert(canvas.data@[4 * k + 2] == canvas.data@[4 * k]);
                assert(i == 4 * k || i == 4 * k + 1 || i == 4 * k + 2);
            }
        }
    }
    let luma = resize_to_luma(&canvas.data, CANVAS_WIDTH, CANVAS_HEIGHT, MODEL_SIDE);
    binarize(&luma)
}

/// What a processing cycle does next.
pub enum Stage {
    /// Show this label without consulting the model.
    Label(String),
    /// Hand this pattern to the model.
    Infer(Vec<u8>),
}

/// What a cycle does with a pattern: `None` shows the empty label without
/// the model, `Some(p)` hands `p` to the model.
pub open spec fn stage_spec(pattern: Seq<u8>) -> Option<Seq<u8>> {
    if blank(pattern) {
        None
    } else {
        Some(pattern)
    }
}

/// A stage as the decision it stands for.
pub open spec fn stage_view(s: &Stage) -> Option<Seq<u8>> {
    match s {
        Stage::Label(_) => None,
        Stage::Infer(p) => Some(p@),
    }
}

/// Decides a cycle from the canvas: a blank canvas shows the empty label and
/// never reaches the model; any other hands its pattern to the model.
pub fn stage(canvas: &Canvas) -> (r: Stage)
    requires
        canvas.wf(),
    ensures
        stage_view(&r) == stage_spec(pattern_of(canvas)),
        blank(pattern_of(canvas)) <==> r is Label,
        canvas.pixels() == black() ==> r is Label,
        r matches Stage::Label(l) ==> l@ == Seq::<char>::empty(),
        r matches Stage::Infer(p) ==> p@ == pattern_of(canvas),
{
    let pattern = model_input(canvas);
    if is_blank(&pattern) {
        Stage::Label(String::new())
    } else {
        Stage::Infer(pattern)
    }
}

// Scores reach the library as the IEEE-754 binary32 bit patterns of the
// model's outputs; the comparison below is the float `>` on those patterns.
/// The bits of a score below the sign bit.
pub open spec fn magnitude(bits: u32) -> int {
    (bits % 0x8000_0000) as int
}

/// Whether a bit pattern encodes NaN.
pub open spec fn is_nan(bits: u32) -> bool {
    magnitude(bits) > 0x7f80_0000
}

/// A key whose integer order is the float order of non-NaN scores; both
/// zeros get the key 0.
pub open spec fn order_key(bits: u32) -> int {
    if bits >= 0x8000_0000 {
        -magnitude(bits)
    } else {
        magnitude(bits)
    }
}

/// Float `a > b`: false whenever either side is NaN.
pub open spec fn score_gt(a: u32, b: u32) -> bool {
    !is_nan(a) && !is_nan(b) && order_key(a) > order_key(b)
}

/// The index kept by a left-to-right scan of the first `n` scores that moves
/// off the current best only for a strictly greater score.
pub open spec fn scan_best(scores: Seq<u32>, n: int) -> int
    decreases n,
{
    if n <= 1 {
        0
    } else {
        let b = scan_best(scores, n - 1);
        if score_gt(scores[n - 1], scores[b]) {
            n - 1
        } else {
            b
        }
    }
}

/// Float `a > b` on two bit patterns.
pub fn greater(a: u32, b: u32) -> (r: bool)
    ensures
        r == score_gt(a, b),
{
    let ma: u32 = a % 0x8000_0000;
    let mb: u32 = b % 0x8000_0000;
    if ma > 0x7f80_0000 || mb > 0x7f80_0000 {
        return false;
    }
    let ka: i64 = if a >= 0x8000_0000 {
        -(ma as i64)
    } else {
        ma as i64
    };
    let kb: i64 = if b >= 0x8000_0000 {
        -(mb as i64)
    } else {
        mb as i64
    };
    ka > kb
}

/// The class with the highest score; on a tie the earlier class wins. `None`
/// for an empty score list.
pub fn best_class(scores: &Vec<u32>) -> (r: Option<usize>)
    ensures
        scores@.len() == 0 <==> r is None,
        r matches Some(i) ==> i < scores@.len(),
        r matches Some(i) ==> i == scan_best(scores@, scores@.len() as int),
        r matches Some(i) ==> (forall|j: int| 0 <= j < scores@.len() ==> !is_nan(scores@[j])) ==> {
            &&& forall|j: int| 0 <= j < scores@.len() ==> order_key(scores@[j]) <= order_key(scores@[i as int])
            &&& forall|j: int| 0 <= j < i ==> order_key(scores@[j]) < order_key(scores@[i as int])
        },
{
    if scores.len() == 0 {
        return None;
    }
    let ghost s = scores@;
    let ghost all_numbers = forall|j: int| 0 <= j < s.len() ==> !is_nan(s[j]);
    let mut best: usize = 0;
    let mut i: usize = 1;
    while i < scores.len()
        invariant
            1 <= i <= s.len(),
            s == scores@,
            best < i,
            scan_best(s, i as int) < i,
            best == scan_best(s, i as int),
            all_numbers == (forall|j: int| 0 <= j < s.len() ==> !is_nan(s[j])),
            all_numbers ==> forall|j: int| 0 <= j < i ==> order_key(s[j]) <= order_key(s[best as int]),
            all_numbers ==> forall|j: int| 0 <= j < best ==> order_key(s[j]) < order_key(s[best as int]),
        decreases s.len() - i,
    {
        if greater(scores[i], scores[best]) {
            best = i;
        }
        i = i + 1;
    }
    Some(best)
}

pub open spec fn digit_char(d: int) -> char {
    if d == 0 {
        '0'
    } else if d == 1 {
        '1'
    } else if d == 2 {
        '2'
    } else if d == 3 {
        '3'
    } else if d == 4 {
        '4'
    } else if d == 5 {
        '5'
    } else if d == 6 {
        '6'
    } else if d == 7 {
        '7'
    } else if d == 8 {
        '8'
    } else {
        '9'
    }
}

/// The decimal numeral of `n`, without leading zeros.
pub open spec fn decimal(n: nat) -> Seq<char>
    decreases n,
{
    if n < 10 {
        seq![digit_char(n as int)]
    } else {
        decimal(n / 10) + seq![digit_char((n % 10) as int)]
    }
}

fn digit_str(d: usize) -> (r: &'static str)
    requires
        d < 10,
    ensures
        r@ == seq![digit_char(d as int)],
{
    proof {
        reveal_strlit("0");
        reveal_strlit("1");
        reveal_strlit("2");
        reveal_strlit("3");
        reveal_strlit("4");
        reveal_strlit("5");
        reveal_strlit("6");
        reveal_strlit("7");
        reveal_strlit("8");
        reveal_strlit("9");
    }
    if d == 0 {
        "0"
    } else if d == 1 {
        "1"
    } else if d == 2 {
        "2"
    } else if d == 3 {
        "3"
    } else if d == 4 {
        "4"
    } else if d == 5 {
        "5"
    } else if d == 6 {
        "6"
    } else if d == 7 {
        "7"
    } else if d == 8 {
        "8"
    } else {
        "9"
    }
}

fn append_decimal(n: usize, out: &mut String)
    ensures
        final(out)@ == old(out)@ + decimal(n as nat),
    decreases n,
{
    if n >= 10 {
        append_decimal(n / 10, out);
    }
    out.append(digit_str(n % 10));
    assert(final(out)@ =~= old(out)@ + decimal(n as nat));
}

/// The label of a class: its index as a decimal numeral.
pub fn class_label(index: usize) -> (r: String)
    ensures
        r@ == decimal(index as nat),
{
    let mut s = String::new();
    append_decimal(index, &mut s);
    assert(s@ =~= decimal(index as nat));
    s
}

/// The label for a list of scores: the numeral of the best class, or nothing
/// for an empty list.
pub open spec fn score_label(scores: Seq<u32>) -> Option<Seq<char>> {
    if scores.len() == 0 {
        None
    } else {
        Some(decimal(scan_best(scores, scores.len() as int) as nat))
    }
}

/// The label for the model's scores: the numeral of the best class, or
/// nothing when there are no scores.
pub fn label_for_scores(scores: &Vec<u32>) -> (r: Option<String>)
    ensures
        scores@.len() == 0 <==> r is None,
        r matches Some(l) ==> l@ == decimal(scan_best(scores@, scores@.len() as int) as nat),
        match r {
            Some(l) => score_label(scores@) == Some(l@),
            None => score_label(scores@) is None,
        },
{
    match best_class(scores) {
        Some(i) => Some(class_label(i)),
        None => None,
    }
}

/// The label a cycle ends with, given the pattern and what the model gave
/// back (`None` when the model failed): the decision of `stage`, then the
/// label of `label_for_scores`. `None` leaves the shown label as it is.
pub open spec fn outcome(pattern: Seq<u8>, scores: Option<Seq<u32>>) -> Option<Seq<char>> {
    match stage_spec(pattern) {
        None => Some(Seq::empty()),
        Some(_) => match scores {
            Some(s) => score_label(s),
            None => None,
        },
    }
}

/// Two canvases that binarize to the same pattern are staged alike by
/// `stage`, and so end a cycle with the same label whenever the model
/// answers both alike.
pub proof fn lemma_same_pattern_same_label(a: &Canvas, b: &Canvas, scores: Option<Seq<u32>>)
    requires
        a.wf(),
        b.wf(),
        pattern_of(a) == pattern_of(b),
    ensures
        stage_spec(pattern_of(a)) == stage_spec(pattern_of(b)),
        outcome(pattern_of(a), scores) == outcome(pattern_of(b), scores),
{
}

/// The display surface for the classification label.
pub struct ResultValue {
    pub label: String,
}

impl ResultValue {
    /// An empty label.
    pub fn new() -> (r: ResultValue)
        ensures
            r.label@ == Seq::<char>::empty(),
    {
        ResultValue { label: String::new() }
    }

    /// Shows `next` when there is one; otherwise the label stays.
    pub fn show(&mut self, next: Option<String>)
        ensures
            match next {
                Some(l) => final(self).label@ == l@,
                None => final(self).label@ == old(self).label@,
            },
    {
        if let Some(l) = next {
            self.label = l;
        }
    }
}

} // verus!
