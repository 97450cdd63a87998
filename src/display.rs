use vstd::prelude::*;

use vstd::arithmetic::div_mod::{
    lemma_div_is_ordered, lemma_fundamental_div_mod, lemma_mod_add_multiples_vanish, lemma_mod_bound,
    lemma_mod_multiples_vanish, lemma_small_mod,
};
use vstd::arithmetic::mul::lemma_mul_inequality;

use crate::error::Error;
use crate::queue::{ColumnRing, SampleQueue, COLUMN_RING_CAPACITY};
use crate::text::{format_right_aligned, lemma_right_aligned_len, right_aligned};

verus! {

/// Panel width in pixels.
pub const DISPLAY_WIDTH: i32 = 480;
/// Panel height in pixels.
pub const DISPLAY_HEIGHT: i32 = 320;

/// Margin below the plot.
pub const OFFSET_BOTTOM: i32 = 10;
/// Margin above the plot.
pub const OFFSET_TOP: i32 = 10;
/// Margin left of the plot.
pub const OFFSET_LEFT: i32 = 10;
/// Margin right of the plot, where the heart rate is shown.
pub const OFFSET_RIGHT: i32 = 50;

/// Width of the border drawn around the plot.
pub const FRAME_BORDER_WIDTH: i32 = 2;
/// Leftmost column of the plot.
pub const FRAME_LEFT: i32 = OFFSET_LEFT;
/// Top row of the plot.
pub const FRAME_TOP: i32 = OFFSET_TOP;
/// Rightmost column of the plot.
pub const FRAME_RIGHT: i32 = DISPLAY_WIDTH - OFFSET_RIGHT - 1;
/// Bottom row of the plot.
pub const FRAME_BOTTOM: i32 = DISPLAY_HEIGHT - OFFSET_BOTTOM - 1;
/// Number of pixel columns of the plot.
pub const FRAME_WIDTH: i32 = DISPLAY_WIDTH - OFFSET_LEFT - OFFSET_RIGHT;
/// Number of pixel rows of the plot.
pub const FRAME_HEIGHT: i32 = DISPLAY_HEIGHT - OFFSET_TOP - OFFSET_BOTTOM;

/// Width of a three-glyph text field.
pub const TEXT_WIDTH: i32 = 12 * 3;
/// Height of one glyph.
pub const TEXT_HEIGHT: i32 = 16;
/// Vertical gap around texts.
pub const TEXT_SPACING: i32 = 5;
/// Gap on each side of a three-glyph field in the right margin:
/// `(OFFSET_RIGHT - FRAME_BORDER_WIDTH - TEXT_WIDTH) / 2`.
pub const TEXT_INDENT: i32 = 6;
/// Left edge of the heart-rate label and value.
pub const TEXT_BPM_X: i32 = FRAME_RIGHT + FRAME_BORDER_WIDTH + TEXT_INDENT;
/// Top of the heart-rate label.
pub const TEXT_BPM_Y: i32 = FRAME_TOP + TEXT_SPACING;
/// Top of the heart-rate value.
pub const TEXT_BPM_VALUE_Y: i32 = TEXT_BPM_Y + TEXT_HEIGHT + TEXT_SPACING;

/// Characters the heart-rate value is right-justified in.
pub const BPM_FIELD_WIDTH: usize = 3;
/// Bytes of the text buffer that holds the heart-rate value.
pub const BPM_TEXT_CAPACITY: usize = 8;

/// Lowest sample value of the plotted range.
pub const SAMPLE_MIN: u16 = 0;
/// Highest sample value of the plotted range.
pub const SAMPLE_MAX: u16 = 3450;

/// One drawn waveform column: it starts `y` pixels above the plot's bottom
/// edge and reaches `height` pixels further up.
#[derive(Clone, Copy, Debug, PartialEq, Eq, Structural)]
pub struct Data {
    pub y: u16,
    pub height: u16,
}

/// The column that joins two consecutive mapped samples.
pub open spec fn column_of(a: u16, b: u16) -> Data {
    if a < b {
        Data { y: a, height: (b - a) as u16 }
    } else {
        Data { y: b, height: (a - b) as u16 }
    }
}

impl Data {
    pub fn new(y: u16, height: u16) -> (r: Data)
        ensures
            r == (Data { y, height }),
    {
        Data { y, height }
    }
}

impl From<(u16, u16)> for Data {
    /// The column between two samples: the lower one is its baseline, their
    /// distance its height.
    fn from(samples: (u16, u16)) -> (r: Data)
        ensures
            r == column_of(samples.0, samples.1),
    {
        if samples.0 < samples.1 {
            Data::new(samples.0, samples.1 - samples.0)
        } else {
            Data::new(samples.1, samples.0 - samples.1)
        }
    }
}

impl vstd::std_specs::convert::FromSpecImpl<(u16, u16)> for Data {
    open spec fn obeys_from_spec() -> bool {
        true
    }

    open spec fn from_spec(samples: (u16, u16)) -> Data {
        column_of(samples.0, samples.1)
    }
}

/// Integer linear interpolation of `x` from `[in_min, in_max]` onto
/// `[out_min, out_max]`.
pub open spec fn map_value(x: int, in_min: int, in_max: int, out_min: int, out_max: int) -> int {
    (x - in_min) * (out_max - out_min) / (in_max - in_min) + out_min
}

/// Maps `to_map` from `[in_min, in_max]` onto `[out_min, out_max]`, with
/// truncating division.
pub fn map(to_map: u32, in_min: u32, in_max: u32, out_min: u32, out_max: u32) -> (r: u32)
    requires
        in_min <= to_map,
        in_min < in_max,
        out_min <= out_max,
        (to_map - in_min) * (out_max - out_min) <= u32::MAX,
        map_value(to_map as int, in_min as int, in_max as int, out_min as int, out_max as int)
            <= u32::MAX,
    ensures
        r == map_value(to_map as int, in_min as int, in_max as int, out_min as int, out_max as int),
{
    (to_map - in_min) * (out_max - out_min) / (in_max - in_min) + out_min
}

/// Pixel row, counted up from the plot's bottom, of a sample; samples above
/// the plotted range are drawn at its top.
pub open spec fn mapped_sample(sample: u16) -> u16 {
    let clamped = if sample > SAMPLE_MAX { SAMPLE_MAX } else { sample };
    map_value(clamped as int, SAMPLE_MIN as int, SAMPLE_MAX as int, 0, FRAME_HEIGHT - 1) as u16
}

/// Interpolation onto the plot keeps the order of samples and reaches both
/// ends of the plot.
pub proof fn lemma_map_monotone(a: u16, b: u16)
    requires
        SAMPLE_MIN <= a <= b <= SAMPLE_MAX,
    ensures
        map_value(a as int, SAMPLE_MIN as int, SAMPLE_MAX as int, 0, FRAME_HEIGHT - 1)
            <= map_value(b as int, SAMPLE_MIN as int, SAMPLE_MAX as int, 0, FRAME_HEIGHT - 1),
        mapped_sample(a) <= mapped_sample(b),
        mapped_sample(SAMPLE_MIN) == 0,
        mapped_sample(SAMPLE_MAX) == FRAME_HEIGHT - 1,
{
    lemma_mul_inequality(a as int, b as int, 299);
    lemma_div_is_ordered(a as int * 299, b as int * 299, 3450);
    lemma_mapped_sample_bound(a);
    lemma_mapped_sample_bound(b);
    assert(3450 * 299 / 3450 == 299);
}

/// A mapped sample lies inside the plot.
pub proof fn lemma_mapped_sample_bound(sample: u16)
    ensures
        0 <= mapped_sample(sample) < FRAME_HEIGHT,
        mapped_sample(sample) as int == map_value(
            (if sample > SAMPLE_MAX { SAMPLE_MAX } else { sample }) as int,
            SAMPLE_MIN as int,
            SAMPLE_MAX as int,
            0,
            FRAME_HEIGHT - 1,
        ),
{
    let c: int = if sample > SAMPLE_MAX { SAMPLE_MAX as int } else { sample as int };
    lemma_mul_inequality(c, 3450, 299);
    lemma_mul_inequality(0int, c, 299);
    lemma_div_is_ordered(c * 299, 3450int * 299, 3450);
    lemma_div_is_ordered(0int, c * 299, 3450);
    assert(3450 * 299 / 3450 == 299);
}

/// A pixel position; `y` grows downwards.
#[derive(Clone, Copy, Debug, PartialEq, Eq, Structural)]
pub struct Point {
    pub x: i32,
    pub y: i32,
}

/// The colors of the screen layout.
#[derive(Clone, Copy, Debug, PartialEq, Eq, Structural)]
pub enum Color {
    Background,
    FrameBorder,
    Waveform,
    BpmText,
}

/// What the renderer asks a display surface to draw.
#[derive(Debug)]
pub enum Shape {
    /// A rectangle filled with one color, corners included.
    FilledRect { top_left: Point, bottom_right: Point, color: Color },
    /// A rectangle with a border of `stroke_width` pixels, corners included.
    Outline { top_left: Point, bottom_right: Point, stroke_width: u32, stroke: Color, fill: Color },
    /// ASCII text in the 12x16 font, its top-left corner at `position`.
    Text { position: Point, text: Vec<u8>, color: Color },
}

/// A shape as a value.
pub enum ShapeView {
    FilledRect { top_left: Point, bottom_right: Point, color: Color },
    Outline { top_left: Point, bottom_right: Point, stroke_width: u32, stroke: Color, fill: Color },
    Text { position: Point, text: Seq<u8>, color: Color },
}

impl View for Shape {
    type V = ShapeView;

    open spec fn view(&self) -> ShapeView {
        match self {
            Shape::FilledRect { top_left, bottom_right, color } => ShapeView::FilledRect {
                top_left: *top_left,
                bottom_right: *bottom_right,
                color: *color,
            },
            Shape::Outline { top_left, bottom_right, stroke_width, stroke, fill } =>
                ShapeView::Outline {
                top_left: *top_left,
                bottom_right: *bottom_right,
                stroke_width: *stroke_width,
                stroke: *stroke,
                fill: *fill,
            },
            Shape::Text { position, text, color } => ShapeView::Text {
                position: *position,
                text: text@,
                color: *color,
            },
        }
    }
}

/// One request handed to the display surface.
pub enum SurfaceOp {
    Clear(Color),
    Draw(ShapeView),
    Scroll(u16),
}

/// A display surface that clears, draws and scrolls the visible frame.
///
/// `requests` is every request the surface has been handed, in order, and
/// `results` what it answered to each; every method adds its own request and
/// its own result.
pub trait Lcd {
    type Error;

    /// Every request handed to the surface so far. A verified implementation
    /// defines it over what it records; the default, which records nothing,
    /// only serves implementations that are not verified.
    closed spec fn requests(&self) -> Seq<SurfaceOp> {
        Seq::empty()
    }

    /// What the surface answered to each request so far, in order. The
    /// default, like that of `requests`, only serves implementations that are
    /// not verified.
    closed spec fn results(&self) -> Seq<Result<(), Self::Error>> {
        Seq::empty()
    }

    fn clear(&mut self, color: Color) -> (r: Result<(), Self::Error>)
        ensures
            final(self).requests() == old(self).requests().push(SurfaceOp::Clear(color)),
            final(self).results() == old(self).results().push(r),
    ;

    fn draw(&mut self, shape: &Shape) -> (r: Result<(), Self::Error>)
        ensures
            final(self).requests() == old(self).requests().push(SurfaceOp::Draw(shape@)),
            final(self).results() == old(self).results().push(r),
    ;

    fn scroll(&mut self, num_of_lines: u16) -> (r: Result<(), Self::Error>)
        ensures
            final(self).requests() == old(self).requests().push(SurfaceOp::Scroll(num_of_lines)),
            final(self).results() == old(self).results().push(r),
    ;
}

/// A surface answer as a renderer result: a failure is reported as the
/// surface's own error.
pub open spec fn lcd_result<E>(answer: Result<(), E>) -> Result<(), Error<E>> {
    match answer {
        Ok(()) => Ok(()),
        Err(e) => Err(Error::Lcd(e)),
    }
}

/// The surface answered `before` and then the answers that `after` adds; `r`
/// reports them: every added answer but the last succeeded, the last one
/// failed exactly when `r` is a surface error, and then with that error. So
/// a failed request is the last one made, and `r` is `Ok` only when every
/// request succeeded.
pub open spec fn surface_reported<E>(
    before: Seq<Result<(), E>>,
    after: Seq<Result<(), E>>,
    r: Result<(), Error<E>>,
) -> bool {
    &&& before.len() <= after.len()
    &&& after.take(before.len() as int) == before
    &&& forall|i: int| before.len() <= i < after.len() - 1 ==> (#[trigger] after[i]) is Ok
    &&& match r {
        Err(Error::Lcd(e)) => after.len() > before.len() && after.last() == Err::<(), E>(e),
        _ => after.len() > before.len() ==> after.last() is Ok,
    }
}

/// One request whose answer is passed on as it came.
pub proof fn lemma_reported_single<E>(before: Seq<Result<(), E>>, answer: Result<(), E>)
    ensures
        surface_reported(before, before.push(answer), lcd_result(answer)),
{
    assert(before.push(answer).take(before.len() as int) =~= before);
}

/// Nothing asked of the surface.
pub proof fn lemma_reported_none<E>(before: Seq<Result<(), E>>)
    ensures
        surface_reported(before, before, Ok(())),
{
    assert(before.take(before.len() as int) =~= before);
}

/// Requests that all succeeded, followed by requests reported by `r`, are
/// reported by `r`.
pub proof fn lemma_reported_chain<E>(
    before: Seq<Result<(), E>>,
    middle: Seq<Result<(), E>>,
    after: Seq<Result<(), E>>,
    r: Result<(), Error<E>>,
)
    requires
        surface_reported(before, middle, Ok(())),
        surface_reported(middle, after, r),
    ensures
        surface_reported(before, after, r),
{
    assert(after.take(before.len() as int) =~= middle.take(before.len() as int));
    assert forall|i: int| before.len() <= i < after.len() - 1 implies (#[trigger] after[i]) is Ok by {
        if i < middle.len() {
            assert(after[i] == after.take(middle.len() as int)[i]);
            if i < middle.len() - 1 {
                assert(middle[i] is Ok);
            } else {
                assert(middle.last() is Ok);
            }
        }
    }
    if after.len() == middle.len() {
        assert(after =~= after.take(middle.len() as int));
    }
}

/// The renderer's state, with every request its surface has been handed.
pub struct RenderState {
    /// Columns on screen, oldest first.
    pub ring: Seq<Data>,
    /// Plot column that the scroll hardware shows at the right edge.
    pub position: u16,
    /// Mapped value of the last sample drawn.
    pub last_sample: u16,
    /// Heart rate on screen.
    pub last_bpm: u16,
    /// Requests handed to the surface, in order.
    pub ops: Seq<SurfaceOp>,
}

/// A column that fits in the plot.
pub open spec fn column_valid(d: Data) -> bool {
    d.y + d.height < FRAME_HEIGHT
}

/// The renderer's invariant.
pub open spec fn render_inv(s: RenderState) -> bool {
    &&& s.position < FRAME_WIDTH
    &&& s.last_sample < FRAME_HEIGHT
    &&& s.ring.len() <= COLUMN_RING_CAPACITY
    &&& forall|i: int| 0 <= i < s.ring.len() ==> column_valid(#[trigger] s.ring[i])
}

/// The invariant, with one recorded column for each visible plot column.
pub open spec fn balanced(s: RenderState) -> bool {
    render_inv(s) && s.ring.len() == FRAME_WIDTH
}

/// The plot column after one scroll step; the frame is a circular strip.
pub open spec fn advance(position: u16) -> u16 {
    if position + 1 >= FRAME_WIDTH {
        0
    } else {
        (position + 1) as u16
    }
}

/// The rectangle that paints column `d` at plot column `position`.
pub open spec fn column_shape(position: u16, d: Data, color: Color) -> ShapeView {
    let x = FRAME_LEFT + position;
    let y = FRAME_BOTTOM - d.y;
    ShapeView::FilledRect {
        top_left: Point { x: x as i32, y: (y - d.height) as i32 },
        bottom_right: Point { x: x as i32, y: y as i32 },
        color,
    }
}

/// One sample's worth of a frame tick: scroll, erase the oldest column, draw
/// the column from the last sample to this one and record it.
pub open spec fn frame_step(s: RenderState, sample: u16) -> RenderState {
    let p = advance(s.position);
    let m = mapped_sample(sample);
    let added = column_of(s.last_sample, m);
    RenderState {
        ring: s.ring.drop_first().push(added),
        position: p,
        last_sample: m,
        last_bpm: s.last_bpm,
        ops: s.ops.push(SurfaceOp::Scroll(1)).push(
            SurfaceOp::Draw(column_shape(p, s.ring[0], Color::Background)),
        ).push(SurfaceOp::Draw(column_shape(p, added, Color::Waveform))),
    }
}

/// The state after frame steps for each of `samples`, in order.
pub open spec fn frame_run(s: RenderState, samples: Seq<u16>) -> RenderState
    decreases samples.len(),
{
    if samples.len() == 0 {
        s
    } else {
        frame_step(frame_run(s, samples.drop_last()), samples.last())
    }
}

/// The heart-rate value as text at its fixed place.
pub open spec fn bpm_shape(bpm: u16, color: Color) -> ShapeView {
    ShapeView::Text {
        position: Point { x: TEXT_BPM_X, y: TEXT_BPM_VALUE_Y },
        text: right_aligned(bpm as nat, BPM_FIELD_WIDTH as nat),
        color,
    }
}

/// The state after showing heart rate `bpm`: nothing changes when it is on
/// screen already; otherwise the old value is painted over and the new one
/// drawn.
pub open spec fn bpm_update(s: RenderState, bpm: u16) -> RenderState {
    if bpm == s.last_bpm {
        s
    } else {
        RenderState {
            last_bpm: bpm,
            ops: s.ops.push(SurfaceOp::Draw(bpm_shape(s.last_bpm, Color::Background))).push(
                SurfaceOp::Draw(bpm_shape(bpm, Color::BpmText)),
            ),
            ..s
        }
    }
}

/// A frame step keeps the invariant and the number of recorded columns.
pub proof fn lemma_frame_step_inv(s: RenderState, sample: u16)
    requires
        render_inv(s),
        s.ring.len() > 0,
    ensures
        render_inv(frame_step(s, sample)),
        frame_step(s, sample).ring.len() == s.ring.len(),
{
    lemma_mapped_sample_bound(sample);
    let t = frame_step(s, sample);
    assert forall|i: int| 0 <= i < t.ring.len() implies column_valid(#[trigger] t.ring[i]) by {
        if i < t.ring.len() - 1 {
            assert(t.ring[i] == s.ring[i + 1]);
        }
    }
}

/// Frame ticks keep one recorded column for each visible plot column, for
/// any samples.
pub proof fn lemma_frame_run_balanced(s: RenderState, samples: Seq<u16>)
    requires
        balanced(s),
    ensures
        balanced(frame_run(s, samples)),
    decreases samples.len(),
{
    if samples.len() > 0 {
        lemma_frame_run_balanced(s, samples.drop_last());
        lemma_frame_step_inv(frame_run(s, samples.drop_last()), samples.last());
    }
}

/// The columns that frame steps record for `samples`, in order, after a last
/// mapped sample `last`: each joins the previous mapped sample to its own.
pub open spec fn sample_columns(last: u16, samples: Seq<u16>) -> Seq<Data> {
    Seq::new(
        samples.len(),
        |i: int|
            column_of(
                if i == 0 { last } else { mapped_sample(samples[i - 1]) },
                mapped_sample(samples[i]),
            ),
    )
}

/// Samples reach the plot in the order they were produced: after frame steps
/// for up to one plot width of samples, the newest recorded columns are the
/// ones those samples make, in order, and the last sample drawn is the last
/// one's.
pub proof fn lemma_frame_run_order(s: RenderState, samples: Seq<u16>)
    requires
        balanced(s),
        samples.len() <= FRAME_WIDTH,
    ensures
        frame_run(s, samples).ring.subrange(FRAME_WIDTH - samples.len(), FRAME_WIDTH as int)
            == sample_columns(s.last_sample, samples),
        samples.len() > 0 ==> frame_run(s, samples).last_sample == mapped_sample(samples.last()),
    decreases samples.len(),
{
    let w = FRAME_WIDTH as int;
    let n = samples.len() as int;
    if n == 0 {
        assert(frame_run(s, samples).ring.subrange(w, w) =~= sample_columns(s.last_sample, samples));
    } else {
        let p = samples.drop_last();
        lemma_frame_run_order(s, p);
        lemma_frame_run_balanced(s, p);
        let t = frame_run(s, p);
        let added = column_of(t.last_sample, mapped_sample(samples.last()));
        assert(frame_run(s, samples).ring.subrange(w - n, w) =~= t.ring.subrange(w - n + 1, w).push(
            added,
        ));
        if n > 1 {
            assert(p.last() == samples[n - 2]);
        }
        assert(sample_columns(s.last_sample, samples) =~= sample_columns(s.last_sample, p).push(
            added,
        ));
    }
}

/// Showing the same heart rate a second time hands nothing to the surface.
pub proof fn lemma_bpm_update_idempotent(s: RenderState, bpm: u16)
    ensures
        bpm_update(s, bpm).last_bpm == bpm,
        bpm_update(bpm_update(s, bpm), bpm) == bpm_update(s, bpm),
{
}


/// The column drawn before any sample arrives.
pub open spec fn empty_column() -> Data {
    Data { y: 0, height: 0 }
}

/// The rectangle around the plot.
pub open spec fn border_shape() -> ShapeView {
    ShapeView::Outline {
        top_left: Point {
            x: (FRAME_LEFT - FRAME_BORDER_WIDTH) as i32,
            y: (FRAME_TOP - FRAME_BORDER_WIDTH) as i32,
        },
        bottom_right: Point {
            x: (FRAME_RIGHT + FRAME_BORDER_WIDTH) as i32,
            y: (FRAME_BOTTOM + FRAME_BORDER_WIDTH) as i32,
        },
        stroke_width: FRAME_BORDER_WIDTH as u32,
        stroke: Color::FrameBorder,
        fill: Color::Background,
    }
}

/// The "BPM" label above the heart-rate value.
pub open spec fn label_shape() -> ShapeView {
    ShapeView::Text {
        position: Point { x: TEXT_BPM_X, y: TEXT_BPM_Y },
        text: seq![66u8, 80u8, 77u8],
        color: Color::BpmText,
    }
}

/// The plot column reached after `j` scroll steps from `start`.
pub open spec fn fill_position(start: u16, j: nat) -> u16 {
    ((start + j) % (FRAME_WIDTH as int)) as u16
}

/// Scroll steps from `start` go round the plot one column at a time and come
/// back to `start` after one full turn.
pub proof fn lemma_fill_position(start: u16, j: nat)
    requires
        start < FRAME_WIDTH,
    ensures
        fill_position(start, 0) == start,
        fill_position(start, FRAME_WIDTH as nat) == start,
        fill_position(start, j) < FRAME_WIDTH,
        advance(fill_position(start, j)) == fill_position(start, j + 1),
{
    let w = FRAME_WIDTH as int;
    let a = start + j;
    lemma_small_mod(start as nat, w as nat);
    lemma_mod_add_multiples_vanish(start as int, w);
    lemma_fundamental_div_mod(a, w);
    lemma_mod_bound(a, w);
    let q = a / w;
    let r = a % w;
    if r + 1 < w {
        lemma_mod_multiples_vanish(q, r + 1, w);
        lemma_small_mod((r + 1) as nat, w as nat);
    } else {
        lemma_mod_multiples_vanish(q + 1, 0, w);
        assert(w * (q + 1) == w * q + w) by (nonlinear_arith);
    }
}

/// The requests that fill `n` plot columns with empty columns, scrolling
/// before each one, from plot column `start` on.
pub open spec fn fill_ops(start: u16, n: nat) -> Seq<SurfaceOp>
    decreases n,
{
    if n == 0 {
        Seq::empty()
    } else {
        fill_ops(start, (n - 1) as nat).push(SurfaceOp::Scroll(1)).push(
            SurfaceOp::Draw(column_shape(fill_position(start, n), empty_column(), Color::Waveform)),
        )
    }
}

/// The state of a renderer that has just set up the screen of a surface that
/// had been handed `prior` before.
pub open spec fn initial_state(prior: Seq<SurfaceOp>) -> RenderState {
    RenderState {
        ring: Seq::new(FRAME_WIDTH as nat, |i: int| empty_column()),
        position: (FRAME_WIDTH - 1) as u16,
        last_sample: 0,
        last_bpm: 0,
        ops: prior + seq![
            SurfaceOp::Clear(Color::Background),
            SurfaceOp::Draw(border_shape()),
            SurfaceOp::Draw(bpm_shape(0, Color::BpmText)),
            SurfaceOp::Draw(label_shape()),
        ] + fill_ops((FRAME_WIDTH - 1) as u16, FRAME_WIDTH as nat),
    }
}

/// `t` is what is left of `s` when the frame step for `sample` stopped early:
/// with `queue_error`, the column ring was empty after the scroll; otherwise
/// the surface failed the scroll, the erase or the draw, and nothing was
/// asked of it after that.
pub open spec fn step_failed(s: RenderState, sample: u16, t: RenderState, queue_error: bool) -> bool {
    let p = advance(s.position);
    let scrolled = RenderState { position: p, ops: s.ops.push(SurfaceOp::Scroll(1)), ..s };
    let erased = RenderState {
        ring: s.ring.drop_first(),
        ops: scrolled.ops.push(SurfaceOp::Draw(column_shape(p, s.ring[0], Color::Background))),
        ..scrolled
    };
    let added = column_of(s.last_sample, mapped_sample(sample));
    if queue_error {
        s.ring.len() == 0 && t == scrolled
    } else {
        ||| t == (RenderState { ops: s.ops.push(SurfaceOp::Scroll(1)), ..s })
        ||| s.ring.len() > 0 && t == erased
        ||| s.ring.len() > 0 && t == (RenderState {
            ops: erased.ops.push(SurfaceOp::Draw(column_shape(p, added, Color::Waveform))),
            ..erased
        })
    }
}

/// Scrolling waveform and heart-rate renderer on a display surface.
pub struct Display<L: Lcd> {
    current_data: ColumnRing,
    horizontal_position: u16,
    last_sample: u16,
    last_bpm: u16,
    lcd: L,
}

impl<L: Lcd> Display<L> {
    /// The renderer's state; its requests are those its surface has had.
    pub closed spec fn state(&self) -> RenderState {
        RenderState {
            ring: self.current_data@,
            position: self.horizontal_position,
            last_sample: self.last_sample,
            last_bpm: self.last_bpm,
            ops: self.lcd.requests(),
        }
    }

    /// What the surface has answered to each of the renderer's requests.
    pub closed spec fn results(&self) -> Seq<Result<(), L::Error>> {
        self.lcd.results()
    }

    /// Takes over `lcd`, draws the layout and fills the plot with empty
    /// columns.
    pub fn new(lcd: L) -> (r: Result<Display<L>, Error<L::Error>>)
        ensures
            r is Ok ==> r->Ok_0.state() == initial_state(lcd.requests()),
            r is Ok ==> balanced(r->Ok_0.state()),
            r is Ok ==> surface_reported(lcd.results(), r->Ok_0.results(), Ok(())),
            r is Err ==> r->Err_0 is Lcd,
    {
        let zero = Self::map_sample(0);
        let mut display = Display {
            current_data: ColumnRing::new(),
            horizontal_position: (FRAME_WIDTH - 1) as u16,
            last_sample: zero,
            last_bpm: 0,
            lcd,
        };
        match display.init() {
            Ok(()) => Ok(display),
            Err(e) => Err(e),
        }
    }

    /// Draws the new samples waiting in `samples`, one plot column each,
    /// scrolling the frame and erasing the oldest column for every one.
    pub fn frame(&mut self, samples: &mut SampleQueue) -> (r: Result<(), Error<L::Error>>)
        requires
            render_inv(old(self).state()),
        ensures
            render_inv(final(self).state()),
            r is Ok ==> final(self).state() == frame_run(old(self).state(), old(samples)@),
            r is Ok ==> final(samples)@.len() == 0,
            old(samples)@.len() == 0 ==> r is Ok && final(self).state() == old(self).state(),
            r is Err ==> ({
                let k = old(samples)@.len() - final(samples)@.len();
                &&& 1 <= k <= old(samples)@.len()
                &&& final(samples)@ == old(samples)@.skip(k)
                &&& step_failed(
                    frame_run(old(self).state(), old(samples)@.take(k - 1)),
                    old(samples)@[k - 1],
                    final(self).state(),
                    r->Err_0 is Queue,
                )
                &&& (r->Err_0 is Queue || r->Err_0 is Lcd)
            }),
            balanced(old(self).state()) && r is Err ==> r->Err_0 is Lcd,
            old(self).state().ring.len() == 0 && old(samples)@.len() > 0 ==> r is Err
                && final(samples)@ == old(samples)@.drop_first(),
            surface_reported(old(self).results(), final(self).results(), r),
    {
        let len = samples.len();
        let ghost s0 = self.state();
        let ghost xs = samples@;
        proof {
            lemma_reported_none(self.results());
        }
        let mut i: usize = 0;
        while i < len
            invariant
                i <= len,
                len == xs.len(),
                s0 == old(self).state(),
                xs == old(samples)@,
                samples@ == xs.skip(i as int),
                render_inv(self.state()),
                self.state() == frame_run(s0, xs.take(i as int)),
                balanced(s0) ==> balanced(self.state()),
                i > 0 ==> s0.ring.len() > 0,
                surface_reported(old(self).results(), self.results(), Ok(())),
            decreases len - i,
        {
            assert(xs.skip(i as int)[0] == xs[i as int]);
            let sample = match samples.dequeue() {
                Some(v) => v,
                None => return Err(Error::Queue),
            };
            assert(xs.skip(i as int).drop_first() =~= xs.skip(i + 1));
            let ghost before = self.state();
            assert(xs.len() - samples@.len() == i + 1);
            let ghost m = self.results();
            let res = self.scroll();
            proof {
                lemma_reported_chain(old(self).results(), m, self.results(), res);
            }
            match res {
                Ok(()) => {},
                Err(e) => {
                    assert(step_failed(before, sample, self.state(), false));
                    return Err(e);
                },
            }
            let removed = match self.current_data.dequeue() {
                Some(d) => d,
                None => {
                    assert(step_failed(before, sample, self.state(), true));
                    return Err(Error::Queue);
                },
            };
            assert(column_valid(before.ring[0]));
            let ghost m = self.results();
            let res = self.draw_single(removed, Color::Background);
            proof {
                lemma_reported_chain(old(self).results(), m, self.results(), res);
            }
            match res {
                Ok(()) => {},
                Err(e) => {
                    assert(step_failed(before, sample, self.state(), false));
                    return Err(e);
                },
            }
            let mapped = Self::map_sample(sample);
            let added = Data::from((self.last_sample, mapped));
            let ghost m = self.results();
            let res = self.draw_single(added, Color::Waveform);
            proof {
                lemma_reported_chain(old(self).results(), m, self.results(), res);
            }
            match res {
                Ok(()) => {},
                Err(e) => {
                    assert(step_failed(before, sample, self.state(), false));
                    return Err(e);
                },
            }
            match self.current_data.enqueue(added) {
                Ok(()) => {},
                Err(_) => return Err(Error::Queue),
            }
            self.last_sample = mapped;
            proof {
                lemma_frame_step_inv(before, sample);
                assert(xs.take(i + 1).drop_last() =~= xs.take(i as int));
                assert(self.state().ops =~= frame_step(before, sample).ops);
                assert(self.state().ring =~= frame_step(before, sample).ring);
            }
            i = i + 1;
        }
        assert(xs.take(len as int) =~= xs);
        Ok(())
    }

    /// Shows heart rate `bpm`, unless it is on screen already.
    pub fn update_bpm(&mut self, bpm: u16) -> (r: Result<(), Error<L::Error>>)
        ensures
            r is Ok ==> final(self).state() == bpm_update(old(self).state(), bpm),
            bpm == old(self).state().last_bpm ==> r is Ok,
            r is Err ==> r->Err_0 is Lcd,
            r is Err ==> bpm != old(self).state().last_bpm && ({
                let erase = SurfaceOp::Draw(bpm_shape(old(self).state().last_bpm, Color::Background));
                let shown = SurfaceOp::Draw(bpm_shape(bpm, Color::BpmText));
                ||| final(self).state() == (RenderState {
                    ops: old(self).state().ops.push(erase),
                    ..old(self).state()
                })
                ||| final(self).state() == (RenderState {
                    ops: old(self).state().ops.push(erase).push(shown),
                    ..old(self).state()
                })
            }),
            render_inv(old(self).state()) ==> render_inv(final(self).state()),
            surface_reported(old(self).results(), final(self).results(), r),
    {
        proof {
            lemma_reported_none(self.results());
        }
        if bpm != self.last_bpm {
            let previous = self.last_bpm;
            let res = self.draw_bpm_value(previous, Color::Background);
            proof {
                lemma_reported_chain(old(self).results(), old(self).results(), self.results(), res);
            }
            match res {
                Ok(()) => {},
                Err(e) => return Err(e),
            }
            let ghost m = self.results();
            let res = self.draw_bpm_value(bpm, Color::BpmText);
            proof {
                lemma_reported_chain(old(self).results(), m, self.results(), res);
            }
            match res {
                Ok(()) => {},
                Err(e) => return Err(e),
            }
            self.last_bpm = bpm;
        }
        Ok(())
    }

    fn draw_bpm_value(&mut self, bpm: u16, color: Color) -> (r: Result<(), Error<L::Error>>)
        ensures
            final(self).state() == (RenderState {
                ops: old(self).state().ops.push(SurfaceOp::Draw(bpm_shape(bpm, color))),
                ..old(self).state()
            }),
            r is Err ==> r->Err_0 is Lcd,
            surface_reported(old(self).results(), final(self).results(), r),
    {
        proof {
            lemma_right_aligned_len(bpm, BPM_FIELD_WIDTH as nat);
        }
        let text = match format_right_aligned(bpm, BPM_FIELD_WIDTH, BPM_TEXT_CAPACITY) {
            Some(t) => t,
            None => return Err(Error::BufferWrite),
        };
        let shape = Shape::Text { position: Point { x: TEXT_BPM_X, y: TEXT_BPM_VALUE_Y }, text, color };
        let answer = self.lcd.draw(&shape);
        proof {
            lemma_reported_single(old(self).results(), answer);
        }
        match answer {
            Ok(()) => Ok(()),
            Err(e) => Err(Error::Lcd(e)),
        }
    }

    fn draw_single(&mut self, data: Data, color: Color) -> (r: Result<(), Error<L::Error>>)
        requires
            old(self).horizontal_position < FRAME_WIDTH,
            column_valid(data),
        ensures
            final(self).state() == (RenderState {
                ops: old(self).state().ops.push(
                    SurfaceOp::Draw(column_shape(old(self).horizontal_position, data, color)),
                ),
                ..old(self).state()
            }),
            r is Err ==> r->Err_0 is Lcd,
            surface_reported(old(self).results(), final(self).results(), r),
    {
        let x: i32 = FRAME_LEFT + self.horizontal_position as i32;
        let y: i32 = FRAME_BOTTOM - data.y as i32;
        let shape = Shape::FilledRect {
            top_left: Point { x, y: y - data.height as i32 },
            bottom_right: Point { x, y },
            color,
        };
        let answer = self.lcd.draw(&shape);
        proof {
            lemma_reported_single(old(self).results(), answer);
        }
        match answer {
            Ok(()) => Ok(()),
            Err(e) => Err(Error::Lcd(e)),
        }
    }

    fn scroll(&mut self) -> (r: Result<(), Error<L::Error>>)
        requires
            old(self).horizontal_position < FRAME_WIDTH,
        ensures
            r is Ok ==> final(self).state() == (RenderState {
                position: advance(old(self).horizontal_position),
                ops: old(self).state().ops.push(SurfaceOp::Scroll(1)),
                ..old(self).state()
            }),
            r is Err ==> final(self).state() == (RenderState {
                ops: old(self).state().ops.push(SurfaceOp::Scroll(1)),
                ..old(self).state()
            }),
            r is Err ==> r->Err_0 is Lcd,
            surface_reported(old(self).results(), final(self).results(), r),
    {
        let answer = self.lcd.scroll(1);
        proof {
            lemma_reported_single(old(self).results(), answer);
        }
        match answer {
            Ok(()) => {},
            Err(e) => return Err(Error::Lcd(e)),
        }
        self.horizontal_position = self.horizontal_position + 1;
        if self.horizontal_position >= FRAME_WIDTH as u16 {
            self.horizontal_position = 0;
        }
        Ok(())
    }

    fn init(&mut self) -> (r: Result<(), Error<L::Error>>)
        requires
            old(self).state() == (RenderState {
                ring: Seq::empty(),
                position: (FRAME_WIDTH - 1) as u16,
                last_sample: 0,
                last_bpm: 0,
                ops: old(self).state().ops,
            }),
        ensures
            r is Ok ==> final(self).state() == initial_state(old(self).state().ops),
            r is Err ==> r->Err_0 is Lcd,
            surface_reported(old(self).results(), final(self).results(), r),
    {
        let answer = self.lcd.clear(Color::Background);
        proof {
            lemma_reported_single(old(self).results(), answer);
        }
        match answer {
            Ok(()) => {},
            Err(e) => return Err(Error::Lcd(e)),
        }
        let ghost m = self.results();
        let res = self.init_frame();
        proof {
            lemma_reported_chain(old(self).results(), m, self.results(), res);
        }
        match res {
            Ok(()) => {},
            Err(e) => return Err(e),
        }
        let ghost m = self.results();
        let res = self.init_data_column();
        proof {
            lemma_reported_chain(old(self).results(), m, self.results(), res);
        }
        match res {
            Ok(()) => {},
            Err(e) => return Err(e),
        }
        let ghost m = self.results();
        let res = self.init_data();
        proof {
            lemma_reported_chain(old(self).results(), m, self.results(), res);
        }
        match res {
            Ok(()) => {},
            Err(e) => return Err(e),
        }
        assert(self.state().ops =~= initial_state(old(self).state().ops).ops);
        assert(self.state().ring =~= initial_state(old(self).state().ops).ring);
        Ok(())
    }

    fn init_frame(&mut self) -> (r: Result<(), Error<L::Error>>)
        ensures
            final(self).state() == (RenderState {
                ops: old(self).state().ops.push(SurfaceOp::Draw(border_shape())),
                ..old(self).state()
            }),
            r is Err ==> r->Err_0 is Lcd,
            surface_reported(old(self).results(), final(self).results(), r),
    {
        let border = Shape::Outline {
            top_left: Point { x: FRAME_LEFT - FRAME_BORDER_WIDTH, y: FRAME_TOP - FRAME_BORDER_WIDTH },
            bottom_right: Point {
                x: FRAME_RIGHT + FRAME_BORDER_WIDTH,
                y: FRAME_BOTTOM + FRAME_BORDER_WIDTH,
            },
            stroke_width: FRAME_BORDER_WIDTH as u32,
            stroke: Color::FrameBorder,
            fill: Color::Background,
        };
        let answer = self.lcd.draw(&border);
        proof {
            lemma_reported_single(old(self).results(), answer);
        }
        match answer {
            Ok(()) => Ok(()),
            Err(e) => Err(Error::Lcd(e)),
        }
    }

    fn init_data_column(&mut self) -> (r: Result<(), Error<L::Error>>)
        ensures
            r is Ok ==> final(self).state() == (RenderState {
                ops: old(self).state().ops.push(
                    SurfaceOp::Draw(bpm_shape(old(self).last_bpm, Color::BpmText)),
                ).push(SurfaceOp::Draw(label_shape())),
                ..old(self).state()
            }),
            r is Err ==> r->Err_0 is Lcd,
            surface_reported(old(self).results(), final(self).results(), r),
    {
        let label = Shape::Text {
            position: Point { x: TEXT_BPM_X, y: TEXT_BPM_Y },
            text: vec![66u8, 80u8, 77u8],
            color: Color::BpmText,
        };
        let shown = self.last_bpm;
        let res = self.draw_bpm_value(shown, Color::BpmText);
        match res {
            Ok(()) => {},
            Err(e) => return Err(e),
        }
        assert(label@ == label_shape());
        let ghost m = self.results();
        let answer = self.lcd.draw(&label);
        proof {
            lemma_reported_single(m, answer);
            lemma_reported_chain(old(self).results(), m, self.results(), lcd_result(answer));
        }
        match answer {
            Ok(()) => Ok(()),
            Err(e) => Err(Error::Lcd(e)),
        }
    }

    /// Fills every plot column with an empty column, scrolling before each,
    /// from the current position round to it again.
    fn init_data(&mut self) -> (r: Result<(), Error<L::Error>>)
        requires
            old(self).state().ring.len() == 0,
            old(self).horizontal_position < FRAME_WIDTH,
        ensures
            r is Ok ==> final(self).state() == (RenderState {
                ring: Seq::new(FRAME_WIDTH as nat, |i: int| empty_column()),
                ops: old(self).state().ops + fill_ops(
                    old(self).horizontal_position,
                    FRAME_WIDTH as nat,
                ),
                ..old(self).state()
            }),
            r is Err ==> r->Err_0 is Lcd,
            surface_reported(old(self).results(), final(self).results(), r),
    {
        let zero = Self::map_sample(0);
        proof {
            lemma_map_monotone(0, 0);
            lemma_reported_none(self.results());
        }
        let data = Data::from((zero, zero));
        let ghost s0 = self.state();
        let ghost start = self.horizontal_position;
        proof {
            lemma_fill_position(start, 0);
        }
        let mut j: usize = 0;
        while j < FRAME_WIDTH as usize
            invariant
                j <= FRAME_WIDTH,
                start < FRAME_WIDTH,
                data == empty_column(),
                self.horizontal_position == fill_position(start, j as nat),
                self.state().ring =~= Seq::new(j as nat, |i: int| empty_column()),
                self.state().ops == s0.ops + fill_ops(start, j as nat),
                self.state().position == self.horizontal_position,
                self.state().last_sample == s0.last_sample,
                self.state().last_bpm == s0.last_bpm,
                surface_reported(old(self).results(), self.results(), Ok(())),
            decreases FRAME_WIDTH - j,
        {
            proof {
                lemma_fill_position(start, j as nat);
            }
            let ghost m = self.results();
            let res = self.scroll();
            proof {
                lemma_reported_chain(old(self).results(), m, self.results(), res);
            }
            match res {
                Ok(()) => {},
                Err(e) => return Err(e),
            }
            let ghost m = self.results();
            let res = self.draw_single(data, Color::Waveform);
            proof {
                lemma_reported_chain(old(self).results(), m, self.results(), res);
            }
            match res {
                Ok(()) => {},
                Err(e) => return Err(e),
            }
            match self.current_data.enqueue(data) {
                Ok(()) => {},
                Err(_) => return Err(Error::Queue),
            }
            proof {
                assert(fill_ops(start, (j + 1) as nat) == fill_ops(start, j as nat).push(
                    SurfaceOp::Scroll(1),
                ).push(
                    SurfaceOp::Draw(
                        column_shape(fill_position(start, (j + 1) as nat), empty_column(), Color::Waveform),
                    ),
                ));
                assert(self.state().ops =~= s0.ops + fill_ops(start, (j + 1) as nat));
            }
            j = j + 1;
        }
        proof {
            lemma_fill_position(start, FRAME_WIDTH as nat);
        }
        Ok(())
    }

    fn map_sample(sample: u16) -> (r: u16)
        ensures
            r == mapped_sample(sample),
            r < FRAME_HEIGHT,
    {
        let clamped: u16 = if sample > SAMPLE_MAX {
            SAMPLE_MAX
        } else {
            sample
        };
        proof {
            lemma_mapped_sample_bound(sample);
            lemma_mul_inequality(clamped as int, 3450, 299);
        }
        map(clamped as u32, SAMPLE_MIN as u32, SAMPLE_MAX as u32, 0, (FRAME_HEIGHT - 1) as u32) as u16
    }
}

} // verus!
