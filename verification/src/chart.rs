//! A small bar chart: one bar, one pixel wide, for each value.

use vstd::prelude::*;
use crate::canvas::{lemma_paint_concat, lemma_paint_push, paint, Canvas, Dot, Outcome};
use crate::color::Rgba;
use crate::error::RenderError;
use crate::geometry::{Point, CELL_HEIGHT, COORD_LIMIT, MAX_ITEMS};

verus! {

/// No bar is higher than this, whatever its value.
pub const BAR_CAP: u32 = 8;

/// The height in which a chart anchors its bars unless it is given another.
pub const CHART_HEIGHT: u8 = 8;

/// Height of the bar for `value`: one more than the value, up to the cap.
pub open spec fn bar_height(value: u32) -> int {
    if value + 1 < BAR_CAP {
        value + 1
    } else {
        BAR_CAP as int
    }
}

/// The colour of a bar that has reached the cap.
pub open spec fn accent() -> Rgba {
    Rgba::opaque(255, 0, 0)
}

/// The colour of a bar below the cap that is higher than one pixel.
pub open spec fn bright() -> Rgba {
    Rgba::opaque(255, 255, 255)
}

/// The colour of a bar of one pixel.
pub open spec fn dim() -> Rgba {
    Rgba::opaque(85, 85, 85)
}

/// The colour of a bar of the given height.
pub open spec fn bar_color(height: int) -> Rgba {
    if height >= BAR_CAP {
        accent()
    } else if height > 1 {
        bright()
    } else {
        dim()
    }
}

/// The dots of the bar for `value` in column `x`, standing on the row above `bottom`,
/// from its top pixel down.
pub open spec fn bar_dots(value: u32, x: int, bottom: int) -> Seq<Dot> {
    Seq::new(
        bar_height(value) as nat,
        |k: int| Dot { x, y: bottom - bar_height(value) + k, color: bar_color(bar_height(value)) },
    )
}

/// The dots of the bars for the first `n` values, the bar of value `i` in column `x + i`.
pub open spec fn chart_dots(data: Seq<u32>, x: int, bottom: int, n: nat) -> Seq<Dot>
    decreases n,
{
    if n == 0 {
        Seq::empty()
    } else {
        chart_dots(data, x, bottom, (n - 1) as nat) + bar_dots(data[n - 1], x + n - 1, bottom)
    }
}

/// Number of dots that the bars before bar `i` take.
pub open spec fn bar_start(data: Seq<u32>, i: nat) -> int
    decreases i,
{
    if i == 0 {
        0
    } else {
        bar_start(data, (i - 1) as nat) + bar_height(data[i - 1])
    }
}

pub proof fn lemma_chart_dots_len(data: Seq<u32>, x: int, bottom: int, n: nat)
    ensures
        chart_dots(data, x, bottom, n).len() == bar_start(data, n),
    decreases n,
{
    if n > 0 {
        lemma_chart_dots_len(data, x, bottom, (n - 1) as nat);
    }
}

/// The bars of a chart are painted from left to right in the order of the values: the
/// dots of bar `i` follow those of the bars before it, and there are as many of them as
/// the bar is high, one more than the value up to the cap. They fill column `x + i` from
/// the top of the bar down to the row above `bottom`, in the colour of that height.
pub proof fn lemma_chart_bars(data: Seq<u32>, x: int, bottom: int, i: nat, k: int)
    requires
        i < data.len(),
        0 <= k < bar_height(data[i as int]),
    ensures
        bar_height(data[i as int]) == if data[i as int] + 1 < 8 { data[i as int] + 1 } else { 8 },
        bar_start(data, i) + bar_height(data[i as int]) == bar_start(data, i + 1),
        bar_start(data, i + 1) <= chart_dots(data, x, bottom, data.len()).len(),
        0 <= bar_start(data, i),
        chart_dots(data, x, bottom, data.len())[bar_start(data, i) + k] == (Dot {
            x: x + i,
            y: bottom - bar_height(data[i as int]) + k,
            color: bar_color(bar_height(data[i as int])),
        }),
{
    lemma_chart_prefix(data, x, bottom, i + 1, data.len());
    lemma_chart_dots_len(data, x, bottom, i);
    lemma_chart_dots_len(data, x, bottom, i + 1);
    lemma_bar_start_nonnegative(data, i);
    let whole = chart_dots(data, x, bottom, data.len());
    let upto = chart_dots(data, x, bottom, i + 1);
    let at = bar_start(data, i) + k;
    assert(whole.take(upto.len() as int)[at] == whole[at]);
    assert(upto[at] == bar_dots(data[i as int], x + i, bottom)[k]);
}

proof fn lemma_bar_start_nonnegative(data: Seq<u32>, i: nat)
    ensures
        0 <= bar_start(data, i),
    decreases i,
{
    if i > 0 {
        lemma_bar_start_nonnegative(data, (i - 1) as nat);
    }
}

/// The dots of the first `m` bars open the dots of the first `n`.
proof fn lemma_chart_prefix(data: Seq<u32>, x: int, bottom: int, m: nat, n: nat)
    requires
        m <= n,
    ensures
        chart_dots(data, x, bottom, m).len() <= chart_dots(data, x, bottom, n).len(),
        chart_dots(data, x, bottom, n).take(chart_dots(data, x, bottom, m).len() as int) == chart_dots(
            data,
            x,
            bottom,
            m,
        ),
    decreases n,
{
    if m < n {
        lemma_chart_prefix(data, x, bottom, m, (n - 1) as nat);
        let shorter = chart_dots(data, x, bottom, (n - 1) as nat);
        let whole = chart_dots(data, x, bottom, n);
        let len = chart_dots(data, x, bottom, m).len() as int;
        assert(whole.take(len) =~= shorter.take(len));
    } else {
        let whole = chart_dots(data, x, bottom, n);
        assert(whole.take(whole.len() as int) =~= whole);
    }
}

/// A bar chart of non-negative values.
pub struct ChartWidget {
    pub data: Vec<u32>,
    /// The height in which the bars are anchored: they stand on its last row. It does not
    /// limit the bars, and the chart's measured height does not follow it.
    pub height: u8,
}

impl ChartWidget {
    /// A chart of the given values, anchored in the usual height.
    pub fn new(data: Vec<u32>) -> (widget: ChartWidget)
        ensures
            widget.data@ == data@,
            widget.height == CHART_HEIGHT,
    {
        ChartWidget { data, height: CHART_HEIGHT }
    }

    /// The chart has few enough values to be measured and painted.
    pub open spec fn wf(&self) -> bool {
        self.data@.len() <= MAX_ITEMS
    }

    /// The size of the chart: one column for each value, and one cell high.
    pub open spec fn size(&self) -> (int, int) {
        (self.data@.len() as int, CELL_HEIGHT as int)
    }

    /// What painting the chart at `(x, y)` does. A chart without values paints nothing,
    /// and no chart fails.
    pub open spec fn outcome(&self, x: int, y: int, frame: nat) -> Outcome {
        Outcome::painted(chart_dots(self.data@, x, y + self.height, self.data@.len()))
    }

    pub fn measure(&self) -> (size: Point)
        requires
            self.wf(),
        ensures
            size.x == self.data@.len(),
            size.y == CELL_HEIGHT,
            (size.x as int, size.y as int) == self.size(),
    {
        Point { x: self.data.len() as i64, y: CELL_HEIGHT }
    }

    /// A chart is the same in every frame.
    pub fn frame_count(&self) -> (frames: u32)
        ensures
            frames == 1,
    {
        1
    }

    /// Paints the chart with its top left corner at `origin`.
    pub fn render(&self, canvas: &mut Canvas, origin: Point, frame: u32) -> (result: Result<
        (),
        RenderError,
    >)
        requires
            self.wf(),
            origin.within(COORD_LIMIT as int),
        ensures
            final(canvas).width() == old(canvas).width(),
            final(canvas).height() == old(canvas).height(),
            final(canvas)@ == paint(
                old(canvas)@,
                old(canvas).width() as nat,
                old(canvas).height() as nat,
                self.outcome(origin.x as int, origin.y as int, frame as nat).dots,
            ),
            result == self.outcome(origin.x as int, origin.y as int, frame as nat).result(),
            result is Ok,
    {
        let ghost w = canvas.width() as nat;
        let ghost h = canvas.height() as nat;
        let ghost x0 = origin.x as int;
        let bottom: i64 = origin.y + self.height as i64;
        let mut i: usize = 0;
        while i < self.data.len()
            invariant
                i <= self.data.len(),
                self.wf(),
                origin.within(COORD_LIMIT as int),
                x0 == origin.x,
                bottom == origin.y + self.height,
                canvas.width() == w,
                canvas.height() == h,
                canvas@ == paint(old(canvas)@, w, h, chart_dots(self.data@, x0, bottom as int, i as nat)),
            decreases self.data.len() - i,
        {
            let value: u32 = self.data[i];
            let bar: i64 = if value < BAR_CAP - 1 {
                value as i64 + 1
            } else {
                BAR_CAP as i64
            };
            let color = if bar >= BAR_CAP as i64 {
                Rgba { r: 255, g: 0, b: 0, a: 255 }
            } else if bar > 1 {
                Rgba { r: 255, g: 255, b: 255, a: 255 }
            } else {
                Rgba { r: 85, g: 85, b: 85, a: 255 }
            };
            let column: i64 = origin.x + i as i64;
            let ghost before = canvas@;
            let ghost dots = bar_dots(value, column as int, bottom as int);
            let mut k: i64 = 0;
            while k < bar
                invariant
                    0 <= k <= bar,
                    bar == bar_height(value),
                    color == bar_color(bar as int),
                    dots == bar_dots(value, column as int, bottom as int),
                    origin.within(COORD_LIMIT as int),
                    bottom == origin.y + self.height,
                    column == origin.x + i,
                    i < MAX_ITEMS,
                    canvas.width() == w,
                    canvas.height() == h,
                    canvas@ == paint(before, w, h, dots.take(k as int)),
                decreases bar - k,
            {
                proof {
                    assert(dots.take(k as int + 1) =~= dots.take(k as int).push(dots[k as int]));
                    lemma_paint_push(before, w, h, dots.take(k as int), dots[k as int]);
                }
                canvas.put(column, bottom - bar + k, color);
                k += 1;
            }
            proof {
                assert(dots.take(bar as int) =~= dots);
                lemma_paint_concat(
                    old(canvas)@,
                    w,
                    h,
                    chart_dots(self.data@, x0, bottom as int, i as nat),
                    dots,
                );
            }
            i += 1;
        }
        Ok(())
    }
}

} // verus!
