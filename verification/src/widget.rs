//! The widget tree: texts and charts as leaves, horizontal and vertical stacks around them.
//!
//! Every widget can say how large it is, how many frames it needs, and can paint itself at
//! an origin. A stack owns its children; the tree is not changed once it is built.

use vstd::prelude::*;
use crate::canvas::{lemma_paint_concat, paint, Canvas, Outcome};
use crate::chart::ChartWidget;
use crate::color::{Palette, Rgba};
use crate::error::RenderError;
use crate::font::{Font, Glyph};
use crate::geometry::{
    origin_limit,
    Point,
    CONTENT_WIDTH,
    COORD_LIMIT,
    EMPTY_STACK_HEIGHT,
    LEVEL_SPAN,
    MAX_EXTENT,
    MAX_ITEMS,
};
use crate::layout::{distribute, ints, lemma_offset_bounds, measurable, offset};
use crate::text::{lemma_advance_sum_bounds, TextWidget};

verus! {

/// A node of the widget tree.
pub enum Widget {
    Text(TextWidget),
    Chart(ChartWidget),
    HStack(HStack),
    VStack(VStack),
}

/// Children side by side, spread over the content width.
pub struct HStack {
    pub children: Vec<Widget>,
    /// Kept with the stack; the spreading of the children does not read it.
    pub gap: i32,
    /// Kept with the stack; the spreading of the children does not read it.
    pub expand: bool,
}

/// Children one below the other, a fixed gap apart.
pub struct VStack {
    pub children: Vec<Widget>,
    pub gap: i32,
}

/// The most frames that any of the first `n` children needs, and 1 where there is none.
pub open spec fn most_frames(children: Seq<Widget>, n: nat) -> nat
    decreases children, n,
{
    if n == 0 || n > children.len() {
        1
    } else {
        let before = most_frames(children, (n - 1) as nat);
        let this = children[n - 1].frames();
        if this > before {
            this
        } else {
            before
        }
    }
}

/// The largest height among the first `n` children, and the height of an empty stack
/// where there is none. No widget is lower than an empty stack.
pub open spec fn tallest(children: Seq<Widget>, glyphs: Map<char, Glyph>, n: nat) -> int
    decreases children, n,
{
    if n == 0 || n > children.len() {
        EMPTY_STACK_HEIGHT as int
    } else {
        let before = tallest(children, glyphs, (n - 1) as nat);
        let this = children[n - 1].height(glyphs);
        if this > before {
            this
        } else {
            before
        }
    }
}

/// The largest depth among the first `n` children, and 0 where there is none.
pub open spec fn deepest(children: Seq<Widget>, n: nat) -> nat
    decreases children, n,
{
    if n == 0 || n > children.len() {
        0
    } else {
        let before = deepest(children, (n - 1) as nat);
        let this = children[n - 1].depth();
        if this > before {
            this
        } else {
            before
        }
    }
}

/// There are at most `MAX_ITEMS` children, and each is well formed.
pub open spec fn all_wf(children: Seq<Widget>) -> bool
    decreases children,
{
    &&& children.len() <= MAX_ITEMS
    &&& forall|i: int| 0 <= i < children.len() ==> (#[trigger] children[i]).wf()
}

/// The widths of the children.
pub open spec fn widths_of(children: Seq<Widget>, glyphs: Map<char, Glyph>) -> Seq<int> {
    Seq::new(children.len(), |i: int| children[i].width(glyphs))
}

/// What painting the first `n` children of a horizontal stack does. Child `i` is painted
/// at the offset that the spreading of the content width gives it, in the stack's own row.
/// The children are painted in order, and the first that fails ends the painting.
pub open spec fn row_outcome(
    children: Seq<Widget>,
    glyphs: Map<char, Glyph>,
    colors: Map<Seq<char>, Rgba>,
    x: int,
    y: int,
    frame: nat,
    n: nat,
) -> Outcome
    decreases children, n,
{
    if n == 0 || n > children.len() {
        Outcome::nothing()
    } else {
        row_outcome(children, glyphs, colors, x, y, frame, (n - 1) as nat).followed_by(
            children[n - 1].outcome(
                glyphs,
                colors,
                x + offset(CONTENT_WIDTH as int, widths_of(children, glyphs), n - 1),
                y,
                frame,
            ),
        )
    }
}

/// How far below the origin of a vertical stack child `n` starts: the heights of the
/// children before it, and the gap after each of them.
pub open spec fn drop_of(children: Seq<Widget>, glyphs: Map<char, Glyph>, gap: int, n: nat) -> int
    decreases children, n,
{
    if n == 0 || n > children.len() {
        0
    } else {
        drop_of(children, glyphs, gap, (n - 1) as nat) + children[n - 1].height(glyphs) + gap
    }
}

/// What painting the first `n` children of a vertical stack does. Child `i` is painted in
/// the stack's own column, below the children before it. The children are painted in
/// order, and the first that fails ends the painting.
pub open spec fn column_outcome(
    children: Seq<Widget>,
    glyphs: Map<char, Glyph>,
    colors: Map<Seq<char>, Rgba>,
    gap: int,
    x: int,
    y: int,
    frame: nat,
    n: nat,
) -> Outcome
    decreases children, n,
{
    if n == 0 || n > children.len() {
        Outcome::nothing()
    } else {
        column_outcome(children, glyphs, colors, gap, x, y, frame, (n - 1) as nat).followed_by(
            children[n - 1].outcome(
                glyphs,
                colors,
                x,
                y + drop_of(children, glyphs, gap, (n - 1) as nat),
                frame,
            ),
        )
    }
}

impl Widget {
    /// The widget's width: that of its content for a leaf, the content width for a stack.
    pub open spec fn width(&self, glyphs: Map<char, Glyph>) -> int {
        match self {
            Widget::Text(t) => t.size(glyphs).0,
            Widget::Chart(c) => c.size().0,
            Widget::HStack(_) => CONTENT_WIDTH as int,
            Widget::VStack(_) => CONTENT_WIDTH as int,
        }
    }

    /// The widget's height.
    pub open spec fn height(&self, glyphs: Map<char, Glyph>) -> int
        decreases self,
    {
        match self {
            Widget::Text(t) => t.size(glyphs).1,
            Widget::Chart(c) => c.size().1,
            Widget::HStack(h) => tallest(h.children@, glyphs, h.children@.len()),
            Widget::VStack(_) => EMPTY_STACK_HEIGHT as int,
        }
    }

    /// Number of frames that the widget needs: 1 for a leaf, and for a stack as many as
    /// the child that needs most.
    pub open spec fn frames(&self) -> nat
        decreases self,
    {
        match self {
            Widget::Text(_) => 1,
            Widget::Chart(_) => 1,
            Widget::HStack(h) => most_frames(h.children@, h.children@.len()),
            Widget::VStack(v) => most_frames(v.children@, v.children@.len()),
        }
    }

    /// Number of levels of stacks in the tree: 0 for a leaf.
    pub open spec fn depth(&self) -> nat
        decreases self,
    {
        match self {
            Widget::Text(_) => 0,
            Widget::Chart(_) => 0,
            Widget::HStack(h) => 1 + deepest(h.children@, h.children@.len()),
            Widget::VStack(v) => 1 + deepest(v.children@, v.children@.len()),
        }
    }

    /// No widget of the tree holds more than `MAX_ITEMS` items.
    pub open spec fn wf(&self) -> bool
        decreases self,
    {
        match self {
            Widget::Text(t) => t.wf(),
            Widget::Chart(c) => c.wf(),
            Widget::HStack(h) => all_wf(h.children@),
            Widget::VStack(v) => all_wf(v.children@),
        }
    }

    /// The tree can be painted at `origin`: it is well formed, and the origin leaves every
    /// level of stacks the room to place its children.
    pub open spec fn accepts(&self, origin: Point) -> bool {
        self.wf() && origin.within(origin_limit(self.depth()))
    }

    /// What painting the widget with its top left corner at `(x, y)` does.
    pub open spec fn outcome(
        &self,
        glyphs: Map<char, Glyph>,
        colors: Map<Seq<char>, Rgba>,
        x: int,
        y: int,
        frame: nat,
    ) -> Outcome
        decreases self,
    {
        match self {
            Widget::Text(t) => t.outcome(glyphs, colors, x, y, frame),
            Widget::Chart(c) => c.outcome(x, y, frame),
            Widget::HStack(h) => row_outcome(h.children@, glyphs, colors, x, y, frame, h.children@.len()),
            Widget::VStack(v) => column_outcome(
                v.children@,
                glyphs,
                colors,
                v.gap as int,
                x,
                y,
                frame,
                v.children@.len(),
            ),
        }
    }

    /// The widget's size, its width in `x` and its height in `y`.
    pub fn measure(&self, font: &Font) -> (size: Point)
        requires
            self.wf(),
        ensures
            size.x == self.width(font@),
            size.y == self.height(font@),
        decreases self,
    {
        match self {
            Widget::Text(t) => t.measure(font),
            Widget::Chart(c) => c.measure(),
            Widget::HStack(h) => h.measure(font),
            Widget::VStack(v) => v.measure(font),
        }
    }

    /// Number of frames that the widget needs, never less than 1.
    pub fn frame_count(&self) -> (frames: u32)
        ensures
            frames == self.frames(),
            frames >= 1,
        decreases self,
    {
        match self {
            Widget::Text(t) => t.frame_count(),
            Widget::Chart(c) => c.frame_count(),
            Widget::HStack(h) => h.frame_count(),
            Widget::VStack(v) => v.frame_count(),
        }
    }

    /// Paints the widget with its top left corner at `origin`. The canvas changes by the
    /// dots of the widget's outcome and by nothing else; a failure leaves painted what was
    /// painted before it.
    pub fn render(
        &self,
        canvas: &mut Canvas,
        font: &Font,
        palette: &Palette,
        origin: Point,
        frame: u32,
    ) -> (result: Result<(), RenderError>)
        requires
            self.accepts(origin),
        ensures
            final(canvas).width() == old(canvas).width(),
            final(canvas).height() == old(canvas).height(),
            final(canvas)@ == paint(
                old(canvas)@,
                old(canvas).width() as nat,
                old(canvas).height() as nat,
                self.outcome(font@, palette@, origin.x as int, origin.y as int, frame as nat).dots,
            ),
            result == self.outcome(font@, palette@, origin.x as int, origin.y as int, frame as nat).result(),
        decreases self,
    {
        match self {
            Widget::Text(t) => t.render(canvas, font, palette, origin, frame),
            Widget::Chart(c) => c.render(canvas, origin, frame),
            Widget::HStack(h) => h.render(canvas, font, palette, origin, frame),
            Widget::VStack(v) => v.render(canvas, font, palette, origin, frame),
        }
    }

    /// Whether no widget of the tree holds more than `MAX_ITEMS` items.
    pub fn is_wf(&self) -> (ok: bool)
        ensures
            ok == self.wf(),
        decreases self,
    {
        match self {
            Widget::Text(t) => t.text.len() <= MAX_ITEMS,
            Widget::Chart(c) => c.data.len() <= MAX_ITEMS,
            Widget::HStack(h) => children_wf(&h.children),
            Widget::VStack(v) => children_wf(&v.children),
        }
    }

    /// Whether the tree is at most `limit` levels of stacks deep.
    pub fn depth_within(&self, limit: u64) -> (ok: bool)
        ensures
            ok == (self.depth() <= limit),
        decreases self,
    {
        match self {
            Widget::Text(_) => true,
            Widget::Chart(_) => true,
            Widget::HStack(h) => children_within(&h.children, limit),
            Widget::VStack(v) => children_within(&v.children, limit),
        }
    }

    /// Whether the tree can be painted at `origin`: the test to make before `render` on a
    /// tree or an origin of unknown size.
    pub fn admits(&self, origin: Point) -> (ok: bool)
        ensures
            ok == self.accepts(origin),
    {
        if !self.is_wf() {
            return false;
        }
        if origin.x < -COORD_LIMIT || origin.x > COORD_LIMIT || origin.y < -COORD_LIMIT || origin.y
            > COORD_LIMIT {
            proof {
                assert(self.depth() * LEVEL_SPAN >= 0) by (nonlinear_arith);
            }
            return false;
        }
        let across: i64 = if origin.x < 0 {
            -origin.x
        } else {
            origin.x
        };
        let down: i64 = if origin.y < 0 {
            -origin.y
        } else {
            origin.y
        };
        let farthest: i64 = if across > down {
            across
        } else {
            down
        };
        let room: i64 = COORD_LIMIT - farthest;
        let levels: i64 = room / LEVEL_SPAN;
        proof {
            let d = self.depth() as int;
            vstd::arithmetic::div_mod::lemma_fundamental_div_mod(room as int, LEVEL_SPAN as int);
            assert(0 <= room % LEVEL_SPAN < LEVEL_SPAN);
            assert(d <= levels <==> d * LEVEL_SPAN <= room) by (nonlinear_arith)
                requires
                    room == LEVEL_SPAN * levels + room % LEVEL_SPAN,
                    0 <= room % LEVEL_SPAN < LEVEL_SPAN,
                    LEVEL_SPAN > 0,
            ;
            assert(origin.within(origin_limit(self.depth())) <==> farthest <= COORD_LIMIT - d * LEVEL_SPAN);
        }
        self.depth_within(levels as u64)
    }
}

impl HStack {
    /// A stack of the given children, in their order from left to right.
    pub fn new(children: Vec<Widget>) -> (stack: HStack)
        ensures
            stack.children@ == children@,
            stack.gap == 0,
            !stack.expand,
    {
        HStack { children, gap: 0, expand: false }
    }

    /// The stack with another gap.
    pub fn set_gap(self, gap: i32) -> (stack: HStack)
        ensures
            stack.children@ == self.children@,
            stack.gap == gap,
            stack.expand == self.expand,
    {
        HStack { children: self.children, gap, expand: self.expand }
    }

    /// The stack with `expand` set or cleared.
    pub fn set_expand(self, expand: bool) -> (stack: HStack)
        ensures
            stack.children@ == self.children@,
            stack.gap == self.gap,
            stack.expand == expand,
    {
        HStack { children: self.children, gap: self.gap, expand }
    }

    /// The stack's size: the content width, and the height of its tallest child, or of an
    /// empty stack if it has no child.
    pub fn measure(&self, font: &Font) -> (size: Point)
        requires
            all_wf(self.children@),
        ensures
            size.x == CONTENT_WIDTH,
            size.y == tallest(self.children@, font@, self.children@.len()),
        decreases self,
    {
        let mut height: i64 = EMPTY_STACK_HEIGHT;
        let mut i: usize = 0;
        while i < self.children.len()
            invariant
                i <= self.children.len(),
                all_wf(self.children@),
                height == tallest(self.children@, font@, i as nat),
            decreases self.children.len() - i,
        {
            let this = self.children[i].measure(font);
            if this.y > height {
                height = this.y;
            }
            i += 1;
        }
        Point { x: CONTENT_WIDTH, y: height }
    }

    /// Number of frames that the stack needs: as many as the child that needs most, and 1
    /// if it has no child.
    pub fn frame_count(&self) -> (frames: u32)
        ensures
            frames == most_frames(self.children@, self.children@.len()),
            frames >= 1,
        decreases self,
    {
        frame_count_of(&self.children)
    }

    /// Number of levels of stacks in the tree below the stack, the stack itself counted.
    pub open spec fn depth(&self) -> nat {
        1 + deepest(self.children@, self.children@.len())
    }

    /// What painting the stack with its top left corner at `(x, y)` does.
    pub open spec fn outcome(
        &self,
        glyphs: Map<char, Glyph>,
        colors: Map<Seq<char>, Rgba>,
        x: int,
        y: int,
        frame: nat,
    ) -> Outcome {
        row_outcome(self.children@, glyphs, colors, x, y, frame, self.children@.len())
    }

    /// Paints the children side by side, the first at `origin`.
    ///
    /// A stack without children paints nothing. An only child is painted at the origin.
    /// Two or more children are spread over the content width: the room that their widths
    /// leave is divided evenly over the gaps between them, rounded towards zero, and the
    /// last gap takes what is left over. Children that are wider than the content width
    /// overlap.
    #[verifier::loop_isolation(false)]
    pub fn render(
        &self,
        canvas: &mut Canvas,
        font: &Font,
        palette: &Palette,
        origin: Point,
        frame: u32,
    ) -> (result: Result<(), RenderError>)
        requires
            all_wf(self.children@),
            origin.within(origin_limit(self.depth())),
        ensures
            final(canvas).width() == old(canvas).width(),
            final(canvas).height() == old(canvas).height(),
            final(canvas)@ == paint(
                old(canvas)@,
                old(canvas).width() as nat,
                old(canvas).height() as nat,
                self.outcome(font@, palette@, origin.x as int, origin.y as int, frame as nat).dots,
            ),
            result == self.outcome(font@, palette@, origin.x as int, origin.y as int, frame as nat).result(),
        decreases self,
    {
        let n: usize = self.children.len();
        let ghost w = canvas.width() as nat;
        let ghost h = canvas.height() as nat;
        let ghost kids = self.children@;
        let ghost ws = widths_of(kids, font@);
        let ghost x0 = origin.x as int;
        let ghost y0 = origin.y as int;
        proof {
            lemma_widths_measurable(kids, font@);
        }
        if n == 0 {
            return Ok(());
        }
        if n == 1 {
            proof {
                lemma_child_depth(kids, 1, 0);
                lemma_child_room(self.depth(), kids[0].depth());
                let only = kids[0].outcome(font@, palette@, x0, y0, frame as nat);
                assert(row_outcome(kids, font@, palette@, x0, y0, frame as nat, 0) == Outcome::nothing());
                assert(offset(CONTENT_WIDTH as int, ws, 0) == 0);
                assert(Outcome::nothing().followed_by(only).dots =~= only.dots);
            }
            return self.children[0].render(canvas, font, palette, origin, frame);
        }
        let mut widths: Vec<i64> = Vec::new();
        let mut m: usize = 0;
        while m < n
            invariant
                m <= n,
                widths@.len() == m,
                forall|j: int| 0 <= j < m ==> (#[trigger] widths@[j]) as int == ws[j],
            decreases n - m,
        {
            let size = self.children[m].measure(font);
            widths.push(size.x);
            m += 1;
        }
        assert(ints(widths@) =~= ws);
        let gaps = distribute(CONTENT_WIDTH, &widths);
        assert(gaps@.len() == ints(gaps@).len());
        let mut x: i64 = origin.x;
        let mut i: usize = 0;
        while i < n
            invariant
                i <= n,
                x == x0 + offset(CONTENT_WIDTH as int, ws, i as int) || i == n,
                canvas.width() == w,
                canvas.height() == h,
                row_outcome(kids, font@, palette@, x0, y0, frame as nat, i as nat).error is None,
                canvas@ == paint(
                    old(canvas)@,
                    w,
                    h,
                    row_outcome(kids, font@, palette@, x0, y0, frame as nat, i as nat).dots,
                ),
            decreases n - i,
        {
            let ghost before = row_outcome(kids, font@, palette@, x0, y0, frame as nat, i as nat);
            let ghost this = kids[i as int].outcome(font@, palette@, x as int, y0, frame as nat);
            proof {
                lemma_child_depth(kids, n as nat, i as int);
                lemma_child_room(self.depth(), kids[i as int].depth());
                lemma_offset_bounds(CONTENT_WIDTH as int, ws, i as int);
                assert(row_outcome(kids, font@, palette@, x0, y0, frame as nat, (i + 1) as nat)
                    == before.followed_by(this));
            }
            let result = self.children[i].render(canvas, font, palette, Point { x, y: origin.y }, frame);
            proof {
                lemma_paint_concat(old(canvas)@, w, h, before.dots, this.dots);
            }
            match result {
                Err(e) => {
                    proof {
                        lemma_row_stops(kids, font@, palette@, x0, y0, frame as nat, (i + 1) as nat, n as nat);
                    }
                    return Err(e);
                },
                Ok(()) => {},
            }
            if i + 1 < n {
                proof {
                    lemma_offset_bounds(CONTENT_WIDTH as int, ws, i as int + 1);
                    assert(gaps@[i as int] as int == ints(gaps@)[i as int]);
                    assert(widths@[i as int] as int == ws[i as int]);
                }
                x = x + widths[i] + gaps[i];
            }
            i += 1;
        }
        Ok(())
    }
}

impl VStack {
    /// A stack of the given children, in their order from the top down.
    pub fn new(children: Vec<Widget>) -> (stack: VStack)
        ensures
            stack.children@ == children@,
            stack.gap == 0,
    {
        VStack { children, gap: 0 }
    }

    /// The stack with another gap between its children.
    pub fn set_gap(self, gap: i32) -> (stack: VStack)
        ensures
            stack.children@ == self.children@,
            stack.gap == gap,
    {
        VStack { children: self.children, gap }
    }

    /// The size that a vertical stack reports: the content width and the height of an
    /// empty stack, whatever its children are. To know how high the children stand
    /// together, measure them one by one.
    pub fn measure(&self, font: &Font) -> (size: Point)
        ensures
            size.x == CONTENT_WIDTH,
            size.y == EMPTY_STACK_HEIGHT,
    {
        Point { x: CONTENT_WIDTH, y: EMPTY_STACK_HEIGHT }
    }

    /// Number of frames that the stack needs: as many as the child that needs most, and 1
    /// if it has no child.
    pub fn frame_count(&self) -> (frames: u32)
        ensures
            frames == most_frames(self.children@, self.children@.len()),
            frames >= 1,
        decreases self,
    {
        frame_count_of(&self.children)
    }

    /// Number of levels of stacks in the tree below the stack, the stack itself counted.
    pub open spec fn depth(&self) -> nat {
        1 + deepest(self.children@, self.children@.len())
    }

    /// What painting the stack with its top left corner at `(x, y)` does.
    pub open spec fn outcome(
        &self,
        glyphs: Map<char, Glyph>,
        colors: Map<Seq<char>, Rgba>,
        x: int,
        y: int,
        frame: nat,
    ) -> Outcome {
        column_outcome(self.children@, glyphs, colors, self.gap as int, x, y, frame, self.children@.len())
    }

    /// Paints the children one below the other, the first at `origin`: each child starts
    /// below the one before it by that child's height and the stack's gap.
    #[verifier::loop_isolation(false)]
    pub fn render(
        &self,
        canvas: &mut Canvas,
        font: &Font,
        palette: &Palette,
        origin: Point,
        frame: u32,
    ) -> (result: Result<(), RenderError>)
        requires
            all_wf(self.children@),
            origin.within(origin_limit(self.depth())),
        ensures
            final(canvas).width() == old(canvas).width(),
            final(canvas).height() == old(canvas).height(),
            final(canvas)@ == paint(
                old(canvas)@,
                old(canvas).width() as nat,
                old(canvas).height() as nat,
                self.outcome(font@, palette@, origin.x as int, origin.y as int, frame as nat).dots,
            ),
            result == self.outcome(font@, palette@, origin.x as int, origin.y as int, frame as nat).result(),
        decreases self,
    {
        let n: usize = self.children.len();
        let ghost w = canvas.width() as nat;
        let ghost h = canvas.height() as nat;
        let ghost kids = self.children@;
        let ghost gap = self.gap as int;
        let ghost x0 = origin.x as int;
        let ghost y0 = origin.y as int;
        let mut y: i64 = origin.y;
        let mut i: usize = 0;
        while i < n
            invariant
                i <= n,
                y == y0 + drop_of(kids, font@, gap, i as nat),
                canvas.width() == w,
                canvas.height() == h,
                column_outcome(kids, font@, palette@, gap, x0, y0, frame as nat, i as nat).error is None,
                canvas@ == paint(
                    old(canvas)@,
                    w,
                    h,
                    column_outcome(kids, font@, palette@, gap, x0, y0, frame as nat, i as nat).dots,
                ),
            decreases n - i,
        {
            let ghost before = column_outcome(kids, font@, palette@, gap, x0, y0, frame as nat, i as nat);
            let ghost this = kids[i as int].outcome(font@, palette@, x0, y as int, frame as nat);
            proof {
                lemma_child_depth(kids, n as nat, i as int);
                lemma_child_room(self.depth(), kids[i as int].depth());
                lemma_drop_bounds(kids, font@, gap, i as nat);
                lemma_drop_bounds(kids, font@, gap, (i + 1) as nat);
                lemma_size_bounds(kids[i as int], font@);
                assert(column_outcome(kids, font@, palette@, gap, x0, y0, frame as nat, (i + 1) as nat)
                    == before.followed_by(this));
            }
            let child = &self.children[i];
            let result = child.render(canvas, font, palette, Point { x: origin.x, y }, frame);
            proof {
                lemma_paint_concat(old(canvas)@, w, h, before.dots, this.dots);
            }
            match result {
                Err(e) => {
                    proof {
                        lemma_column_stops(
                            kids,
                            font@,
                            palette@,
                            gap,
                            x0,
                            y0,
                            frame as nat,
                            (i + 1) as nat,
                            n as nat,
                        );
                    }
                    return Err(e);
                },
                Ok(()) => {},
            }
            let size = child.measure(font);
            y = y + size.y + self.gap as i64;
            i += 1;
        }
        Ok(())
    }
}

/// The most frames that any of the children needs, and 1 without children.
fn frame_count_of(children: &Vec<Widget>) -> (frames: u32)
    ensures
        frames == most_frames(children@, children@.len()),
        frames >= 1,
    decreases children,
{
    let mut frames: u32 = 1;
    let mut i: usize = 0;
    while i < children.len()
        invariant
            i <= children.len(),
            frames == most_frames(children@, i as nat),
            frames >= 1,
        decreases children.len() - i,
    {
        let this = children[i].frame_count();
        if this > frames {
            frames = this;
        }
        i += 1;
    }
    frames
}

/// Whether there are at most `MAX_ITEMS` children and each is well formed.
fn children_wf(children: &Vec<Widget>) -> (ok: bool)
    ensures
        ok == all_wf(children@),
    decreases children,
{
    if children.len() > MAX_ITEMS {
        return false;
    }
    let mut i: usize = 0;
    while i < children.len()
        invariant
            i <= children.len(),
            children.len() <= MAX_ITEMS,
            forall|j: int| 0 <= j < i ==> (#[trigger] children@[j]).wf(),
        decreases children.len() - i,
    {
        if !children[i].is_wf() {
            return false;
        }
        i += 1;
    }
    true
}

/// Whether the stack that holds these children is at most `limit` levels deep.
fn children_within(children: &Vec<Widget>, limit: u64) -> (ok: bool)
    ensures
        ok == (1 + deepest(children@, children@.len()) <= limit),
    decreases children,
{
    if limit == 0 {
        return false;
    }
    let mut i: usize = 0;
    while i < children.len()
        invariant
            i <= children.len(),
            limit > 0,
            forall|j: int| 0 <= j < i ==> (#[trigger] children@[j]).depth() <= limit - 1,
        decreases children.len() - i,
    {
        if !children[i].depth_within(limit - 1) {
            proof {
                lemma_child_depth(children@, children@.len(), i as int);
            }
            return false;
        }
        i += 1;
    }
    proof {
        lemma_deepest_below(children@, children@.len(), (limit - 1) as nat);
    }
    true
}

/// A child is no deeper than the deepest of the children counted with it.
pub proof fn lemma_child_depth(children: Seq<Widget>, n: nat, i: int)
    requires
        0 <= i < n <= children.len(),
    ensures
        children[i].depth() <= deepest(children, n),
    decreases n,
{
    if i < n - 1 {
        lemma_child_depth(children, (n - 1) as nat, i);
    }
}

/// A tree that is one level shallower may start a whole level farther out.
pub proof fn lemma_child_room(parent: nat, child: nat)
    requires
        child < parent,
    ensures
        origin_limit(child) >= origin_limit(parent) + LEVEL_SPAN,
{
    assert(child * LEVEL_SPAN + LEVEL_SPAN <= parent * LEVEL_SPAN) by (nonlinear_arith)
        requires
            child < parent,
    ;
}

/// A well-formed widget is at most `MAX_EXTENT` wide, and as high as an empty stack or a
/// cell.
pub proof fn lemma_size_bounds(widget: Widget, glyphs: Map<char, Glyph>)
    requires
        widget.wf(),
    ensures
        0 <= widget.width(glyphs) <= MAX_EXTENT,
        widget.height(glyphs) == 5 || widget.height(glyphs) == 8,
    decreases widget,
{
    match widget {
        Widget::Text(t) => {
            lemma_advance_sum_bounds(glyphs, t.text@);
        },
        Widget::Chart(c) => {},
        Widget::HStack(h) => {
            lemma_tallest_bounds(h.children@, glyphs, h.children@.len());
        },
        Widget::VStack(v) => {},
    }
}

/// The tallest of well-formed children is as high as an empty stack or a cell.
pub proof fn lemma_tallest_bounds(children: Seq<Widget>, glyphs: Map<char, Glyph>, n: nat)
    requires
        all_wf(children),
    ensures
        tallest(children, glyphs, n) == 5 || tallest(children, glyphs, n) == 8,
    decreases children, n,
{
    if n == 0 || n > children.len() {
    } else {
        lemma_tallest_bounds(children, glyphs, (n - 1) as nat);
        lemma_size_bounds(children[n - 1], glyphs);
    }
}

/// The widths of well-formed children can be spread.
pub proof fn lemma_widths_measurable(children: Seq<Widget>, glyphs: Map<char, Glyph>)
    requires
        all_wf(children),
    ensures
        measurable(widths_of(children, glyphs)),
{
    let ws = widths_of(children, glyphs);
    assert forall|i: int| 0 <= i < ws.len() implies 0 <= #[trigger] ws[i] <= MAX_EXTENT by {
        lemma_size_bounds(children[i], glyphs);
    }
}

/// No child of a vertical stack of well-formed children starts farther below the stack's
/// origin, or above it, than one level of stacking allows for.
pub proof fn lemma_drop_bounds(children: Seq<Widget>, glyphs: Map<char, Glyph>, gap: int, n: nat)
    requires
        all_wf(children),
        n <= children.len(),
        i32::MIN <= gap <= i32::MAX,
    ensures
        -n * 0x8000_0000 <= drop_of(children, glyphs, gap, n) <= n * 0x8000_0008,
        -LEVEL_SPAN <= drop_of(children, glyphs, gap, n) <= LEVEL_SPAN,
    decreases n,
{
    if n > 0 {
        lemma_drop_bounds(children, glyphs, gap, (n - 1) as nat);
        lemma_size_bounds(children[n - 1], glyphs);
    }
    assert(n * 0x8000_0008 <= LEVEL_SPAN && -LEVEL_SPAN <= -n * 0x8000_0000) by (nonlinear_arith)
        requires
            n <= MAX_ITEMS,
    ;
}

/// Once a child of a horizontal stack has failed, the children after it change nothing.
pub proof fn lemma_row_stops(
    children: Seq<Widget>,
    glyphs: Map<char, Glyph>,
    colors: Map<Seq<char>, Rgba>,
    x: int,
    y: int,
    frame: nat,
    failed: nat,
    n: nat,
)
    requires
        failed <= n <= children.len(),
        row_outcome(children, glyphs, colors, x, y, frame, failed).error is Some,
    ensures
        row_outcome(children, glyphs, colors, x, y, frame, n) == row_outcome(
            children,
            glyphs,
            colors,
            x,
            y,
            frame,
            failed,
        ),
    decreases n,
{
    if failed < n {
        lemma_row_stops(children, glyphs, colors, x, y, frame, failed, (n - 1) as nat);
    }
}

/// Once a child of a vertical stack has failed, the children after it change nothing.
pub proof fn lemma_column_stops(
    children: Seq<Widget>,
    glyphs: Map<char, Glyph>,
    colors: Map<Seq<char>, Rgba>,
    gap: int,
    x: int,
    y: int,
    frame: nat,
    failed: nat,
    n: nat,
)
    requires
        failed <= n <= children.len(),
        column_outcome(children, glyphs, colors, gap, x, y, frame, failed).error is Some,
    ensures
        column_outcome(children, glyphs, colors, gap, x, y, frame, n) == column_outcome(
            children,
            glyphs,
            colors,
            gap,
            x,
            y,
            frame,
            failed,
        ),
    decreases n,
{
    if failed < n {
        lemma_column_stops(children, glyphs, colors, gap, x, y, frame, failed, (n - 1) as nat);
    }
}

/// Children that are each at most `bound` deep are together at most `bound` deep.
pub proof fn lemma_deepest_below(children: Seq<Widget>, n: nat, bound: nat)
    requires
        n <= children.len(),
        forall|i: int| 0 <= i < n ==> (#[trigger] children[i]).depth() <= bound,
    ensures
        deepest(children, n) <= bound,
    decreases n,
{
    if n > 0 {
        lemma_deepest_below(children, (n - 1) as nat, bound);
    }
}

/// The frames of a stack are the maximum of the frames of its children, and 1 without
/// children: no child needs more, and unless the count is 1 some child needs as many.
pub proof fn lemma_most_frames_is_maximum(children: Seq<Widget>)
    ensures
        most_frames(children, children.len()) >= 1,
        children.len() == 0 ==> most_frames(children, children.len()) == 1,
        forall|i: int| 0 <= i < children.len() ==> (#[trigger] children[i]).frames() <= most_frames(
            children,
            children.len(),
        ),
        most_frames(children, children.len()) == 1 || exists|i: int| 0 <= i < children.len() && (
        #[trigger] children[i]).frames() == most_frames(children, children.len()),
{
    lemma_most_frames_upto(children, children.len());
}

proof fn lemma_most_frames_upto(children: Seq<Widget>, n: nat)
    requires
        n <= children.len(),
    ensures
        most_frames(children, n) >= 1,
        forall|i: int| 0 <= i < n ==> (#[trigger] children[i]).frames() <= most_frames(children, n),
        most_frames(children, n) == 1 || exists|i: int| 0 <= i < n && (#[trigger] children[i]).frames()
            == most_frames(children, n),
    decreases n,
{
    if n > 0 {
        lemma_most_frames_upto(children, (n - 1) as nat);
        let before = most_frames(children, (n - 1) as nat);
        let this = children[n - 1].frames();
        if this > before {
            assert(children[n - 1].frames() == most_frames(children, n));
        } else if before != 1 {
            let i = choose|i: int| 0 <= i < n - 1 && (#[trigger] children[i]).frames() == before;
            assert(children[i].frames() == most_frames(children, n));
        }
    }
}

/// A horizontal stack with exactly one child paints that child at the stack's own origin,
/// and nothing else: no gap moves it.
pub proof fn lemma_only_child_at_origin(
    stack: HStack,
    glyphs: Map<char, Glyph>,
    colors: Map<Seq<char>, Rgba>,
    x: int,
    y: int,
    frame: nat,
)
    requires
        stack.children@.len() == 1,
    ensures
        stack.outcome(glyphs, colors, x, y, frame) == stack.children@[0].outcome(glyphs, colors, x, y, frame),
        Widget::HStack(stack).outcome(glyphs, colors, x, y, frame) == stack.children@[0].outcome(
            glyphs,
            colors,
            x,
            y,
            frame,
        ),
{
    let kids = stack.children@;
    let only = kids[0].outcome(glyphs, colors, x, y, frame);
    assert(row_outcome(kids, glyphs, colors, x, y, frame, 0) == Outcome::nothing());
    assert(offset(CONTENT_WIDTH as int, widths_of(kids, glyphs), 0) == 0);
    assert(Outcome::nothing().followed_by(only).dots =~= only.dots);
}

/// A failure is not swallowed by a horizontal stack: if child `i` fails and the children
/// before it do not, the stack fails with the child's error.
pub proof fn lemma_row_failure_propagates(
    children: Seq<Widget>,
    glyphs: Map<char, Glyph>,
    colors: Map<Seq<char>, Rgba>,
    x: int,
    y: int,
    frame: nat,
    i: int,
)
    requires
        0 <= i < children.len(),
        row_outcome(children, glyphs, colors, x, y, frame, i as nat).error is None,
        children[i].outcome(
            glyphs,
            colors,
            x + offset(CONTENT_WIDTH as int, widths_of(children, glyphs), i),
            y,
            frame,
        ).error is Some,
    ensures
        row_outcome(children, glyphs, colors, x, y, frame, children.len()).error == children[i].outcome(
            glyphs,
            colors,
            x + offset(CONTENT_WIDTH as int, widths_of(children, glyphs), i),
            y,
            frame,
        ).error,
{
    lemma_row_stops(children, glyphs, colors, x, y, frame, (i + 1) as nat, children.len());
}

/// A failure is not swallowed by a vertical stack: if child `i` fails and the children
/// before it do not, the stack fails with the child's error.
pub proof fn lemma_column_failure_propagates(
    children: Seq<Widget>,
    glyphs: Map<char, Glyph>,
    colors: Map<Seq<char>, Rgba>,
    gap: int,
    x: int,
    y: int,
    frame: nat,
    i: int,
)
    requires
        0 <= i < children.len(),
        column_outcome(children, glyphs, colors, gap, x, y, frame, i as nat).error is None,
        children[i].outcome(glyphs, colors, x, y + drop_of(children, glyphs, gap, i as nat), frame).error is Some,
    ensures
        column_outcome(children, glyphs, colors, gap, x, y, frame, children.len()).error
            == children[i].outcome(
            glyphs,
            colors,
            x,
            y + drop_of(children, glyphs, gap, i as nat),
            frame,
        ).error,
{
    lemma_column_stops(children, glyphs, colors, gap, x, y, frame, (i + 1) as nat, children.len());
}

/// What a widget paints does not depend on the frame: every frame of a tree is the same.
pub proof fn lemma_same_in_every_frame(
    widget: Widget,
    glyphs: Map<char, Glyph>,
    colors: Map<Seq<char>, Rgba>,
    x: int,
    y: int,
    frame: nat,
    other: nat,
)
    ensures
        widget.outcome(glyphs, colors, x, y, frame) == widget.outcome(glyphs, colors, x, y, other),
    decreases widget,
{
    match widget {
        Widget::Text(t) => {},
        Widget::Chart(c) => {},
        Widget::HStack(h) => {
            lemma_row_same_in_every_frame(h.children@, glyphs, colors, x, y, frame, other, h.children@.len());
        },
        Widget::VStack(v) => {
            lemma_column_same_in_every_frame(
                v.children@,
                glyphs,
                colors,
                v.gap as int,
                x,
                y,
                frame,
                other,
                v.children@.len(),
            );
        },
    }
}

proof fn lemma_row_same_in_every_frame(
    children: Seq<Widget>,
    glyphs: Map<char, Glyph>,
    colors: Map<Seq<char>, Rgba>,
    x: int,
    y: int,
    frame: nat,
    other: nat,
    n: nat,
)
    ensures
        row_outcome(children, glyphs, colors, x, y, frame, n) == row_outcome(
            children,
            glyphs,
            colors,
            x,
            y,
            other,
            n,
        ),
    decreases children, n,
{
    if n == 0 || n > children.len() {
    } else {
        lemma_row_same_in_every_frame(children, glyphs, colors, x, y, frame, other, (n - 1) as nat);
        lemma_same_in_every_frame(
            children[n - 1],
            glyphs,
            colors,
            x + offset(CONTENT_WIDTH as int, widths_of(children, glyphs), n - 1),
            y,
            frame,
            other,
        );
    }
}

proof fn lemma_column_same_in_every_frame(
    children: Seq<Widget>,
    glyphs: Map<char, Glyph>,
    colors: Map<Seq<char>, Rgba>,
    gap: int,
    x: int,
    y: int,
    frame: nat,
    other: nat,
    n: nat,
)
    ensures
        column_outcome(children, glyphs, colors, gap, x, y, frame, n) == column_outcome(
            children,
            glyphs,
            colors,
            gap,
            x,
            y,
            other,
            n,
        ),
    decreases children, n,
{
    if n == 0 || n > children.len() {
    } else {
        lemma_column_same_in_every_frame(children, glyphs, colors, gap, x, y, frame, other, (n - 1) as nat);
        lemma_same_in_every_frame(
            children[n - 1],
            glyphs,
            colors,
            x,
            y + drop_of(children, glyphs, gap, (n - 1) as nat),
            frame,
            other,
        );
    }
}

} // verus!
