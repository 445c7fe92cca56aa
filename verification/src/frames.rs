//! From rows of text to frames: the tree that shows the rows, and the pixel buffers, one
//! for each frame, that painting the tree gives.

use vstd::prelude::*;
use vstd::string::StringExecFns;
use crate::canvas::{blank, dots_within, lemma_paint_leaves_outside, paint, rgba_bytes, Canvas};
use crate::color::{Palette, Rgba};
use crate::error::RenderError;
use crate::font::{tidy, Font, Glyph};
use crate::geometry::{
    origin_limit,
    Point,
    BORDER,
    CELL_HEIGHT,
    CONTENT_WIDTH,
    DISPLAY_HEIGHT,
    DISPLAY_WIDTH,
    MAX_ITEMS,
};
use crate::arith::lemma_quotient_towards_zero;
use crate::layout::{base_gap, extra_room, gap_after, gap_count, offset, remainder, sum};
use crate::text::{advance_sum, lemma_advance_sum_bounds, lemma_run_within_measure, TextWidget};
use crate::widget::{column_outcome, drop_of, lemma_deepest_below, row_outcome, tallest, widths_of, HStack, VStack, Widget};

verus! {

/// The gap between the two texts of a row, and between one row and the next.
pub const ROW_GAP: i32 = 2;

/// One row of the display: a label and, beside it, the time that remains.
pub struct DisplayRow {
    pub label: String,
    pub remaining: String,
}

/// The character of a decimal digit.
pub open spec fn digit(d: int) -> char {
    if d == 0 {
        '0'
    } else if d == 1 {
        '1'
    } else if d == 2 {
        '2'
    } else if d == 3 {
        '3'
    } else if d == 4 {
        '4'
    } else if d == 5 {
        '5'
    } else if d == 6 {
        '6'
    } else if d == 7 {
        '7'
    } else if d == 8 {
        '8'
    } else {
        '9'
    }
}

/// A number in decimal digits, without leading zeros.
pub open spec fn decimal(n: nat) -> Seq<char>
    decreases n,
{
    if n < 10 {
        seq![digit(n as int)]
    } else {
        decimal(n / 10).push(digit((n % 10) as int))
    }
}

/// What a row shows for a bus that is `minutes` away.
pub open spec fn minutes_text(minutes: u32) -> Seq<char> {
    decimal(minutes as nat) + " min"@
}

/// One decimal digit as text.
fn digit_text(d: u32) -> (text: &'static str)
    requires
        d < 10,
    ensures
        text@ == seq![digit(d as int)],
{
    proof {
        reveal_strlit("0");
        reveal_strlit("1");
        reveal_strlit("2");
        reveal_strlit("3");
        reveal_strlit("4");
        reveal_strlit("5");
        reveal_strlit("6");
        reveal_strlit("7");
        reveal_strlit("8");
        reveal_strlit("9");
    }
    let text = if d == 0 {
        "0"
    } else if d == 1 {
        "1"
    } else if d == 2 {
        "2"
    } else if d == 3 {
        "3"
    } else if d == 4 {
        "4"
    } else if d == 5 {
        "5"
    } else if d == 6 {
        "6"
    } else if d == 7 {
        "7"
    } else if d == 8 {
        "8"
    } else {
        "9"
    };
    assert(text@ =~= seq![digit(d as int)]);
    text
}

/// Writes a number in decimal digits behind a text.
pub fn append_decimal(text: &mut String, n: u32)
    ensures
        final(text)@ == old(text)@ + decimal(n as nat),
    decreases n,
{
    if n >= 10 {
        append_decimal(text, n / 10);
    }
    text.append(digit_text(n % 10));
    proof {
        if n >= 10 {
            assert(final(text)@ =~= old(text)@ + decimal((n / 10) as nat).push(digit((n % 10) as int)));
        } else {
            assert(final(text)@ =~= old(text)@ + seq![digit(n as int)]);
        }
    }
}

/// The row that shows a line and the minutes until its bus is expected: the name of the
/// line, and the minutes in decimal digits followed by ` min`.
pub fn display_row(line: &str, minutes: u32) -> (row: DisplayRow)
    ensures
        row.label@ == line@,
        row.remaining@ == minutes_text(minutes),
{
    let mut remaining = String::new();
    append_decimal(&mut remaining, minutes);
    remaining.append(" min");
    proof {
        assert(Seq::<char>::empty() + decimal(minutes as nat) =~= decimal(minutes as nat));
    }
    DisplayRow { label: String::from_str(line), remaining }
}

/// The widget is a text of these characters in this colour.
pub open spec fn is_text(widget: Widget, text: Seq<char>, color: Seq<char>) -> bool {
    match widget {
        Widget::Text(t) => t.text@ == text && t.color@ == color,
        _ => false,
    }
}

/// The widget is a horizontal stack of the row's label and its remaining time.
pub open spec fn is_row(widget: Widget, row: DisplayRow, color: Seq<char>) -> bool {
    match widget {
        Widget::HStack(h) => {
            &&& h.gap == ROW_GAP
            &&& !h.expand
            &&& h.children@.len() == 2
            &&& is_text(h.children@[0], row.label@, color)
            &&& is_text(h.children@[1], row.remaining@, color)
        },
        _ => false,
    }
}

/// The widget is a vertical stack of the rows, in their order.
pub open spec fn is_board(widget: Widget, rows: Seq<DisplayRow>, color: Seq<char>) -> bool {
    match widget {
        Widget::VStack(v) => {
            &&& v.gap == ROW_GAP
            &&& v.children@.len() == rows.len()
            &&& forall|i: int| 0 <= i < rows.len() ==> is_row(#[trigger] v.children@[i], rows[i], color)
        },
        _ => false,
    }
}

/// There are at most `MAX_ITEMS` rows and none holds a text of more than `MAX_ITEMS`
/// characters.
pub open spec fn displayable(rows: Seq<DisplayRow>) -> bool {
    &&& rows.len() <= MAX_ITEMS
    &&& forall|i: int|
        0 <= i < rows.len() ==> (#[trigger] rows[i]).label@.len() <= MAX_ITEMS && rows[i].remaining@.len()
            <= MAX_ITEMS
}

/// Where the root of a tree is painted: inside the border, at the top left.
pub open spec fn inset() -> Point {
    Point { x: BORDER, y: BORDER }
}

/// The tree that shows the rows one below the other, each row a label on the left and the
/// remaining time on the right, all in one colour.
pub fn board(rows: &Vec<DisplayRow>, color: &str) -> (root: Widget)
    ensures
        is_board(root, rows@, color@),
        displayable(rows@) ==> root.accepts(inset()),
{
    let mut children: Vec<Widget> = Vec::new();
    let mut i: usize = 0;
    while i < rows.len()
        invariant
            i <= rows.len(),
            children@.len() == i,
            forall|j: int| 0 <= j < i ==> is_row(#[trigger] children@[j], rows@[j], color@),
            forall|j: int| 0 <= j < i ==> (#[trigger] children@[j]).depth() <= 1,
            forall|j: int|
                0 <= j < i && rows@[j].label@.len() <= MAX_ITEMS && rows@[j].remaining@.len() <= MAX_ITEMS
                    ==> (#[trigger] children@[j]).wf(),
        decreases rows.len() - i,
    {
        let label = TextWidget::new(rows[i].label.as_str(), color);
        let remaining = TextWidget::new(rows[i].remaining.as_str(), color);
        let mut pair: Vec<Widget> = Vec::new();
        pair.push(Widget::Text(label));
        pair.push(Widget::Text(remaining));
        let stack = HStack::new(pair).set_gap(ROW_GAP);
        let row = Widget::HStack(stack);
        proof {
            lemma_deepest_below(stack.children@, 2, 0);
            if rows@[i as int].label@.len() <= MAX_ITEMS && rows@[i as int].remaining@.len() <= MAX_ITEMS {
                assert(stack.children@[0].wf());
                assert(stack.children@[1].wf());
                assert(crate::widget::all_wf(stack.children@));
                assert(row.wf());
            }
        }
        children.push(row);
        i += 1;
    }
    let root = Widget::VStack(VStack::new(children).set_gap(ROW_GAP));
    proof {
        lemma_deepest_below(children@, children@.len(), 1);
        assert(origin_limit(root.depth()) >= 2) by {
            assert(root.depth() <= 2);
        }
    }
    root
}

/// The pixels of frame `frame` of a tree: a clear display with the tree painted inside
/// the border.
pub open spec fn frame_pixels(
    root: Widget,
    glyphs: Map<char, Glyph>,
    colors: Map<Seq<char>, Rgba>,
    frame: nat,
) -> Seq<Rgba> {
    paint(
        blank(DISPLAY_WIDTH as nat, DISPLAY_HEIGHT as nat),
        DISPLAY_WIDTH as nat,
        DISPLAY_HEIGHT as nat,
        root.outcome(glyphs, colors, BORDER as int, BORDER as int, frame).dots,
    )
}

/// The failure of the first of the frames before `n` that fails, if one does.
pub open spec fn first_failure(
    root: Widget,
    glyphs: Map<char, Glyph>,
    colors: Map<Seq<char>, Rgba>,
    n: nat,
) -> Option<RenderError>
    decreases n,
{
    if n == 0 {
        None
    } else {
        match first_failure(root, glyphs, colors, (n - 1) as nat) {
            Some(e) => Some(e),
            None => root.outcome(glyphs, colors, BORDER as int, BORDER as int, (n - 1) as nat).error,
        }
    }
}

/// Once a frame has failed, the frames after it do not change the failure.
pub proof fn lemma_first_failure_stays(
    root: Widget,
    glyphs: Map<char, Glyph>,
    colors: Map<Seq<char>, Rgba>,
    failed: nat,
    n: nat,
)
    requires
        failed <= n,
        first_failure(root, glyphs, colors, failed) is Some,
    ensures
        first_failure(root, glyphs, colors, n) == first_failure(root, glyphs, colors, failed),
    decreases n,
{
    if failed < n {
        lemma_first_failure_stays(root, glyphs, colors, failed, (n - 1) as nat);
    }
}

/// Paints every frame of the tree, each on a clear display of its own, and returns the
/// frames in order as bytes, four for each pixel, row by row from the top.
///
/// The result is all frames or none: the first frame that fails ends the render with its
/// error.
pub fn render_frames(root: &Widget, font: &Font, palette: &Palette) -> (result: Result<
    Vec<Vec<u8>>,
    RenderError,
>)
    requires
        root.accepts(inset()),
    ensures
        match result {
            Ok(frames) => {
                &&& first_failure(*root, font@, palette@, root.frames()) is None
                &&& frames@.len() == root.frames()
                &&& forall|i: int|
                    0 <= i < frames@.len() ==> (#[trigger] frames@[i])@ == rgba_bytes(
                        frame_pixels(*root, font@, palette@, i as nat),
                    )
            },
            Err(e) => first_failure(*root, font@, palette@, root.frames()) == Some(e),
        },
{
    let count: u32 = root.frame_count();
    let mut frames: Vec<Vec<u8>> = Vec::new();
    let mut index: u32 = 0;
    while index < count
        invariant
            index <= count,
            count == root.frames(),
            root.accepts(inset()),
            first_failure(*root, font@, palette@, index as nat) is None,
            frames@.len() == index,
            forall|i: int|
                0 <= i < index ==> (#[trigger] frames@[i])@ == rgba_bytes(
                    frame_pixels(*root, font@, palette@, i as nat),
                ),
        decreases count - index,
    {
        let mut canvas = Canvas::new(DISPLAY_WIDTH, DISPLAY_HEIGHT);
        let result = root.render(&mut canvas, font, palette, Point { x: BORDER, y: BORDER }, index);
        match result {
            Err(e) => {
                proof {
                    lemma_first_failure_stays(*root, font@, palette@, (index + 1) as nat, count as nat);
                }
                return Err(e);
            },
            Ok(()) => {},
        }
        frames.push(canvas.to_rgba_bytes());
        index += 1;
    }
    Ok(frames)
}

/// Every frame of a tree holds the same pixels.
pub proof fn lemma_frames_identical(
    root: Widget,
    glyphs: Map<char, Glyph>,
    colors: Map<Seq<char>, Rgba>,
    frame: nat,
    other: nat,
)
    ensures
        frame_pixels(root, glyphs, colors, frame) == frame_pixels(root, glyphs, colors, other),
        rgba_bytes(frame_pixels(root, glyphs, colors, frame)) == rgba_bytes(
            frame_pixels(root, glyphs, colors, other),
        ),
{
    crate::widget::lemma_same_in_every_frame(root, glyphs, colors, BORDER as int, BORDER as int, frame, other);
}

/// The two texts of the row fit side by side in the content width.
pub open spec fn row_fits(glyphs: Map<char, Glyph>, row: DisplayRow) -> bool {
    advance_sum(glyphs, row.label@) + advance_sum(glyphs, row.remaining@) <= CONTENT_WIDTH
}

/// How far below its origin a board of `n` rows ends: each row is a cell high, and a gap
/// lies between one row and the next.
pub open spec fn board_height(n: nat) -> int {
    if n == 0 {
        0
    } else {
        n * (CELL_HEIGHT + ROW_GAP) - ROW_GAP
    }
}

proof fn lemma_text_within(
    widget: Widget,
    text: Seq<char>,
    color: Seq<char>,
    glyphs: Map<char, Glyph>,
    colors: Map<Seq<char>, Rgba>,
    x: int,
    y: int,
    frame: nat,
)
    requires
        is_text(widget, text, color),
        tidy(glyphs),
    ensures
        dots_within(
            widget.outcome(glyphs, colors, x, y, frame).dots,
            x,
            y,
            x + advance_sum(glyphs, text),
            y + CELL_HEIGHT,
        ),
        widget.width(glyphs) == advance_sum(glyphs, text),
        widget.height(glyphs) == CELL_HEIGHT,
{
    if colors.contains_key(color) {
        lemma_run_within_measure(glyphs, text, colors[color], x, y, text.len());
        assert(text.take(text.len() as int) =~= text);
    }
}

proof fn lemma_row_within(
    widget: Widget,
    row: DisplayRow,
    color: Seq<char>,
    glyphs: Map<char, Glyph>,
    colors: Map<Seq<char>, Rgba>,
    x: int,
    y: int,
    frame: nat,
)
    requires
        is_row(widget, row, color),
        tidy(glyphs),
        row_fits(glyphs, row),
    ensures
        dots_within(
            widget.outcome(glyphs, colors, x, y, frame).dots,
            x,
            y,
            x + CONTENT_WIDTH,
            y + CELL_HEIGHT,
        ),
        widget.height(glyphs) == CELL_HEIGHT,
{
    let kids = widget->HStack_0.children@;
    let ws = widths_of(kids, glyphs);
    let left = advance_sum(glyphs, row.label@);
    let right = advance_sum(glyphs, row.remaining@);
    lemma_advance_sum_bounds(glyphs, row.label@);
    lemma_advance_sum_bounds(glyphs, row.remaining@);
    lemma_text_within(kids[0], row.label@, color, glyphs, colors, x, y, frame);
    let second = x + offset(CONTENT_WIDTH as int, ws, 1);
    lemma_text_within(kids[1], row.remaining@, color, glyphs, colors, second, y, frame);
    assert(ws[0] == left && ws[1] == right);
    assert(sum(ws) == left + right) by {
        assert(ws.drop_last().drop_last() =~= Seq::<int>::empty());
        reveal_with_fuel(sum, 3);
    }
    let extra = extra_room(CONTENT_WIDTH as int, ws);
    assert(gap_count(ws) == 1);
    lemma_quotient_towards_zero(extra, 1);
    assert(base_gap(CONTENT_WIDTH as int, ws) == extra);
    assert(remainder(CONTENT_WIDTH as int, ws) == 0);
    assert(gap_after(CONTENT_WIDTH as int, ws, 0) == extra);
    assert(offset(CONTENT_WIDTH as int, ws, 1) == left + extra) by {
        reveal_with_fuel(offset, 3);
    }
    assert(offset(CONTENT_WIDTH as int, ws, 0) == 0);
    let first_outcome = kids[0].outcome(glyphs, colors, x, y, frame);
    let second_outcome = kids[1].outcome(glyphs, colors, second, y, frame);
    let one = row_outcome(kids, glyphs, colors, x, y, frame, 1);
    let two = row_outcome(kids, glyphs, colors, x, y, frame, 2);
    assert(row_outcome(kids, glyphs, colors, x, y, frame, 0) == crate::canvas::Outcome::nothing());
    assert(one == crate::canvas::Outcome::nothing().followed_by(first_outcome));
    assert(one.dots =~= first_outcome.dots);
    assert(two == one.followed_by(second_outcome));
    assert forall|k: int| 0 <= k < two.dots.len() implies x <= (#[trigger] two.dots[k]).x < x + CONTENT_WIDTH
        && y <= two.dots[k].y < y + CELL_HEIGHT by {
        if k < one.dots.len() {
            assert(two.dots[k] == first_outcome.dots[k]);
        } else {
            assert(two.dots[k] == second_outcome.dots[k - one.dots.len()]);
        }
    }
    assert(tallest(kids, glyphs, 2) == CELL_HEIGHT) by {
        reveal_with_fuel(tallest, 3);
    }
}

proof fn lemma_rows_within(
    children: Seq<Widget>,
    rows: Seq<DisplayRow>,
    color: Seq<char>,
    glyphs: Map<char, Glyph>,
    colors: Map<Seq<char>, Rgba>,
    x: int,
    y: int,
    frame: nat,
    n: nat,
)
    requires
        children.len() == rows.len(),
        n <= rows.len(),
        forall|i: int| 0 <= i < rows.len() ==> is_row(#[trigger] children[i], rows[i], color),
        forall|i: int| 0 <= i < rows.len() ==> row_fits(glyphs, #[trigger] rows[i]),
        tidy(glyphs),
    ensures
        drop_of(children, glyphs, ROW_GAP as int, n) == n * (CELL_HEIGHT + ROW_GAP),
        dots_within(
            column_outcome(children, glyphs, colors, ROW_GAP as int, x, y, frame, n).dots,
            x,
            y,
            x + CONTENT_WIDTH,
            y + board_height(n),
        ),
    decreases n,
{
    if n > 0 {
        let i = (n - 1) as int;
        lemma_rows_within(children, rows, color, glyphs, colors, x, y, frame, (n - 1) as nat);
        let top = y + drop_of(children, glyphs, ROW_GAP as int, (n - 1) as nat);
        assert(is_row(children[i], rows[i], color));
        assert(row_fits(glyphs, rows[i]));
        lemma_row_within(children[i], rows[i], color, glyphs, colors, x, top, frame);
        let before = column_outcome(children, glyphs, colors, ROW_GAP as int, x, y, frame, (n - 1) as nat);
        let this = children[i].outcome(glyphs, colors, x, top, frame);
        let whole = column_outcome(children, glyphs, colors, ROW_GAP as int, x, y, frame, n);
        assert(whole == before.followed_by(this));
        assert(n * (CELL_HEIGHT + ROW_GAP) == (n - 1) * (CELL_HEIGHT + ROW_GAP) + (CELL_HEIGHT + ROW_GAP))
            by (nonlinear_arith);
        assert(0 <= (n - 1) * (CELL_HEIGHT + ROW_GAP)) by (nonlinear_arith)
            requires
                n >= 1,
        ;
        assert forall|k: int| 0 <= k < whole.dots.len() implies x <= (#[trigger] whole.dots[k]).x < x
            + CONTENT_WIDTH && y <= whole.dots[k].y < y + board_height(n) by {
            if k < before.dots.len() {
                assert(whole.dots[k] == before.dots[k]);
            } else {
                assert(whole.dots[k] == this.dots[k - before.dots.len()]);
            }
        }
    } else {
        assert(0 * (CELL_HEIGHT + ROW_GAP) == 0) by (nonlinear_arith);
    }
}

/// The rows of a board stand one cell and one gap apart: row `i` is painted as far below
/// the board's origin as `i` times the height of a row and the gap after it, whatever the
/// font and whatever the texts.
pub proof fn lemma_board_rows_spaced(
    root: Widget,
    rows: Seq<DisplayRow>,
    color: Seq<char>,
    glyphs: Map<char, Glyph>,
    i: nat,
)
    requires
        is_board(root, rows, color),
        i <= rows.len(),
    ensures
        drop_of(root->VStack_0.children@, glyphs, root->VStack_0.gap as int, i) == i * (CELL_HEIGHT
            + ROW_GAP),
        i < rows.len() ==> root->VStack_0.children@[i as int].height(glyphs) == CELL_HEIGHT,
    decreases i,
{
    let children = root->VStack_0.children@;
    if i > 0 {
        lemma_board_rows_spaced(root, rows, color, glyphs, (i - 1) as nat);
        assert(i * (CELL_HEIGHT + ROW_GAP) == (i - 1) * (CELL_HEIGHT + ROW_GAP) + (CELL_HEIGHT + ROW_GAP))
            by (nonlinear_arith);
    } else {
        assert(0 * (CELL_HEIGHT + ROW_GAP) == 0) by (nonlinear_arith);
    }
    if i < rows.len() {
        assert(is_row(children[i as int], rows[i as int], color));
        let kids = children[i as int]->HStack_0.children@;
        assert(tallest(kids, glyphs, 2) == CELL_HEIGHT) by {
            reveal_with_fuel(tallest, 3);
        }
    }
}

/// A board paints inside the border of the display. Where the font is tidy and the two
/// texts of every row fit side by side, every dot of the board lies between the left and
/// the right border, and between the top border and the end of the last row; with three
/// rows that is the whole display without its border. In every frame, each pixel outside
/// of that is clear.
pub proof fn lemma_board_inside_border(
    root: Widget,
    rows: Seq<DisplayRow>,
    color: Seq<char>,
    glyphs: Map<char, Glyph>,
    colors: Map<Seq<char>, Rgba>,
    frame: nat,
)
    requires
        is_board(root, rows, color),
        tidy(glyphs),
        forall|i: int| 0 <= i < rows.len() ==> row_fits(glyphs, #[trigger] rows[i]),
    ensures
        dots_within(
            root.outcome(glyphs, colors, BORDER as int, BORDER as int, frame).dots,
            BORDER as int,
            BORDER as int,
            BORDER + CONTENT_WIDTH,
            BORDER + board_height(rows.len()),
        ),
        rows.len() == 3 ==> BORDER + board_height(rows.len()) == DISPLAY_HEIGHT - BORDER,
        BORDER + CONTENT_WIDTH == DISPLAY_WIDTH - BORDER,
        forall|x: int, y: int|
            0 <= x < DISPLAY_WIDTH && 0 <= y < DISPLAY_HEIGHT && !(BORDER <= x < BORDER + CONTENT_WIDTH
                && BORDER <= y < BORDER + board_height(rows.len())) ==> #[trigger] frame_pixels(
                root,
                glyphs,
                colors,
                frame,
            )[y * DISPLAY_WIDTH + x] == Rgba::clear(),
{
    let children = root->VStack_0.children@;
    lemma_rows_within(
        children,
        rows,
        color,
        glyphs,
        colors,
        BORDER as int,
        BORDER as int,
        frame,
        rows.len(),
    );
    let dots = root.outcome(glyphs, colors, BORDER as int, BORDER as int, frame).dots;
    let clear = blank(DISPLAY_WIDTH as nat, DISPLAY_HEIGHT as nat);
    assert forall|x: int, y: int|
        0 <= x < DISPLAY_WIDTH && 0 <= y < DISPLAY_HEIGHT && !(BORDER <= x < BORDER + CONTENT_WIDTH && BORDER
            <= y < BORDER + board_height(rows.len())) implies #[trigger] frame_pixels(
        root,
        glyphs,
        colors,
        frame,
    )[y * DISPLAY_WIDTH + x] == Rgba::clear() by {
        lemma_paint_leaves_outside(
            clear,
            DISPLAY_WIDTH as nat,
            DISPLAY_HEIGHT as nat,
            dots,
            BORDER as int,
            BORDER as int,
            BORDER + CONTENT_WIDTH,
            BORDER + board_height(rows.len()),
            x,
            y,
        );
        crate::canvas::lemma_cell_index(DISPLAY_WIDTH as nat, DISPLAY_HEIGHT as nat, x, y);
    }
}

} // verus!
