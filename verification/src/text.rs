//! A line of text: how wide it is, and how it is painted glyph by glyph.

use vstd::prelude::*;
use vstd::string::StrSliceExecFns;
use crate::canvas::{dots_within, lemma_paint_concat, lemma_paint_push, paint, Canvas, Dot, Outcome};
use crate::color::{resolved, Palette, Rgba};
use crate::error::RenderError;
use crate::font::{tidy, Font, Glyph};
use crate::geometry::{Point, CELL_HEIGHT, COORD_LIMIT, MAX_ITEMS};

verus! {

/// How far the cursor moves after a space, which has no glyph of its own.
pub const SPACE_ADVANCE: i64 = 2;

/// Which edge of a text its origin is.
#[derive(Clone, Copy, Debug, PartialEq, Eq, Structural)]
pub enum Align {
    /// The text starts at its origin: the characters are painted in reading order and the
    /// cursor moves to the right.
    Left,
    /// The text is painted from its last character back and the cursor moves to the left.
    Right,
}

/// A space, or a character that the font has a glyph for.
pub open spec fn printable(glyphs: Map<char, Glyph>, c: char) -> bool {
    c == ' ' || glyphs.contains_key(c)
}

/// How far the cursor moves after `c`: a fixed amount for a space, the glyph's advance for
/// a character of the font, and nothing for any other character.
pub open spec fn advance_of(glyphs: Map<char, Glyph>, c: char) -> int {
    if c == ' ' {
        SPACE_ADVANCE as int
    } else if glyphs.contains_key(c) {
        glyphs[c].advance as int
    } else {
        0
    }
}

/// Sum of the advances of the characters of `text`.
pub open spec fn advance_sum(glyphs: Map<char, Glyph>, text: Seq<char>) -> int
    decreases text.len(),
{
    if text.len() == 0 {
        0
    } else {
        advance_sum(glyphs, text.drop_last()) + advance_of(glyphs, text.last())
    }
}

/// The dots of a glyph whose cell has its top left corner at `(x, y)`.
pub open spec fn glyph_dots(glyph: Glyph, x: int, y: int, color: Rgba) -> Seq<Dot> {
    Seq::new(
        glyph.pixels@.len(),
        |k: int| Dot { x: x + glyph.pixels@[k].0, y: y + glyph.pixels@[k].1, color },
    )
}

/// What painting the character `c` at `(x, y)` does: a space paints nothing, a character
/// of the font paints its glyph, and any other character fails.
pub open spec fn char_outcome(glyphs: Map<char, Glyph>, c: char, x: int, y: int, color: Rgba) -> Outcome {
    if c == ' ' {
        Outcome::nothing()
    } else if glyphs.contains_key(c) {
        Outcome::painted(glyph_dots(glyphs[c], x, y, color))
    } else {
        Outcome::failed(RenderError::GlyphNotFound(c))
    }
}

/// The characters in the order in which they are painted.
pub open spec fn visit_order(text: Seq<char>, align: Align) -> Seq<char> {
    match align {
        Align::Left => text,
        Align::Right => text.reverse(),
    }
}

/// The direction in which the cursor moves: 1 to the right, -1 to the left.
pub open spec fn direction(align: Align) -> int {
    match align {
        Align::Left => 1,
        Align::Right => -1,
    }
}

/// Where the cursor stands when character `k` of `order` is painted: the advances of the
/// characters before it, in the direction `step`, away from `x`.
pub open spec fn cursor_at(glyphs: Map<char, Glyph>, order: Seq<char>, x: int, step: int, k: int) -> int {
    x + step * advance_sum(glyphs, order.take(k))
}

/// What painting the first `n` characters of `order` does. Each character is painted with
/// the cursor where the characters before it left it; the first character without a glyph
/// ends the run.
pub open spec fn run_outcome(
    glyphs: Map<char, Glyph>,
    order: Seq<char>,
    color: Rgba,
    x: int,
    y: int,
    step: int,
    n: nat,
) -> Outcome
    decreases n,
{
    if n == 0 {
        Outcome::nothing()
    } else {
        let k = (n - 1) as int;
        run_outcome(glyphs, order, color, x, y, step, (n - 1) as nat).followed_by(
            char_outcome(glyphs, order[k], cursor_at(glyphs, order, x, step, k), y, color),
        )
    }
}

/// What painting `text` at `(x, y)` in one colour does.
pub open spec fn text_outcome(
    glyphs: Map<char, Glyph>,
    text: Seq<char>,
    color: Rgba,
    x: int,
    y: int,
    align: Align,
) -> Outcome {
    run_outcome(glyphs, visit_order(text, align), color, x, y, direction(align), text.len())
}

pub proof fn lemma_advance_sum_push(glyphs: Map<char, Glyph>, text: Seq<char>, c: char)
    ensures
        advance_sum(glyphs, text.push(c)) == advance_sum(glyphs, text) + advance_of(glyphs, c),
{
    assert(text.push(c).drop_last() =~= text);
}

pub proof fn lemma_advance_sum_bounds(glyphs: Map<char, Glyph>, text: Seq<char>)
    ensures
        0 <= advance_sum(glyphs, text) <= 255 * text.len(),
    decreases text.len(),
{
    if text.len() > 0 {
        lemma_advance_sum_bounds(glyphs, text.drop_last());
    }
}

/// Once a run has failed, the characters that follow change nothing.
pub proof fn lemma_run_stops(
    glyphs: Map<char, Glyph>,
    order: Seq<char>,
    color: Rgba,
    x: int,
    y: int,
    step: int,
    failed: nat,
    n: nat,
)
    requires
        failed <= n,
        run_outcome(glyphs, order, color, x, y, step, failed).error is Some,
    ensures
        run_outcome(glyphs, order, color, x, y, step, n) == run_outcome(
            glyphs,
            order,
            color,
            x,
            y,
            step,
            failed,
        ),
    decreases n,
{
    if failed < n {
        lemma_run_stops(glyphs, order, color, x, y, step, failed, (n - 1) as nat);
    }
}

/// A run over characters that are all spaces or in the font does not fail.
pub proof fn lemma_run_succeeds(
    glyphs: Map<char, Glyph>,
    order: Seq<char>,
    color: Rgba,
    x: int,
    y: int,
    step: int,
    n: nat,
)
    requires
        n <= order.len(),
        forall|j: int| 0 <= j < n ==> printable(glyphs, #[trigger] order[j]),
    ensures
        run_outcome(glyphs, order, color, x, y, step, n).error is None,
    decreases n,
{
    if n > 0 {
        lemma_run_succeeds(glyphs, order, color, x, y, step, (n - 1) as nat);
    }
}

/// A text that holds a character which is neither a space nor in the font fails with
/// `GlyphNotFound` for the first such character in painting order. Nothing is painted of
/// that character or of those after it: the dots are those of the characters before it.
pub proof fn lemma_unknown_character_fails(
    glyphs: Map<char, Glyph>,
    text: Seq<char>,
    color: Rgba,
    x: int,
    y: int,
    align: Align,
    i: int,
)
    requires
        0 <= i < text.len(),
        !printable(glyphs, visit_order(text, align)[i]),
        forall|j: int| 0 <= j < i ==> printable(glyphs, #[trigger] visit_order(text, align)[j]),
    ensures
        text_outcome(glyphs, text, color, x, y, align).error == Some(
            RenderError::GlyphNotFound(visit_order(text, align)[i]),
        ),
        text_outcome(glyphs, text, color, x, y, align).dots == run_outcome(
            glyphs,
            visit_order(text, align),
            color,
            x,
            y,
            direction(align),
            i as nat,
        ).dots,
{
    let order = visit_order(text, align);
    let step = direction(align);
    lemma_run_succeeds(glyphs, order, color, x, y, step, i as nat);
    let before = run_outcome(glyphs, order, color, x, y, step, i as nat);
    let this = char_outcome(glyphs, order[i], cursor_at(glyphs, order, x, step, i), y, color);
    assert(run_outcome(glyphs, order, color, x, y, step, (i + 1) as nat) == before.followed_by(this));
    assert(before.followed_by(this).dots =~= before.dots);
    lemma_run_stops(glyphs, order, color, x, y, step, (i + 1) as nat, text.len());
}

/// With a tidy font, text that runs to the right paints only within its measured size:
/// from its origin as far right as the advances of its characters add up to, and one cell
/// down. This holds of what is painted before a failure, too.
pub proof fn lemma_run_within_measure(
    glyphs: Map<char, Glyph>,
    order: Seq<char>,
    color: Rgba,
    x: int,
    y: int,
    n: nat,
)
    requires
        tidy(glyphs),
        n <= order.len(),
    ensures
        dots_within(
            run_outcome(glyphs, order, color, x, y, 1, n).dots,
            x,
            y,
            x + advance_sum(glyphs, order.take(n as int)),
            y + CELL_HEIGHT,
        ),
    decreases n,
{
    if n > 0 {
        let k = (n - 1) as int;
        lemma_run_within_measure(glyphs, order, color, x, y, (n - 1) as nat);
        let before = run_outcome(glyphs, order, color, x, y, 1, (n - 1) as nat);
        let c = order[k];
        let cursor = cursor_at(glyphs, order, x, 1, k);
        let this = char_outcome(glyphs, c, cursor, y, color);
        assert(order.take(n as int) =~= order.take(k).push(c));
        lemma_advance_sum_push(glyphs, order.take(k), c);
        lemma_advance_sum_bounds(glyphs, order.take(k));
        let whole = run_outcome(glyphs, order, color, x, y, 1, n).dots;
        let right = x + advance_sum(glyphs, order.take(n as int));
        assert forall|j: int| 0 <= j < whole.len() implies x <= (#[trigger] whole[j]).x < right && y
            <= whole[j].y < y + CELL_HEIGHT by {
            if j < before.dots.len() {
                assert(whole[j] == before.dots[j]);
            } else {
                let i = j - before.dots.len();
                assert(whole[j] == this.dots[i]);
                assert(glyphs[c].tidy());
                assert(this.dots[i].x == cursor + glyphs[c].pixels@[i].0);
            }
        }
    }
}

/// A text widget whose colour the palette knows, and which holds a character that is
/// neither a space nor in the font, fails with `GlyphNotFound` for the first such
/// character: the failure is not swallowed, and nothing of the character is painted.
pub proof fn lemma_text_widget_reports_unknown_character(
    widget: TextWidget,
    glyphs: Map<char, Glyph>,
    colors: Map<Seq<char>, Rgba>,
    x: int,
    y: int,
    frame: nat,
    i: int,
)
    requires
        colors.contains_key(widget.color@),
        0 <= i < widget.text@.len(),
        !printable(glyphs, widget.text@[i]),
        forall|j: int| 0 <= j < i ==> printable(glyphs, #[trigger] widget.text@[j]),
    ensures
        widget.outcome(glyphs, colors, x, y, frame).error == Some(
            RenderError::GlyphNotFound(widget.text@[i]),
        ),
        widget.outcome(glyphs, colors, x, y, frame).dots == run_outcome(
            glyphs,
            widget.text@,
            colors[widget.color@],
            x,
            y,
            1,
            i as nat,
        ).dots,
{
    lemma_unknown_character_fails(glyphs, widget.text@, colors[widget.color@], x, y, Align::Left, i);
}

/// The characters of a string, one by one.
pub fn chars_of(s: &str) -> (chars: Vec<char>)
    ensures
        chars@ == s@,
{
    let n: usize = s.unicode_len();
    let mut chars: Vec<char> = Vec::new();
    let mut i: usize = 0;
    while i < n
        invariant
            i <= n,
            n == s@.len(),
            chars@ == s@.take(i as int),
        decreases n - i,
    {
        let c = s.get_char(i);
        chars.push(c);
        proof {
            assert(s@.take(i as int + 1) =~= s@.take(i as int).push(c));
        }
        i += 1;
    }
    proof {
        assert(s@.take(n as int) =~= s@);
    }
    chars
}

/// How far the cursor moves after `c`.
pub fn advance(font: &Font, c: char) -> (a: i64)
    ensures
        a == advance_of(font@, c),
        0 <= a <= 255,
{
    if c == ' ' {
        SPACE_ADVANCE
    } else {
        match font.glyph(c) {
            Some(glyph) => glyph.advance as i64,
            None => 0,
        }
    }
}

/// The width of `text`: the sum of the advances of its characters.
pub fn text_width(font: &Font, text: &Vec<char>) -> (width: i64)
    requires
        text.len() <= MAX_ITEMS,
    ensures
        width == advance_sum(font@, text@),
        0 <= width <= 255 * text.len(),
{
    let mut width: i64 = 0;
    let mut i: usize = 0;
    while i < text.len()
        invariant
            i <= text.len(),
            text.len() <= MAX_ITEMS,
            width == advance_sum(font@, text@.take(i as int)),
            0 <= width <= 255 * i,
        decreases text.len() - i,
    {
        let a = advance(font, text[i]);
        proof {
            assert(text@.take(i as int + 1) =~= text@.take(i as int).push(text@[i as int]));
            lemma_advance_sum_push(font@, text@.take(i as int), text@[i as int]);
        }
        width = width + a;
        i += 1;
    }
    proof {
        assert(text@.take(text.len() as int) =~= text@);
    }
    width
}

/// Paints the lit pixels of a glyph whose cell has its top left corner at `(x, y)`.
/// Nothing else is painted: what the canvas holds under unlit pixels stays.
pub fn draw_glyph(canvas: &mut Canvas, glyph: &Glyph, x: i64, y: i64, color: Rgba)
    requires
        -COORD_LIMIT - 0x1_0000_0000 <= x <= COORD_LIMIT + 0x1_0000_0000,
        -COORD_LIMIT - 0x1_0000_0000 <= y <= COORD_LIMIT + 0x1_0000_0000,
    ensures
        final(canvas).width() == old(canvas).width(),
        final(canvas).height() == old(canvas).height(),
        final(canvas)@ == paint(
            old(canvas)@,
            old(canvas).width() as nat,
            old(canvas).height() as nat,
            glyph_dots(*glyph, x as int, y as int, color),
        ),
{
    let ghost dots = glyph_dots(*glyph, x as int, y as int, color);
    let ghost w = canvas.width() as nat;
    let ghost h = canvas.height() as nat;
    let mut k: usize = 0;
    while k < glyph.pixels.len()
        invariant
            k <= glyph.pixels.len(),
            dots == glyph_dots(*glyph, x as int, y as int, color),
            canvas.width() == w,
            canvas.height() == h,
            canvas@ == paint(old(canvas)@, w, h, dots.take(k as int)),
            -COORD_LIMIT - 0x1_0000_0000 <= x <= COORD_LIMIT + 0x1_0000_0000,
            -COORD_LIMIT - 0x1_0000_0000 <= y <= COORD_LIMIT + 0x1_0000_0000,
        decreases glyph.pixels.len() - k,
    {
        let offset = glyph.pixels[k];
        proof {
            assert(dots.take(k as int + 1) =~= dots.take(k as int).push(dots[k as int]));
            lemma_paint_push(old(canvas)@, w, h, dots.take(k as int), dots[k as int]);
        }
        canvas.put(x + offset.0 as i64, y + offset.1 as i64, color);
        k += 1;
    }
    proof {
        assert(dots.take(k as int) =~= dots);
    }
}

/// Paints `text` in one colour, with its origin as the edge that `align` names.
///
/// Each character is painted with its cell at the cursor, and the cursor then moves by the
/// character's advance: to the right for `Align::Left`, and to the left, with the
/// characters taken from the last one back, for `Align::Right`. The first character that
/// is neither a space nor in the font ends the painting with `GlyphNotFound`; the
/// characters before it stay painted.
pub fn draw_text(
    canvas: &mut Canvas,
    font: &Font,
    text: &Vec<char>,
    color: Rgba,
    origin: Point,
    align: Align,
) -> (result: Result<(), RenderError>)
    requires
        text.len() <= MAX_ITEMS,
        origin.within(COORD_LIMIT as int),
    ensures
        final(canvas).width() == old(canvas).width(),
        final(canvas).height() == old(canvas).height(),
        final(canvas)@ == paint(
            old(canvas)@,
            old(canvas).width() as nat,
            old(canvas).height() as nat,
            text_outcome(font@, text@, color, origin.x as int, origin.y as int, align).dots,
        ),
        result == text_outcome(font@, text@, color, origin.x as int, origin.y as int, align).result(),
{
    let n: usize = text.len();
    let ghost w = canvas.width() as nat;
    let ghost h = canvas.height() as nat;
    let ghost order = visit_order(text@, align);
    let ghost step = direction(align);
    let ghost x0 = origin.x as int;
    let ghost y0 = origin.y as int;
    let mut cursor: i64 = origin.x;
    let mut k: usize = 0;
    while k < n
        invariant
            k <= n,
            n == text.len(),
            n <= MAX_ITEMS,
            order == visit_order(text@, align),
            order.len() == n,
            step == direction(align),
            x0 == origin.x,
            y0 == origin.y,
            origin.within(COORD_LIMIT as int),
            w == old(canvas).width(),
            h == old(canvas).height(),
            canvas.width() == w,
            canvas.height() == h,
            cursor == cursor_at(font@, order, x0, step, k as int),
            x0 - 255 * k <= cursor <= x0 + 255 * k,
            run_outcome(font@, order, color, x0, y0, step, k as nat).error is None,
            canvas@ == paint(old(canvas)@, w, h, run_outcome(font@, order, color, x0, y0, step, k as nat).dots),
        decreases n - k,
    {
        let c: char = match align {
            Align::Left => text[k],
            Align::Right => text[n - 1 - k],
        };
        assert(c == order[k as int]);
        let ghost before = run_outcome(font@, order, color, x0, y0, step, k as nat);
        let ghost this = char_outcome(font@, c, cursor as int, y0, color);
        assert(run_outcome(font@, order, color, x0, y0, step, (k + 1) as nat) == before.followed_by(this));
        let a: i64 = if c == ' ' {
            SPACE_ADVANCE
        } else {
            match font.glyph(c) {
                Some(glyph) => {
                    draw_glyph(canvas, glyph, cursor, origin.y, color);
                    proof {
                        lemma_paint_concat(old(canvas)@, w, h, before.dots, this.dots);
                    }
                    glyph.advance as i64
                },
                None => {
                    proof {
                        lemma_run_stops(font@, order, color, x0, y0, step, (k + 1) as nat, n as nat);
                    }
                    return Err(RenderError::GlyphNotFound(c));
                },
            }
        };
        proof {
            assert(before.followed_by(this).dots =~= before.dots + this.dots);
            assert(order.take(k as int + 1) =~= order.take(k as int).push(c));
            lemma_advance_sum_push(font@, order.take(k as int), c);
            assert(step * (advance_sum(font@, order.take(k as int)) + a) == step * advance_sum(
                font@,
                order.take(k as int),
            ) + step * a) by (nonlinear_arith);
        }
        cursor = match align {
            Align::Left => cursor + a,
            Align::Right => cursor - a,
        };
        k += 1;
    }
    Ok(())
}

/// A line of text in one colour. The colour is kept as a name and resolved when the text
/// is painted.
pub struct TextWidget {
    pub text: Vec<char>,
    pub color: String,
}

impl TextWidget {
    pub fn new(text: &str, color: &str) -> (widget: TextWidget)
        ensures
            widget.text@ == text@,
            widget.color@ == color@,
    {
        TextWidget { text: chars_of(text), color: String::from_str(color) }
    }

    /// The text is short enough to be measured and painted.
    pub open spec fn wf(&self) -> bool {
        self.text@.len() <= MAX_ITEMS
    }

    /// The size of the text: as wide as the advances of its characters add up to, and one
    /// cell high.
    pub open spec fn size(&self, glyphs: Map<char, Glyph>) -> (int, int) {
        (advance_sum(glyphs, self.text@), CELL_HEIGHT as int)
    }

    /// What painting the text at `(x, y)` does. The colour is resolved first: a text whose
    /// colour the palette does not know paints nothing.
    pub open spec fn outcome(
        &self,
        glyphs: Map<char, Glyph>,
        colors: Map<Seq<char>, Rgba>,
        x: int,
        y: int,
        frame: nat,
    ) -> Outcome {
        match resolved(colors, self.color@) {
            Some(color) => text_outcome(glyphs, self.text@, color, x, y, Align::Left),
            None => Outcome::failed(RenderError::ColorResolutionFailed),
        }
    }

    pub fn measure(&self, font: &Font) -> (size: Point)
        requires
            self.wf(),
        ensures
            size.x == advance_sum(font@, self.text@),
            size.y == CELL_HEIGHT,
            (size.x as int, size.y as int) == self.size(font@),
            0 <= size.x <= 255 * self.text@.len(),
    {
        Point { x: text_width(font, &self.text), y: CELL_HEIGHT }
    }

    /// A text is the same in every frame.
    pub fn frame_count(&self) -> (frames: u32)
        ensures
            frames == 1,
    {
        1
    }

    /// Paints the text with its top left corner at `origin`.
    pub fn render(
        &self,
        canvas: &mut Canvas,
        font: &Font,
        palette: &Palette,
        origin: Point,
        frame: u32,
    ) -> (result: Result<(), RenderError>)
        requires
            self.wf(),
            origin.within(COORD_LIMIT as int),
        ensures
            final(canvas).width() == old(canvas).width(),
            final(canvas).height() == old(canvas).height(),
            final(canvas)@ == paint(
                old(canvas)@,
                old(canvas).width() as nat,
                old(canvas).height() as nat,
                self.outcome(font@, palette@, origin.x as int, origin.y as int, frame as nat).dots,
            ),
            result == self.outcome(font@, palette@, origin.x as int, origin.y as int, frame as nat).result(),
    {
        match palette.resolve(&self.color) {
            Some(color) => draw_text(canvas, font, &self.text, color, origin, Align::Left),
            None => Err(RenderError::ColorResolutionFailed),
        }
    }
}

} // verus!
