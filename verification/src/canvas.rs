//! The pixel buffer that widgets paint into, and the mathematical account of painting.

use vstd::prelude::*;
use crate::color::Rgba;
use crate::error::RenderError;

verus! {

/// One painted pixel: where it goes and what colour it gets. The position may lie outside
/// the canvas, in which case painting the dot changes nothing.
pub struct Dot {
    pub x: int,
    pub y: int,
    pub color: Rgba,
}

/// A buffer of `width × height` pixels in which nothing is painted.
pub open spec fn blank(width: nat, height: nat) -> Seq<Rgba> {
    Seq::new(width * height, |i: int| Rgba::clear())
}

/// The pixels after one dot is painted over them. Pixels are kept row by row from the top,
/// each row from the left.
pub open spec fn plot(pixels: Seq<Rgba>, width: nat, height: nat, dot: Dot) -> Seq<Rgba> {
    if 0 <= dot.x < width && 0 <= dot.y < height && pixels.len() == width * height {
        pixels.update(dot.y * width + dot.x, dot.color)
    } else {
        pixels
    }
}

/// The pixels after a sequence of dots is painted over them, the first dot first.
pub open spec fn paint(pixels: Seq<Rgba>, width: nat, height: nat, dots: Seq<Dot>) -> Seq<Rgba>
    decreases dots.len(),
{
    if dots.len() == 0 {
        pixels
    } else {
        plot(paint(pixels, width, height, dots.drop_last()), width, height, dots.last())
    }
}

/// The bytes of a pixel buffer: four for each pixel, red, green, blue, opacity.
pub open spec fn rgba_bytes(pixels: Seq<Rgba>) -> Seq<u8> {
    Seq::new(4 * pixels.len(), |k: int| pixels[k / 4].channel(k % 4))
}

/// Painting one more dot after the others.
pub proof fn lemma_paint_push(pixels: Seq<Rgba>, width: nat, height: nat, dots: Seq<Dot>, dot: Dot)
    ensures
        paint(pixels, width, height, dots.push(dot)) == plot(
            paint(pixels, width, height, dots),
            width,
            height,
            dot,
        ),
{
    assert(dots.push(dot).drop_last() =~= dots);
}

/// Painting two runs of dots one after the other is painting their concatenation.
pub proof fn lemma_paint_concat(
    pixels: Seq<Rgba>,
    width: nat,
    height: nat,
    first: Seq<Dot>,
    second: Seq<Dot>,
)
    ensures
        paint(pixels, width, height, first + second) == paint(
            paint(pixels, width, height, first),
            width,
            height,
            second,
        ),
    decreases second.len(),
{
    if second.len() == 0 {
        assert(first + second =~= first);
    } else {
        lemma_paint_concat(pixels, width, height, first, second.drop_last());
        assert((first + second).drop_last() =~= first + second.drop_last());
    }
}

/// Painting keeps the number of pixels.
pub proof fn lemma_paint_len(pixels: Seq<Rgba>, width: nat, height: nat, dots: Seq<Dot>)
    ensures
        paint(pixels, width, height, dots).len() == pixels.len(),
    decreases dots.len(),
{
    if dots.len() > 0 {
        lemma_paint_len(pixels, width, height, dots.drop_last());
        let dot = dots.last();
        if 0 <= dot.x < width && 0 <= dot.y < height {
            lemma_cell_index(width, height, dot.x, dot.y);
        }
    }
}

/// A pixel that no dot of the sequence names keeps its colour.
pub proof fn lemma_paint_elsewhere(
    pixels: Seq<Rgba>,
    width: nat,
    height: nat,
    dots: Seq<Dot>,
    x: int,
    y: int,
)
    requires
        pixels.len() == width * height,
        0 <= x < width,
        0 <= y < height,
        forall|k: int| 0 <= k < dots.len() ==> !((#[trigger] dots[k]).x == x && dots[k].y == y),
    ensures
        paint(pixels, width, height, dots)[y * width + x] == pixels[y * width + x],
    decreases dots.len(),
{
    if dots.len() > 0 {
        let before = dots.drop_last();
        let dot = dots.last();
        lemma_paint_elsewhere(pixels, width, height, before, x, y);
        lemma_paint_len(pixels, width, height, before);
        if 0 <= dot.x < width && 0 <= dot.y < height {
            lemma_cell_index(width, height, x, y);
            lemma_cell_index(width, height, dot.x, dot.y);
            if dot.y * width + dot.x == y * width + x {
                lemma_cell_unique(width, x, y, dot.x, dot.y);
            }
        }
    }
}

/// Every dot lies in the rectangle from `(left, top)` up to, and without, `(right, bottom)`.
pub open spec fn dots_within(dots: Seq<Dot>, left: int, top: int, right: int, bottom: int) -> bool {
    forall|k: int|
        0 <= k < dots.len() ==> left <= (#[trigger] dots[k]).x < right && top <= dots[k].y < bottom
}

/// Dots that lie in a rectangle leave every pixel outside of it as it was.
pub proof fn lemma_paint_leaves_outside(
    pixels: Seq<Rgba>,
    width: nat,
    height: nat,
    dots: Seq<Dot>,
    left: int,
    top: int,
    right: int,
    bottom: int,
    x: int,
    y: int,
)
    requires
        pixels.len() == width * height,
        dots_within(dots, left, top, right, bottom),
        0 <= x < width,
        0 <= y < height,
        !(left <= x < right && top <= y < bottom),
    ensures
        paint(pixels, width, height, dots)[y * width + x] == pixels[y * width + x],
{
    lemma_paint_elsewhere(pixels, width, height, dots, x, y);
}

/// The index of a cell of the grid lies within the buffer.
pub proof fn lemma_cell_index(width: nat, height: nat, x: int, y: int)
    requires
        0 <= x < width,
        0 <= y < height,
    ensures
        0 <= y * width + x < width * height,
{
    assert(y * width + x < width * height) by (nonlinear_arith)
        requires
            0 <= x < width,
            0 <= y < height,
    ;
    assert(0 <= y * width) by (nonlinear_arith)
        requires
            0 <= y,
    ;
}

/// Two cells with one index are one cell.
pub proof fn lemma_cell_unique(width: nat, x1: int, y1: int, x2: int, y2: int)
    requires
        0 <= x1 < width,
        0 <= x2 < width,
        y1 * width + x1 == y2 * width + x2,
    ensures
        x1 == x2,
        y1 == y2,
{
    assert(y1 == y2) by (nonlinear_arith)
        requires
            0 <= x1 < width,
            0 <= x2 < width,
            y1 * width + x1 == y2 * width + x2,
    ;
}

/// What a render does, as mathematics: the dots that it paints, in order, and the failure
/// that ended it, if one did. The dots of a failed render are those painted before the
/// failure.
pub struct Outcome {
    pub dots: Seq<Dot>,
    pub error: Option<RenderError>,
}

impl Outcome {
    /// Nothing painted and nothing failed.
    pub open spec fn nothing() -> Outcome {
        Outcome { dots: Seq::empty(), error: None }
    }

    /// Nothing painted because of a failure.
    pub open spec fn failed(error: RenderError) -> Outcome {
        Outcome { dots: Seq::empty(), error: Some(error) }
    }

    /// Dots painted without a failure.
    pub open spec fn painted(dots: Seq<Dot>) -> Outcome {
        Outcome { dots, error: None }
    }

    /// This render followed by `next`, which does not happen if this one failed.
    pub open spec fn followed_by(self, next: Outcome) -> Outcome {
        if self.error is Some {
            self
        } else {
            Outcome { dots: self.dots + next.dots, error: next.error }
        }
    }

    /// What the render returns.
    pub open spec fn result(self) -> Result<(), RenderError> {
        match self.error {
            Some(e) => Err(e),
            None => Ok(()),
        }
    }
}

/// A rectangle of pixels that starts out clear and changes only by painting.
pub struct Canvas {
    width: usize,
    height: usize,
    pixels: Vec<Rgba>,
}

impl View for Canvas {
    type V = Seq<Rgba>;

    /// The pixels, row by row from the top, each row from the left.
    closed spec fn view(&self) -> Seq<Rgba> {
        self.pixels@
    }
}

impl Canvas {
    #[verifier::type_invariant]
    spec fn well_formed(self) -> bool {
        self.pixels@.len() == self.width * self.height
    }

    pub closed spec fn spec_width(&self) -> usize {
        self.width
    }

    pub closed spec fn spec_height(&self) -> usize {
        self.height
    }

    /// A clear canvas of the given size.
    pub fn new(width: usize, height: usize) -> (canvas: Canvas)
        requires
            width * height <= usize::MAX,
        ensures
            canvas.spec_width() == width,
            canvas.spec_height() == height,
            canvas@ == blank(width as nat, height as nat),
    {
        let count: usize = width * height;
        let mut pixels: Vec<Rgba> = Vec::new();
        let mut i: usize = 0;
        while i < count
            invariant
                i <= count,
                pixels@.len() == i,
                forall|j: int| 0 <= j < i ==> #[trigger] pixels@[j] == Rgba::clear(),
            decreases count - i,
        {
            pixels.push(Rgba { r: 0, g: 0, b: 0, a: 0 });
            i += 1;
        }
        assert(pixels@ =~= blank(width as nat, height as nat));
        Canvas { width, height, pixels }
    }

    #[verifier::when_used_as_spec(spec_width)]
    pub fn width(&self) -> (w: usize)
        ensures
            w == self.spec_width(),
    {
        self.width
    }

    #[verifier::when_used_as_spec(spec_height)]
    pub fn height(&self) -> (h: usize)
        ensures
            h == self.spec_height(),
    {
        self.height
    }

    /// The colour of the pixel in column `x` of row `y`.
    pub fn pixel(&self, x: usize, y: usize) -> (color: Rgba)
        requires
            x < self.width(),
            y < self.height(),
        ensures
            color == self@[y * self.width() + x],
    {
        proof {
            use_type_invariant(self);
            lemma_cell_index(self.width as nat, self.height as nat, x as int, y as int);
            assert(self.pixels@.len() == self.pixels.len());
        }
        self.pixels[y * self.width + x]
    }

    /// Paints one pixel. A position outside the canvas is not an error: nothing is painted.
    pub fn put(&mut self, x: i64, y: i64, color: Rgba)
        ensures
            final(self).width() == old(self).width(),
            final(self).height() == old(self).height(),
            final(self)@ == plot(
                old(self)@,
                old(self).width() as nat,
                old(self).height() as nat,
                (Dot { x: x as int, y: y as int, color }),
            ),
    {
        proof {
            use_type_invariant(&*self);
        }
        if x < 0 || y < 0 {
            return ;
        }
        if x as u64 >= self.width as u64 || y as u64 >= self.height as u64 {
            return ;
        }
        let column: usize = x as usize;
        let row: usize = y as usize;
        proof {
            lemma_cell_index(self.width as nat, self.height as nat, column as int, row as int);
            assert(self.pixels@.len() == self.pixels.len());
        }
        let index: usize = row * self.width + column;
        self.pixels[index] = color;
    }

    /// The pixels as bytes, four for each pixel: red, green, blue, opacity.
    pub fn to_rgba_bytes(&self) -> (bytes: Vec<u8>)
        ensures
            bytes@ == rgba_bytes(self@),
    {
        let mut bytes: Vec<u8> = Vec::new();
        let mut i: usize = 0;
        while i < self.pixels.len()
            invariant
                i <= self.pixels.len(),
                bytes@.len() == 4 * i,
                forall|k: int| 0 <= k < 4 * i ==> #[trigger] bytes@[k] == self.pixels@[k / 4].channel(k % 4),
            decreases self.pixels.len() - i,
        {
            let p = self.pixels[i];
            bytes.push(p.r);
            bytes.push(p.g);
            bytes.push(p.b);
            bytes.push(p.a);
            i += 1;
        }
        assert(bytes@ =~= rgba_bytes(self@));
        bytes
    }
}

} // verus!
