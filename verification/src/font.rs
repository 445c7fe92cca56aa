//! The bitmap font: for each character the pixels that are lit within its cell, and how far
//! the cursor moves after it.

use vstd::prelude::*;

verus! {

/// The picture of one character.
pub struct Glyph {
    /// How far the cursor moves after the character. It is given with the glyph and need
    /// not be the width of what is lit.
    pub advance: u8,
    /// The lit pixels as offsets `(x, y)` from the top left corner of the cell, in the
    /// order in which they are painted.
    pub pixels: Vec<(u8, u8)>,
}

/// Whether `column` is lit in a row of a bitmap. The leftmost column is the highest bit.
pub open spec fn is_lit(row: u8, column: u8) -> bool {
    (row >> ((7 - column) as u8)) & 1u8 == 1u8
}

/// The lit cells among the first `n` cells of a bitmap, counted row by row from the top
/// and in each row from the left.
pub open spec fn lit_cells(rows: Seq<u8>, n: nat) -> Seq<(u8, u8)>
    decreases n,
{
    if n == 0 {
        Seq::empty()
    } else {
        let k = (n - 1) as int;
        let before = lit_cells(rows, (n - 1) as nat);
        if is_lit(rows[k / 8], (k % 8) as u8) {
            before.push(((k % 8) as u8, (k / 8) as u8))
        } else {
            before
        }
    }
}

impl Glyph {
    /// The glyph keeps its lit pixels within its own advance and within the eight rows of
    /// the cell, so that it does not paint into the room of the next character.
    pub open spec fn tidy(&self) -> bool {
        forall|k: int|
            0 <= k < self.pixels@.len() ==> (#[trigger] self.pixels@[k]).0 < self.advance
                && self.pixels@[k].1 < 8
    }

    /// Whether the glyph is tidy.
    pub fn is_tidy(&self) -> (ok: bool)
        ensures
            ok == self.tidy(),
    {
        let mut k: usize = 0;
        while k < self.pixels.len()
            invariant
                k <= self.pixels.len(),
                forall|j: int|
                    0 <= j < k ==> (#[trigger] self.pixels@[j]).0 < self.advance && self.pixels@[j].1 < 8,
            decreases self.pixels.len() - k,
        {
            let offset = self.pixels[k];
            if offset.0 >= self.advance || offset.1 >= 8 {
                return false;
            }
            k += 1;
        }
        true
    }

    /// A glyph from its advance and its lit pixels.
    pub fn new(advance: u8, pixels: Vec<(u8, u8)>) -> (glyph: Glyph)
        ensures
            glyph.advance == advance,
            glyph.pixels@ == pixels@,
    {
        Glyph { advance, pixels }
    }

    /// A glyph from a bitmap of eight rows, each row a byte whose highest bit is the
    /// leftmost pixel.
    pub fn from_rows(advance: u8, rows: &[u8; 8]) -> (glyph: Glyph)
        ensures
            glyph.advance == advance,
            glyph.pixels@ == lit_cells(rows@, 64),
    {
        let mut pixels: Vec<(u8, u8)> = Vec::new();
        let mut y: u8 = 0;
        while y < 8
            invariant
                y <= 8,
                pixels@ == lit_cells(rows@, (8 * y) as nat),
            decreases 8 - y,
        {
            let row: u8 = rows[y as usize];
            let mut x: u8 = 0;
            while x < 8
                invariant
                    x <= 8,
                    y < 8,
                    row == rows@[y as int],
                    pixels@ == lit_cells(rows@, (8 * y + x) as nat),
                decreases 8 - x,
            {
                if (row >> (7 - x)) & 1u8 == 1u8 {
                    pixels.push((x, y));
                }
                x += 1;
            }
            y += 1;
        }
        Glyph { advance, pixels }
    }
}

/// The table that a sequence of glyphs makes: a later glyph for a character replaces an
/// earlier one.
pub open spec fn glyph_table(entries: Seq<(char, Glyph)>) -> Map<char, Glyph>
    decreases entries.len(),
{
    if entries.len() == 0 {
        Map::empty()
    } else {
        glyph_table(entries.drop_last()).insert(entries.last().0, entries.last().1)
    }
}

proof fn lemma_glyph_table_without(entries: Seq<(char, Glyph)>, c: char)
    requires
        forall|j: int| 0 <= j < entries.len() ==> (#[trigger] entries[j]).0 != c,
    ensures
        !glyph_table(entries).contains_key(c),
    decreases entries.len(),
{
    if entries.len() > 0 {
        lemma_glyph_table_without(entries.drop_last(), c);
    }
}

proof fn lemma_glyph_table_with(entries: Seq<(char, Glyph)>, c: char, i: int)
    requires
        0 <= i < entries.len(),
        entries[i].0 == c,
        forall|j: int| i < j < entries.len() ==> (#[trigger] entries[j]).0 != c,
    ensures
        glyph_table(entries).contains_key(c),
        glyph_table(entries)[c] == entries[i].1,
    decreases entries.len(),
{
    if i < entries.len() - 1 {
        lemma_glyph_table_with(entries.drop_last(), c, i);
    }
}

/// One entry of a font given as bitmaps: the character, its advance, and its eight rows.
pub struct Bitmap {
    pub character: char,
    pub advance: u8,
    pub rows: [u8; 8],
}

/// The entry that gives `c` its glyph in a font made of these bitmaps: the last one for
/// `c` among the first `n`, if there is one.
pub open spec fn bitmap_for(bitmaps: Seq<Bitmap>, c: char, n: nat) -> Option<int>
    decreases n,
{
    if n == 0 || n > bitmaps.len() {
        None
    } else if bitmaps[n - 1].character == c {
        Some(n - 1)
    } else {
        bitmap_for(bitmaps, c, (n - 1) as nat)
    }
}

/// Every glyph of the table is tidy.
pub open spec fn tidy(glyphs: Map<char, Glyph>) -> bool {
    forall|c: char| glyphs.contains_key(c) ==> (#[trigger] glyphs[c]).tidy()
}

/// A character of the table has a last entry.
proof fn lemma_glyph_table_last(entries: Seq<(char, Glyph)>, c: char) -> (i: int)
    requires
        glyph_table(entries).contains_key(c),
    ensures
        0 <= i < entries.len(),
        entries[i].0 == c,
        forall|j: int| i < j < entries.len() ==> (#[trigger] entries[j]).0 != c,
        glyph_table(entries)[c] == entries[i].1,
    decreases entries.len(),
{
    if entries.last().0 == c {
        entries.len() - 1
    } else {
        let shorter = entries.drop_last();
        let i = lemma_glyph_table_last(shorter, c);
        assert forall|j: int| i < j < entries.len() implies (#[trigger] entries[j]).0 != c by {
            if j < shorter.len() {
                assert(shorter[j] == entries[j]);
            }
        }
        i
    }
}

/// A font: the glyphs of the characters that can be painted.
pub struct Font {
    entries: Vec<(char, Glyph)>,
}

impl View for Font {
    type V = Map<char, Glyph>;

    closed spec fn view(&self) -> Map<char, Glyph> {
        glyph_table(self.entries@)
    }
}

impl Font {
    /// A font without glyphs.
    pub fn new() -> (font: Font)
        ensures
            font@ == Map::<char, Glyph>::empty(),
    {
        Font { entries: Vec::new() }
    }

    /// The font that a list of bitmaps describes. Each character gets the glyph of its
    /// last bitmap in the list: the bitmap's advance, and the lit cells of its rows.
    pub fn from_bitmaps(bitmaps: &Vec<Bitmap>) -> (font: Font)
        ensures
            forall|c: char|
                (#[trigger] font@.contains_key(c)) <==> bitmap_for(bitmaps@, c, bitmaps@.len()) is Some,
            forall|c: char|
                #![trigger font@[c]]
                bitmap_for(bitmaps@, c, bitmaps@.len()) matches Some(i) ==> {
                    &&& font@[c].advance == bitmaps@[i].advance
                    &&& font@[c].pixels@ == lit_cells(bitmaps@[i].rows@, 64)
                },
    {
        let mut font = Font::new();
        let mut n: usize = 0;
        while n < bitmaps.len()
            invariant
                n <= bitmaps.len(),
                forall|c: char|
                    (#[trigger] font@.contains_key(c)) <==> bitmap_for(bitmaps@, c, n as nat) is Some,
                forall|c: char|
                    #![trigger font@[c]]
                    bitmap_for(bitmaps@, c, n as nat) matches Some(i) ==> {
                        &&& font@[c].advance == bitmaps@[i].advance
                        &&& font@[c].pixels@ == lit_cells(bitmaps@[i].rows@, 64)
                    },
            decreases bitmaps.len() - n,
        {
            let entry = &bitmaps[n];
            let glyph = Glyph::from_rows(entry.advance, &entry.rows);
            font.insert(entry.character, glyph);
            n += 1;
        }
        font
    }

    /// Whether every glyph of the font is tidy. Glyphs that were replaced do not count.
    pub fn is_tidy(&self) -> (ok: bool)
        ensures
            ok == tidy(self@),
    {
        let n: usize = self.entries.len();
        let mut i: usize = 0;
        while i < n
            invariant
                i <= n,
                n == self.entries.len(),
                forall|k: int|
                    0 <= k < i && (forall|m: int| k < m < n ==> (#[trigger] self.entries@[m]).0
                        != self.entries@[k].0) ==> (#[trigger] self.entries@[k]).1.tidy(),
            decreases n - i,
        {
            let c: char = self.entries[i].0;
            let mut replaced: bool = false;
            let mut j: usize = i + 1;
            while j < n && !replaced
                invariant
                    i < j <= n,
                    n == self.entries.len(),
                    c == self.entries@[i as int].0,
                    !replaced ==> forall|m: int| i < m < j ==> (#[trigger] self.entries@[m]).0 != c,
                    replaced ==> exists|m: int| i < m < n && (#[trigger] self.entries@[m]).0 == c,
                decreases n - j + (if replaced { 0int } else { 1int }),
            {
                if self.entries[j].0 == c {
                    replaced = true;
                } else {
                    j += 1;
                }
            }
            if !replaced && !self.entries[i].1.is_tidy() {
                proof {
                    lemma_glyph_table_with(self.entries@, c, i as int);
                }
                return false;
            }
            i += 1;
        }
        proof {
            assert forall|c: char| self@.contains_key(c) implies (#[trigger] self@[c]).tidy() by {
                let k = lemma_glyph_table_last(self.entries@, c);
                assert(self.entries@[k].1.tidy());
            }
        }
        true
    }

    /// Gives the character `c` the glyph `glyph`, in place of any it had.
    pub fn insert(&mut self, c: char, glyph: Glyph)
        ensures
            final(self)@ == old(self)@.insert(c, glyph),
    {
        self.entries.push((c, glyph));
        proof {
            assert(self.entries@.drop_last() =~= old(self).entries@);
        }
    }

    /// The glyph of `c`, if the font has one.
    pub fn glyph(&self, c: char) -> (found: Option<&Glyph>)
        ensures
            self@.contains_key(c) ==> found == Some(&self@[c]),
            !self@.contains_key(c) ==> found is None,
    {
        let mut i: usize = self.entries.len();
        while i > 0
            invariant
                i <= self.entries.len(),
                forall|j: int| i <= j < self.entries.len() ==> (#[trigger] self.entries@[j]).0 != c,
            decreases i,
        {
            i -= 1;
            if self.entries[i].0 == c {
                proof {
                    lemma_glyph_table_with(self.entries@, c, i as int);
                }
                return Some(&self.entries[i].1);
            }
        }
        proof {
            lemma_glyph_table_without(self.entries@, c);
        }
        None
    }
}

} // verus!
