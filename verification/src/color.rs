//! Pixel colours, and the table that turns the name of a colour into a colour.

use vstd::prelude::*;

verus! {

/// One pixel's colour: red, green, blue and opacity.
#[derive(Clone, Copy, Debug, PartialEq, Eq, Structural)]
pub struct Rgba {
    pub r: u8,
    pub g: u8,
    pub b: u8,
    pub a: u8,
}

impl Rgba {
    /// The colour of a pixel that nothing has painted.
    pub open spec fn clear() -> Rgba {
        Rgba { r: 0, g: 0, b: 0, a: 0 }
    }

    /// An opaque colour.
    pub open spec fn opaque(r: u8, g: u8, b: u8) -> Rgba {
        Rgba { r, g, b, a: 255 }
    }

    pub fn new(r: u8, g: u8, b: u8, a: u8) -> (c: Rgba)
        ensures
            c == (Rgba { r, g, b, a }),
    {
        Rgba { r, g, b, a }
    }

    /// Channel `k` of the colour, in the order red, green, blue, opacity.
    pub open spec fn channel(self, k: int) -> u8 {
        if k == 0 {
            self.r
        } else if k == 1 {
            self.g
        } else if k == 2 {
            self.b
        } else {
            self.a
        }
    }
}

/// The table that a sequence of definitions makes: a later definition of a name replaces
/// an earlier one.
pub open spec fn table(entries: Seq<(String, Rgba)>) -> Map<Seq<char>, Rgba>
    decreases entries.len(),
{
    if entries.len() == 0 {
        Map::empty()
    } else {
        table(entries.drop_last()).insert(entries.last().0@, entries.last().1)
    }
}

/// The colours that texts can name. A widget keeps only the name of its colour; the name
/// is resolved against this table each time the widget is painted.
pub struct Palette {
    entries: Vec<(String, Rgba)>,
}

impl View for Palette {
    type V = Map<Seq<char>, Rgba>;

    closed spec fn view(&self) -> Map<Seq<char>, Rgba> {
        table(self.entries@)
    }
}

/// What resolving `name` gives in a table of colours.
pub open spec fn resolved(colors: Map<Seq<char>, Rgba>, name: Seq<char>) -> Option<Rgba> {
    if colors.contains_key(name) {
        Some(colors[name])
    } else {
        None
    }
}

proof fn lemma_table_without(entries: Seq<(String, Rgba)>, name: Seq<char>)
    requires
        forall|j: int| 0 <= j < entries.len() ==> (#[trigger] entries[j]).0@ != name,
    ensures
        !table(entries).contains_key(name),
    decreases entries.len(),
{
    if entries.len() > 0 {
        lemma_table_without(entries.drop_last(), name);
    }
}

proof fn lemma_table_with(entries: Seq<(String, Rgba)>, name: Seq<char>, i: int)
    requires
        0 <= i < entries.len(),
        entries[i].0@ == name,
        forall|j: int| i < j < entries.len() ==> (#[trigger] entries[j]).0@ != name,
    ensures
        table(entries).contains_key(name),
        table(entries)[name] == entries[i].1,
    decreases entries.len(),
{
    if i < entries.len() - 1 {
        lemma_table_with(entries.drop_last(), name, i);
    }
}

impl Palette {
    /// A palette that knows no colour.
    pub fn new() -> (p: Palette)
        ensures
            p@ == Map::<Seq<char>, Rgba>::empty(),
    {
        Palette { entries: Vec::new() }
    }

    /// Gives `name` the colour `color`, whatever it named before.
    pub fn define(&mut self, name: &str, color: Rgba)
        ensures
            final(self)@ == old(self)@.insert(name@, color),
    {
        let owned = String::from_str(name);
        self.entries.push((owned, color));
        proof {
            assert(self.entries@.drop_last() =~= old(self).entries@);
        }
    }

    /// The colour that `name` stands for, if the palette knows the name.
    pub fn resolve(&self, name: &String) -> (color: Option<Rgba>)
        ensures
            color == resolved(self@, name@),
    {
        let mut i: usize = self.entries.len();
        while i > 0
            invariant
                i <= self.entries.len(),
                forall|j: int| i <= j < self.entries.len() ==> (#[trigger] self.entries@[j]).0@ != name@,
            decreases i,
        {
            i -= 1;
            if self.entries[i].0 == *name {
                proof {
                    lemma_table_with(self.entries@, name@, i as int);
                }
                return Some(self.entries[i].1);
            }
        }
        proof {
            lemma_table_without(self.entries@, name@);
        }
        None
    }
}

} // verus!
