//! A field as text: one glyph for each patch, one line for each row.

use vstd::prelude::*;
use crate::field::PlayingField;
use crate::patch::{Patch, Strategy};

verus! {

/// The glyph of a strategy: a green disc for a helper, a yellow disc for a
/// leecher.
pub open spec fn glyph_of(strategy: Strategy) -> char {
    match strategy {
        Strategy::Helping => '\u{1F7E2}',
        Strategy::Leeching => '\u{1F7E1}',
    }
}

/// The line of text for one row: the glyphs of its patches in order, and a
/// line feed.
pub open spec fn line_of(row: Seq<Patch>) -> Seq<char> {
    Seq::new(row.len(), |y: int| glyph_of(row[y].strategy)).push('\n')
}

/// The lines of the rows of `layout`, one after the other.
pub open spec fn lines_of(layout: Seq<Seq<Patch>>) -> Seq<char>
    decreases layout.len(),
{
    if layout.len() == 0 {
        Seq::empty()
    } else {
        lines_of(layout.drop_last()) + line_of(layout.last())
    }
}

/// The text that shows `layout`: its lines, and an empty line below them.
pub open spec fn picture_of(layout: Seq<Seq<Patch>>) -> Seq<char> {
    lines_of(layout).push('\n')
}

impl Strategy {
    /// The glyph that stands for the strategy in a picture.
    pub fn glyph(self) -> (glyph: char)
        ensures
            glyph == glyph_of(self),
    {
        match self {
            Strategy::Helping => '\u{1F7E2}',
            Strategy::Leeching => '\u{1F7E1}',
        }
    }
}

impl PlayingField {
    /// The text that shows the field as it stands.
    pub fn picture(&self) -> (text: Vec<char>)
        requires
            self.wf(),
        ensures
            text@ == picture_of(self@),
    {
        let mut text: Vec<char> = Vec::new();
        let width = self.width();
        let height = self.height();
        let mut x: usize = 0;
        while x < width
            invariant
                self.wf(),
                width == self@.len(),
                height == self@[0].len(),
                x <= width,
                text@ == lines_of(self@.take(x as int)),
            decreases width - x,
        {
            let ghost above = text@;
            let ghost row = self@[x as int];
            assert(row.len() == height);
            let mut y: usize = 0;
            while y < height
                invariant
                    self.wf(),
                    x < self@.len(),
                    height == self@[0].len(),
                    row == self@[x as int],
                    row.len() == height,
                    y <= height,
                    text@ == above + Seq::new(y as nat, |j: int| glyph_of(row[j].strategy)),
                decreases height - y,
            {
                let glyph = self.strategy_at(x, y).glyph();
                text.push(glyph);
                assert(text@ =~= above + Seq::new(
                    (y + 1) as nat,
                    |j: int| glyph_of(row[j].strategy),
                ));
                y = y + 1;
            }
            text.push('\n');
            proof {
                assert(self@.take(x + 1).drop_last() =~= self@.take(x as int));
                assert(self@.take(x + 1).last() == row);
                assert(text@ =~= above + line_of(row));
            }
            x = x + 1;
        }
        text.push('\n');
        assert(self@.take(width as int) =~= self@);
        text
    }
}

} // verus!
