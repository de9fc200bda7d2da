//! Glyph records and compiled font tables, with lookup by codepoint.
use vstd::prelude::*;

use crate::codec::{packed_len, stream_bit};

verus! {

/// One rasterised character.
#[derive(Debug)]
pub struct Glyph {
    pub width: u16,
    pub height: u16,
    /// Pen advance after the glyph, in pixels.
    pub x_advance: i16,
    /// Horizontal offset from the pen to the bitmap's left edge.
    pub x_offset: i16,
    /// Offset from the baseline up to the bitmap's bottom row.
    pub y_offset: i16,
    /// `width * height` bits, row-major, most significant bit first.
    pub bitmap: Vec<u8>,
}

/// A compiled glyph table for one rasterisation configuration.
#[derive(Debug)]
pub struct Font {
    pub pixel_size: u16,
    pub ascent: i32,
    pub descent: i32,
    /// Association list from codepoint to glyph.
    pub glyphs: Vec<(char, Glyph)>,
}

impl Glyph {
    /// The bitmap holds exactly the packed bits, its tail after them is
    /// zero, and the glyph advances the pen.
    pub open spec fn wf(&self) -> bool {
        &&& self.bitmap@.len() == packed_len(self.width * self.height)
        &&& forall|j: int|
            self.width * self.height <= j < 8 * self.bitmap@.len() ==> !#[trigger] stream_bit(
                self.bitmap@,
                j,
            )
        &&& self.x_advance != 0
    }
}

/// Index of the first entry for `c` at or after `i`, or -1.
pub open spec fn find_from(gs: Seq<(char, Glyph)>, c: char, i: int) -> int
    decreases gs.len() - i,
{
    if i < 0 || i >= gs.len() {
        -1
    } else if gs[i].0 == c {
        i
    } else {
        find_from(gs, c, i + 1)
    }
}

/// Index of the first entry for `c`, or -1 when the table has none.
pub open spec fn glyph_index(gs: Seq<(char, Glyph)>, c: char) -> int {
    find_from(gs, c, 0)
}

/// Pen advance of `c`: its glyph's advance, or zero when the table has no entry.
pub open spec fn advance_of(gs: Seq<(char, Glyph)>, c: char) -> int {
    let k = glyph_index(gs, c);
    if k >= 0 {
        gs[k].1.x_advance as int
    } else {
        0
    }
}

/// Total advance width of `s`; characters without a glyph add nothing.
pub open spec fn text_width(gs: Seq<(char, Glyph)>, s: Seq<char>) -> int
    decreases s.len(),
{
    if s.len() == 0 {
        0
    } else {
        text_width(gs, s.drop_last()) + advance_of(gs, s.last())
    }
}

/// Largest `height + y_offset` over the entries, and at least zero.
pub open spec fn table_ascent(gs: Seq<(char, Glyph)>) -> int
    decreases gs.len(),
{
    if gs.len() == 0 {
        0
    } else {
        let prev = table_ascent(gs.drop_last());
        let g = gs.last().1;
        if g.height + g.y_offset > prev {
            g.height + g.y_offset
        } else {
            prev
        }
    }
}

/// Smallest `y_offset` over the entries, and at most zero.
pub open spec fn table_descent(gs: Seq<(char, Glyph)>) -> int
    decreases gs.len(),
{
    if gs.len() == 0 {
        0
    } else {
        let prev = table_descent(gs.drop_last());
        let g = gs.last().1;
        if (g.y_offset as int) < prev {
            g.y_offset as int
        } else {
            prev
        }
    }
}

/// Codepoints appear at most once.
pub open spec fn unique_codepoints(gs: Seq<(char, Glyph)>) -> bool {
    forall|i: int, j: int| 0 <= i < j < gs.len() ==> gs[i].0 != gs[j].0
}

impl Font {
    /// Every glyph is well formed, codepoints are unique, and the metrics
    /// bound every glyph.
    pub open spec fn wf(&self) -> bool {
        &&& forall|i: int| 0 <= i < self.glyphs@.len() ==> (#[trigger] self.glyphs@[i]).1.wf()
        &&& unique_codepoints(self.glyphs@)
        &&& -0x10000 <= self.descent <= 0 <= self.ascent <= 0x20000
        &&& forall|i: int|
            0 <= i < self.glyphs@.len() ==> {
                let g = (#[trigger] self.glyphs@[i]).1;
                &&& g.height + g.y_offset <= self.ascent
                &&& g.y_offset >= self.descent
            }
    }

    /// Index of the first glyph for `c`, found by a linear scan.
    pub fn find_glyph(&self, c: char) -> (r: Option<usize>)
        ensures
            match r {
                Some(k) => k == glyph_index(self.glyphs@, c) && k < self.glyphs@.len()
                    && self.glyphs@[k as int].0 == c,
                None => glyph_index(self.glyphs@, c) == -1,
            },
    {
        let mut i: usize = 0;
        while i < self.glyphs.len()
            invariant
                i <= self.glyphs@.len(),
                find_from(self.glyphs@, c, i as int) == glyph_index(self.glyphs@, c),
            decreases self.glyphs@.len() - i,
        {
            if self.glyphs[i].0 == c {
                return Some(i);
            }
            i = i + 1;
        }
        None
    }

    /// Pen advance of `c` in this table; zero when it has no glyph for `c`.
    pub fn advance(&self, c: char) -> (r: i16)
        ensures
            r as int == advance_of(self.glyphs@, c),
    {
        match self.find_glyph(c) {
            Some(k) => self.glyphs[k].1.x_advance,
            None => 0,
        }
    }
}

/// What a lookup finds: the first entry for `c`, or none at all.
pub proof fn lemma_find_from(gs: Seq<(char, Glyph)>, c: char, i: int)
    requires
        0 <= i <= gs.len(),
    ensures
        ({
            let k = find_from(gs, c, i);
            &&& k == -1 || (i <= k < gs.len() && gs[k].0 == c)
            &&& forall|j: int| i <= j < gs.len() && (k == -1 || j < k) ==> gs[j].0 != c
        }),
    decreases gs.len() - i,
{
    if i < gs.len() && gs[i].0 != c {
        lemma_find_from(gs, c, i + 1);
    }
}

/// Both metrics of a table bound every entry.
pub proof fn lemma_table_metrics(gs: Seq<(char, Glyph)>)
    ensures
        table_descent(gs) <= 0 <= table_ascent(gs),
        forall|i: int|
            0 <= i < gs.len() ==> {
                let g = (#[trigger] gs[i]).1;
                &&& g.height + g.y_offset <= table_ascent(gs)
                &&& g.y_offset >= table_descent(gs)
            },
    decreases gs.len(),
{
    if gs.len() > 0 {
        lemma_table_metrics(gs.drop_last());
        assert forall|i: int| 0 <= i < gs.len() - 1 implies #[trigger] gs[i] == gs.drop_last()[i] by {}
    }
}

} // verus!
