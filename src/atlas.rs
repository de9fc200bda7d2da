//! Compilation of rasterised glyphs into a packed glyph table.
use vstd::prelude::*;

use crate::codec::{is_packing_of, pack_bits, packed_len, stream_bit};
use crate::font::{
    glyph_index, lemma_find_from, lemma_table_metrics, table_ascent, table_descent,
    unique_codepoints, Font, Glyph,
};

verus! {

/// Samples above this intensity become set bits.
pub const THRESHOLD: u8 = 128;

/// One character as a rasteriser reports it: metrics and one intensity
/// sample per pixel, row-major.
pub struct RasterGlyph {
    pub ch: char,
    pub width: u16,
    pub height: u16,
    /// Advance width, whole pixels; zero marks a non-renderable character.
    pub advance: i16,
    /// Horizontal bearing.
    pub x_offset: i16,
    /// Vertical bearing: bottom row relative to the baseline.
    pub y_offset: i16,
    pub coverage: Vec<u8>,
}

impl RasterGlyph {
    /// One sample per pixel.
    pub open spec fn wf(&self) -> bool {
        self.coverage@.len() == self.width * self.height
    }
}

/// The bit matrix of a coverage map: a sample is set when above the threshold.
pub open spec fn coverage_bits(cov: Seq<u8>) -> Seq<bool> {
    Seq::new(cov.len(), |j: int| cov[j] > THRESHOLD)
}

/// `g` is the compiled form of `r`: same metrics, bitmap packed from the
/// binarised samples.
pub open spec fn compiles_to(g: Glyph, r: RasterGlyph) -> bool {
    &&& g.width == r.width
    &&& g.height == r.height
    &&& g.x_advance == r.advance
    &&& g.x_offset == r.x_offset
    &&& g.y_offset == r.y_offset
    &&& is_packing_of(g.bitmap@, coverage_bits(r.coverage@))
}

/// Indices of the rasters among the first `k` that enter the table: those
/// with a non-zero advance whose character no earlier kept raster has.
pub open spec fn kept(rs: Seq<RasterGlyph>, k: int) -> Seq<int>
    decreases k,
{
    if k <= 0 {
        Seq::empty()
    } else {
        let p = kept(rs, k - 1);
        let r = rs[k - 1];
        if r.advance != 0 && !(exists|i: int| 0 <= i < p.len() && rs[p[i]].ch == r.ch) {
            p.push(k - 1)
        } else {
            p
        }
    }
}

/// Binarises coverage samples against the threshold.
pub fn binarize(cov: &Vec<u8>) -> (r: Vec<bool>)
    ensures
        r@ == coverage_bits(cov@),
{
    let mut out: Vec<bool> = Vec::new();
    let mut j: usize = 0;
    while j < cov.len()
        invariant
            j <= cov@.len(),
            out@ == coverage_bits(cov@).take(j as int),
        decreases cov@.len() - j,
    {
        out.push(cov[j] > THRESHOLD);
        j = j + 1;
        assert(out@ =~= coverage_bits(cov@).take(j as int));
    }
    assert(out@ =~= coverage_bits(cov@));
    out
}

/// Compiles one rasterised glyph: same metrics, binarised and packed bitmap.
pub fn compile_glyph(r: &RasterGlyph) -> (g: Glyph)
    requires
        r.wf(),
    ensures
        compiles_to(g, *r),
        g.bitmap@.len() == packed_len(g.width * g.height),
        forall|j: int|
            g.width * g.height <= j < 8 * g.bitmap@.len() ==> !#[trigger] stream_bit(g.bitmap@, j),
{
    let bits = binarize(&r.coverage);
    let bitmap = pack_bits(&bits);
    Glyph {
        width: r.width,
        height: r.height,
        x_advance: r.advance,
        x_offset: r.x_offset,
        y_offset: r.y_offset,
        bitmap,
    }
}

/// Compiles the rasterised glyphs of one font configuration into a table.
/// Rasters with a zero advance are left out, as is a character already in
/// the table; ascent and descent are the running extremes over what is kept.
pub fn compile_font(pixel_size: u16, rasters: &Vec<RasterGlyph>) -> (f: Font)
    requires
        forall|i: int| 0 <= i < rasters@.len() ==> (#[trigger] rasters@[i]).wf(),
    ensures
        f.wf(),
        f.pixel_size == pixel_size,
        f.glyphs@.len() == kept(rasters@, rasters@.len() as int).len(),
        forall|i: int|
            0 <= i < f.glyphs@.len() ==> 0 <= #[trigger] kept(rasters@, rasters@.len() as int)[i]
                < rasters@.len(),
        forall|i: int|
            0 <= i < f.glyphs@.len() ==> {
                let r = rasters@[#[trigger] kept(rasters@, rasters@.len() as int)[i]];
                &&& f.glyphs@[i].0 == r.ch
                &&& compiles_to(f.glyphs@[i].1, r)
            },
        f.ascent == table_ascent(f.glyphs@),
        f.descent == table_descent(f.glyphs@),
{
    let ghost rs = rasters@;
    let mut f = Font { pixel_size, ascent: 0, descent: 0, glyphs: Vec::new() };
    let mut k: usize = 0;
    while k < rasters.len()
        invariant
            rs == rasters@,
            forall|i: int| 0 <= i < rs.len() ==> (#[trigger] rs[i]).wf(),
            k <= rs.len(),
            f.pixel_size == pixel_size,
            f.glyphs@.len() == kept(rs, k as int).len(),
            forall|i: int|
                0 <= i < f.glyphs@.len() ==> {
                    let p = #[trigger] kept(rs, k as int)[i];
                    &&& 0 <= p < k
                    &&& f.glyphs@[i].0 == rs[p].ch
                    &&& compiles_to(f.glyphs@[i].1, rs[p])
                    &&& f.glyphs@[i].1.wf()
                },
            unique_codepoints(f.glyphs@),
            f.ascent == table_ascent(f.glyphs@),
            f.descent == table_descent(f.glyphs@),
            -0x10000 <= f.descent <= 0 <= f.ascent <= 0x20000,
        decreases rs.len() - k,
    {
        let r = &rasters[k];
        let ghost p = kept(rs, k as int);
        let found = f.find_glyph(r.ch);
        proof {
            lemma_find_from(f.glyphs@, r.ch, 0);
        }
        if r.advance != 0 && found.is_none() {
            proof {
                assert forall|i: int| 0 <= i < p.len() implies rs[p[i]].ch != r.ch by {
                    assert(f.glyphs@[i].0 == rs[p[i]].ch);
                }
            }
            let g = compile_glyph(r);
            let top = g.height as i32 + g.y_offset as i32;
            let low = g.y_offset as i32;
            let ghost before = f.glyphs@;
            f.glyphs.push((r.ch, g));
            assert(f.glyphs@.drop_last() =~= before);
            if top > f.ascent {
                f.ascent = top;
            }
            if low < f.descent {
                f.descent = low;
            }
            proof {
                let q = kept(rs, k + 1);
                assert(q == p.push(k as int));
                assert forall|i: int| 0 <= i < f.glyphs@.len() implies {
                    let pp = #[trigger] q[i];
                    &&& 0 <= pp < k + 1
                    &&& f.glyphs@[i].0 == rs[pp].ch
                    &&& compiles_to(f.glyphs@[i].1, rs[pp])
                    &&& f.glyphs@[i].1.wf()
                } by {
                    if i < before.len() {
                        assert(q[i] == p[i]);
                        assert(f.glyphs@[i] == before[i]);
                    }
                }
            }
        } else {
            proof {
                if r.advance != 0 {
                    let m = glyph_index(f.glyphs@, r.ch);
                    assert(0 <= m < p.len() && rs[p[m]].ch == r.ch);
                }
                assert(kept(rs, k + 1) == p);
            }
        }
        k = k + 1;
    }
    proof {
        lemma_table_metrics(f.glyphs@);
        let q = kept(rs, k as int);
        assert forall|i: int| 0 <= i < f.glyphs@.len() implies (#[trigger] f.glyphs@[i]).1.wf() by {
            let pp = q[i];
            assert(0 <= pp < k);
            assert(compiles_to(f.glyphs@[i].1, rs[pp]));
        }
    }
    f
}

/// A font configuration to compile: name, pixel size, inclusive codepoint
/// ranges, and whether the emoji outline source is sampled.
pub struct FontSpec {
    pub name: String,
    pub pixel_size: u16,
    pub ranges: Vec<(u32, u32)>,
    pub is_emoji: bool,
}

/// Unicode scalar values: the codepoints that are characters.
pub open spec fn is_scalar(v: int) -> bool {
    (0 <= v < 0xd800) || (0xe000 <= v <= 0x10ffff)
}

/// The scalar values in `lo..=hi`, ascending.
pub open spec fn scalars_in(lo: int, hi: int) -> Seq<int>
    decreases hi - lo + 1,
{
    if hi < lo {
        Seq::empty()
    } else {
        let p = scalars_in(lo, hi - 1);
        if is_scalar(hi) {
            p.push(hi)
        } else {
            p
        }
    }
}

/// The scalar values of each range in turn.
pub open spec fn spec_codepoints(ranges: Seq<(u32, u32)>) -> Seq<int>
    decreases ranges.len(),
{
    if ranges.len() == 0 {
        Seq::empty()
    } else {
        spec_codepoints(ranges.drop_last()) + scalars_in(
            ranges.last().0 as int,
            ranges.last().1 as int,
        )
    }
}

/// Characters as their codepoints.
pub open spec fn code_values(cs: Seq<char>) -> Seq<int> {
    cs.map_values(|c: char| c as int)
}

/// Relies on std's `char::from_u32`: a character exactly for a Unicode
/// scalar value, with that value.
#[verifier::external_body]
fn char_of(v: u32) -> (r: Option<char>)
    ensures
        match r {
            Some(c) => is_scalar(v as int) && c as int == v as int,
            None => !is_scalar(v as int),
        },
{
    char::from_u32(v)
}

impl FontSpec {
    /// The characters to rasterise: every scalar value of every range, in
    /// the order of the ranges.
    pub fn codepoints(&self) -> (r: Vec<char>)
        ensures
            code_values(r@) == spec_codepoints(self.ranges@),
    {
        let mut out: Vec<char> = Vec::new();
        let mut k: usize = 0;
        while k < self.ranges.len()
            invariant
                k <= self.ranges@.len(),
                code_values(out@) == spec_codepoints(self.ranges@.take(k as int)),
            decreases self.ranges@.len() - k,
        {
            let (lo, hi) = self.ranges[k];
            let ghost base = out@;
            let mut v: u64 = lo as u64;
            assert(scalars_in(lo as int, lo - 1) =~= Seq::empty());
            assert(code_values(out@) =~= code_values(base) + scalars_in(lo as int, v - 1));
            while v <= hi as u64
                invariant
                    lo <= v,
                    v <= hi as u64 + 1 || v == lo as u64,
                    code_values(out@) == code_values(base) + scalars_in(lo as int, v - 1),
                decreases hi as u64 + 1 - v,
            {
                let ghost before = out@;
                match char_of(v as u32) {
                    Some(c) => {
                        out.push(c);
                        assert(code_values(out@) =~= code_values(before).push(v as int));
                    },
                    None => {},
                }
                v = v + 1;
                assert(code_values(out@) =~= code_values(base) + scalars_in(lo as int, v - 1));
            }
            assert(scalars_in(lo as int, v - 1) == scalars_in(lo as int, hi as int));
            assert(self.ranges@.take(k + 1).drop_last() =~= self.ranges@.take(k as int));
            k = k + 1;
        }
        assert(self.ranges@.take(k as int) =~= self.ranges@);
        out
    }
}

} // verus!
