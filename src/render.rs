//! Baseline-relative rasterisation of text into foreground pixels.
use vstd::prelude::*;

use crate::codec::{is_packing_of, packed_len, stream_bit};
use crate::font::{advance_of, glyph_index, text_width, Font, Glyph};
use crate::text::chars_of;

verus! {

/// The set bits among the first `n` of a glyph's bitmap, as points relative
/// to a top-left corner at `(gx, gy)`, in row-major order.
pub open spec fn glyph_points(g: Glyph, gx: int, gy: int, n: int) -> Seq<(int, int)>
    decreases n,
{
    if n <= 0 {
        Seq::empty()
    } else {
        let prev = glyph_points(g, gx, gy, n - 1);
        let j = n - 1;
        if stream_bit(g.bitmap@, j) {
            prev.push((gx + j % (g.width as int), gy + j / (g.width as int)))
        } else {
            prev
        }
    }
}

/// The pixels painted for the first `k` characters of `text`, the pen
/// starting at `ox` on the baseline row `oy`. A character without a glyph
/// paints nothing.
pub open spec fn text_points(
    gs: Seq<(char, Glyph)>,
    text: Seq<char>,
    ox: int,
    oy: int,
    k: int,
) -> Seq<(int, int)>
    decreases k,
{
    if k <= 0 {
        Seq::empty()
    } else {
        let prev = text_points(gs, text, ox, oy, k - 1);
        let idx = glyph_index(gs, text[k - 1]);
        if idx < 0 {
            prev
        } else {
            let g = gs[idx].1;
            let gx = ox + text_width(gs, text.take(k - 1)) + g.x_offset;
            let gy = oy - g.y_offset - g.height;
            prev + glyph_points(g, gx, gy, g.width * g.height)
        }
    }
}

/// Pixel coordinates as pairs of integers.
pub open spec fn points(r: Seq<(i64, i64)>) -> Seq<(int, int)> {
    r.map_values(|p: (i64, i64)| (p.0 as int, p.1 as int))
}

/// Appends the set pixels of one glyph, its bitmap's top-left at `(gx, gy)`.
fn draw_glyph(g: &Glyph, gx: i64, gy: i64, out: &mut Vec<(i64, i64)>)
    requires
        g.wf(),
        -0x1_0000_0000_0000 <= gx <= 0x1_0000_0000_0000,
        -0x1_0000_0000_0000 <= gy <= 0x1_0000_0000_0000,
    ensures
        points(final(out)@) == points(old(out)@) + glyph_points(
            *g,
            gx as int,
            gy as int,
            g.width * g.height,
        ),
{
    let w = g.width as u64;
    let h = g.height as u64;
    assert(w * h <= 0xffff * 0xffff) by (nonlinear_arith)
        requires
            w <= 0xffff,
            h <= 0xffff,
    ;
    let n = w * h;
    let ghost start = points(old(out)@);
    let mut j: u64 = 0;
    assert(points(out@) =~= start + glyph_points(*g, gx as int, gy as int, 0));
    while j < n
        invariant
            n == g.width * g.height,
            n == w * (g.height as int),
            w == g.width,
            n <= 0xffff * 0xffff,
            j <= n,
            g.bitmap@.len() == packed_len(n as int),
            -0x1_0000_0000_0000 <= gx <= 0x1_0000_0000_0000,
            -0x1_0000_0000_0000 <= gy <= 0x1_0000_0000_0000,
            points(out@) == start + glyph_points(*g, gx as int, gy as int, j as int),
        decreases n - j,
    {
        let byte = g.bitmap[(j / 8) as usize];
        let shift = (7 - j % 8) as u8;
        let ghost before = points(out@);
        if (byte >> shift) & 1u8 == 1u8 {
            assert(w > 0) by (nonlinear_arith)
                requires
                    j < n,
                    n == w * (g.height as int),
            ;
            let x = gx + (j % w) as i64;
            let y = gy + (j / w) as i64;
            out.push((x, y));
            assert(points(out@) =~= before.push((x as int, y as int)));
        }
        j = j + 1;
        assert(points(out@) =~= start + glyph_points(*g, gx as int, gy as int, j as int));
    }
}

/// Rasterises `text` with its baseline starting at `(origin_x, origin_y)`:
/// the foreground pixels in drawing order, and the pen's final x position.
/// Characters without a glyph are skipped and do not move the pen.
pub fn draw_text(font: &Font, text: &str, origin_x: i32, origin_y: i32) -> (r: (
    Vec<(i64, i64)>,
    i64,
))
    requires
        font.wf(),
        text@.len() <= 0xffff_ffff,
    ensures
        points(r.0@) == text_points(
            font.glyphs@,
            text@,
            origin_x as int,
            origin_y as int,
            text@.len() as int,
        ),
        r.1 == origin_x + text_width(font.glyphs@, text@),
{
    let chars = chars_of(text);
    draw_chars(font, &chars, origin_x, origin_y)
}

/// [`draw_text`] on a sequence of characters.
pub fn draw_chars(font: &Font, text: &Vec<char>, origin_x: i32, origin_y: i32) -> (r: (
    Vec<(i64, i64)>,
    i64,
))
    requires
        font.wf(),
        text@.len() <= 0xffff_ffff,
    ensures
        points(r.0@) == text_points(
            font.glyphs@,
            text@,
            origin_x as int,
            origin_y as int,
            text@.len() as int,
        ),
        r.1 == origin_x + text_width(font.glyphs@, text@),
{
    let ghost gs = font.glyphs@;
    let ghost t = text@;
    let mut out: Vec<(i64, i64)> = Vec::new();
    let mut pen: i64 = origin_x as i64;
    let n = text.len();
    let mut i: usize = 0;
    assert(points(out@) =~= Seq::empty());
    assert(t.take(0) =~= Seq::empty());
    while i < n
        invariant
            font.wf(),
            gs == font.glyphs@,
            t == text@,
            n == t.len(),
            n <= 0xffff_ffff,
            i <= n,
            pen == origin_x + text_width(gs, t.take(i as int)),
            -32768 * i <= pen - origin_x <= 32768 * i,
            points(out@) == text_points(gs, t, origin_x as int, origin_y as int, i as int),
        decreases n - i,
    {
        let c = text[i];
        assert(t.take(i + 1).drop_last() =~= t.take(i as int));
        match font.find_glyph(c) {
            Some(k) => {
                let g = &font.glyphs[k].1;
                assert(g.wf());
                let gx = pen + g.x_offset as i64;
                let gy = origin_y as i64 - g.y_offset as i64 - g.height as i64;
                draw_glyph(g, gx, gy, &mut out);
                pen = pen + g.x_advance as i64;
            },
            None => {},
        }
        i = i + 1;
    }
    assert(t.take(n as int) =~= t);
    (out, pen)
}

proof fn lemma_text_points_prefix(
    gs: Seq<(char, Glyph)>,
    t1: Seq<char>,
    t2: Seq<char>,
    ox: int,
    oy: int,
    k: int,
)
    requires
        0 <= k <= t1.len(),
        k <= t2.len(),
        t1.take(k) == t2.take(k),
    ensures
        text_points(gs, t1, ox, oy, k) == text_points(gs, t2, ox, oy, k),
    decreases k,
{
    if k > 0 {
        assert(t1.take(k - 1) =~= t1.take(k).take(k - 1));
        assert(t2.take(k - 1) =~= t2.take(k).take(k - 1));
        assert(t1[k - 1] == t1.take(k)[k - 1]);
        assert(t2[k - 1] == t2.take(k)[k - 1]);
        lemma_text_points_prefix(gs, t1, t2, ox, oy, k - 1);
    }
}

/// A character without a glyph is skipped: it has no advance, so appending
/// it changes neither the width that wrapping accumulates nor the pen, and
/// it paints no pixel.
pub proof fn lemma_missing_glyph_skipped(
    gs: Seq<(char, Glyph)>,
    s: Seq<char>,
    c: char,
    ox: int,
    oy: int,
)
    requires
        glyph_index(gs, c) == -1,
    ensures
        advance_of(gs, c) == 0,
        text_width(gs, s.push(c)) == text_width(gs, s),
        text_points(gs, s.push(c), ox, oy, s.len() + 1int) == text_points(
            gs,
            s,
            ox,
            oy,
            s.len() as int,
        ),
{
    let t = s.push(c);
    assert(t.drop_last() =~= s);
    assert(t.take(s.len() as int) =~= s.take(s.len() as int));
    lemma_text_points_prefix(gs, t, s, ox, oy, s.len() as int);
}

proof fn lemma_missing_glyph_inside_upto(
    gs: Seq<(char, Glyph)>,
    a: Seq<char>,
    c: char,
    b: Seq<char>,
    ox: int,
    oy: int,
    k: int,
)
    requires
        glyph_index(gs, c) == -1,
        0 <= k <= b.len(),
    ensures
        text_width(gs, (a.push(c) + b).take(a.len() + 1 + k)) == text_width(
            gs,
            (a + b).take(a.len() + k),
        ),
        text_points(gs, a.push(c) + b, ox, oy, a.len() + 1 + k) == text_points(
            gs,
            a + b,
            ox,
            oy,
            a.len() + k,
        ),
    decreases k,
{
    let t1 = a.push(c) + b;
    let t2 = a + b;
    let n = a.len() as int;
    if k == 0 {
        assert(t1.take(n + 1).drop_last() =~= a);
        assert(t1.take(n + 1).last() == c);
        assert(t2.take(n) =~= a);
        assert(t1.take(n) =~= t2.take(n));
        assert(t1[n] == c);
        lemma_text_points_prefix(gs, t1, t2, ox, oy, n);
    } else {
        lemma_missing_glyph_inside_upto(gs, a, c, b, ox, oy, k - 1);
        assert(t1[n + k] == b[k - 1]);
        assert(t2[n + k - 1] == b[k - 1]);
        assert(t1.take(n + 1 + k).drop_last() =~= t1.take(n + k));
        assert(t2.take(n + k).drop_last() =~= t2.take(n + k - 1));
        assert(t1.take(n + 1 + k).last() == b[k - 1]);
        assert(t2.take(n + k).last() == b[k - 1]);
    }
}

/// A character without a glyph, anywhere in a text, is skipped: the text
/// has the width, and paints the pixels, of the text without it.
pub proof fn lemma_missing_glyph_inside(
    gs: Seq<(char, Glyph)>,
    a: Seq<char>,
    c: char,
    b: Seq<char>,
    ox: int,
    oy: int,
)
    requires
        glyph_index(gs, c) == -1,
    ensures
        text_width(gs, a.push(c) + b) == text_width(gs, a + b),
        text_points(gs, a.push(c) + b, ox, oy, (a.len() + 1 + b.len()) as int) == text_points(
            gs,
            a + b,
            ox,
            oy,
            (a.len() + b.len()) as int,
        ),
{
    lemma_missing_glyph_inside_upto(gs, a, c, b, ox, oy, b.len() as int);
    assert((a.push(c) + b).take((a.len() + 1 + b.len()) as int) =~= a.push(c) + b);
    assert((a + b).take((a.len() + b.len()) as int) =~= a + b);
}

/// Cell `j` of a row-major matrix of width `w`, placed at `(gx, gy)`.
pub open spec fn cell_point(w: int, gx: int, gy: int, j: int) -> (int, int) {
    (gx + j % w, gy + j / w)
}

proof fn lemma_glyph_points_cells(g: Glyph, bits: Seq<bool>, gx: int, gy: int, n: int)
    requires
        is_packing_of(g.bitmap@, bits),
        0 <= n <= bits.len(),
    ensures
        forall|p: (int, int)|
            glyph_points(g, gx, gy, n).contains(p) <==> exists|j: int|
                0 <= j < n && bits[j] && p == cell_point(g.width as int, gx, gy, j),
    decreases n,
{
    if n > 0 {
        lemma_glyph_points_cells(g, bits, gx, gy, n - 1);
        let prev = glyph_points(g, gx, gy, n - 1);
        let q = cell_point(g.width as int, gx, gy, n - 1);
        assert(stream_bit(g.bitmap@, n - 1) == bits[n - 1]);
        assert forall|p: (int, int)|
            glyph_points(g, gx, gy, n).contains(p) <==> exists|j: int|
                0 <= j < n && bits[j] && p == cell_point(g.width as int, gx, gy, j) by {
            if glyph_points(g, gx, gy, n).contains(p) {
                if prev.contains(p) {
                    let j = choose|j: int|
                        0 <= j < n - 1 && bits[j] && p == cell_point(g.width as int, gx, gy, j);
                    assert(0 <= j < n && bits[j] && p == cell_point(g.width as int, gx, gy, j));
                } else {
                    let k = choose|k: int| 0 <= k < glyph_points(g, gx, gy, n).len() && glyph_points(g, gx, gy, n)[k] == p;
                    assert(bits[n - 1]);
                    assert(glyph_points(g, gx, gy, n) == prev.push(q));
                    assert(k == prev.len()) by {
                        if k < prev.len() {
                            assert(prev[k] == p);
                        }
                    }
                    assert(p == q);
                }
            }
            if exists|j: int| 0 <= j < n && bits[j] && p == cell_point(g.width as int, gx, gy, j) {
                let j = choose|j: int| 0 <= j < n && bits[j] && p == cell_point(g.width as int, gx, gy, j);
                if j < n - 1 {
                    assert(prev.contains(p));
                    let k = choose|k: int| 0 <= k < prev.len() && prev[k] == p;
                    assert(glyph_points(g, gx, gy, n)[k] == p);
                } else {
                    assert(glyph_points(g, gx, gy, n) == prev.push(q));
                    assert(glyph_points(g, gx, gy, n)[prev.len() as int] == p);
                }
            }
        }
    }
}

/// A one-character text whose glyph packs a row-major bit matrix paints
/// exactly the set cells of that matrix, shifted to the glyph's bitmap
/// origin `(ox + x_offset, oy - y_offset - height)`; padding bits paint nothing.
pub proof fn lemma_glyph_paints_matrix(
    gs: Seq<(char, Glyph)>,
    c: char,
    bits: Seq<bool>,
    ox: int,
    oy: int,
)
    requires
        glyph_index(gs, c) >= 0,
        is_packing_of(gs[glyph_index(gs, c)].1.bitmap@, bits),
        bits.len() == gs[glyph_index(gs, c)].1.width * gs[glyph_index(gs, c)].1.height,
    ensures
        ({
            let g = gs[glyph_index(gs, c)].1;
            forall|p: (int, int)|
                text_points(gs, seq![c], ox, oy, 1).contains(p) <==> exists|j: int|
                    0 <= j < bits.len() && bits[j] && p == cell_point(
                        g.width as int,
                        ox + g.x_offset,
                        oy - g.y_offset - g.height,
                        j,
                    )
        }),
{
    let g = gs[glyph_index(gs, c)].1;
    let t = seq![c];
    assert(t.take(0).len() == 0);
    assert(text_width(gs, t.take(0)) == 0);
    assert(t[0] == c);
    let gp = glyph_points(g, ox + g.x_offset, oy - g.y_offset - g.height, g.width * g.height);
    assert(text_points(gs, t, ox, oy, 1) == text_points(gs, t, ox, oy, 0) + gp);
    assert(Seq::<(int, int)>::empty() + gp =~= gp);
    assert(text_points(gs, t, ox, oy, 1) =~= glyph_points(
        g,
        ox + g.x_offset,
        oy - g.y_offset - g.height,
        g.width * g.height,
    ));
    lemma_glyph_points_cells(g, bits, ox + g.x_offset, oy - g.y_offset - g.height, bits.len() as int);
}

} // verus!
