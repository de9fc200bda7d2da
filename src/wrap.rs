//! Greedy word wrapping under a pixel-width budget.
use vstd::prelude::*;

use crate::font::{advance_of, glyph_index, lemma_find_from, text_width, Font, Glyph};
use crate::text::{chars_of, is_space, is_space_char};

verus! {

/// Where the greedy wrapper stands.
pub struct WrapState {
    /// Index of the next character to place.
    pub i: int,
    /// Character index where the current line starts.
    pub start: int,
    /// Most recent whitespace inside the current line, not at its start.
    pub last_space: Option<int>,
    /// Advance width of the current line so far.
    pub width: int,
    /// Advance width of the current line after its last whitespace.
    pub tail: int,
    /// Lines emitted so far, as character ranges.
    pub lines: Seq<(int, int)>,
}

pub open spec fn wrap_init() -> WrapState {
    WrapState { i: 0, start: 0, last_space: None, width: 0, tail: 0, lines: Seq::empty() }
}

/// The positions of a state are consistent with the text.
pub open spec fn state_ok(text: Seq<char>, st: WrapState) -> bool {
    &&& 0 <= st.start <= st.i <= text.len()
    &&& match st.last_space {
        Some(s) => st.start < s < st.i && is_space_char(text[s]),
        None => true,
    }
}

/// One decision of the greedy wrapper on the character at `st.i`.
/// - It fits: it joins the line.
/// - It is whitespace: the line ends before it, and it is the separator
///   (at the start of a line, the line ends empty).
/// - It opens the line and does not fit alone: it forms a line by itself.
/// - The line holds whitespace: the line ends there, that whitespace is the
///   separator, and the characters after it carry over to the next line.
/// - Otherwise the line ends before it, and it opens the next line.
pub open spec fn wrap_next(gs: Seq<(char, Glyph)>, text: Seq<char>, max_width: int, st: WrapState) -> WrapState {
    let c = text[st.i];
    let a = advance_of(gs, c);
    let w = st.width + a;
    if w <= max_width {
        let sp = is_space_char(c) && st.i > st.start;
        WrapState {
            i: st.i + 1,
            start: st.start,
            last_space: if sp { Some(st.i) } else { st.last_space },
            width: w,
            tail: if sp { 0 } else { st.tail + a },
            lines: st.lines,
        }
    } else if is_space_char(c) {
        WrapState {
            i: st.i + 1,
            start: st.i + 1,
            last_space: None,
            width: 0,
            tail: 0,
            lines: st.lines.push((st.start, st.i)),
        }
    } else if st.start == st.i {
        WrapState {
            i: st.i + 1,
            start: st.i + 1,
            last_space: None,
            width: 0,
            tail: 0,
            lines: st.lines.push((st.i, st.i + 1)),
        }
    } else {
        match st.last_space {
            Some(s) => WrapState {
                i: st.i,
                start: s + 1,
                last_space: None,
                width: st.tail,
                tail: st.tail,
                lines: st.lines.push((st.start, s)),
            },
            None => WrapState {
                i: st.i,
                start: st.i,
                last_space: None,
                width: 0,
                tail: 0,
                lines: st.lines.push((st.start, st.i)),
            },
        }
    }
}

/// Lines emitted from state `st` on: decisions until the line budget is
/// used up or the text ends, then what remains of the text as a last line.
pub open spec fn wrap_from(
    gs: Seq<(char, Glyph)>,
    text: Seq<char>,
    max_width: int,
    max_lines: int,
    st: WrapState,
) -> Seq<(int, int)>
    decreases 2 * (text.len() - st.i) + (st.i - st.start),
{
    if !state_ok(text, st) || st.lines.len() >= max_lines {
        st.lines
    } else if st.i >= text.len() {
        if st.start < text.len() {
            st.lines.push((st.start, text.len() as int))
        } else {
            st.lines
        }
    } else {
        wrap_from(gs, text, max_width, max_lines, wrap_next(gs, text, max_width, st))
    }
}

/// The lines of `text`, as character ranges.
pub open spec fn wrap_spec(
    gs: Seq<(char, Glyph)>,
    text: Seq<char>,
    max_width: int,
    max_lines: int,
) -> Seq<(int, int)> {
    wrap_from(gs, text, max_width, max_lines, wrap_init())
}

/// The spans of `r` as pairs of integers.
pub open spec fn spans(r: Seq<(usize, usize)>) -> Seq<(int, int)> {
    r.map_values(|p: (usize, usize)| (p.0 as int, p.1 as int))
}

/// Splits `text` into at most `max_lines` lines that fit `max_width`,
/// breaking at whitespace where the line holds any, returned as character
/// ranges `(start, end)`.
pub fn wrap_text(font: &Font, text: &str, max_width: i16, max_lines: usize) -> (r: Vec<
    (usize, usize),
>)
    ensures
        spans(r@) == wrap_spec(font.glyphs@, text@, max_width as int, max_lines as int),
{
    let chars = chars_of(text);
    wrap_chars(font, &chars, max_width, max_lines)
}

/// [`wrap_text`] on a sequence of characters.
pub fn wrap_chars(font: &Font, text: &Vec<char>, max_width: i16, max_lines: usize) -> (r: Vec<
    (usize, usize),
>)
    ensures
        spans(r@) == wrap_spec(font.glyphs@, text@, max_width as int, max_lines as int),
{
    let ghost gs = font.glyphs@;
    let ghost t = text@;
    let ghost mw = max_width as int;
    let ghost ml = max_lines as int;
    let mut lines: Vec<(usize, usize)> = Vec::new();
    let n = text.len();
    let mut i: usize = 0;
    let mut start: usize = 0;
    let mut last_space: Option<usize> = None;
    let mut width: i128 = 0;
    let mut tail: i128 = 0;
    assert(spans(lines@) =~= Seq::<(int, int)>::empty());
    while i < n && lines.len() < max_lines
        invariant
            n == t.len(),
            gs == font.glyphs@,
            t == text@,
            mw == max_width as int,
            ml == max_lines as int,
            start <= i <= n,
            -32768 * i <= width <= 32768 * i,
            -32768 * i <= tail <= 32768 * i,
            ({
                let st = WrapState {
                    i: i as int,
                    start: start as int,
                    last_space: match last_space {
                        Some(k) => Some(k as int),
                        None => None,
                    },
                    width: width as int,
                    tail: tail as int,
                    lines: spans(lines@),
                };
                &&& state_ok(t, st)
                &&& wrap_from(gs, t, mw, ml, st) == wrap_spec(gs, t, mw, ml)
            }),
        decreases 2 * (n - i) + (i - start),
    {
        let ghost before = spans(lines@);
        let c = text[i];
        let a = font.advance(c) as i128;
        let w = width + a;
        if w <= max_width as i128 {
            if is_space(c) && i > start {
                last_space = Some(i);
                tail = 0;
            } else {
                tail = tail + a;
            }
            width = w;
            i = i + 1;
        } else if is_space(c) {
            lines.push((start, i));
            start = i + 1;
            i = i + 1;
            last_space = None;
            width = 0;
            tail = 0;
        } else if start == i {
            lines.push((i, i + 1));
            start = i + 1;
            i = i + 1;
            last_space = None;
            width = 0;
            tail = 0;
        } else {
            match last_space {
                Some(s) => {
                    lines.push((start, s));
                    start = s + 1;
                    width = tail;
                },
                None => {
                    lines.push((start, i));
                    start = i;
                    width = 0;
                    tail = 0;
                },
            }
            last_space = None;
        }
        assert(spans(lines@) =~= before || spans(lines@) =~= before.push(spans(lines@).last()));
    }
    if lines.len() < max_lines && start < n {
        let ghost before = spans(lines@);
        lines.push((start, n));
        assert(spans(lines@) =~= before.push((start as int, n as int)));
    }
    lines
}

/// What separates a line ending at `e` from the next one starting at `a`:
/// nothing, or a single whitespace character.
pub open spec fn gap_ok(text: Seq<char>, e: int, a: int) -> bool {
    a == e || (a == e + 1 && 0 <= e < text.len() && is_space_char(text[e]))
}

/// Lines are ranges of the text, the first starting at its start, each
/// separated from the next by nothing or one whitespace.
pub open spec fn well_spaced(text: Seq<char>, lines: Seq<(int, int)>) -> bool {
    &&& forall|k: int| 0 <= k < lines.len() ==> 0 <= (#[trigger] lines[k]).0 <= lines[k].1 <= text.len()
    &&& forall|k: int| 0 <= k < lines.len() - 1 ==> gap_ok(text, (#[trigger] lines[k]).1, lines[k + 1].0)
    &&& lines.len() > 0 ==> lines[0].0 == 0
}

/// The emitted lines are well spaced, within budget, and lead up to the
/// current line.
pub open spec fn shape_inv(text: Seq<char>, max_lines: int, st: WrapState) -> bool {
    &&& state_ok(text, st)
    &&& st.lines.len() <= max_lines
    &&& well_spaced(text, st.lines)
    &&& st.lines.len() == 0 ==> st.start == 0
    &&& st.lines.len() > 0 ==> gap_ok(text, st.lines.last().1, st.start)
}

proof fn lemma_push_well_spaced(text: Seq<char>, lines: Seq<(int, int)>, a: int, b: int)
    requires
        well_spaced(text, lines),
        0 <= a <= b <= text.len(),
        lines.len() == 0 ==> a == 0,
        lines.len() > 0 ==> gap_ok(text, lines.last().1, a),
    ensures
        well_spaced(text, lines.push((a, b))),
{
    let r = lines.push((a, b));
    assert forall|k: int| 0 <= k < r.len() - 1 implies gap_ok(text, (#[trigger] r[k]).1, r[k + 1].0) by {
        if k < lines.len() - 1 {
            assert(r[k] == lines[k] && r[k + 1] == lines[k + 1]);
        }
    }
}

proof fn lemma_wrap_from_shape(
    gs: Seq<(char, Glyph)>,
    text: Seq<char>,
    max_width: int,
    max_lines: int,
    st: WrapState,
)
    requires
        shape_inv(text, max_lines, st),
    ensures
        ({
            let r = wrap_from(gs, text, max_width, max_lines, st);
            &&& r.len() <= max_lines
            &&& well_spaced(text, r)
            &&& r.len() < max_lines ==> {
                &&& r.len() == 0 ==> text.len() == 0
                &&& r.len() > 0 ==> gap_ok(text, r.last().1, text.len() as int)
            }
        }),
    decreases 2 * (text.len() - st.i) + (st.i - st.start),
{
    if st.lines.len() >= max_lines {
    } else if st.i >= text.len() {
        if st.start < text.len() {
            lemma_push_well_spaced(text, st.lines, st.start, text.len() as int);
        }
    } else {
        let nx = wrap_next(gs, text, max_width, st);
        if nx.lines.len() > st.lines.len() {
            lemma_push_well_spaced(text, st.lines, nx.lines.last().0, nx.lines.last().1);
            assert(nx.lines == st.lines.push(nx.lines.last()));
        }
        assert(shape_inv(text, max_lines, nx));
        lemma_wrap_from_shape(gs, text, max_width, max_lines, nx);
    }
}

/// The wrapper emits at most `max_lines` lines. They are ranges of the
/// text in order (empty only where a whitespace wider than the budget opens
/// a line), the first starting at the text's start, and
/// between two lines lies nothing or one whitespace character. Unless the
/// line budget is used up, no text is lost: an empty text gives no line,
/// and after the last line there is nothing or one whitespace character.
pub proof fn lemma_wrap_lines_bounded(
    gs: Seq<(char, Glyph)>,
    text: Seq<char>,
    max_width: int,
    max_lines: int,
)
    requires
        max_lines >= 0,
    ensures
        ({
            let r = wrap_spec(gs, text, max_width, max_lines);
            &&& r.len() <= max_lines
            &&& well_spaced(text, r)
            &&& r.len() < max_lines ==> {
                &&& r.len() == 0 <==> text.len() == 0
                &&& r.len() > 0 ==> gap_ok(text, r.last().1, text.len() as int)
            }
        }),
{
    lemma_wrap_from_shape(gs, text, max_width, max_lines, wrap_init());
    let r = wrap_spec(gs, text, max_width, max_lines);
    if text.len() == 0 && max_lines > 0 {
        assert(r == wrap_init().lines);
    }
}

/// Whitespace characters do not move the pen backwards.
pub open spec fn space_advances_nonneg(gs: Seq<(char, Glyph)>) -> bool {
    forall|c: char| is_space_char(c) ==> advance_of(gs, c) >= 0
}

/// No whitespace in `text[a..b]`.
pub open spec fn no_space_in(text: Seq<char>, a: int, b: int) -> bool {
    forall|m: int| a <= m < b ==> !is_space_char(#[trigger] text[m])
}

/// Each line fits the width budget, unless it holds no whitespace: only an
/// unbreakable token may be wider than the budget.
pub open spec fn lines_fit(
    gs: Seq<(char, Glyph)>,
    text: Seq<char>,
    max_width: int,
    lines: Seq<(int, int)>,
) -> bool {
    forall|k: int|
        0 <= k < lines.len() ==> text_width(gs, text.subrange((#[trigger] lines[k]).0, lines[k].1))
            <= max_width || no_space_in(text, lines[k].0, lines[k].1)
}

proof fn lemma_width_step(gs: Seq<(char, Glyph)>, text: Seq<char>, a: int, m: int)
    requires
        0 <= a <= m < text.len(),
    ensures
        text_width(gs, text.subrange(a, m + 1)) == text_width(gs, text.subrange(a, m))
            + advance_of(gs, text[m]),
{
    assert(text.subrange(a, m + 1).drop_last() =~= text.subrange(a, m));
}

/// The current line is measured exactly; the part after its last
/// whitespace holds none and is measured too; a line wider than the budget
/// holds no whitespace; the line up to its last whitespace fits; every
/// emitted line fits or holds no whitespace.
pub open spec fn fit_inv(gs: Seq<(char, Glyph)>, text: Seq<char>, max_width: int, st: WrapState) -> bool {
    let base = match st.last_space {
        Some(s) => s + 1,
        None => st.start,
    };
    &&& st.width == text_width(gs, text.subrange(st.start, st.i))
    &&& st.tail == text_width(gs, text.subrange(base, st.i))
    &&& no_space_in(text, base, st.i) || (st.last_space is None && no_space_in(text, st.start + 1, st.i))
    &&& st.width > max_width ==> no_space_in(text, st.start, st.i)
    &&& match st.last_space {
        Some(s) => text_width(gs, text.subrange(st.start, s + 1)) <= max_width,
        None => true,
    }
    &&& lines_fit(gs, text, max_width, st.lines)
}

proof fn lemma_push_fit(
    gs: Seq<(char, Glyph)>,
    text: Seq<char>,
    max_width: int,
    lines: Seq<(int, int)>,
    a: int,
    b: int,
)
    requires
        lines_fit(gs, text, max_width, lines),
        text_width(gs, text.subrange(a, b)) <= max_width || no_space_in(text, a, b),
    ensures
        lines_fit(gs, text, max_width, lines.push((a, b))),
{
    let r = lines.push((a, b));
    assert forall|k: int| 0 <= k < r.len() implies text_width(gs, text.subrange((#[trigger] r[k]).0, r[k].1))
        <= max_width || no_space_in(text, r[k].0, r[k].1) by {
        if k < lines.len() {
            assert(r[k] == lines[k]);
        }
    }
}

proof fn lemma_wrap_from_fit(
    gs: Seq<(char, Glyph)>,
    text: Seq<char>,
    max_width: int,
    max_lines: int,
    st: WrapState,
)
    requires
        space_advances_nonneg(gs),
        fit_inv(gs, text, max_width, st),
    ensures
        lines_fit(gs, text, max_width, wrap_from(gs, text, max_width, max_lines, st)),
    decreases 2 * (text.len() - st.i) + (st.i - st.start),
{
    if !state_ok(text, st) || st.lines.len() >= max_lines {
    } else if st.i >= text.len() {
        if st.start < text.len() {
            lemma_push_fit(gs, text, max_width, st.lines, st.start, text.len() as int);
        }
    } else {
        let nx = wrap_next(gs, text, max_width, st);
        let i = st.i;
        let c = text[i];
        lemma_width_step(gs, text, st.start, i);
        assert(text.subrange(i + 1, i + 1).len() == 0);
        assert(text.subrange(i, i).len() == 0);
        if st.width + advance_of(gs, c) <= max_width {
            match st.last_space {
                Some(s) => {
                    lemma_width_step(gs, text, s + 1, i);
                },
                None => {},
            }
        } else if is_space_char(c) {
            lemma_push_fit(gs, text, max_width, st.lines, st.start, i);
        } else if st.start == i {
            lemma_push_fit(gs, text, max_width, st.lines, i, i + 1);
        } else {
            match st.last_space {
                Some(s) => {
                    lemma_width_step(gs, text, st.start, s);
                    assert(is_space_char(text[s]));
                    assert(advance_of(gs, text[s]) >= 0);
                    lemma_push_fit(gs, text, max_width, st.lines, st.start, s);
                },
                None => {
                    lemma_push_fit(gs, text, max_width, st.lines, st.start, i);
                },
            }
        }
        assert(fit_inv(gs, text, max_width, nx));
        lemma_wrap_from_fit(gs, text, max_width, max_lines, nx);
    }
}

/// Every line fits the width budget, unless it holds no whitespace: only a
/// single unbreakable token may be wider. Advances may be negative, but a
/// whitespace character's may not.
pub proof fn lemma_wrap_lines_fit(
    gs: Seq<(char, Glyph)>,
    text: Seq<char>,
    max_width: int,
    max_lines: int,
)
    requires
        space_advances_nonneg(gs),
    ensures
        lines_fit(gs, text, max_width, wrap_spec(gs, text, max_width, max_lines)),
{
    assert(text.subrange(0, 0).len() == 0);
    lemma_wrap_from_fit(gs, text, max_width, max_lines, wrap_init());
}

proof fn lemma_wrap_from_fitting(
    gs: Seq<(char, Glyph)>,
    text: Seq<char>,
    max_width: int,
    max_lines: int,
    st: WrapState,
)
    requires
        text.len() > 0,
        max_lines >= 1,
        forall|m: int| 0 <= m <= text.len() ==> text_width(gs, #[trigger] text.take(m)) <= max_width,
        state_ok(text, st),
        st.start == 0,
        st.lines.len() == 0,
        st.width == text_width(gs, text.take(st.i)),
    ensures
        wrap_from(gs, text, max_width, max_lines, st) == seq![(0int, text.len() as int)],
    decreases text.len() - st.i,
{
    if st.i >= text.len() {
        assert(st.lines.push((0int, text.len() as int)) =~= seq![(0int, text.len() as int)]);
    } else {
        let nx = wrap_next(gs, text, max_width, st);
        assert(text.take(st.i + 1).drop_last() =~= text.take(st.i));
        assert(text_width(gs, text.take(st.i + 1)) <= max_width);
        lemma_wrap_from_fitting(gs, text, max_width, max_lines, nx);
    }
}

/// A non-empty text whose every prefix fits the width budget comes back as
/// one line: the whole text.
pub proof fn lemma_wrap_fitting_text(
    gs: Seq<(char, Glyph)>,
    text: Seq<char>,
    max_width: int,
    max_lines: int,
)
    requires
        text.len() > 0,
        max_lines >= 1,
        forall|m: int| 0 <= m <= text.len() ==> text_width(gs, #[trigger] text.take(m)) <= max_width,
    ensures
        wrap_spec(gs, text, max_width, max_lines) == seq![(0int, text.len() as int)],
{
    assert(text.take(0).len() == 0);
    lemma_wrap_from_fitting(gs, text, max_width, max_lines, wrap_init());
}

proof fn lemma_wrap_from_same_advances(
    gs1: Seq<(char, Glyph)>,
    gs2: Seq<(char, Glyph)>,
    text: Seq<char>,
    max_width: int,
    max_lines: int,
    st: WrapState,
)
    requires
        forall|c: char| advance_of(gs1, c) == advance_of(gs2, c),
    ensures
        wrap_from(gs1, text, max_width, max_lines, st) == wrap_from(
            gs2,
            text,
            max_width,
            max_lines,
            st,
        ),
    decreases 2 * (text.len() - st.i) + (st.i - st.start),
{
    if state_ok(text, st) && st.lines.len() < max_lines && st.i < text.len() {
        assert(advance_of(gs1, text[st.i]) == advance_of(gs2, text[st.i]));
        assert(wrap_next(gs1, text, max_width, st) == wrap_next(gs2, text, max_width, st));
        lemma_wrap_from_same_advances(
            gs1,
            gs2,
            text,
            max_width,
            max_lines,
            wrap_next(gs1, text, max_width, st),
        );
    }
}

/// Wrapping reads a table only through advances: two tables that give
/// every character the same advance wrap every text alike.
pub proof fn lemma_wrap_same_advances(
    gs1: Seq<(char, Glyph)>,
    gs2: Seq<(char, Glyph)>,
    text: Seq<char>,
    max_width: int,
    max_lines: int,
)
    requires
        forall|c: char| advance_of(gs1, c) == advance_of(gs2, c),
    ensures
        wrap_spec(gs1, text, max_width, max_lines) == wrap_spec(gs2, text, max_width, max_lines),
{
    lemma_wrap_from_same_advances(gs1, gs2, text, max_width, max_lines, wrap_init());
}

/// Two tables with the same first entry for `x` give `x` the same advance.
proof fn lemma_advance_via_first(gs1: Seq<(char, Glyph)>, gs2: Seq<(char, Glyph)>, x: char, j1: int, j2: int)
    requires
        0 <= j1 < gs1.len(),
        0 <= j2 < gs2.len(),
        gs1[j1].0 == x && gs2[j2].0 == x,
        gs1[j1].1.x_advance == gs2[j2].1.x_advance,
        forall|m: int| 0 <= m < j1 ==> gs1[m].0 != x,
        forall|m: int| 0 <= m < j2 ==> gs2[m].0 != x,
    ensures
        advance_of(gs1, x) == advance_of(gs2, x),
{
    lemma_find_from(gs1, x, 0);
    lemma_find_from(gs2, x, 0);
    assert(glyph_index(gs1, x) == j1);
    assert(glyph_index(gs2, x) == j2);
}

/// A character without a glyph adds nothing to the width and never itself
/// forces a break: the text wraps exactly as if the table held it, at any
/// position `k`, with a zero advance.
pub proof fn lemma_wrap_missing_glyph(
    gs: Seq<(char, Glyph)>,
    c: char,
    g: Glyph,
    k: int,
    text: Seq<char>,
    max_width: int,
    max_lines: int,
)
    requires
        glyph_index(gs, c) == -1,
        g.x_advance == 0,
        0 <= k <= gs.len(),
    ensures
        advance_of(gs, c) == 0,
        wrap_spec(gs, text, max_width, max_lines) == wrap_spec(
            gs.take(k).push((c, g)) + gs.skip(k),
            text,
            max_width,
            max_lines,
        ),
{
    let gs2 = gs.take(k).push((c, g)) + gs.skip(k);
    assert(gs2.len() == gs.len() + 1);
    assert forall|m: int| 0 <= m < gs2.len() implies #[trigger] gs2[m] == if m < k {
        gs[m]
    } else if m == k {
        (c, g)
    } else {
        gs[m - 1]
    } by {}
    lemma_find_from(gs, c, 0);
    assert forall|x: char| advance_of(gs, x) == advance_of(gs2, x) by {
        lemma_find_from(gs, x, 0);
        lemma_find_from(gs2, x, 0);
        let j = glyph_index(gs, x);
        if x == c {
            assert forall|m: int| 0 <= m < k implies gs2[m].0 != x by {
                assert(gs2[m] == gs[m]);
            }
            assert(gs2[k] == (c, g));
            assert(glyph_index(gs2, x) == k);
        } else if j >= 0 {
            let j2 = if j < k { j } else { j + 1 };
            assert(gs2[j2] == gs[j]);
            assert forall|m: int| 0 <= m < j2 implies gs2[m].0 != x by {
                if m < k {
                    assert(gs2[m] == gs[m]);
                } else if m > k {
                    assert(gs2[m] == gs[m - 1]);
                }
            }
            lemma_advance_via_first(gs, gs2, x, j, j2);
        } else {
            let j2 = glyph_index(gs2, x);
            if j2 >= 0 {
                if j2 < k {
                    assert(gs2[j2] == gs[j2]);
                } else if j2 > k {
                    assert(gs2[j2] == gs[j2 - 1]);
                }
            }
        }
    }
    lemma_wrap_same_advances(gs, gs2, text, max_width, max_lines);
}

} // verus!
