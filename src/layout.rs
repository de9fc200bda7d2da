//! Placement of the dashboard's text on the frame: date, time and weather in
//! the left column, upcoming calendar entries in the right one.
use vstd::prelude::*;

use crate::calendar::{event_time_label, event_time_text, event_wf, CalendarEvent};
use crate::font::{glyph_index, Font};
use crate::text::chars_of;
use crate::wrap::{lemma_wrap_lines_bounded, spans, well_spaced, wrap_chars, wrap_spec};

verus! {

pub const WIDTH: i32 = 800;
pub const HEIGHT: i32 = 480;
pub const TOP: i32 = 50;
/// Baseline of the first left-column line: one and a half times [`TOP`].
pub const LEFT_TOP: i32 = 75;
pub const LEFT_COL_X: i32 = 15;
pub const LEFT_COL_W: i32 = 350;
pub const RIGHT_COL_X: i32 = 365;
pub const LINE_GAP: i32 = 4;
pub const TITLE_LINES_MAX: usize = 2;
/// Width budget of an entry's title.
pub const TITLE_WIDTH: i16 = 450;
/// No entry block may reach below this row.
pub const BOTTOM_LIMIT: i32 = 472;

/// The role of a font on the frame.
#[derive(Debug, Clone, Copy, PartialEq, Eq, Structural)]
pub enum FontRole {
    Header,
    Body,
    Large,
    Emoji,
}

/// The four compiled tables the frame is drawn with.
pub struct Fonts {
    pub header: Font,
    pub body: Font,
    pub large: Font,
    pub emoji: Font,
}

impl Fonts {
    pub open spec fn wf(&self) -> bool {
        self.header.wf() && self.body.wf() && self.large.wf() && self.emoji.wf()
    }
}

/// What one frame shows.
pub struct Frame {
    pub date: String,
    pub time: String,
    pub icon: String,
    pub temperature: String,
    pub events: Vec<CalendarEvent>,
}

/// One piece of text to draw, its baseline starting at `(x, y)`.
#[derive(Debug)]
pub struct Placement {
    pub role: FontRole,
    pub text: Vec<char>,
    pub x: i32,
    pub y: i32,
}

/// A placement as plain values.
pub open spec fn placed(p: Placement) -> (FontRole, Seq<char>, int, int) {
    (p.role, p.text@, p.x as int, p.y as int)
}

pub open spec fn line_height(f: Font) -> int {
    f.ascent - f.descent
}

/// The left column: date, time, then the weather icon and temperature.
/// The temperature moves right of the icon by twice the icon glyph's width
/// when the emoji table has a glyph for the icon's first character.
pub open spec fn left_column(f: Fonts, d: Frame) -> Seq<(FontRole, Seq<char>, int, int)> {
    let y1 = LEFT_TOP as int;
    let y2 = y1 + 2 * line_height(f.header);
    let y3 = y2 + 2 * line_height(f.large);
    let head = seq![
        (FontRole::Header, d.date@, LEFT_COL_X as int, y1),
        (FontRole::Large, d.time@, LEFT_COL_X as int, y2),
    ];
    let k = if d.icon@.len() > 0 {
        glyph_index(f.emoji.glyphs@, d.icon@[0])
    } else {
        -1
    };
    if k >= 0 {
        head + seq![
            (FontRole::Emoji, d.icon@, LEFT_COL_X as int, y3),
            (
                FontRole::Header,
                d.temperature@,
                LEFT_COL_X + 2 * f.emoji.glyphs@[k].1.width,
                y3,
            ),
        ]
    } else {
        head.push((FontRole::Header, d.temperature@, LEFT_COL_X as int, y3))
    }
}

/// The placements of one entry whose block starts at row `y`: its title
/// lines, then its time line.
pub open spec fn entry_block(body: Font, e: CalendarEvent, y: int) -> Seq<
    (FontRole, Seq<char>, int, int),
> {
    let lines = wrap_spec(body.glyphs@, e.title@, TITLE_WIDTH as int, TITLE_LINES_MAX as int);
    let step = body.pixel_size + LINE_GAP;
    Seq::new(
        lines.len(),
        |i: int|
            (
                FontRole::Body,
                e.title@.subrange(lines[i].0, lines[i].1),
                RIGHT_COL_X as int,
                y + i * step,
            ),
    ).push((FontRole::Body, event_time_text(e), RIGHT_COL_X as int, y + lines.len() * step))
}

/// Height taken by an entry's block.
pub open spec fn entry_advance(body: Font, e: CalendarEvent) -> int {
    let lines = wrap_spec(body.glyphs@, e.title@, TITLE_WIDTH as int, TITLE_LINES_MAX as int);
    lines.len() * (body.pixel_size + LINE_GAP) + line_height(body) + LINE_GAP
}

/// Whether an entry's block starting at row `y` would reach past the bottom.
pub open spec fn entry_overflows(body: Font, e: CalendarEvent, y: int) -> bool {
    let lines = wrap_spec(body.glyphs@, e.title@, TITLE_WIDTH as int, TITLE_LINES_MAX as int);
    y + lines.len() * line_height(body) + line_height(body) + LINE_GAP > BOTTOM_LIMIT
}

/// The right column after the first `k` entries: placements, the next
/// block's row, and whether an entry has already failed to fit (which ends
/// the column).
pub open spec fn right_column(f: Fonts, evs: Seq<CalendarEvent>, k: int) -> (
    Seq<(FontRole, Seq<char>, int, int)>,
    int,
    bool,
)
    decreases k,
{
    if k <= 0 {
        (Seq::empty(), TOP as int, false)
    } else {
        let (p, y, full) = right_column(f, evs, k - 1);
        let e = evs[k - 1];
        if full || entry_overflows(f.body, e, y) {
            (p, y, true)
        } else {
            (p + entry_block(f.body, e, y), y + entry_advance(f.body, e), false)
        }
    }
}

/// Everything drawn on a frame, in drawing order.
pub open spec fn frame_layout(f: Fonts, d: Frame) -> Seq<(FontRole, Seq<char>, int, int)> {
    left_column(f, d) + right_column(f, d.events@, d.events@.len() as int).0
}

/// The characters of `s` in `a..b`.
fn slice_chars(s: &Vec<char>, a: usize, b: usize) -> (r: Vec<char>)
    requires
        a <= b <= s@.len(),
    ensures
        r@ == s@.subrange(a as int, b as int),
{
    let mut out: Vec<char> = Vec::new();
    let mut i: usize = a;
    while i < b
        invariant
            a <= i <= b <= s@.len(),
            out@ == s@.subrange(a as int, i as int),
        decreases b - i,
    {
        out.push(s[i]);
        i = i + 1;
        assert(out@ =~= s@.subrange(a as int, i as int));
    }
    out
}

fn push_placement(
    out: &mut Vec<Placement>,
    role: FontRole,
    text: Vec<char>,
    x: i32,
    y: i32,
)
    ensures
        final(out)@.map_values(|p: Placement| placed(p)) == old(out)@.map_values(
            |p: Placement| placed(p),
        ).push((role, text@, x as int, y as int)),
{
    let ghost before = out@;
    out.push(Placement { role, text, x, y });
    assert(out@.map_values(|p: Placement| placed(p)) =~= before.map_values(
        |p: Placement| placed(p),
    ).push((role, text@, x as int, y as int)));
}

/// Places one entry's block at row `y`: its wrapped title lines, then its
/// time line. Returns the next block's row, or `None`, placing nothing,
/// when the block would reach past the bottom limit.
fn place_entry(body: &Font, e: &CalendarEvent, y: i32, out: &mut Vec<Placement>) -> (r: Option<
    i32,
>)
    requires
        body.wf(),
        event_wf(*e),
        50 <= y <= 200000,
    ensures
        match r {
            None => entry_overflows(*body, *e, y as int) && final(out)@ == old(out)@,
            Some(ny) => {
                &&& !entry_overflows(*body, *e, y as int)
                &&& final(out)@.map_values(|q: Placement| placed(q)) == old(out)@.map_values(
                    |q: Placement| placed(q),
                ) + entry_block(*body, *e, y as int)
                &&& ny == y + entry_advance(*body, *e)
                &&& 50 <= ny <= 200000
            },
        },
{
    let ghost prev = out@.map_values(|q: Placement| placed(q));
    let lh: i32 = body.ascent - body.descent;
    let step: i32 = body.pixel_size as i32 + LINE_GAP;
    let title = chars_of(e.title.as_str());
    let lines = wrap_chars(body, &title, TITLE_WIDTH, TITLE_LINES_MAX);
    proof {
        lemma_wrap_lines_bounded(body.glyphs@, e.title@, TITLE_WIDTH as int, TITLE_LINES_MAX as int);
    }
    let ghost sl = spans(lines@);
    assert(sl.len() == lines@.len());
    let nl: i32 = lines.len() as i32;
    let title_h: i32 = if nl == 0 {
        0
    } else if nl == 1 {
        lh
    } else {
        2 * lh
    };
    assert(lines@.len() <= 2);
    assert(title_h == nl * lh) by (nonlinear_arith)
        requires
            0 <= nl <= 2,
            nl == 0 ==> title_h == 0,
            nl == 1 ==> title_h == lh,
            nl == 2 ==> title_h == 2 * lh,
    ;
    if y + title_h + lh + LINE_GAP > BOTTOM_LIMIT {
        return None;
    }
    let mut i: usize = 0;
    let mut row: i32 = y;
    while i < lines.len()
        invariant
            i <= lines@.len() <= 2,
            sl == spans(lines@),
            well_spaced(e.title@, sl),
            title@ == e.title@,
            row == y + i * step,
            step == body.pixel_size + LINE_GAP,
            0 <= step <= 0x10004,
            50 <= y <= 200000,
            out@.map_values(|q: Placement| placed(q)) == prev + Seq::new(
                i as nat,
                |j: int|
                    (
                        FontRole::Body,
                        e.title@.subrange(sl[j].0, sl[j].1),
                        RIGHT_COL_X as int,
                        y + j * step,
                    ),
            ),
        decreases lines@.len() - i,
    {
        let (a, b) = lines[i];
        assert(sl[i as int] == (a as int, b as int));
        let text = slice_chars(&title, a, b);
        push_placement(out, FontRole::Body, text, RIGHT_COL_X, row);
        assert(out@.map_values(|q: Placement| placed(q)) =~= prev + Seq::new(
            (i + 1) as nat,
            |j: int|
                (
                    FontRole::Body,
                    e.title@.subrange(sl[j].0, sl[j].1),
                    RIGHT_COL_X as int,
                    y + j * step,
                ),
        ));
        assert((i + 1) * step == i * step + step) by (nonlinear_arith);
        row = row + step;
        i = i + 1;
    }
    assert(0 <= nl * lh) by (nonlinear_arith)
        requires
            0 <= nl,
            0 <= lh,
    ;
    assert(row <= y + 2 * 0x10004) by (nonlinear_arith)
        requires
            row == y + nl * step,
            0 <= nl <= 2,
            0 <= step <= 0x10004,
    ;
    assert(!entry_overflows(*body, *e, y as int));
    let label = event_time_label(e);
    push_placement(out, FontRole::Body, chars_of(label.as_str()), RIGHT_COL_X, row);
    assert(out@.map_values(|q: Placement| placed(q)) =~= prev + entry_block(*body, *e, y as int));
    Some(row + lh + LINE_GAP)
}

/// Where each piece of text of a frame goes, in drawing order: date, time
/// and weather down the left column; then, down the right column, each
/// calendar entry's wrapped title and time line, until an entry no longer
/// fits above the bottom limit.
pub fn layout_frame(fonts: &Fonts, data: &Frame) -> (r: Vec<Placement>)
    requires
        fonts.wf(),
        forall|i: int| 0 <= i < data.events@.len() ==> event_wf(#[trigger] data.events@[i]),
    ensures
        r@.map_values(|p: Placement| placed(p)) == frame_layout(*fonts, *data),
{
    let ghost f = *fonts;
    let ghost d = *data;
    let mut out: Vec<Placement> = Vec::new();
    let hh: i32 = fonts.header.ascent - fonts.header.descent;
    let hl: i32 = fonts.large.ascent - fonts.large.descent;
    let y1: i32 = LEFT_TOP;
    let y2: i32 = y1 + 2 * hh;
    let y3: i32 = y2 + 2 * hl;
    push_placement(&mut out, FontRole::Header, chars_of(data.date.as_str()), LEFT_COL_X, y1);
    push_placement(&mut out, FontRole::Large, chars_of(data.time.as_str()), LEFT_COL_X, y2);
    let icon = chars_of(data.icon.as_str());
    let found = if icon.len() > 0 {
        fonts.emoji.find_glyph(icon[0])
    } else {
        None
    };
    let temperature = chars_of(data.temperature.as_str());
    match found {
        Some(k) => {
            let w = fonts.emoji.glyphs[k].1.width as i32;
            push_placement(&mut out, FontRole::Emoji, icon, LEFT_COL_X, y3);
            push_placement(&mut out, FontRole::Header, temperature, LEFT_COL_X + 2 * w, y3);
        },
        None => {
            push_placement(&mut out, FontRole::Header, temperature, LEFT_COL_X, y3);
        },
    }
    assert(out@.map_values(|p: Placement| placed(p)) =~= left_column(f, d));
    let ghost left = left_column(f, d);
    let n = data.events.len();
    let mut y: i32 = TOP;
    let mut full = false;
    let mut k: usize = 0;
    while k < n
        invariant
            f == *fonts,
            d == *data,
            fonts.wf(),
            forall|i: int| 0 <= i < data.events@.len() ==> event_wf(#[trigger] data.events@[i]),
            n == d.events@.len(),
            k <= n,
            50 <= y <= 200000,
            left == left_column(f, d),
            ({
                let (p, yy, ff) = right_column(f, d.events@, k as int);
                &&& out@.map_values(|q: Placement| placed(q)) == left + p
                &&& yy == y
                &&& ff == full
            }),
        decreases n - k,
    {
        let e = &data.events[k];
        if !full {
            match place_entry(&fonts.body, e, y, &mut out) {
                Some(ny) => {
                    y = ny;
                },
                None => {
                    full = true;
                },
            }
        }
        k = k + 1;
    }
    out
}

} // verus!
