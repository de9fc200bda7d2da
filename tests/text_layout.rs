use epaper_dash::font::{Font, Glyph};
use epaper_dash::render::draw_text;
use epaper_dash::wrap::wrap_text;

fn blank(advance: i16) -> Glyph {
    Glyph { width: 0, height: 0, x_advance: advance, x_offset: 0, y_offset: 0, bitmap: vec![] }
}

/// Every printable ASCII character, 12 px wide.
fn latin12() -> Font {
    Font { pixel_size: 12, ascent: 0, descent: 0, glyphs: (0x20u8..0x7f).map(|b| (b as char, blank(12))).collect() }
}

fn lines_of<'a>(text: &'a str, spans: &[(usize, usize)]) -> Vec<String> {
    let chars: Vec<char> = text.chars().collect();
    spans.iter().map(|&(a, b)| chars[a..b].iter().collect()).collect()
}

#[test]
fn wrap_quick_brown_fox() {
    let font = latin12();
    let text = "The quick brown fox";
    let spans = wrap_text(&font, text, 60, 3);
    let lines = lines_of(text, &spans);
    assert_eq!(lines, vec!["The", "quick", "brown"]);
    for l in &lines {
        assert!(l.chars().count() * 12 <= 60);
    }
}

#[test]
fn wrap_short_text_is_one_line() {
    let font = latin12();
    let spans = wrap_text(&font, "Hello", 60, 2);
    assert_eq!(spans, vec![(0, 5)]);
}

#[test]
fn wrap_empty_text_has_no_lines() {
    let font = latin12();
    assert!(wrap_text(&font, "", 60, 2).is_empty());
}

#[test]
fn wrap_zero_lines_budget() {
    let font = latin12();
    assert!(wrap_text(&font, "The quick brown fox", 60, 0).is_empty());
}

#[test]
fn wrap_force_breaks_long_word() {
    let font = latin12();
    let text = "abcdefghij";
    let spans = wrap_text(&font, text, 36, 5);
    assert_eq!(lines_of(text, &spans), vec!["abc", "def", "ghi", "j"]);
}

#[test]
fn wrap_never_exceeds_line_budget() {
    let font = latin12();
    let spans = wrap_text(&font, "a b c d e f g h i j k l", 24, 2);
    assert_eq!(spans.len(), 2);
}

#[test]
fn wrap_missing_glyphs_add_no_width() {
    let font = latin12();
    let text = "ab\u{1F600}\u{1F600}\u{1F600}cd";
    let spans = wrap_text(&font, text, 48, 3);
    assert_eq!(spans, vec![(0, 7)]);
}

fn hi_font() -> Font {
    Font {
        pixel_size: 14,
        ascent: 14,
        descent: 0,
        glyphs: vec![
            ('H', Glyph { width: 10, height: 14, x_advance: 11, x_offset: 0, y_offset: 0, bitmap: [vec![0xff; 17], vec![0xf0]].concat() }),
            ('i', Glyph { width: 3, height: 10, x_advance: 5, x_offset: 1, y_offset: 0, bitmap: vec![0xff, 0xff, 0xff, 0xfc] }),
        ],
    }
}

#[test]
fn draw_hi_places_glyphs_on_baseline() {
    let font = hi_font();
    let (pixels, pen) = draw_text(&font, "Hi", 0, 20);
    assert_eq!(pen, 16);
    assert_eq!(pixels.len(), 140 + 30);
    for &(x, y) in &pixels[..140] {
        assert!((0..10).contains(&x) && (6..20).contains(&y));
    }
    for &(x, y) in &pixels[140..] {
        assert!((12..15).contains(&x) && (10..20).contains(&y));
    }
    assert_eq!(pixels[0], (0, 6));
    assert_eq!(pixels[139], (9, 19));
    assert_eq!(pixels[140], (12, 10));
}

#[test]
fn draw_reads_bits_msb_first() {
    let font = Font {
        pixel_size: 2,
        ascent: 2,
        descent: 0,
        glyphs: vec![('x', Glyph { width: 2, height: 2, x_advance: 3, x_offset: 0, y_offset: 0, bitmap: vec![0b1001_0000] })],
    };
    let (pixels, pen) = draw_text(&font, "x", 5, 10);
    assert_eq!(pixels, vec![(5, 8), (6, 9)]);
    assert_eq!(pen, 8);
}

#[test]
fn draw_skips_missing_glyphs() {
    let font = hi_font();
    let (with_gap, pen_gap) = draw_text(&font, "H?i", 0, 20);
    let (plain, pen_plain) = draw_text(&font, "Hi", 0, 20);
    assert_eq!(with_gap, plain);
    assert_eq!(pen_gap, pen_plain);
}

#[test]
fn wrap_remeasures_carried_characters() {
    let font = latin12();
    let text = "a bbbbb cc dd";
    let spans = wrap_text(&font, text, 60, 3);
    assert_eq!(lines_of(text, &spans), vec!["a", "bbbbb", "cc dd"]);
}

fn uniform(chars: &str, advance: i16) -> Font {
    Font { pixel_size: 1, ascent: 0, descent: 0, glyphs: chars.chars().map(|c| (c, blank(advance))).collect() }
}

#[test]
fn wrap_force_break_keeps_every_character() {
    let font = uniform("a", 1);
    let spans = wrap_text(&font, "aaa", 1, 5);
    assert_eq!(spans, vec![(0, 1), (1, 2), (2, 3)]);
}

#[test]
fn wrap_too_wide_glyph_stands_alone() {
    let font = uniform("a", 5);
    assert_eq!(wrap_text(&font, "a", 2, 3), vec![(0, 1)]);
    assert_eq!(wrap_text(&font, "aa", 2, 3), vec![(0, 1), (1, 2)]);
}

#[test]
fn wrap_lines_after_a_space_break_fit() {
    let font = uniform("b ", 1);
    let text = "b bb b b";
    let spans = wrap_text(&font, text, 3, 3);
    assert_eq!(lines_of(text, &spans), vec!["b", "bb", "b b"]);
}

#[test]
fn wrap_loses_no_text_before_line_budget() {
    let font = latin12();
    let text = "one two three four five";
    let spans = wrap_text(&font, text, 60, 10);
    let joined = lines_of(text, &spans).join(" ");
    assert_eq!(joined, text);
}

#[test]
fn wrap_first_line_fits_budget() {
    let font = latin12();
    let text = "Lorem ipsum dolor sit amet consectetur";
    let spans = wrap_text(&font, text, 100, 4);
    assert_eq!(spans[0].0, 0);
    assert!((spans[0].1 - spans[0].0) * 12 <= 100);
    assert!(spans.len() <= 4);
}

#[test]
fn wrap_wide_space_is_always_the_separator() {
    let font = Font {
        pixel_size: 1,
        ascent: 0,
        descent: 0,
        glyphs: vec![(' ', blank(100)), ('a', blank(1))],
    };
    assert_eq!(wrap_text(&font, " a", 60, 3), vec![(0, 0), (1, 2)]);
    assert_eq!(wrap_text(&font, "a a", 60, 3), vec![(0, 1), (2, 3)]);
}
