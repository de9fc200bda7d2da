use epaper_dash::atlas::{binarize, compile_font, compile_glyph, FontSpec, RasterGlyph};
use epaper_dash::codec::{pack_bits, unpack_bits};
use epaper_dash::font::{Font, Glyph};

fn raster(ch: char, width: u16, height: u16, advance: i16, y_offset: i16, coverage: Vec<u8>) -> RasterGlyph {
    RasterGlyph { ch, width, height, advance, x_offset: 0, y_offset, coverage }
}

#[test]
fn pack_bits_msb_first_with_zero_padding() {
    let bits = vec![true, false, true, true, false, false, false, true, true, false, true];
    let packed = pack_bits(&bits);
    assert_eq!(packed, vec![0b1011_0001, 0b1010_0000]);
}

#[test]
fn pack_bits_empty() {
    assert_eq!(pack_bits(&Vec::new()), Vec::<u8>::new());
}

#[test]
fn pack_then_unpack_round_trip() {
    let bits: Vec<bool> = (0..23).map(|i| i % 3 == 0 || i % 5 == 1).collect();
    let packed = pack_bits(&bits);
    assert_eq!(packed.len(), 3);
    assert_eq!(unpack_bits(&packed, bits.len()), bits);
    let all = unpack_bits(&packed, 24);
    assert_eq!(all[23], false);
}

#[test]
fn binarize_threshold_is_strict() {
    assert_eq!(binarize(&vec![0, 128, 129, 255]), vec![false, false, true, true]);
}

#[test]
fn compile_glyph_packs_coverage() {
    let r = raster('x', 3, 3, 4, -1, vec![255, 0, 255, 0, 255, 0, 255, 0, 255]);
    let g = compile_glyph(&r);
    assert_eq!(g.width, 3);
    assert_eq!(g.height, 3);
    assert_eq!(g.x_advance, 4);
    assert_eq!(g.y_offset, -1);
    assert_eq!(g.bitmap, vec![0b1010_1010, 0b1000_0000]);
}

#[test]
fn compile_font_skips_zero_advance_and_repeats() {
    let rasters = vec![
        raster('a', 2, 2, 5, 0, vec![255, 255, 0, 0]),
        raster('\u{300}', 1, 1, 0, 8, vec![255]),
        raster('g', 2, 3, 5, -2, vec![255; 6]),
        raster('a', 1, 1, 3, 20, vec![0]),
        raster('T', 2, 7, 6, 0, vec![0; 14]),
    ];
    let f = compile_font(24, &rasters);
    assert_eq!(f.pixel_size, 24);
    let chars: Vec<char> = f.glyphs.iter().map(|(c, _)| *c).collect();
    assert_eq!(chars, vec!['a', 'g', 'T']);
    assert!(f.glyphs.iter().all(|(_, g)| g.x_advance != 0));
    assert_eq!(f.ascent, 7);
    assert_eq!(f.descent, -2);
    assert_eq!(f.glyphs[0].1.bitmap, vec![0b1100_0000]);
}

#[test]
fn compile_font_empty_has_zero_metrics() {
    let f = compile_font(10, &Vec::new());
    assert_eq!(f.ascent, 0);
    assert_eq!(f.descent, 0);
    assert!(f.glyphs.is_empty());
}

#[test]
fn font_metrics_bound_every_glyph() {
    let rasters = vec![
        raster('A', 4, 9, 5, 1, vec![200; 36]),
        raster('j', 2, 8, 3, -3, vec![200; 16]),
    ];
    let f = compile_font(12, &rasters);
    assert!(f.descent <= 0 && 0 <= f.ascent);
    for (_, g) in &f.glyphs {
        assert!(g.height as i32 + g.y_offset as i32 <= f.ascent);
        assert!(g.y_offset as i32 >= f.descent);
    }
    assert_eq!(f.ascent, 10);
    assert_eq!(f.descent, -3);
}

#[test]
fn codepoints_skip_surrogates_and_keep_range_order() {
    let spec = FontSpec {
        name: "FONT_TEST".to_string(),
        pixel_size: 10,
        ranges: vec![(0x41, 0x43), (0xd7ff, 0xe000), (0x30, 0x31), (5, 4)],
        is_emoji: false,
    };
    assert_eq!(spec.codepoints(), vec!['A', 'B', 'C', '\u{d7ff}', '\u{e000}', '0', '1']);
}

#[test]
fn find_glyph_and_advance() {
    let f = Font {
        pixel_size: 8,
        ascent: 0,
        descent: 0,
        glyphs: vec![
            ('a', Glyph { width: 0, height: 0, x_advance: 7, x_offset: 0, y_offset: 0, bitmap: vec![] }),
            ('b', Glyph { width: 0, height: 0, x_advance: 9, x_offset: 0, y_offset: 0, bitmap: vec![] }),
        ],
    };
    assert_eq!(f.find_glyph('b'), Some(1));
    assert_eq!(f.find_glyph('z'), None);
    assert_eq!(f.advance('a'), 7);
    assert_eq!(f.advance('z'), 0);
}
