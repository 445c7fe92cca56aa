use tidbyt_rs::canvas::Canvas;
use tidbyt_rs::color::{Palette, Rgba};
use tidbyt_rs::font::{Bitmap, Font, Glyph};
use tidbyt_rs::geometry::Point;

fn red() -> Rgba {
    Rgba::new(255, 0, 0, 255)
}

#[test]
fn a_new_canvas_is_clear() {
    let canvas = Canvas::new(4, 3);
    assert_eq!(canvas.width(), 4);
    assert_eq!(canvas.height(), 3);
    for y in 0..3 {
        for x in 0..4 {
            assert_eq!(canvas.pixel(x, y), Rgba::new(0, 0, 0, 0));
        }
    }
    assert_eq!(canvas.to_rgba_bytes(), vec![0u8; 4 * 3 * 4]);
}

#[test]
fn put_paints_one_pixel() {
    let mut canvas = Canvas::new(4, 3);
    canvas.put(1, 2, red());
    for y in 0..3 {
        for x in 0..4 {
            let expected = if (x, y) == (1, 2) { red() } else { Rgba::new(0, 0, 0, 0) };
            assert_eq!(canvas.pixel(x, y), expected);
        }
    }
}

#[test]
fn put_outside_the_canvas_paints_nothing() {
    let mut canvas = Canvas::new(4, 3);
    canvas.put(-1, 0, red());
    canvas.put(0, -1, red());
    canvas.put(4, 0, red());
    canvas.put(0, 3, red());
    canvas.put(i64::MAX, i64::MIN, red());
    assert_eq!(canvas.to_rgba_bytes(), vec![0u8; 4 * 3 * 4]);
}

#[test]
fn bytes_are_row_major_rgba() {
    let mut canvas = Canvas::new(2, 2);
    canvas.put(1, 0, Rgba::new(1, 2, 3, 4));
    canvas.put(0, 1, Rgba::new(5, 6, 7, 8));
    assert_eq!(
        canvas.to_rgba_bytes(),
        vec![0, 0, 0, 0, 1, 2, 3, 4, 5, 6, 7, 8, 0, 0, 0, 0]
    );
}

#[test]
fn a_later_put_replaces_an_earlier_one() {
    let mut canvas = Canvas::new(2, 1);
    canvas.put(0, 0, red());
    canvas.put(0, 0, Rgba::new(0, 0, 255, 255));
    assert_eq!(canvas.pixel(0, 0), Rgba::new(0, 0, 255, 255));
}

#[test]
fn a_palette_resolves_the_names_it_was_given() {
    let mut palette = Palette::new();
    assert_eq!(palette.resolve(&"white".to_string()), None);
    palette.define("white", Rgba::new(255, 255, 255, 255));
    palette.define("red", red());
    assert_eq!(palette.resolve(&"white".to_string()), Some(Rgba::new(255, 255, 255, 255)));
    assert_eq!(palette.resolve(&"red".to_string()), Some(red()));
    assert_eq!(palette.resolve(&"blue".to_string()), None);
    assert_eq!(palette.resolve(&"".to_string()), None);
}

#[test]
fn a_later_definition_replaces_an_earlier_one() {
    let mut palette = Palette::new();
    palette.define("ink", red());
    palette.define("ink", Rgba::new(1, 2, 3, 4));
    assert_eq!(palette.resolve(&"ink".to_string()), Some(Rgba::new(1, 2, 3, 4)));
}

#[test]
fn a_glyph_from_rows_lists_the_lit_cells_row_by_row() {
    let glyph = Glyph::from_rows(5, &[0b1010_0000, 0, 0b0000_0001, 0, 0, 0, 0, 0b1100_0000]);
    assert_eq!(glyph.advance, 5);
    assert_eq!(glyph.pixels, vec![(0, 0), (2, 0), (7, 2), (0, 7), (1, 7)]);
}

#[test]
fn an_empty_bitmap_has_no_lit_cell() {
    let glyph = Glyph::from_rows(3, &[0; 8]);
    assert_eq!(glyph.pixels, Vec::<(u8, u8)>::new());
    let full = Glyph::from_rows(8, &[0xff; 8]);
    assert_eq!(full.pixels.len(), 64);
    assert_eq!(full.pixels[0], (0, 0));
    assert_eq!(full.pixels[63], (7, 7));
}

#[test]
fn a_font_finds_the_glyphs_it_was_given() {
    let mut font = Font::new();
    assert!(font.glyph('a').is_none());
    font.insert('a', Glyph::new(3, vec![(0, 0)]));
    font.insert('b', Glyph::new(5, vec![(1, 1), (2, 2)]));
    assert_eq!(font.glyph('a').unwrap().advance, 3);
    assert_eq!(font.glyph('b').unwrap().pixels, vec![(1, 1), (2, 2)]);
    assert!(font.glyph('c').is_none());
    font.insert('a', Glyph::new(7, vec![]));
    assert_eq!(font.glyph('a').unwrap().advance, 7);
}

#[test]
fn a_point_holds_its_coordinates() {
    assert_eq!(Point::new(3, -4), Point { x: 3, y: -4 });
}

#[test]
fn a_font_is_loaded_from_bitmaps() {
    let bitmaps = vec![
        Bitmap { character: 'i', advance: 2, rows: [0, 0x80, 0, 0x80, 0x80, 0x80, 0, 0] },
        Bitmap { character: '-', advance: 4, rows: [0, 0, 0, 0xe0, 0, 0, 0, 0] },
        Bitmap { character: 'i', advance: 3, rows: [0, 0x40, 0, 0x40, 0x40, 0x40, 0, 0] },
    ];
    let font = Font::from_bitmaps(&bitmaps);
    assert_eq!(font.glyph('-').unwrap().advance, 4);
    assert_eq!(font.glyph('-').unwrap().pixels, vec![(0, 3), (1, 3), (2, 3)]);
    // the last bitmap of a character is the one that counts
    assert_eq!(font.glyph('i').unwrap().advance, 3);
    assert_eq!(font.glyph('i').unwrap().pixels, vec![(1, 1), (1, 3), (1, 4), (1, 5)]);
    assert!(font.glyph('j').is_none());
    assert!(Font::from_bitmaps(&vec![]).glyph('i').is_none());
}

#[test]
fn a_tidy_glyph_stays_within_its_advance_and_its_cell() {
    assert!(Glyph::new(3, vec![(0, 0), (2, 7)]).is_tidy());
    assert!(Glyph::new(0, vec![]).is_tidy());
    assert!(!Glyph::new(3, vec![(0, 0), (3, 0)]).is_tidy());
    assert!(!Glyph::new(3, vec![(0, 8)]).is_tidy());
    assert!(Glyph::from_rows(4, &[0xe0, 0, 0, 0, 0, 0, 0, 0xa0]).is_tidy());
    assert!(!Glyph::from_rows(4, &[0xf8, 0, 0, 0, 0, 0, 0, 0]).is_tidy());
}

#[test]
fn a_font_is_tidy_where_the_glyphs_that_count_are() {
    let mut font = Font::new();
    assert!(font.is_tidy());
    font.insert('a', Glyph::new(3, vec![(0, 0)]));
    assert!(font.is_tidy());
    font.insert('b', Glyph::new(1, vec![(1, 0)]));
    assert!(!font.is_tidy());
    // the glyph that replaces the untidy one is the one that counts
    font.insert('b', Glyph::new(2, vec![(1, 0)]));
    assert!(font.is_tidy());
    font.insert('a', Glyph::new(3, vec![(0, 9)]));
    assert!(!font.is_tidy());
}
