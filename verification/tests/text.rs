use tidbyt_rs::canvas::Canvas;
use tidbyt_rs::color::{Palette, Rgba};
use tidbyt_rs::error::RenderError;
use tidbyt_rs::font::{Font, Glyph};
use tidbyt_rs::geometry::Point;
use tidbyt_rs::text::{advance, chars_of, draw_glyph, draw_text, text_width, Align, TextWidget};

const CLEAR: Rgba = Rgba { r: 0, g: 0, b: 0, a: 0 };
const INK: Rgba = Rgba { r: 10, g: 20, b: 30, a: 255 };

fn font() -> Font {
    let mut font = Font::new();
    // 'a': a dot in the top left corner and one below it to the right
    font.insert('a', Glyph::new(3, vec![(0, 0), (1, 1)]));
    // 'b': a column of three
    font.insert('b', Glyph::new(5, vec![(0, 0), (0, 1), (0, 2)]));
    font
}

fn palette() -> Palette {
    let mut palette = Palette::new();
    palette.define("ink", INK);
    palette
}

fn lit(canvas: &Canvas) -> Vec<(usize, usize)> {
    let mut found = Vec::new();
    for y in 0..canvas.height() {
        for x in 0..canvas.width() {
            if canvas.pixel(x, y) != CLEAR {
                found.push((x, y));
            }
        }
    }
    found
}

#[test]
fn the_width_of_a_text_is_the_sum_of_its_advances() {
    let font = font();
    assert_eq!(TextWidget::new("ab a", "ink").measure(&font), Point { x: 3 + 5 + 2 + 3, y: 8 });
    assert_eq!(TextWidget::new("", "ink").measure(&font), Point { x: 0, y: 8 });
    assert_eq!(TextWidget::new("   ", "ink").measure(&font), Point { x: 6, y: 8 });
    assert_eq!(text_width(&font, &chars_of("bbb")), 15);
}

#[test]
fn a_character_without_a_glyph_adds_no_width() {
    let font = font();
    assert_eq!(TextWidget::new("a?b", "ink").measure(&font), Point { x: 8, y: 8 });
    assert_eq!(advance(&font, '?'), 0);
    assert_eq!(advance(&font, ' '), 2);
    assert_eq!(advance(&font, 'b'), 5);
}

#[test]
fn a_text_needs_one_frame() {
    assert_eq!(TextWidget::new("ab", "ink").frame_count(), 1);
}

#[test]
fn a_text_keeps_its_characters_and_the_name_of_its_colour() {
    let widget = TextWidget::new("3 min", "ink");
    assert_eq!(widget.text, vec!['3', ' ', 'm', 'i', 'n']);
    assert_eq!(widget.color, "ink");
    assert_eq!(chars_of("añ"), vec!['a', 'ñ']);
}

#[test]
fn a_glyph_is_painted_at_its_lit_pixels_only() {
    let mut canvas = Canvas::new(8, 8);
    draw_glyph(&mut canvas, &Glyph::new(3, vec![(0, 0), (1, 1)]), 2, 3, INK);
    assert_eq!(lit(&canvas), vec![(2, 3), (3, 4)]);
    assert_eq!(canvas.pixel(2, 3), INK);
}

#[test]
fn text_is_painted_from_left_to_right() {
    let mut canvas = Canvas::new(16, 8);
    let result = TextWidget::new("ab a", "ink").render(&mut canvas, &font(), &palette(), Point { x: 1, y: 2 }, 0);
    assert_eq!(result, Ok(()));
    // 'a' at x = 1, 'b' at x = 4, the space moves the cursor to 11
    assert_eq!(
        lit(&canvas),
        vec![(1, 2), (4, 2), (11, 2), (2, 3), (4, 3), (12, 3), (4, 4)]
    );
}

#[test]
fn painting_keeps_what_lies_under_unlit_pixels() {
    let mut canvas = Canvas::new(8, 8);
    let under = Rgba::new(0, 99, 0, 255);
    canvas.put(1, 0, under);
    canvas.put(0, 0, under);
    let result = TextWidget::new("a", "ink").render(&mut canvas, &font(), &palette(), Point { x: 0, y: 0 }, 0);
    assert_eq!(result, Ok(()));
    assert_eq!(canvas.pixel(0, 0), INK);
    assert_eq!(canvas.pixel(1, 0), under);
    assert_eq!(canvas.pixel(1, 1), INK);
}

#[test]
fn an_unknown_character_fails_with_glyph_not_found() {
    let mut canvas = Canvas::new(16, 8);
    let result = TextWidget::new("a?b", "ink").render(&mut canvas, &font(), &palette(), Point { x: 0, y: 0 }, 0);
    assert_eq!(result, Err(RenderError::GlyphNotFound('?')));
    // what came before the character stays, and nothing of it or after it is painted
    assert_eq!(lit(&canvas), vec![(0, 0), (1, 1)]);
}

#[test]
fn the_first_unknown_character_is_the_one_reported() {
    let mut canvas = Canvas::new(16, 8);
    let result = TextWidget::new("x?", "ink").render(&mut canvas, &font(), &palette(), Point { x: 0, y: 0 }, 0);
    assert_eq!(result, Err(RenderError::GlyphNotFound('x')));
    assert_eq!(lit(&canvas), vec![]);
}

#[test]
fn an_unknown_colour_fails_before_anything_is_painted() {
    let mut canvas = Canvas::new(16, 8);
    let result = TextWidget::new("a?", "pink").render(&mut canvas, &font(), &palette(), Point { x: 0, y: 0 }, 0);
    assert_eq!(result, Err(RenderError::ColorResolutionFailed));
    assert_eq!(lit(&canvas), vec![]);
}

#[test]
fn right_aligned_text_is_painted_from_its_last_character_back() {
    let mut canvas = Canvas::new(16, 8);
    let result = draw_text(&mut canvas, &font(), &chars_of("ab"), INK, Point { x: 10, y: 0 }, Align::Right);
    assert_eq!(result, Ok(()));
    // 'b' at the origin, then the cursor moves 5 to the left, where 'a' is painted
    assert_eq!(lit(&canvas), vec![(5, 0), (10, 0), (6, 1), (10, 1), (10, 2)]);
}

#[test]
fn right_aligned_text_reports_the_unknown_character_nearest_its_end() {
    let mut canvas = Canvas::new(16, 8);
    let result = draw_text(&mut canvas, &font(), &chars_of("?a!b"), INK, Point { x: 10, y: 0 }, Align::Right);
    assert_eq!(result, Err(RenderError::GlyphNotFound('!')));
    assert_eq!(lit(&canvas), vec![(10, 0), (10, 1), (10, 2)]);
}

#[test]
fn text_outside_the_canvas_is_clipped() {
    let mut canvas = Canvas::new(4, 2);
    let result = draw_text(&mut canvas, &font(), &chars_of("ab"), INK, Point { x: -1, y: 0 }, Align::Left);
    assert_eq!(result, Ok(()));
    // of 'a' at x = -1 only the second dot is on the canvas; 'b' at x = 2 loses its third row
    assert_eq!(lit(&canvas), vec![(2, 0), (0, 1), (2, 1)]);
}

#[test]
fn the_frame_does_not_change_a_text() {
    let mut first = Canvas::new(16, 8);
    let mut second = Canvas::new(16, 8);
    let widget = TextWidget::new("ab", "ink");
    assert_eq!(widget.render(&mut first, &font(), &palette(), Point { x: 0, y: 0 }, 0), Ok(()));
    assert_eq!(widget.render(&mut second, &font(), &palette(), Point { x: 0, y: 0 }, 7), Ok(()));
    assert_eq!(first.to_rgba_bytes(), second.to_rgba_bytes());
}
