use tidbyt_rs::color::{Palette, Rgba};
use tidbyt_rs::error::RenderError;
use tidbyt_rs::font::{Font, Glyph};
use tidbyt_rs::frames::{append_decimal, board, display_row, render_frames, DisplayRow};
use tidbyt_rs::geometry::Point;
use tidbyt_rs::widget::Widget;

const WHITE: Rgba = Rgba { r: 255, g: 255, b: 255, a: 255 };

fn font() -> Font {
    let mut font = Font::new();
    let stem = 0b0100_0000;
    font.insert('1', Glyph::from_rows(4, &[stem, stem, stem, stem, stem, stem, stem, 0b1110_0000]));
    let right = 0b0010_0000;
    font.insert('7', Glyph::from_rows(4, &[0b1110_0000, right, right, right, right, right, right, right]));
    font.insert('3', Glyph::from_rows(4, &[0b1110_0000, right, right, 0b1110_0000, right, right, right, 0b1110_0000]));
    font.insert('6', Glyph::from_rows(4, &[0b1110_0000, 0b1000_0000, 0b1000_0000, 0b1110_0000, 0b1010_0000, 0b1010_0000, 0b1010_0000, 0b1110_0000]));
    let legs = 0b1010_1000;
    font.insert('m', Glyph::from_rows(6, &[0b1111_1000, legs, legs, legs, legs, legs, legs, legs]));
    let dot = 0b1000_0000;
    font.insert('i', Glyph::from_rows(2, &[dot, dot, dot, dot, dot, dot, dot, dot]));
    let arch = 0b1010_0000;
    font.insert('n', Glyph::from_rows(4, &[0b1110_0000, arch, arch, arch, arch, arch, arch, arch]));
    font
}

fn palette() -> Palette {
    let mut palette = Palette::new();
    palette.define("white", WHITE);
    palette
}

fn row(label: &str, remaining: &str) -> DisplayRow {
    DisplayRow { label: label.to_string(), remaining: remaining.to_string() }
}

fn rows() -> Vec<DisplayRow> {
    vec![row("17", "3 min"), row("61", "7 min"), row("6", "13 min")]
}

fn painted(frame: &[u8], x: usize, y: usize) -> bool {
    let at = 4 * (y * 64 + x);
    frame[at..at + 4] != [0, 0, 0, 0]
}

#[test]
fn the_board_is_a_column_of_rows_of_two_texts() {
    let root = board(&rows(), "white");
    let column = match root {
        Widget::VStack(v) => v,
        _ => panic!("the board is a vertical stack"),
    };
    assert_eq!(column.gap, 2);
    assert_eq!(column.children.len(), 3);
    let expected = [("17", "3 min"), ("61", "7 min"), ("6", "13 min")];
    for (child, (label, remaining)) in column.children.iter().zip(expected) {
        let pair = match child {
            Widget::HStack(h) => h,
            _ => panic!("a row is a horizontal stack"),
        };
        assert_eq!(pair.gap, 2);
        assert!(!pair.expand);
        assert_eq!(pair.children.len(), 2);
        match (&pair.children[0], &pair.children[1]) {
            (Widget::Text(left), Widget::Text(right)) => {
                assert_eq!(left.text.iter().collect::<String>(), label);
                assert_eq!(right.text.iter().collect::<String>(), remaining);
                assert_eq!(left.color, "white");
                assert_eq!(right.color, "white");
            }
            _ => panic!("a row holds two texts"),
        }
    }
}

#[test]
fn the_board_can_be_painted_inside_the_border() {
    let root = board(&rows(), "white");
    assert!(root.admits(Point { x: 2, y: 2 }));
    assert_eq!(root.frame_count(), 1);
    assert!(board(&vec![], "white").admits(Point { x: 2, y: 2 }));
}

#[test]
fn three_rows_fill_the_display_inside_its_border() {
    assert!(font().is_tidy());
    let root = board(&rows(), "white");
    let frames = render_frames(&root, &font(), &palette()).unwrap();
    assert_eq!(frames.len(), 1);
    let frame = &frames[0];
    assert_eq!(frame.len(), 64 * 32 * 4);
    let mut count = 0;
    for y in 0..32 {
        for x in 0..64 {
            if painted(frame, x, y) {
                count += 1;
                assert!((2..62).contains(&x) && (2..30).contains(&y), "({x}, {y}) is painted");
                let at = 4 * (y * 64 + x);
                assert_eq!(frame[at..at + 4], [255, 255, 255, 255]);
            }
        }
    }
    assert!(count > 0);
    // each row is one cell high and the next starts 2 pixels below it: rows at 2, 12 and 22
    for top in [2, 12, 22] {
        assert!((0..64).any(|x| painted(frame, x, top)));
        assert!((0..64).any(|x| painted(frame, x, top + 7)));
    }
    for gap in [0, 1, 10, 11, 20, 21, 30, 31] {
        assert!((0..64).all(|x| !painted(frame, x, gap)));
    }
}

#[test]
fn the_label_stands_at_the_left_border_and_the_time_ends_at_the_right() {
    let root = board(&rows(), "white");
    let frames = render_frames(&root, &font(), &palette()).unwrap();
    let frame = &frames[0];
    // "17" is 8 wide and "3 min" 18: the gap takes the other 34, so "3 min" starts at 44
    let top: Vec<usize> = (0..64).filter(|&x| painted(frame, x, 2)).collect();
    assert_eq!(top, vec![3, 6, 7, 8, 44, 45, 46, 50, 51, 52, 53, 54, 56, 58, 59, 60]);
    // "6" is 4 wide and "13 min" 22: "13 min" starts at 2 + 4 + 34 = 40
    let third: Vec<usize> = (0..64).filter(|&x| painted(frame, x, 22)).collect();
    assert_eq!(third, vec![2, 3, 4, 41, 44, 45, 46, 50, 51, 52, 53, 54, 56, 58, 59, 60]);
}

#[test]
fn every_frame_of_a_tree_is_the_same() {
    let root = board(&rows(), "white");
    let first = render_frames(&root, &font(), &palette()).unwrap();
    let second = render_frames(&root, &font(), &palette()).unwrap();
    assert_eq!(first, second);
    for index in [1, 2, 1000] {
        let mut canvas = tidbyt_rs::canvas::Canvas::new(64, 32);
        assert_eq!(root.render(&mut canvas, &font(), &palette(), Point { x: 2, y: 2 }, index), Ok(()));
        assert_eq!(canvas.to_rgba_bytes(), first[0]);
    }
}

#[test]
fn a_board_without_rows_gives_one_clear_frame() {
    let frames = render_frames(&board(&vec![], "white"), &font(), &palette()).unwrap();
    assert_eq!(frames, vec![vec![0u8; 64 * 32 * 4]]);
}

#[test]
fn a_failing_frame_gives_no_frames() {
    let unknown = board(&vec![row("17", "3 min"), row("X", "1 min")], "white");
    assert_eq!(render_frames(&unknown, &font(), &palette()), Err(RenderError::GlyphNotFound('X')));
    let colourless = board(&rows(), "green");
    assert_eq!(
        render_frames(&colourless, &font(), &palette()),
        Err(RenderError::ColorResolutionFailed)
    );
}

#[test]
fn a_row_shows_the_line_and_the_minutes() {
    let shown = display_row("60A", 3);
    assert_eq!(shown.label, "60A");
    assert_eq!(shown.remaining, "3 min");
    assert_eq!(display_row("", 0).remaining, "0 min");
    assert_eq!(display_row("17", 10).remaining, "10 min");
    assert_eq!(display_row("17", 4_294_967_295).remaining, "4294967295 min");
}

#[test]
fn numbers_are_written_as_the_standard_library_writes_them() {
    for n in [0, 1, 9, 10, 11, 99, 100, 101, 1000, 65_535, 1_000_000_007, u32::MAX - 1, u32::MAX] {
        let mut text = "n = ".to_string();
        append_decimal(&mut text, n);
        assert_eq!(text, format!("n = {}", n));
    }
}
