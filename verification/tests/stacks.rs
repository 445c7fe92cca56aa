use tidbyt_rs::canvas::Canvas;
use tidbyt_rs::chart::ChartWidget;
use tidbyt_rs::color::{Palette, Rgba};
use tidbyt_rs::error::RenderError;
use tidbyt_rs::font::{Font, Glyph};
use tidbyt_rs::geometry::Point;
use tidbyt_rs::text::TextWidget;
use tidbyt_rs::widget::{HStack, VStack, Widget};

const CLEAR: Rgba = Rgba { r: 0, g: 0, b: 0, a: 0 };
const INK: Rgba = Rgba { r: 10, g: 20, b: 30, a: 255 };

fn font() -> Font {
    let mut font = Font::new();
    font.insert('a', Glyph::new(3, vec![(0, 0), (1, 1)]));
    font.insert('b', Glyph::new(5, vec![(0, 0), (0, 1), (0, 2)]));
    font
}

fn palette() -> Palette {
    let mut palette = Palette::new();
    palette.define("ink", INK);
    palette
}

fn text(s: &str) -> Widget {
    Widget::Text(TextWidget::new(s, "ink"))
}

fn lit(canvas: &Canvas) -> Vec<(usize, usize)> {
    let mut found = Vec::new();
    for y in 0..canvas.height() {
        for x in 0..canvas.width() {
            if canvas.pixel(x, y) != CLEAR {
                found.push((x, y));
            }
        }
    }
    found
}

#[test]
fn a_horizontal_stack_is_as_wide_as_the_content_and_as_high_as_its_tallest_child() {
    let font = font();
    assert_eq!(HStack::new(vec![]).measure(&font), Point { x: 60, y: 5 });
    assert_eq!(HStack::new(vec![text("a")]).measure(&font), Point { x: 60, y: 8 });
    let low = Widget::VStack(VStack::new(vec![text("a")]));
    assert_eq!(HStack::new(vec![low]).measure(&font), Point { x: 60, y: 5 });
    let mixed = vec![Widget::VStack(VStack::new(vec![])), Widget::Chart(ChartWidget::new(vec![1]))];
    assert_eq!(Widget::HStack(HStack::new(mixed)).measure(&font), Point { x: 60, y: 8 });
}

#[test]
fn a_vertical_stack_reports_a_fixed_size() {
    let font = font();
    assert_eq!(VStack::new(vec![]).measure(&font), Point { x: 60, y: 5 });
    let tall = VStack::new(vec![text("a"), text("b"), text("a")]).set_gap(4);
    assert_eq!(tall.measure(&font), Point { x: 60, y: 5 });
    assert_eq!(Widget::VStack(tall).measure(&font), Point { x: 60, y: 5 });
}

#[test]
fn a_stack_needs_as_many_frames_as_its_neediest_child_and_one_without_children() {
    assert_eq!(HStack::new(vec![]).frame_count(), 1);
    assert_eq!(VStack::new(vec![]).frame_count(), 1);
    assert_eq!(HStack::new(vec![text("a"), text("b")]).frame_count(), 1);
    let nested = VStack::new(vec![Widget::HStack(HStack::new(vec![text("a")])), text("b")]);
    assert_eq!(Widget::VStack(nested).frame_count(), 1);
}

#[test]
fn the_setters_keep_the_children() {
    let stack = HStack::new(vec![text("a")]).set_gap(2).set_expand(true);
    assert_eq!(stack.gap, 2);
    assert!(stack.expand);
    assert_eq!(stack.children.len(), 1);
    let plain = HStack::new(vec![]);
    assert_eq!(plain.gap, 0);
    assert!(!plain.expand);
    let column = VStack::new(vec![text("a"), text("b")]).set_gap(-3);
    assert_eq!(column.gap, -3);
    assert_eq!(column.children.len(), 2);
}

#[test]
fn an_empty_stack_paints_nothing() {
    let mut canvas = Canvas::new(64, 32);
    let origin = Point { x: 2, y: 2 };
    assert_eq!(HStack::new(vec![]).render(&mut canvas, &font(), &palette(), origin, 0), Ok(()));
    assert_eq!(VStack::new(vec![]).render(&mut canvas, &font(), &palette(), origin, 0), Ok(()));
    assert_eq!(lit(&canvas), vec![]);
}

#[test]
fn an_only_child_is_painted_at_the_origin_of_the_stack() {
    let mut stacked = Canvas::new(64, 32);
    let mut alone = Canvas::new(64, 32);
    let origin = Point { x: 7, y: 3 };
    let stack = HStack::new(vec![text("ab")]).set_gap(9);
    assert_eq!(stack.render(&mut stacked, &font(), &palette(), origin, 0), Ok(()));
    assert_eq!(text("ab").render(&mut alone, &font(), &palette(), origin, 0), Ok(()));
    assert_eq!(lit(&stacked), vec![(7, 3), (10, 3), (8, 4), (10, 4), (10, 5)]);
    assert_eq!(stacked.to_rgba_bytes(), alone.to_rgba_bytes());
}

#[test]
fn children_are_spread_over_the_content_width() {
    let mut canvas = Canvas::new(64, 32);
    let stack = HStack::new(vec![text("a"), text("b"), text("a")]);
    assert_eq!(stack.render(&mut canvas, &font(), &palette(), Point { x: 2, y: 2 }, 0), Ok(()));
    // widths 3, 5, 3 leave 49: gaps of 24 and 25, children at 2, 29 and 59
    assert_eq!(
        lit(&canvas),
        vec![(2, 2), (29, 2), (59, 2), (3, 3), (29, 3), (60, 3), (29, 4)]
    );
}

#[test]
fn the_gap_of_a_horizontal_stack_does_not_move_its_children() {
    let mut plain = Canvas::new(64, 32);
    let mut gapped = Canvas::new(64, 32);
    let origin = Point { x: 2, y: 2 };
    let first = HStack::new(vec![text("a"), text("b")]);
    let second = HStack::new(vec![text("a"), text("b")]).set_gap(2).set_expand(true);
    assert_eq!(first.render(&mut plain, &font(), &palette(), origin, 0), Ok(()));
    assert_eq!(second.render(&mut gapped, &font(), &palette(), origin, 0), Ok(()));
    // widths 3 and 5 leave 52 for the one gap: the second child stands at 2 + 3 + 52
    assert_eq!(lit(&plain), vec![(2, 2), (57, 2), (3, 3), (57, 3), (57, 4)]);
    assert_eq!(plain.to_rgba_bytes(), gapped.to_rgba_bytes());
}

#[test]
fn children_that_overflow_the_content_width_overlap() {
    let mut canvas = Canvas::new(64, 8);
    // widths 35, 35 and 5 are 15 too many: both gaps are -7, children at 0, 28 and 56
    let stack = HStack::new(vec![text("bbbbbbb"), text("bbbbbbb"), text("b")]);
    assert_eq!(stack.render(&mut canvas, &font(), &palette(), Point { x: 0, y: 0 }, 0), Ok(()));
    let mut columns: Vec<usize> = (0..7).map(|k| 5 * k).collect();
    columns.extend((0..7).map(|k| 28 + 5 * k));
    columns.push(56);
    columns.sort();
    let top: Vec<usize> = lit(&canvas).into_iter().filter(|p| p.1 == 0).map(|p| p.0).collect();
    assert_eq!(top, columns);
}

#[test]
fn children_of_a_vertical_stack_stand_below_each_other() {
    let mut canvas = Canvas::new(64, 32);
    let children = vec![text("a"), Widget::Chart(ChartWidget::new(vec![0])), text("b")];
    let stack = VStack::new(children).set_gap(2);
    assert_eq!(stack.render(&mut canvas, &font(), &palette(), Point { x: 2, y: 2 }, 0), Ok(()));
    // the text at y = 2, the chart at y = 12 with its bar on row 19, the last text at y = 22
    assert_eq!(
        lit(&canvas),
        vec![(2, 2), (3, 3), (2, 19), (2, 22), (2, 23), (2, 24)]
    );
}

#[test]
fn a_nested_vertical_stack_counts_for_its_reported_height() {
    let mut canvas = Canvas::new(64, 32);
    let inner = Widget::VStack(VStack::new(vec![text("a"), text("a")]).set_gap(1));
    let stack = VStack::new(vec![inner, text("b")]).set_gap(2);
    assert_eq!(stack.render(&mut canvas, &font(), &palette(), Point { x: 0, y: 0 }, 0), Ok(()));
    // the inner texts at y = 0 and 9; the outer stack goes on 5 + 2 below its first child
    assert_eq!(
        lit(&canvas),
        vec![(0, 0), (1, 1), (0, 7), (0, 8), (0, 9), (1, 10)]
    );
}

#[test]
fn a_negative_gap_moves_children_up() {
    let mut canvas = Canvas::new(8, 32);
    let stack = VStack::new(vec![text("a"), text("b")]).set_gap(-6);
    assert_eq!(stack.render(&mut canvas, &font(), &palette(), Point { x: 0, y: 4 }, 0), Ok(()));
    assert_eq!(lit(&canvas), vec![(0, 4), (1, 5), (0, 6), (0, 7), (0, 8)]);
}

#[test]
fn a_failing_child_fails_the_stack_and_ends_the_painting() {
    let mut canvas = Canvas::new(64, 32);
    let stack = HStack::new(vec![text("a"), text("?"), text("b")]);
    let result = stack.render(&mut canvas, &font(), &palette(), Point { x: 0, y: 0 }, 0);
    assert_eq!(result, Err(RenderError::GlyphNotFound('?')));
    assert_eq!(lit(&canvas), vec![(0, 0), (1, 1)]);

    let mut canvas = Canvas::new(64, 32);
    let inner = Widget::HStack(HStack::new(vec![Widget::Text(TextWidget::new("a", "pink"))]));
    let stack = Widget::VStack(VStack::new(vec![text("b"), inner, text("a")]));
    let result = stack.render(&mut canvas, &font(), &palette(), Point { x: 0, y: 0 }, 0);
    assert_eq!(result, Err(RenderError::ColorResolutionFailed));
    assert_eq!(lit(&canvas), vec![(0, 0), (0, 1), (0, 2)]);
}

#[test]
fn the_frame_does_not_change_what_a_tree_paints() {
    let tree = Widget::VStack(
        VStack::new(vec![
            Widget::HStack(HStack::new(vec![text("a"), text("b")])),
            Widget::Chart(ChartWidget::new(vec![3, 9])),
        ])
        .set_gap(2),
    );
    let mut first = Canvas::new(64, 32);
    let mut second = Canvas::new(64, 32);
    assert_eq!(tree.render(&mut first, &font(), &palette(), Point { x: 2, y: 2 }, 0), Ok(()));
    assert_eq!(tree.render(&mut second, &font(), &palette(), Point { x: 2, y: 2 }, 41), Ok(()));
    assert_eq!(first.to_rgba_bytes(), second.to_rgba_bytes());
    assert!(!lit(&first).is_empty());
}

#[test]
fn a_tree_says_whether_it_can_be_painted_at_an_origin() {
    let leaf = text("ab");
    assert!(leaf.is_wf());
    assert!(leaf.depth_within(0));
    assert!(leaf.admits(Point { x: 2, y: 2 }));
    assert!(leaf.admits(Point { x: 0x4000_0000_0000_0000, y: -0x4000_0000_0000_0000 }));
    assert!(!leaf.admits(Point { x: 0x4000_0000_0000_0001, y: 0 }));
    assert!(!leaf.admits(Point { x: 0, y: i64::MIN }));

    let tree = Widget::VStack(VStack::new(vec![Widget::HStack(HStack::new(vec![text("a")]))]));
    assert!(tree.is_wf());
    assert!(!tree.depth_within(1));
    assert!(tree.depth_within(2));
    assert!(tree.admits(Point { x: 2, y: 2 }));
    // two levels of stacks need two spans of room below the limit
    let span: i64 = 0x1_0000_0000_0000;
    let limit: i64 = 0x4000_0000_0000_0000;
    assert!(tree.admits(Point { x: limit - 2 * span, y: 0 }));
    assert!(!tree.admits(Point { x: limit - 2 * span + 1, y: 0 }));
    assert!(!tree.admits(Point { x: 0, y: -(limit - 2 * span) - 1 }));
}

#[test]
fn a_widget_with_too_many_items_is_not_well_formed() {
    let long: String = std::iter::repeat('a').take(65_537).collect();
    let widget = Widget::Text(TextWidget { text: long.chars().collect(), color: "ink".to_string() });
    assert!(!widget.is_wf());
    assert!(!widget.admits(Point { x: 0, y: 0 }));
    let stack = Widget::HStack(HStack::new(vec![text("a"), widget]));
    assert!(!stack.is_wf());
    let chart = Widget::Chart(ChartWidget::new(vec![0; 65_536]));
    assert!(chart.is_wf());
    let chart = Widget::Chart(ChartWidget::new(vec![0; 65_537]));
    assert!(!chart.is_wf());
}
