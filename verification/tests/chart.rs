use tidbyt_rs::canvas::Canvas;
use tidbyt_rs::chart::ChartWidget;
use tidbyt_rs::color::Rgba;
use tidbyt_rs::geometry::Point;

const CLEAR: Rgba = Rgba { r: 0, g: 0, b: 0, a: 0 };
const ACCENT: Rgba = Rgba { r: 255, g: 0, b: 0, a: 255 };
const BRIGHT: Rgba = Rgba { r: 255, g: 255, b: 255, a: 255 };
const DIM: Rgba = Rgba { r: 85, g: 85, b: 85, a: 255 };

fn column(canvas: &Canvas, x: usize) -> Vec<Rgba> {
    (0..canvas.height()).map(|y| canvas.pixel(x, y)).collect()
}

fn bar(height: usize, total: usize, color: Rgba) -> Vec<Rgba> {
    let mut cells = vec![CLEAR; total - height];
    cells.extend(vec![color; height]);
    cells
}

#[test]
fn a_chart_is_as_wide_as_it_has_values_and_one_cell_high() {
    assert_eq!(ChartWidget::new(vec![1, 2, 3]).measure(), Point { x: 3, y: 8 });
    assert_eq!(ChartWidget::new(vec![]).measure(), Point { x: 0, y: 8 });
    assert_eq!(ChartWidget::new(vec![0; 100]).measure(), Point { x: 100, y: 8 });
}

#[test]
fn a_chart_needs_one_frame_and_is_anchored_in_eight_rows() {
    let chart = ChartWidget::new(vec![4]);
    assert_eq!(chart.frame_count(), 1);
    assert_eq!(chart.height, 8);
    assert_eq!(chart.data, vec![4]);
}

#[test]
fn a_bar_is_one_higher_than_its_value_up_to_eight() {
    let mut canvas = Canvas::new(8, 8);
    let chart = ChartWidget::new(vec![0, 1, 3, 6, 7, 8, 100, u32::MAX]);
    assert_eq!(chart.render(&mut canvas, Point { x: 0, y: 0 }, 0), Ok(()));
    assert_eq!(column(&canvas, 0), bar(1, 8, DIM));
    assert_eq!(column(&canvas, 1), bar(2, 8, BRIGHT));
    assert_eq!(column(&canvas, 2), bar(4, 8, BRIGHT));
    assert_eq!(column(&canvas, 3), bar(7, 8, BRIGHT));
    assert_eq!(column(&canvas, 4), bar(8, 8, ACCENT));
    assert_eq!(column(&canvas, 5), bar(8, 8, ACCENT));
    assert_eq!(column(&canvas, 6), bar(8, 8, ACCENT));
    assert_eq!(column(&canvas, 7), bar(8, 8, ACCENT));
}

#[test]
fn bars_stand_in_the_order_of_the_values() {
    let mut canvas = Canvas::new(6, 12);
    let chart = ChartWidget::new(vec![2, 0, 5]);
    assert_eq!(chart.render(&mut canvas, Point { x: 1, y: 3 }, 0), Ok(()));
    // the bars stand on row 3 + 8 - 1 = 10
    assert_eq!(column(&canvas, 0), vec![CLEAR; 12]);
    let mut first = vec![CLEAR; 8];
    first.extend(vec![BRIGHT; 3]);
    first.push(CLEAR);
    assert_eq!(column(&canvas, 1), first);
    let mut second = vec![CLEAR; 10];
    second.push(DIM);
    second.push(CLEAR);
    assert_eq!(column(&canvas, 2), second);
    let mut third = vec![CLEAR; 5];
    third.extend(vec![BRIGHT; 6]);
    third.push(CLEAR);
    assert_eq!(column(&canvas, 3), third);
    assert_eq!(column(&canvas, 4), vec![CLEAR; 12]);
}

#[test]
fn an_empty_chart_paints_nothing_and_does_not_fail() {
    let mut canvas = Canvas::new(4, 8);
    assert_eq!(ChartWidget::new(vec![]).render(&mut canvas, Point { x: 0, y: 0 }, 0), Ok(()));
    assert_eq!(canvas.to_rgba_bytes(), vec![0u8; 4 * 8 * 4]);
}

#[test]
fn the_anchor_height_moves_the_bars_and_not_their_cap() {
    let mut canvas = Canvas::new(2, 12);
    let chart = ChartWidget { data: vec![9, 0], height: 10 };
    assert_eq!(chart.measure(), Point { x: 2, y: 8 });
    assert_eq!(chart.render(&mut canvas, Point { x: 0, y: 0 }, 0), Ok(()));
    let mut first = vec![CLEAR; 2];
    first.extend(vec![ACCENT; 8]);
    first.extend(vec![CLEAR; 2]);
    assert_eq!(column(&canvas, 0), first);
    let mut second = vec![CLEAR; 9];
    second.push(DIM);
    second.extend(vec![CLEAR; 2]);
    assert_eq!(column(&canvas, 1), second);
}
