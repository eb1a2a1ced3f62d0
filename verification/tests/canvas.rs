use termplot::canvas::MAX_SIDE;
use termplot::{Domain, Frame, InvalidArgument, Size, ViewCanvas};

fn frame(domain: std::ops::Range<i64>, codomain: std::ops::Range<i64>, w: usize, h: usize) -> Frame {
    Frame { domain: Domain(domain), codomain: Domain(codomain), size: Size::new(w, h) }
}

#[test]
fn the_start_of_both_axes_is_the_bottom_left_pixel() {
    let frame = frame(-10_000..10_000, -300..1_200, 50, 25);
    let canvas = ViewCanvas::new(&frame).unwrap();
    assert_eq!(canvas.project_on_canvas(-10_000, -300), (0, 24));
}

#[test]
fn the_end_of_both_axes_is_the_top_right_pixel() {
    let frame = frame(-10_000..10_000, -300..1_200, 50, 25);
    let canvas = ViewCanvas::new(&frame).unwrap();
    assert_eq!(canvas.project_on_canvas(10_000, 1_200), (49, 0));
}

#[test]
fn points_between_the_bounds_are_placed_in_proportion() {
    let frame = frame(-10_000..10_000, -300..1_200, 50, 25);
    let canvas = ViewCanvas::new(&frame).unwrap();
    assert_eq!(canvas.project_on_canvas(0, 0), (25, 20));
    assert_eq!(canvas.project_on_canvas(-5_000, 450), (13, 13));
    assert_eq!(canvas.project_on_canvas(5_000, 1_000), (38, 3));
}

#[test]
fn a_pixel_and_a_half_is_rounded_up() {
    let frame = frame(0..4, 0..4, 2, 2);
    let canvas = ViewCanvas::new(&frame).unwrap();
    assert_eq!(canvas.project_on_canvas(0, 4), (0, 0));
    assert_eq!(canvas.project_on_canvas(1, 3), (1, 1));
    assert_eq!(canvas.project_on_canvas(0, 0).1, 1);
    let wide = frame_of_ten();
    let canvas = ViewCanvas::new(&wide).unwrap();
    assert_eq!(canvas.project_on_canvas(4, 0).0, 0);
    assert_eq!(canvas.project_on_canvas(5, 0).0, 1);
    assert_eq!(canvas.project_on_canvas(14, 0).0, 1);
    assert_eq!(canvas.project_on_canvas(15, 0).0, 2);
}

fn frame_of_ten() -> Frame {
    frame(0..100, 0..100, 10, 10)
}

#[test]
fn points_off_the_frame_go_to_the_edge() {
    let frame = frame_of_ten();
    let canvas = ViewCanvas::new(&frame).unwrap();
    assert_eq!(canvas.project_on_canvas(-1_000, 50).0, 0);
    assert_eq!(canvas.project_on_canvas(1_000, 50).0, 9);
    assert_eq!(canvas.project_on_canvas(50, 1_000).1, 0);
    assert_eq!(canvas.project_on_canvas(50, -1_000).1, 9);
    assert_eq!(canvas.project_on_canvas(i64::MIN, i64::MIN), (0, 9));
    assert_eq!(canvas.project_on_canvas(i64::MAX, i64::MAX), (9, 0));
}

#[test]
fn a_reversed_domain_still_has_its_start_at_the_left() {
    let frame = frame(8_000..-8_000, 8_000..-8_000, 16, 16);
    let canvas = ViewCanvas::new(&frame).unwrap();
    assert_eq!(canvas.project_on_canvas(8_000, 8_000), (0, 15));
    assert_eq!(canvas.project_on_canvas(9_000, 9_000), (1, 15));
    assert_eq!(canvas.project_on_canvas(-8_000, -8_000), (0, 15));
    assert_eq!(canvas.project_on_canvas(16_000, 16_000), (8, 8));
}

#[test]
fn a_domain_without_width_sends_points_to_an_edge() {
    let frame = frame(5..5, 7..7, 10, 10);
    let canvas = ViewCanvas::new(&frame).unwrap();
    assert_eq!(canvas.project_on_canvas(5, 7), (0, 0));
    assert_eq!(canvas.project_on_canvas(6, 8), (9, 0));
    assert_eq!(canvas.project_on_canvas(4, 6), (0, 9));
}

#[test]
fn the_widest_frame_is_projected_without_overflow() {
    let frame = frame(i64::MIN..i64::MAX, i64::MIN..i64::MAX, MAX_SIDE, MAX_SIDE);
    let canvas = ViewCanvas::new(&frame).unwrap();
    assert_eq!(canvas.project_on_canvas(i64::MIN, i64::MIN), (0, 65_535));
    assert_eq!(canvas.project_on_canvas(i64::MAX, i64::MAX), (65_535, 0));
    assert_eq!(canvas.project_on_canvas(0, 0), (32_768, 32_768));
}

#[test]
fn an_empty_canvas_renders_blank_rows() {
    let frame = frame(0..4_000, 0..8_000, 4, 8);
    let canvas = ViewCanvas::new(&frame).unwrap();
    assert_eq!(canvas.rows(), vec!["   ", "   ", "   "]);
}

#[test]
fn the_rows_are_as_many_as_the_size_asks_for() {
    let frame = frame(0..1, 0..1, 50, 25);
    let canvas = ViewCanvas::new(&frame).unwrap();
    let rows = canvas.rows();
    assert_eq!(rows.len(), 7);
    for row in rows.iter() {
        assert_eq!(row.chars().count(), 26);
    }
}

#[test]
fn a_point_raises_one_dot() {
    let frame = frame(0..4_000, 0..8_000, 4, 8);
    let mut canvas = ViewCanvas::new(&frame).unwrap();
    canvas.point(0, 8_000);
    assert_eq!(canvas.rows(), vec!["⠁  ", "   ", "   "]);
    canvas.point(3_000, 0);
    assert_eq!(canvas.rows(), vec!["⠁  ", " ⢀ ", "   "]);
    canvas.point(0, 8_000);
    assert_eq!(canvas.rows(), vec!["⠁  ", " ⢀ ", "   "]);
}

#[test]
fn a_line_raises_the_dots_between_its_ends() {
    let frame = frame(0..4_000, 0..8_000, 4, 8);
    let mut canvas = ViewCanvas::new(&frame).unwrap();
    canvas.line(0, 8_000, 0, 5_000);
    assert_eq!(canvas.rows(), vec!["⡇  ", "   ", "   "]);
    canvas.line(0, 1_000, 3_000, 1_000);
    assert_eq!(canvas.rows(), vec!["⡇  ", "⣀⣀ ", "   "]);
}

#[test]
fn a_slanted_line_steps_along_its_shorter_extent() {
    let frame = frame(0..8_000, 0..8_000, 8, 8);
    let mut canvas = ViewCanvas::new(&frame).unwrap();
    canvas.line(0, 8_000, 7_000, 5_000);
    assert_eq!(canvas.rows(), vec!["⠉⠑⠢⢄ ", "     ", "     "]);
    let mut canvas = ViewCanvas::new(&frame).unwrap();
    canvas.line(7_000, 0, 0, 3_000);
    assert_eq!(canvas.rows(), vec!["     ", "⠢⠤⣀⣀ ", "     "]);
    let mut canvas = ViewCanvas::new(&frame).unwrap();
    canvas.line(1_000, 8_000, 3_000, 1_000);
    assert_eq!(canvas.rows(), vec!["⢸    ", " ⢇   ", "     "]);
}

#[test]
fn a_line_of_one_pixel_is_a_point() {
    let frame = frame(0..4_000, 0..8_000, 4, 8);
    let mut line = ViewCanvas::new(&frame).unwrap();
    line.line(3_000, 0, 3_000, 0);
    let mut point = ViewCanvas::new(&frame).unwrap();
    point.point(3_000, 0);
    assert_eq!(line.rows(), point.rows());
    assert_eq!(line.rows(), vec!["   ", " ⢀ ", "   "]);
}

#[test]
fn drawing_does_not_change_the_shape_of_the_rows() {
    let frame = frame(0..1_000, 0..1_000, 50, 25);
    let mut canvas = ViewCanvas::new(&frame).unwrap();
    canvas.line(i64::MIN, i64::MIN, i64::MAX, i64::MAX);
    canvas.line(i64::MIN, i64::MAX, i64::MAX, i64::MIN);
    canvas.point(i64::MAX, 0);
    let rows = canvas.rows();
    assert_eq!(rows.len(), 7);
    for row in rows.iter() {
        assert_eq!(row.chars().count(), 26);
    }
}

#[test]
fn a_line_off_the_frame_lies_on_the_edge() {
    let frame = frame(0..4_000, 0..8_000, 4, 8);
    let mut canvas = ViewCanvas::new(&frame).unwrap();
    canvas.line(-5_000, 100_000, 100_000, 100_000);
    assert_eq!(canvas.rows(), vec!["⠉⠉ ", "   ", "   "]);
}

#[test]
fn a_canvas_without_pixels_is_refused() {
    let no_width = frame(0..1, 0..1, 0, 8);
    assert_eq!(ViewCanvas::new(&no_width).err(), Some(InvalidArgument::EmptyGrid));
    let no_height = frame(0..1, 0..1, 8, 0);
    assert_eq!(ViewCanvas::new(&no_height).err(), Some(InvalidArgument::EmptyGrid));
    let nothing = frame(0..1, 0..1, 0, MAX_SIDE + 1);
    assert_eq!(ViewCanvas::new(&nothing).err(), Some(InvalidArgument::EmptyGrid));
}

#[test]
fn a_canvas_too_large_is_refused() {
    let too_wide = frame(0..1, 0..1, MAX_SIDE + 1, 8);
    assert_eq!(ViewCanvas::new(&too_wide).err(), Some(InvalidArgument::GridTooLarge));
    let too_high = frame(0..1, 0..1, 8, MAX_SIDE + 1);
    assert_eq!(ViewCanvas::new(&too_high).err(), Some(InvalidArgument::GridTooLarge));
}

#[test]
fn a_canvas_knows_its_frame() {
    let frame = frame(0..4_000, 0..8_000, 4, 8);
    let canvas = ViewCanvas::new(&frame).unwrap();
    assert_eq!(canvas.context().size, Size::new(4, 8));
    assert_eq!(canvas.context().domain.0, 0..4_000);
}
