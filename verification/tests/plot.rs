use rand::Rng;
use termplot::plot::{Bars, Graph, Histogram};
use termplot::{frame_rows, Domain, InvalidArgument, Plot, Size, View};

fn scalar(x: f64) -> Option<i64> {
    if x.is_finite() {
        Some((x * 1000.0).round() as i64)
    } else {
        None
    }
}

fn as_float(x: i64) -> f64 {
    x as f64 / 1000.0
}

#[test]
fn simple() {
    let mut plot = Plot::default();
    plot.set_domain(Domain(-10_000..10_000))
        .set_codomain(Domain(-300..1_200))
        .set_title("Graph title")
        .set_x_label("X axis")
        .set_y_label("Y axis")
        .set_size(Size::new(100, 25))
        .add_plot(Box::new(Graph::new(|x: i64| scalar(as_float(x).sin() / as_float(x)))));

    println!("{}", plot.render().unwrap());
}

#[test]
fn historigram() {
    let mut rng = rand::thread_rng();
    let values: Vec<i64> =
        (0..100).map(|_| scalar(rng.gen_range(0.0f64..10.0f64)).unwrap()).collect();
    let mut plot = Plot::default();
    plot.set_domain(Domain(0..11_000))
        .set_codomain(Domain(0..45_000))
        .set_title("Graph title")
        .set_x_label("X axis")
        .set_y_label("Y axis")
        .set_size(Size::new(100, 25))
        .add_plot(Box::new(Histogram::new(
            values,
            vec![0..2_000, 2_000..4_000, 4_000..6_000, 6_000..8_000, 8_000..10_000],
        )));
    println!("{}", plot.render().unwrap());
}

#[test]
fn composition() {
    let mut rng = rand::thread_rng();
    let values: Vec<i64> =
        (0..100).map(|_| scalar(rng.gen_range(0.0f64..10.0f64)).unwrap()).collect();
    let mut plot = Plot::default();
    plot.set_domain(Domain(0..11_000))
        .set_codomain(Domain(0..45_000))
        .set_title("Graph title")
        .set_x_label("X axis")
        .set_y_label("Y axis")
        .set_size(Size::new(100, 25))
        .add_plot(Box::new(Histogram::new(
            values,
            vec![0..2_000, 2_000..4_000, 4_000..6_000, 6_000..8_000, 8_000..10_000],
        )))
        .add_plot(Box::new(Graph::new(|x: i64| {
            scalar(-2.0 * (as_float(x) - 5.0).powf(2.0) + 40.0)
        })));
    println!("{}", plot.render().unwrap());
}

#[test]
fn size_keeps_its_sides() {
    let size = Size::new(50, 25);
    assert_eq!(size.w, 50);
    assert_eq!(size.h, 25);
    assert_eq!(Size::default(), Size::new(100, 100));
}

#[test]
fn default_view_is_a_hundred_pixels_each_way() {
    let view = View::default();
    assert_eq!(view.context().size, Size::new(100, 100));
    assert_eq!(view.context().domain.0, -10_000..10_000);
    assert_eq!(view.context().codomain.0, -10_000..10_000);
    let rows = view.drawing(false).unwrap();
    assert_eq!(rows.len(), 26);
    for row in rows.iter() {
        assert_eq!(row.chars().count(), 51);
    }
    let decorated = view.drawing(true).unwrap();
    assert_eq!(decorated.len(), 27);
    for row in decorated.iter() {
        assert_eq!(row.chars().count(), 56);
    }
    assert!(decorated[0].starts_with(" 10.0"));
    assert!(decorated[25].starts_with("-10.0"));
    assert_eq!(decorated[26], format!("     -10.0{}10.0", " ".repeat(42)));
}

#[test]
fn undecorated_plot_is_the_bare_rows() {
    let mut plot = Plot::default();
    plot.set_domain(Domain(0..4_000))
        .set_codomain(Domain(0..8_000))
        .set_size(Size::new(4, 8))
        .set_title("never shown")
        .set_decoration(false);
    assert_eq!(plot.render().unwrap(), "⡇  \n⣇⣀ \n   ");
}

#[test]
fn decorated_plot_is_framed() {
    let mut plot = Plot::default();
    plot.set_domain(Domain(0..4_000))
        .set_codomain(Domain(0..8_000))
        .set_size(Size::new(20, 8))
        .set_title("T")
        .set_x_label("time")
        .set_y_label("height");
    let expected = [
        "╭──────T───────╮",
        "│8.0⡇          │",
        "│   ⣇⣀⣀⣀⣀⣀⣀⣀⣀⣀ │",
        "│0.0           │",
        "│   0.0     4.0│",
        "╰──────────────╯",
        "      time      ",
        "     height     ",
        "",
    ]
    .join("\n");
    assert_eq!(plot.render().unwrap(), expected);
}

#[test]
fn later_plots_are_drawn_over_earlier_ones() {
    let mut plot = Plot::default();
    plot.set_domain(Domain(0..4_000))
        .set_codomain(Domain(0..8_000))
        .set_size(Size::new(8, 8))
        .set_decoration(false)
        .add_plot(Box::new(Bars::new(vec![8_000, 4_000])))
        .add_plot(Box::new(Graph::new(|_: i64| Some(8_000))));
    assert_eq!(plot.render().unwrap(), "⡏⡏⠉⠉ \n⣇⣏⣇⣀ \n     ");
}

#[test]
fn frame_is_as_wide_as_the_first_row() {
    let rows = vec![String::from("abcd"), String::from("efgh")];
    let text = frame_rows(&rows, "ab", "x", "yy");
    assert_eq!(text, "╭─ab─╮\n│abcd│\n│efgh│\n╰────╯\n  x   \n  yy  \n");
}

#[test]
fn frame_puts_the_odd_dash_after_the_title() {
    let rows = vec![String::from("abcde")];
    let text = frame_rows(&rows, "ab", "", "y");
    assert_eq!(text, "╭─ab──╮\n│abcde│\n╰─────╯\n       \n   y   \n");
}

#[test]
fn frame_does_not_cut_a_long_title() {
    let rows = vec![String::from("ab")];
    let text = frame_rows(&rows, "long title", "x axis", "y");
    assert_eq!(text, "╭long title╮\n│ab│\n╰──╯\n x axis \n y  \n");
}

#[test]
fn frame_of_no_rows_is_empty_borders() {
    let rows: Vec<String> = Vec::new();
    assert_eq!(frame_rows(&rows, "", "", ""), "╭╮\n╰╯\n  \n  \n");
}

#[test]
fn plot_of_a_function_is_a_block_of_equal_rows_under_its_title() {
    let mut plot = Plot::default();
    plot.set_domain(Domain(-10_000..10_000))
        .set_codomain(Domain(-300..1_200))
        .set_title("Graph title")
        .set_x_label("X axis")
        .set_y_label("Y axis")
        .set_size(Size::new(50, 25))
        .add_plot(Box::new(Graph::new(|x: i64| scalar(as_float(x).sin() / as_float(x)))));
    let text = plot.render().unwrap();
    let lines: Vec<&str> = text.lines().collect();
    assert_eq!(lines.len(), 12);
    assert_eq!(lines[0], "╭─────────Graph title──────────╮");
    for line in lines[1..9].iter() {
        assert_eq!(line.chars().count(), 32);
        assert!(line.starts_with('│'));
        assert!(line.ends_with('│'));
    }
    assert!(lines[1].starts_with("│ 1.2"));
    assert!(lines[7].starts_with("│-0.3"));
    assert_eq!(lines[8], "│    -10.0                 10.0│");
    assert_eq!(lines[9], "╰──────────────────────────────╯");
    assert_eq!(lines[10], format!(" {}X axis{} ", " ".repeat(12), " ".repeat(12)));
    assert_eq!(lines[11], format!(" {}Y axis{} ", " ".repeat(12), " ".repeat(12)));
    assert!(text.ends_with('\n'));
}

#[test]
fn rendering_twice_gives_the_same_text() {
    let mut plot = Plot::default();
    plot.set_domain(Domain(-10_000..10_000))
        .set_codomain(Domain(-300..1_200))
        .set_title("Graph title")
        .set_size(Size::new(50, 25))
        .add_plot(Box::new(Graph::new(|x: i64| scalar(as_float(x).sin() / as_float(x)))))
        .add_plot(Box::new(Bars::new(vec![500, 1_000])));
    let first = plot.render().unwrap();
    let second = plot.render().unwrap();
    assert_eq!(first, second);
    assert_eq!(first.as_bytes(), second.as_bytes());
}

#[test]
fn plot_without_pixels_is_refused() {
    let mut plot = Plot::default();
    plot.set_size(Size::new(0, 25));
    assert_eq!(plot.render().err(), Some(InvalidArgument::EmptyGrid));
    plot.set_size(Size::new(50, 0)).set_decoration(false);
    assert_eq!(plot.render().err(), Some(InvalidArgument::EmptyGrid));
}

#[test]
fn plot_too_large_is_refused() {
    let mut plot = Plot::default();
    plot.set_size(Size::new(65_537, 25));
    assert_eq!(plot.render().err(), Some(InvalidArgument::GridTooLarge));
}

#[test]
fn plot_too_narrow_for_its_labels_is_refused() {
    let mut plot = Plot::default();
    plot.set_size(Size::new(4, 8));
    assert_eq!(plot.render().err(), Some(InvalidArgument::LabelsTooWide));
    plot.set_decoration(false);
    assert!(plot.render().is_ok());
}

#[test]
fn setters_replace_one_another() {
    let mut plot = Plot::default();
    plot.set_size(Size::new(0, 0)).set_size(Size::new(20, 8));
    plot.set_title("first").set_title("T");
    plot.set_x_label("a").set_x_label("time");
    plot.set_y_label("b").set_y_label("height");
    plot.set_domain(Domain(1..2)).set_domain(Domain(0..4_000));
    plot.set_codomain(Domain(1..2)).set_codomain(Domain(0..8_000));
    plot.set_decoration(false).set_decoration(true);
    let text = plot.render().unwrap();
    assert!(text.starts_with("╭──────T───────╮\n│8.0"));
    assert!(text.ends_with("      time      \n     height     \n"));
}
