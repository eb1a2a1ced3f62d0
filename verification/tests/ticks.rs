use termplot::ticks::{decorate, XTicks, YTicks};
use termplot::{Domain, InvalidArgument};

#[test]
fn x_ticks_stand_at_both_ends_of_the_line() {
    let ticks = XTicks::new(&Domain(-10_000..10_000), 20, 2).unwrap();
    let line = ticks.to_string();
    assert_eq!(line, "-10.0           10.0");
    assert_eq!(line.chars().count(), 20);
    assert!(line.starts_with("-10.0"));
    assert!(line.ends_with("10.0"));
}

#[test]
fn x_ticks_may_touch() {
    let ticks = XTicks::new(&Domain(-10_000..10_000), 9, 2).unwrap();
    assert_eq!(ticks.to_string(), "-10.010.0");
}

#[test]
fn x_ticks_wider_than_the_line_are_refused() {
    assert_eq!(
        XTicks::new(&Domain(-10_000..10_000), 8, 2).err(),
        Some(InvalidArgument::LabelsTooWide)
    );
    assert_eq!(
        XTicks::new(&Domain(0..1_000), 0, 2).err(),
        Some(InvalidArgument::LabelsTooWide)
    );
}

#[test]
fn x_ticks_of_a_reversed_domain_start_with_its_start() {
    let ticks = XTicks::new(&Domain(8_000..-8_000), 10, 2).unwrap();
    assert_eq!(ticks.to_string(), "8.0   -8.0");
}

#[test]
fn y_ticks_label_the_first_and_the_last_row() {
    let ticks = YTicks::new(&Domain(-300..1_200), 7, 2).unwrap();
    assert_eq!(ticks.get(0), "1.2");
    assert_eq!(ticks.get(6), "-0.3");
    for row in 1..6 {
        assert_eq!(ticks.get(row), "");
    }
    assert_eq!(ticks.get(7), "");
    assert_eq!(ticks.display_width(), 4);
}

#[test]
fn y_ticks_of_one_row_show_the_upper_label() {
    let ticks = YTicks::new(&Domain(-300..1_200), 1, 2).unwrap();
    assert_eq!(ticks.get(0), "1.2");
    assert_eq!(ticks.get(1), "");
}

#[test]
fn y_ticks_are_as_wide_as_the_longer_label() {
    assert_eq!(YTicks::new(&Domain(0..45_000), 3, 2).unwrap().display_width(), 4);
    assert_eq!(YTicks::new(&Domain(-100_000..0), 3, 2).unwrap().display_width(), 6);
    assert_eq!(YTicks::new(&Domain(0..0), 3, 2).unwrap().display_width(), 3);
}

#[test]
fn y_ticks_beside_no_row_are_refused() {
    assert_eq!(YTicks::new(&Domain(0..1_000), 0, 2).err(), Some(InvalidArgument::EmptyGrid));
}

#[test]
fn decoration_puts_labels_around_the_rows() {
    let rows = vec![
        String::from("aaaaaaaaaa"),
        String::from("bbbbbbbbbb"),
        String::from("cccccccccc"),
    ];
    let out = decorate(&rows, &Domain(0..4_000), &Domain(-300..1_200)).unwrap();
    assert_eq!(
        out,
        vec![
            String::from(" 1.2aaaaaaaaaa"),
            String::from("    bbbbbbbbbb"),
            String::from("-0.3cccccccccc"),
            String::from("    0.0    4.0"),
        ]
    );
}

#[test]
fn decoration_of_one_row_shows_the_upper_label() {
    let rows = vec![String::from("........")];
    let out = decorate(&rows, &Domain(0..1_000), &Domain(0..2_000)).unwrap();
    assert_eq!(out, vec![String::from("2.0........"), String::from("   0.0  1.0")]);
}

#[test]
fn decoration_counts_characters_not_bytes() {
    let rows = vec![String::from("⣀⣀⣀⣀⣀⣀"), String::from("⣀⣀⣀⣀⣀⣀")];
    let out = decorate(&rows, &Domain(0..1_000), &Domain(0..2_000)).unwrap();
    assert_eq!(
        out,
        vec![
            String::from("2.0⣀⣀⣀⣀⣀⣀"),
            String::from("0.0⣀⣀⣀⣀⣀⣀"),
            String::from("   0.01.0"),
        ]
    );
}

#[test]
fn decoration_of_no_rows_is_refused() {
    let rows: Vec<String> = Vec::new();
    assert_eq!(
        decorate(&rows, &Domain(0..1_000), &Domain(0..1_000)).err(),
        Some(InvalidArgument::EmptyGrid)
    );
}

#[test]
fn decoration_of_rows_too_narrow_for_the_labels_is_refused() {
    let rows = vec![String::from("12345")];
    assert_eq!(
        decorate(&rows, &Domain(0..1_000), &Domain(0..1_000)).err(),
        Some(InvalidArgument::LabelsTooWide)
    );
}
