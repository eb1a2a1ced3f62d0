use termplot::{Domain, DomainIterator, InvalidArgument, UNIT};

fn collect(mut iterator: DomainIterator) -> Vec<i64> {
    let mut out = Vec::new();
    while let Some(x) = iterator.next() {
        out.push(x);
    }
    out
}

#[test]
fn range_is_the_distance_between_the_bounds() {
    assert_eq!(Domain(-10 * UNIT..10 * UNIT).range(), 20_000);
    assert_eq!(Domain(8 * UNIT..-8 * UNIT).range(), 16_000);
    assert_eq!(Domain(5..5).range(), 0);
}

#[test]
fn range_of_the_widest_domain_does_not_overflow() {
    assert_eq!(Domain(i64::MIN..i64::MAX).range(), u64::MAX);
    assert_eq!(Domain(i64::MAX..i64::MIN).range(), u64::MAX);
}

#[test]
fn min_and_max_are_the_bounds_as_given() {
    let domain = Domain(-10 * UNIT..10 * UNIT);
    assert_eq!(domain.min(), -10_000);
    assert_eq!(domain.max(), 10_000);
    let reversed = Domain(8 * UNIT..-8 * UNIT);
    assert_eq!(reversed.min(), 8_000);
    assert_eq!(reversed.max(), -8_000);
}

#[test]
fn default_domain_runs_from_minus_ten_to_ten() {
    let domain = Domain::default();
    assert_eq!(domain.0, -10_000..10_000);
}

#[test]
fn sampling_gives_as_many_values_as_steps() {
    let samples = collect(Domain(0..10 * UNIT).iter(4).unwrap());
    assert_eq!(samples, vec![0, 2_500, 5_000, 7_500]);
    let samples = collect(Domain(-10 * UNIT..10 * UNIT).iter(100).unwrap());
    assert_eq!(samples.len(), 100);
    assert_eq!(samples[0], -10_000);
    assert_eq!(samples[50], 0);
    assert_eq!(samples[99], 9_800);
    for pair in samples.windows(2) {
        assert_eq!(pair[1] - pair[0], 200);
    }
}

#[test]
fn sampling_rounds_each_position_down() {
    let samples = collect(Domain(0..10).iter(3).unwrap());
    assert_eq!(samples, vec![0, 3, 6]);
    let samples = collect(Domain(0..2).iter(5).unwrap());
    assert_eq!(samples, vec![0, 0, 0, 1, 1]);
    let samples = collect(Domain(-7..0).iter(2).unwrap());
    assert_eq!(samples, vec![-7, -4]);
}

#[test]
fn sampling_the_widest_domain_does_not_overflow() {
    let samples = collect(Domain(i64::MIN..i64::MAX).iter(2).unwrap());
    assert_eq!(samples, vec![i64::MIN, -1]);
}

#[test]
fn sampling_a_reversed_domain_gives_nothing() {
    assert_eq!(collect(Domain(8 * UNIT..-8 * UNIT).iter(10).unwrap()), Vec::<i64>::new());
    assert_eq!(collect(Domain(3..3).iter(10).unwrap()), Vec::<i64>::new());
}

#[test]
fn sampling_in_zero_steps_is_refused() {
    assert_eq!(Domain(0..10).iter(0).err(), Some(InvalidArgument::ZeroSteps));
    assert_eq!(DomainIterator::new(0..10, 0).err(), Some(InvalidArgument::ZeroSteps));
    assert_eq!(Domain(10..0).iter(0).err(), Some(InvalidArgument::ZeroSteps));
}

#[test]
fn sampling_can_be_started_again() {
    let domain = Domain(0..9);
    let first = collect(domain.iter(3).unwrap());
    let second = collect(domain.iter(3).unwrap());
    assert_eq!(first, vec![0, 3, 6]);
    assert_eq!(first, second);
}

#[test]
fn an_exhausted_walk_stays_exhausted() {
    let mut walk = DomainIterator::new(0..4, 2).unwrap();
    assert_eq!(walk.next(), Some(0));
    assert_eq!(walk.next(), Some(2));
    assert_eq!(walk.next(), None);
    assert_eq!(walk.next(), None);
}
