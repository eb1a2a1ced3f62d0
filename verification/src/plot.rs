//! Different types of plots and graphs that can be plotted or graphed onto the
//! view.
//!
//! If a given type of plot is not present, create it with [`DrawView`].

use crate::canvas::{stroke, ViewCanvas};
use crate::domain::{sample, samples};
use crate::error::InvalidArgument;
use crate::number::{from_count, saturate, saturating_diff, saturating_sum, whole, Scalar, UNIT};
use crate::{DrawView, Frame};
use std::ops::Range;
use vstd::prelude::*;

verus! {

/// A continuous function to be graphed on the figure.
///
/// The function takes a point of the domain and gives its value, or `None`
/// where it has no finite value there.
pub struct Graph<F> where F: Fn(Scalar) -> Option<Scalar> {
    function: F,
}

impl<F> Graph<F> where F: Fn(Scalar) -> Option<Scalar> {
    #[verifier::type_invariant]
    spec fn is_a_function(self) -> bool {
        &&& forall|x: Scalar| call_requires(self.function, (x,))
        &&& forall|x: Scalar, a: Option<Scalar>, b: Option<Scalar>|
            call_ensures(self.function, (x,), a) && call_ensures(self.function, (x,), b) ==> a
                == b
    }

    /// The value of the function at `x`.
    pub closed spec fn value(&self, x: Scalar) -> Option<Scalar> {
        choose|y: Option<Scalar>| call_ensures(self.function, (x,), y)
    }

    /// The pixels of the piece of the curve between two places next to each
    /// other: a line between the two points of the curve, where the function
    /// has a value at both places. Where it lacks one, the curve has a gap.
    pub open spec fn segment(&self, frame: Frame, from: int, to: int) -> Set<(int, int)> {
        match (self.value(from as Scalar), self.value(to as Scalar)) {
            (Some(a), Some(b)) => stroke(frame, from, a as int, to, b as int),
            _ => Set::<(int, int)>::empty(),
        }
    }

    /// The pixels of the curve over the given places: its pieces between
    /// each place and the next.
    pub open spec fn curve(&self, frame: Frame, places: Seq<int>) -> Set<(int, int)>
        decreases places.len(),
    {
        if places.len() < 2 {
            Set::<(int, int)>::empty()
        } else {
            self.curve(frame, places.drop_last()).union(
                self.segment(frame, places[places.len() - 2], places.last()),
            )
        }
    }

    /// Create a new continuous function to be added to the plot.
    ///
    /// The function is pure: it can be called on every number, and gives the
    /// same result each time it is called on the same number.
    pub fn new(function: F) -> (graph: Self)
        requires
            forall|x: Scalar| call_requires(function, (x,)),
            forall|x: Scalar, a: Option<Scalar>, b: Option<Scalar>|
                call_ensures(function, (x,), a) && call_ensures(function, (x,), b) ==> a == b,
        ensures
            forall|x: Scalar, y: Option<Scalar>|
                call_ensures(function, (x,), y) ==> graph.value(x) == y,
    {
        Self { function }
    }
}

impl<F> DrawView for Graph<F> where F: Fn(Scalar) -> Option<Scalar> {
    /// The curve over the samples of the domain, one sample for each pixel
    /// column.
    open spec fn ink(&self, frame: &Frame) -> Set<(int, int)> {
        self.curve(
            *frame,
            samples(frame.domain.0.start as int, frame.domain.0.end as int, frame.size.w as int),
        )
    }

    fn draw(&self, frame: &Frame, canvas: &mut ViewCanvas) {
        proof {
            use_type_invariant(self);
        }
        let mut places = match frame.domain.iter(frame.size.w) {
            Ok(places) => places,
            Err(_) => {
                return ;
            },
        };
        let ghost all = samples(
            frame.domain.0.start as int,
            frame.domain.0.end as int,
            frame.size.w as int,
        );
        let ghost mut seen: int = 0;
        let mut last: Option<(Scalar, Scalar)> = None;
        loop
            invariant
                canvas.frame() == *frame,
                self.is_a_function(),
                0 <= seen <= all.len(),
                places.remaining() == all.skip(seen),
                canvas.dots() == old(canvas).dots().union(self.curve(*frame, all.take(seen))),
                match last {
                    Some(p) => seen > 0 && p.0 == all[seen - 1] && self.value(p.0) == Some(p.1),
                    None => seen > 0 ==> self.value(all[seen - 1] as Scalar) is None,
                },
            ensures
                seen == all.len(),
                canvas.frame() == *frame,
                canvas.dots() == old(canvas).dots().union(self.curve(*frame, all.take(seen))),
            decreases all.len() - seen,
        {
            let x: Scalar = match places.next() {
                Some(x) => x,
                None => {
                    break ;
                },
            };
            let value: Option<Scalar> = (self.function)(x);
            proof {
                assert(all.skip(seen)[0] == all[seen]);
                assert(self.value(x) == value);
                assert(all.skip(seen).drop_first() =~= all.skip(seen + 1));
                let now = all.take(seen + 1);
                assert(now.drop_last() =~= all.take(seen));
                assert(now.last() == all[seen]);
                if seen > 0 {
                    assert(now[now.len() - 2] == all[seen - 1]);
                }
            }
            match (last, value) {
                (Some(p), Some(y)) => {
                    canvas.line(p.0, p.1, x, y);
                },
                _ => {},
            }
            proof {
                assert(canvas.dots() =~= old(canvas).dots().union(
                    self.curve(*frame, all.take(seen + 1)),
                ));
                seen = seen + 1;
            }
            last = match value {
                Some(y) => Some((x, y)),
                None => None,
            };
        }
        proof {
            assert(all.take(seen) =~= all);
        }
    }
}

/// A bar in a bar graph or a histogram: the outline of a rectangle that
/// stands on the x axis, `width` wide from `x` on and `height` high.
#[derive(Clone, Copy, Debug, PartialEq, Eq, Structural)]
pub struct Bar {
    /// The place of the left side.
    pub x: Scalar,
    /// The height of the cap above the x axis.
    pub height: Scalar,
    /// The distance from the left side to the right side.
    pub width: Scalar,
}

impl Bar {
    /// A bar `width` wide from `x` on and `height` high.
    pub fn new(x: Scalar, width: Scalar, height: Scalar) -> (bar: Self)
        ensures
            bar == (Bar { x, height, width }),
    {
        Self { x, height, width }
    }

    /// The place of the right side. It does not lie beyond the largest number.
    pub open spec fn right(&self) -> int {
        saturate(self.x + self.width)
    }
}

impl DrawView for Bar {
    /// The left side, the right side, and the cap that joins them at the
    /// height of the bar. Nothing joins them on the x axis.
    open spec fn ink(&self, frame: &Frame) -> Set<(int, int)> {
        stroke(*frame, self.x as int, 0, self.x as int, self.height as int).union(
            stroke(*frame, self.right(), 0, self.right(), self.height as int),
        ).union(stroke(*frame, self.x as int, self.height as int, self.right(), self.height as int))
    }

    fn draw(&self, frame: &Frame, canvas: &mut ViewCanvas) {
        let right: Scalar = saturating_sum(self.x, self.width);
        canvas.line(self.x, 0, self.x, self.height);
        canvas.line(right, 0, right, self.height);
        canvas.line(self.x, self.height, right, self.height);
    }
}

/// The pixels of some bars together.
pub open spec fn bars_ink(frame: Frame, bars: Seq<Bar>) -> Set<(int, int)>
    decreases bars.len(),
{
    if bars.len() == 0 {
        Set::<(int, int)>::empty()
    } else {
        bars_ink(frame, bars.drop_last()).union(bars.last().ink(&frame))
    }
}

fn draw_bars(bars: &Vec<Bar>, frame: &Frame, canvas: &mut ViewCanvas)
    requires
        old(canvas).frame() == *frame,
    ensures
        final(canvas).dots() == old(canvas).dots().union(bars_ink(*frame, bars@)),
        final(canvas).frame() == old(canvas).frame(),
{
    let mut index: usize = 0;
    assert(bars@.take(0) =~= Seq::<Bar>::empty());
    while index < bars.len()
        invariant
            index <= bars.len(),
            canvas.frame() == *frame,
            canvas.dots() == old(canvas).dots().union(bars_ink(*frame, bars@.take(index as int))),
        decreases bars.len() - index,
    {
        bars[index].draw(frame, canvas);
        proof {
            let now = bars@.take(index + 1);
            assert(now.drop_last() =~= bars@.take(index as int));
            assert(now.last() == bars@[index as int]);
            assert(canvas.dots() =~= old(canvas).dots().union(bars_ink(*frame, now)));
        }
        index += 1;
    }
    assert(bars@.take(bars.len() as int) =~= bars@);
}

/// A bars graph.
///
/// All bars are 1 unit wide.
pub struct Bars {
    bars: Vec<Bar>,
}

impl View for Bars {
    type V = Seq<Bar>;

    /// The bars, from the left.
    closed spec fn view(&self) -> Seq<Bar> {
        self.bars@
    }
}

impl Bars {
    /// The bars, from the left.
    pub fn bars(&self) -> (bars: &Vec<Bar>)
        ensures
            bars@ == self@,
    {
        &self.bars
    }

    /// Create a new bars graph.
    ///
    /// Each value inside `bars_height` represent a bar of the graph. Each
    /// value is the height of the corresponding bar, which stands one unit
    /// wide at the place of its index.
    pub fn new(bars_height: Vec<Scalar>) -> (graph: Self)
        ensures
            graph@ == Seq::new(
                bars_height.len() as nat,
                |i: int| (Bar { x: whole(i) as Scalar, height: bars_height[i], width: UNIT }),
            ),
    {
        let mut bars: Vec<Bar> = Vec::new();
        let mut index: usize = 0;
        while index < bars_height.len()
            invariant
                index <= bars_height.len(),
                bars.len() == index,
                forall|i: int|
                    0 <= i < index ==> bars[i] == (Bar {
                        x: whole(i) as Scalar,
                        height: bars_height[i],
                        width: UNIT,
                    }),
            decreases bars_height.len() - index,
        {
            bars.push(Bar::new(from_count(index), UNIT, bars_height[index]));
            index += 1;
        }
        let graph = Self { bars };
        assert(graph@ =~= Seq::new(
            bars_height.len() as nat,
            |i: int| (Bar { x: whole(i) as Scalar, height: bars_height[i], width: UNIT }),
        ));
        graph
    }
}

impl DrawView for Bars {
    open spec fn ink(&self, frame: &Frame) -> Set<(int, int)> {
        bars_ink(*frame, self@)
    }

    fn draw(&self, frame: &Frame, canvas: &mut ViewCanvas) {
        draw_bars(&self.bars, frame, canvas);
    }
}

/// How many of `values` lie in the bucket from `start` up to, and without,
/// `end`.
pub open spec fn tally(values: Seq<Scalar>, start: int, end: int) -> nat {
    values.filter(|v: Scalar| start <= v < end).len()
}

/// The bar of a bucket: as wide as the bucket, and as many units high as
/// there are values in it.
pub open spec fn bucket_bar(values: Seq<Scalar>, bucket: Range<Scalar>) -> Bar {
    Bar {
        x: bucket.start,
        height: whole(tally(values, bucket.start as int, bucket.end as int) as int) as Scalar,
        width: saturate(bucket.end - bucket.start) as Scalar,
    }
}

/// The smallest of some values; of none, the largest number there is.
pub open spec fn lowest(values: Seq<Scalar>) -> Scalar
    decreases values.len(),
{
    if values.len() == 0 {
        i64::MAX
    } else if values.last() < lowest(values.drop_last()) {
        values.last()
    } else {
        lowest(values.drop_last())
    }
}

/// The largest of some values; of none, the smallest number there is.
pub open spec fn highest(values: Seq<Scalar>) -> Scalar
    decreases values.len(),
{
    if values.len() == 0 {
        i64::MIN
    } else if values.last() > highest(values.drop_last()) {
        values.last()
    } else {
        highest(values.drop_last())
    }
}

/// Whether `count` equal buckets can be made of `values`: there is a value,
/// there is a bucket, and the values are not all equal.
pub open spec fn has_spread(values: Seq<Scalar>, count: int) -> bool {
    values.len() > 0 && count > 0 && lowest(values) < highest(values)
}

/// Bucket `i` of `count` equal buckets of `values`. The buckets divide the
/// span from the smallest value to the largest: bucket `i` starts at the
/// exact place `lowest + i (highest - lowest) / count`, rounded down to a
/// thousandth, and ends where the next one starts.
pub open spec fn even_bucket(values: Seq<Scalar>, count: int, i: int) -> Range<Scalar> {
    Range {
        start: sample(lowest(values) as int, highest(values) as int, count, i) as Scalar,
        end: sample(lowest(values) as int, highest(values) as int, count, i + 1) as Scalar,
    }
}

proof fn lemma_bucket_bounds(span: int, count: int, i: int)
    by (nonlinear_arith)
    requires
        0 <= span,
        0 <= i <= count,
        0 < count,
    ensures
        0 <= (i * span) / count <= span,
        i * span <= count * span,
        (i * span) / count <= ((i + 1) * span) / count,
        i == 0 ==> (i * span) / count == 0,
        i == count ==> (i * span) / count == span,
{
}

/// The equal buckets follow one another without a gap and without overlap,
/// from the smallest value to the largest: the first starts at the smallest,
/// each ends where the next one starts, and the last ends at the largest.
pub proof fn lemma_even_buckets_are_contiguous(values: Seq<Scalar>, count: int, i: int)
    requires
        has_spread(values, count),
        0 <= i < count,
    ensures
        even_bucket(values, count, 0).start == lowest(values),
        even_bucket(values, count, count - 1).end == highest(values),
        lowest(values) <= even_bucket(values, count, i).start <= even_bucket(values, count, i).end
            <= highest(values),
        i + 1 < count ==> even_bucket(values, count, i).end == even_bucket(
            values,
            count,
            i + 1,
        ).start,
{
    let span = highest(values) - lowest(values);
    lemma_bucket_bounds(span, count, 0);
    lemma_bucket_bounds(span, count, count);
    lemma_bucket_bounds(span, count, i);
    lemma_bucket_bounds(span, count, i + 1);
}

/// The smallest value is among the values and none is below it; the largest
/// likewise.
pub proof fn lemma_lowest_and_highest(values: Seq<Scalar>)
    requires
        values.len() > 0,
    ensures
        values.contains(lowest(values)),
        values.contains(highest(values)),
        forall|i: int|
            0 <= i < values.len() ==> lowest(values) <= #[trigger] values[i] <= highest(values),
    decreases values.len(),
{
    let rest = values.drop_last();
    let end = values.len() - 1;
    assert(values[end] == values.last());
    if rest.len() > 0 {
        lemma_lowest_and_highest(rest);
        let low = choose|i: int| 0 <= i < rest.len() && rest[i] == lowest(rest);
        let high = choose|i: int| 0 <= i < rest.len() && rest[i] == highest(rest);
        assert(values[low] == rest[low]);
        assert(values[high] == rest[high]);
        assert(values[if values.last() < lowest(rest) { end } else { low }] == lowest(values));
        assert(values[if values.last() > highest(rest) { end } else { high }] == highest(values));
        assert forall|i: int| 0 <= i < values.len() implies lowest(values) <= #[trigger] values[i]
            <= highest(values) by {
            if i < rest.len() {
                assert(values[i] == rest[i]);
            }
        }
    } else {
        assert(values[end] == lowest(values));
        assert(values[end] == highest(values));
    }
}

/// Two buckets of which one ends where the other starts hold together what
/// the bucket from the start of the one to the end of the other holds.
pub proof fn lemma_tally_joins(values: Seq<Scalar>, a: int, b: int, c: int)
    requires
        a <= b <= c,
    ensures
        tally(values, a, b) + tally(values, b, c) == tally(values, a, c),
    decreases values.len(),
{
    let first = |v: Scalar| a <= v < b;
    let second = |v: Scalar| b <= v < c;
    let both = |v: Scalar| a <= v < c;
    if values.len() == 0 {
        values.lemma_filter_len(first);
        values.lemma_filter_len(second);
        values.lemma_filter_len(both);
    } else {
        let rest = values.drop_last();
        lemma_tally_joins(rest, a, b, c);
        assert(values =~= rest.push(values.last()));
        rest.lemma_filter_len_push(first, values.last());
        rest.lemma_filter_len_push(second, values.last());
        rest.lemma_filter_len_push(both, values.last());
    }
}

/// A bucket that reaches from below all values to above them holds them all.
pub proof fn lemma_tally_of_all(values: Seq<Scalar>, a: int, b: int)
    requires
        forall|i: int| 0 <= i < values.len() ==> a <= #[trigger] values[i] < b,
    ensures
        tally(values, a, b) == values.len(),
    decreases values.len(),
{
    let inside = |v: Scalar| a <= v < b;
    if values.len() == 0 {
        values.lemma_filter_len(inside);
    } else {
        let rest = values.drop_last();
        assert forall|i: int| 0 <= i < rest.len() implies a <= #[trigger] rest[i] < b by {
            assert(rest[i] == values[i]);
        }
        lemma_tally_of_all(rest, a, b);
        assert(values =~= rest.push(values.last()));
        assert(values.last() == values[values.len() - 1]);
        rest.lemma_filter_len_push(inside, values.last());
    }
}

/// How many values the first `k` of `count` equal buckets hold, bucket by
/// bucket.
pub open spec fn counted(values: Seq<Scalar>, count: int, k: int) -> int
    decreases k,
{
    if k <= 0 {
        0
    } else {
        counted(values, count, k - 1) + tally(
            values,
            even_bucket(values, count, k - 1).start as int,
            even_bucket(values, count, k - 1).end as int,
        )
    }
}

proof fn lemma_counted_up_to(values: Seq<Scalar>, count: int, k: int)
    requires
        has_spread(values, count),
        0 <= k <= count,
    ensures
        counted(values, count, k) == tally(
            values,
            lowest(values) as int,
            sample(lowest(values) as int, highest(values) as int, count, k),
        ),
    decreases k,
{
    let low = lowest(values) as int;
    let span = highest(values) - lowest(values);
    lemma_bucket_bounds(span, count, k);
    if k == 0 {
        lemma_tally_of_none(values, low);
    } else {
        lemma_counted_up_to(values, count, k - 1);
        lemma_bucket_bounds(span, count, k - 1);
        lemma_tally_joins(
            values,
            low,
            sample(low, highest(values) as int, count, k - 1),
            sample(low, highest(values) as int, count, k),
        );
    }
}

proof fn lemma_tally_of_none(values: Seq<Scalar>, a: int)
    ensures
        tally(values, a, a) == 0,
    decreases values.len(),
{
    let inside = |v: Scalar| a <= v < a;
    if values.len() == 0 {
        values.lemma_filter_len(inside);
    } else {
        let rest = values.drop_last();
        lemma_tally_of_none(rest, a);
        assert(values =~= rest.push(values.last()));
        rest.lemma_filter_len_push(inside, values.last());
    }
}

/// The equal buckets count every value once, but for the values equal to the
/// largest, which lie at the end of the last bucket and are counted nowhere.
pub proof fn lemma_equal_buckets_count_each_value_once(values: Seq<Scalar>, count: int)
    requires
        has_spread(values, count),
    ensures
        counted(values, count, count) + tally(
            values,
            highest(values) as int,
            highest(values) + 1,
        ) == values.len(),
{
    let low = lowest(values) as int;
    let high = highest(values) as int;
    lemma_counted_up_to(values, count, count);
    lemma_bucket_bounds(high - low, count, count);
    lemma_lowest_and_highest(values);
    lemma_tally_of_all(values, low, high + 1);
    lemma_tally_joins(values, low, high, high + 1);
}

/// An [histogram](https://en.wikipedia.org/wiki/Histogram) graph. An
/// approximation of the distribution of data.
pub struct Histogram {
    buckets: Vec<Bar>,
}

impl View for Histogram {
    type V = Seq<Bar>;

    /// The bars of the buckets, in the order of the buckets.
    closed spec fn view(&self) -> Seq<Bar> {
        self.buckets@
    }
}

impl Histogram {
    /// The bars of the buckets, in the order of the buckets.
    pub fn buckets(&self) -> (bars: &Vec<Bar>)
        ensures
            bars@ == self@,
    {
        &self.buckets
    }

    /// Create an histogram from data and buckets in which the data will be
    /// sorted.
    ///
    /// Each value counts in every bucket that holds it: a bucket holds its
    /// start and what lies between its start and its end, not its end. The
    /// buckets may overlap and may leave gaps.
    pub fn new(values: Vec<Scalar>, buckets_range: Vec<Range<Scalar>>) -> (histogram: Self)
        ensures
            histogram@ == Seq::new(
                buckets_range.len() as nat,
                |i: int| bucket_bar(values@, buckets_range[i]),
            ),
    {
        let mut buckets: Vec<Bar> = Vec::new();
        let mut index: usize = 0;
        while index < buckets_range.len()
            invariant
                index <= buckets_range.len(),
                buckets.len() == index,
                forall|i: int|
                    0 <= i < index ==> buckets[i] == bucket_bar(values@, buckets_range[i]),
            decreases buckets_range.len() - index,
        {
            let start: Scalar = buckets_range[index].start;
            let end: Scalar = buckets_range[index].end;
            let count: usize = count_within(&values, start, end);
            buckets.push(
                Bar { x: start, height: from_count(count), width: saturating_diff(end, start) },
            );
            index += 1;
        }
        let histogram = Self { buckets };
        assert(histogram@ =~= Seq::new(
            buckets_range.len() as nat,
            |i: int| bucket_bar(values@, buckets_range[i]),
        ));
        histogram
    }

    /// Create an histogram from data and a number of buckets.
    ///
    /// The buckets divide the span from the smallest to the largest value in
    /// equal parts: the first starts at the smallest value, each next one
    /// where the one before ends, and the last ends at the largest value,
    /// which it does not hold.
    ///
    /// Buckets without a width are refused: that is the case where there is no
    /// value or no bucket, and where all values are equal.
    pub fn new_with_buckets_count(values: Vec<Scalar>, count: u32) -> (result: Result<
        Self,
        InvalidArgument,
    >)
        ensures
            match result {
                Ok(histogram) => {
                    &&& has_spread(values@, count as int)
                    &&& histogram@ == Seq::new(
                        count as nat,
                        |i: int| bucket_bar(values@, even_bucket(values@, count as int, i)),
                    )
                },
                Err(e) => {
                    &&& !has_spread(values@, count as int)
                    &&& e == InvalidArgument::DegenerateBuckets
                },
            },
    {
        if values.len() == 0 || count == 0 {
            return Err(InvalidArgument::DegenerateBuckets);
        }
        let mut min: Scalar = values[0];
        let mut max: Scalar = values[0];
        let mut index: usize = 1;
        proof {
            let first = values@.take(1);
            assert(first.drop_last() =~= Seq::<Scalar>::empty());
            assert(first.last() == values[0]);
            assert(lowest(first.drop_last()) == i64::MAX);
            assert(highest(first.drop_last()) == i64::MIN);
        }
        while index < values.len()
            invariant
                1 <= index <= values.len(),
                min == lowest(values@.take(index as int)),
                max == highest(values@.take(index as int)),
            decreases values.len() - index,
        {
            proof {
                let now = values@.take(index + 1);
                assert(now.drop_last() =~= values@.take(index as int));
                assert(now.last() == values[index as int]);
            }
            if values[index] < min {
                min = values[index];
            }
            if values[index] > max {
                max = values[index];
            }
            index += 1;
        }
        assert(values@.take(values.len() as int) =~= values@);
        if min >= max {
            return Err(InvalidArgument::DegenerateBuckets);
        }
        let span: u128 = (max as i128 - min as i128) as u128;
        let parts: u128 = count as u128;
        let mut buckets: Vec<Range<Scalar>> = Vec::new();
        let mut idx: u32 = 0;
        while idx < count
            invariant
                idx <= count,
                count > 0,
                parts == count,
                min < max,
                span == max - min,
                min == lowest(values@),
                max == highest(values@),
                buckets.len() == idx,
                forall|i: int|
                    0 <= i < idx ==> buckets[i] == even_bucket(values@, count as int, i),
            decreases count - idx,
        {
            proof {
                lemma_bucket_bounds(span as int, count as int, idx as int);
                lemma_bucket_bounds(span as int, count as int, idx + 1);
                assert(count * span <= 0xffff_ffff * 0xffff_ffff_ffff_ffff) by (nonlinear_arith)
                    requires
                        0 <= count <= 0xffff_ffff,
                        0 <= span <= 0xffff_ffff_ffff_ffff,
                ;
            }
            let from: u128 = (idx as u128 * span) / parts;
            let to: u128 = ((idx as u128 + 1) * span) / parts;
            let start: i128 = min as i128 + from as i128;
            let end: i128 = min as i128 + to as i128;
            let bucket: Range<Scalar> = (start as Scalar)..(end as Scalar);
            assert(bucket == even_bucket(values@, count as int, idx as int));
            buckets.push(bucket);
            idx += 1;
        }
        let histogram = Self::new(values, buckets);
        assert(histogram@ =~= Seq::new(
            count as nat,
            |i: int| bucket_bar(values@, even_bucket(values@, count as int, i)),
        ));
        Ok(histogram)
    }
}

/// How many of `values` lie in the bucket from `start` up to `end`.
fn count_within(values: &Vec<Scalar>, start: Scalar, end: Scalar) -> (count: usize)
    ensures
        count == tally(values@, start as int, end as int),
{
    let ghost inside = |v: Scalar| start <= v < end;
    let mut count: usize = 0;
    let mut index: usize = 0;
    assert(values@.take(0) =~= Seq::<Scalar>::empty());
    assert(values@.take(0).filter(inside).len() == 0) by {
        values@.take(0).lemma_filter_len(inside);
    }
    while index < values.len()
        invariant
            index <= values.len(),
            inside == (|v: Scalar| start <= v < end),
            count == values@.take(index as int).filter(inside).len(),
            count <= index,
        decreases values.len() - index,
    {
        proof {
            values@.lemma_take_succ_push(index as int);
            values@.take(index as int).lemma_filter_len_push(inside, values@[index as int]);
        }
        if start <= values[index] && values[index] < end {
            count += 1;
        }
        index += 1;
    }
    assert(values@.take(values.len() as int) =~= values@);
    count
}

impl DrawView for Histogram {
    open spec fn ink(&self, frame: &Frame) -> Set<(int, int)> {
        bars_ink(*frame, self@)
    }

    fn draw(&self, frame: &Frame, canvas: &mut ViewCanvas) {
        draw_bars(&self.buckets, frame, canvas);
    }
}

} // verus!
