//! Intervals of plotting space and evenly spaced samples of them.

use crate::error::InvalidArgument;
use crate::number::{Scalar, UNIT};
use std::ops::Range;
use vstd::prelude::*;

verus! {

/// Domain or codomain of a graph: the interval from `start` to `end` that one
/// axis shows. The start may lie above the end.
pub struct Domain(pub Range<Scalar>);

/// The distance between two numbers.
pub open spec fn span(start: int, end: int) -> int {
    if end >= start {
        end - start
    } else {
        start - end
    }
}

/// Sample `i` of `steps` evenly spaced samples from `start` towards `end`:
/// the exact position `start + i (end - start) / steps`, rounded down to a
/// thousandth.
pub open spec fn sample(start: int, end: int, steps: int, i: int) -> int {
    start + (i * (end - start)) / steps
}

/// The samples that `steps` steps over the interval from `start` up to `end`
/// give. An interval that does not rise has none.
pub open spec fn samples(start: int, end: int, steps: int) -> Seq<int> {
    if start < end && steps > 0 {
        Seq::new(steps as nat, |i: int| sample(start, end, steps, i))
    } else {
        Seq::<int>::empty()
    }
}

proof fn lemma_sample_bounds(width: int, steps: int, i: int)
    by (nonlinear_arith)
    requires
        0 < width,
        0 <= i < steps,
    ensures
        0 <= (i * width) / steps < width,
        steps * ((i * width) / steps) <= i * width < steps * ((i * width) / steps) + steps,
        i * width <= (steps - 1) * width,
{
}

proof fn lemma_sample_exact(width: int, steps: int, i: int)
    by (nonlinear_arith)
    requires
        0 < steps,
        0 <= i,
        0 <= width,
        width % steps == 0,
    ensures
        (i * width) / steps == i * (width / steps),
{
    assert(width == steps * (width / steps));
    assert(i * width == steps * (i * (width / steps)));
}

proof fn lemma_sample_spacing(width: int, steps: int, i: int)
    by (nonlinear_arith)
    requires
        0 < width,
        0 <= i,
        i + 1 < steps,
    ensures
        width / steps <= ((i + 1) * width) / steps - (i * width) / steps <= width / steps + 1,
{
    let quotient = width / steps;
    let rest = width % steps;
    assert(width == quotient * steps + rest);
    assert(i * width == (i * quotient) * steps + i * rest);
    assert((i + 1) * width == ((i + 1) * quotient) * steps + (i + 1) * rest);
    assert((i * width) / steps == i * quotient + (i * rest) / steps);
    assert(((i + 1) * width) / steps == (i + 1) * quotient + ((i + 1) * rest) / steps);
    assert((i * rest) / steps <= ((i + 1) * rest) / steps <= (i * rest) / steps + 1);
}

/// Over an interval that rises, sampling in `steps` steps gives exactly
/// `steps` values. The first is the start and all lie below the end. Each is
/// its exact position `start + i (end - start) / steps` rounded down to a
/// thousandth. So each lies `(end - start) / steps` above the one before,
/// rounded down or up to a thousandth, and exactly so where `steps` divides
/// the width.
pub proof fn lemma_samples_of_rising_interval(start: int, end: int, steps: int)
    requires
        start < end,
        steps > 0,
    ensures
        samples(start, end, steps).len() == steps,
        samples(start, end, steps)[0] == start,
        forall|i: int|
            0 <= i < steps ==> start <= #[trigger] samples(start, end, steps)[i] < end,
        forall|i: int|
            0 <= i < steps ==> steps * (#[trigger] samples(start, end, steps)[i] - start) <= i * (
            end - start) < steps * (samples(start, end, steps)[i] - start) + steps,
        forall|i: int|
            0 <= i && i + 1 < steps ==> (end - start) / steps <= samples(start, end, steps)[i + 1]
                - #[trigger] samples(start, end, steps)[i] <= (end - start) / steps + 1,
        (end - start) % steps == 0 ==> forall|i: int|
            0 <= i < steps ==> #[trigger] samples(start, end, steps)[i] == start + i * ((end
                - start) / steps),
{
    assert forall|i: int| 0 <= i && i + 1 < steps implies (end - start) / steps <= samples(
        start,
        end,
        steps,
    )[i + 1] - #[trigger] samples(start, end, steps)[i] <= (end - start) / steps + 1 by {
        lemma_sample_spacing(end - start, steps, i);
    }
    let s = samples(start, end, steps);
    assert(s[0] == start) by {
        lemma_sample_bounds(end - start, steps, 0);
        assert(0 * (end - start) == 0);
    }
    assert forall|i: int| 0 <= i < steps implies start <= #[trigger] s[i] < end && steps * (s[i]
        - start) <= i * (end - start) < steps * (s[i] - start) + steps by {
        lemma_sample_bounds(end - start, steps, i);
    }
    if (end - start) % steps == 0 {
        assert forall|i: int| 0 <= i < steps implies #[trigger] s[i] == start + i * ((end - start)
            / steps) by {
            lemma_sample_exact(end - start, steps, i);
        }
    }
}

/// Over an interval whose start is not below its end, sampling gives nothing,
/// whatever the number of steps.
pub proof fn lemma_samples_of_falling_interval(start: int, end: int, steps: int)
    requires
        start >= end,
    ensures
        samples(start, end, steps) == Seq::<int>::empty(),
{
}

impl Default for Domain {
    /// The interval from `-10.0` to `10.0`.
    fn default() -> (domain: Self)
        ensures
            domain.0.start == -10 * UNIT,
            domain.0.end == 10 * UNIT,
    {
        Self(-10_000..10_000)
    }
}

impl Domain {
    /// The start of the domain, whether or not it is its smallest value.
    pub fn min(&self) -> (start: Scalar)
        ensures
            start == self.0.start,
    {
        self.0.start
    }

    /// The end of the domain, whether or not it is its largest value.
    pub fn max(&self) -> (end: Scalar)
        ensures
            end == self.0.end,
    {
        self.0.end
    }

    /// The width of the domain: the distance between its start and its end.
    pub fn range(&self) -> (width: u64)
        ensures
            width == span(self.0.start as int, self.0.end as int),
    {
        if self.0.end >= self.0.start {
            (self.0.end as i128 - self.0.start as i128) as u64
        } else {
            (self.0.start as i128 - self.0.end as i128) as u64
        }
    }

    /// The samples of the domain in `steps` steps, from its start on.
    ///
    /// Zero steps are refused. A domain whose start is not below its end gives
    /// no sample at all.
    pub fn iter(&self, steps: usize) -> (result: Result<DomainIterator, InvalidArgument>)
        ensures
            match result {
                Ok(iterator) => steps > 0 && iterator.remaining() == samples(
                    self.0.start as int,
                    self.0.end as int,
                    steps as int,
                ),
                Err(e) => steps == 0 && e == InvalidArgument::ZeroSteps,
            },
    {
        DomainIterator::new(self.0.start..self.0.end, steps)
    }
}

/// A walk over the samples of a domain, one sample at a time.
pub struct DomainIterator {
    domain: Range<Scalar>,
    steps: usize,
    index: usize,
}

impl DomainIterator {
    #[verifier::type_invariant]
    spec fn well_formed(self) -> bool {
        0 < self.steps && self.index <= self.steps
    }

    /// The samples still to come, next one first.
    pub closed spec fn remaining(&self) -> Seq<int> {
        if self.domain.start < self.domain.end && self.index <= self.steps {
            samples(self.domain.start as int, self.domain.end as int, self.steps as int).skip(
                self.index as int,
            )
        } else {
            Seq::<int>::empty()
        }
    }

    /// A walk over `domain` in `steps` steps. Zero steps are refused.
    pub fn new(domain: Range<Scalar>, steps: usize) -> (result: Result<Self, InvalidArgument>)
        ensures
            match result {
                Ok(iterator) => steps > 0 && iterator.remaining() == samples(
                    domain.start as int,
                    domain.end as int,
                    steps as int,
                ),
                Err(e) => steps == 0 && e == InvalidArgument::ZeroSteps,
            },
    {
        if steps == 0 {
            return Err(InvalidArgument::ZeroSteps);
        }
        let iterator = Self { domain, steps, index: 0 };
        assert(iterator.remaining() =~= samples(
            domain.start as int,
            domain.end as int,
            steps as int,
        ));
        Ok(iterator)
    }

    /// The next sample, or `None` once all have been handed out.
    pub fn next(&mut self) -> (item: Option<Scalar>)
        ensures
            match item {
                Some(x) => old(self).remaining().len() > 0 && x == old(self).remaining()[0]
                    && final(self).remaining() == old(self).remaining().drop_first(),
                None => old(self).remaining().len() == 0 && final(self).remaining() == old(
                    self,
                ).remaining(),
            },
    {
        proof {
            use_type_invariant(&*self);
        }
        if self.domain.start >= self.domain.end || self.index >= self.steps {
            return None;
        }
        let width: u128 = (self.domain.end as i128 - self.domain.start as i128) as u128;
        let index: u128 = self.index as u128;
        let steps: u128 = self.steps as u128;
        proof {
            lemma_sample_bounds(width as int, steps as int, index as int);
            assert((steps - 1) * width <= u128::MAX) by (nonlinear_arith)
                requires
                    steps <= 0xffff_ffff_ffff_ffff,
                    width <= 0xffff_ffff_ffff_ffff,
            ;
        }
        let offset: u128 = (index * width) / steps;
        let value: Scalar = (self.domain.start as i128 + offset as i128) as i64;
        self.index = self.index + 1;
        proof {
            let all = samples(
                self.domain.start as int,
                self.domain.end as int,
                self.steps as int,
            );
            assert(old(self).remaining()[0] == all[index as int]);
            assert(self.remaining() =~= old(self).remaining().drop_first());
        }
        Some(value)
    }
}

} // verus!
