//! Tick labels: the two bounds of each axis, written with one decimal place
//! and laid out along the plot.

use crate::domain::Domain;
use crate::error::InvalidArgument;
use crate::number::{format_label, label};
use crate::text::{fill, push_fill, push_right_aligned, right_aligned};
use vstd::prelude::*;

verus! {

/// The line under a plot `width` characters wide: the label of the domain's
/// start at the left edge, the label of its end at the right edge, and blanks
/// between them.
pub open spec fn tick_line(low: Seq<char>, high: Seq<char>, width: int) -> Seq<char> {
    low + fill(' ', width - low.len() - high.len()) + high
}

/// Where the two labels fit in the line, the line is exactly `width` wide,
/// the first label stands at its left end and the second at its right end,
/// and the two do not overlap: what lies between them is blank.
pub proof fn lemma_tick_line_layout(low: Seq<char>, high: Seq<char>, width: int)
    requires
        low.len() + high.len() <= width,
    ensures
        tick_line(low, high, width).len() == width,
        tick_line(low, high, width).subrange(0, low.len() as int) == low,
        tick_line(low, high, width).subrange(width - high.len(), width) == high,
        low.len() <= width - high.len(),
        forall|i: int|
            low.len() <= i < width - high.len() ==> #[trigger] tick_line(low, high, width)[i]
                == ' ',
{
    let line = tick_line(low, high, width);
    assert(line.subrange(0, low.len() as int) =~= low);
    assert(line.subrange(width - high.len(), width) =~= high);
}

/// The label that stands before row `row` of `row_count` rows: the upper one
/// before the first row, the lower one before the last row, nothing before the
/// others. Where one row is both, it gets the upper one.
pub open spec fn row_label(upper: Seq<char>, lower: Seq<char>, row_count: int, row: int) -> Seq<
    char,
> {
    if row == 0 {
        upper
    } else if row == row_count - 1 {
        lower
    } else {
        Seq::<char>::empty()
    }
}

/// The width of the label column: that of the longer label.
pub open spec fn label_column(upper: Seq<char>, lower: Seq<char>) -> int {
    if upper.len() >= lower.len() {
        upper.len() as int
    } else {
        lower.len() as int
    }
}

/// The labels for the x axis.
pub struct XTicks {
    labels: Vec<String>,
    width: usize,
}

impl XTicks {
    #[verifier::type_invariant]
    spec fn well_formed(self) -> bool {
        &&& self.labels.len() == 2
        &&& self.labels[0]@.len() + self.labels[1]@.len() <= self.width
    }

    /// The label at the left edge.
    pub closed spec fn low(&self) -> Seq<char> {
        self.labels[0]@
    }

    /// The label at the right edge.
    pub closed spec fn high(&self) -> Seq<char> {
        self.labels[1]@
    }

    /// The width of the line, in characters.
    pub closed spec fn width(&self) -> int {
        self.width as int
    }

    /// The labels of `domain` for a line `width` characters wide. They are
    /// refused where the two together are wider than the line.
    pub fn new(domain: &Domain, width: usize, _count: usize) -> (result: Result<
        Self,
        InvalidArgument,
    >)
        ensures
            match result {
                Ok(ticks) => {
                    &&& ticks.low() == label(domain.0.start as int)
                    &&& ticks.high() == label(domain.0.end as int)
                    &&& ticks.width() == width
                    &&& ticks.low().len() + ticks.high().len() <= width
                },
                Err(e) => {
                    &&& e == InvalidArgument::LabelsTooWide
                    &&& label(domain.0.start as int).len() + label(domain.0.end as int).len()
                        > width
                },
            },
    {
        let max = format_label(domain.max());
        let min = format_label(domain.min());
        let min_len: usize = min.as_str().unicode_len();
        let max_len: usize = max.as_str().unicode_len();
        if min_len as u128 + max_len as u128 > width as u128 {
            return Err(InvalidArgument::LabelsTooWide);
        }
        let mut labels: Vec<String> = Vec::new();
        labels.push(min);
        labels.push(max);
        Ok(Self { labels, width })
    }

    /// The line of labels, exactly as wide as the ticks were made for.
    pub fn to_string(&self) -> (line: String)
        ensures
            line@ == tick_line(self.low(), self.high(), self.width()),
            line@.len() == self.width(),
    {
        proof {
            use_type_invariant(self);
            reveal_strlit(" ");
        }
        let low_len: usize = self.labels[0].as_str().unicode_len();
        let high_len: usize = self.labels[1].as_str().unicode_len();
        let mut line = String::new();
        line.append(self.labels[0].as_str());
        push_fill(&mut line, " ", self.width - low_len - high_len);
        line.append(self.labels[1].as_str());
        assert(line@ =~= tick_line(self.low(), self.high(), self.width()));
        line
    }
}

/// The labels for the y axis.
pub struct YTicks {
    labels: Vec<String>,
    row_indexes: Vec<usize>,
}

impl YTicks {
    #[verifier::type_invariant]
    spec fn well_formed(self) -> bool {
        &&& self.labels.len() == 2
        &&& self.row_indexes.len() == 2
        &&& self.row_indexes[0] == 0
    }

    /// The label of the first row.
    pub closed spec fn upper(&self) -> Seq<char> {
        self.labels[0]@
    }

    /// The label of the last row.
    pub closed spec fn lower(&self) -> Seq<char> {
        self.labels[1]@
    }

    /// The number of rows that the labels stand beside.
    pub closed spec fn row_count(&self) -> int {
        self.row_indexes[1] + 1
    }

    /// The labels of `codomain` beside `row_count` rows: its end at the first
    /// row, its start at the last. No rows are refused.
    pub fn new(codomain: &Domain, row_count: usize, _count: usize) -> (result: Result<
        Self,
        InvalidArgument,
    >)
        ensures
            match result {
                Ok(ticks) => {
                    &&& row_count > 0
                    &&& ticks.upper() == label(codomain.0.end as int)
                    &&& ticks.lower() == label(codomain.0.start as int)
                    &&& ticks.row_count() == row_count
                },
                Err(e) => row_count == 0 && e == InvalidArgument::EmptyGrid,
            },
    {
        if row_count == 0 {
            return Err(InvalidArgument::EmptyGrid);
        }
        let max = format_label(codomain.max());
        let min = format_label(codomain.min());
        let mut labels: Vec<String> = Vec::new();
        labels.push(max);
        labels.push(min);
        let mut row_indexes: Vec<usize> = Vec::new();
        row_indexes.push(0);
        row_indexes.push(row_count - 1);
        Ok(Self { labels, row_indexes })
    }

    /// The width required for the widest label
    pub fn display_width(&self) -> (width: usize)
        ensures
            width == label_column(self.upper(), self.lower()),
    {
        proof {
            use_type_invariant(self);
        }
        let upper: usize = self.labels[0].as_str().unicode_len();
        let lower: usize = self.labels[1].as_str().unicode_len();
        if upper >= lower {
            upper
        } else {
            lower
        }
    }

    /// Get a label for a specific row.
    pub fn get(&self, row_index: usize) -> (text: &str)
        ensures
            text@ == row_label(self.upper(), self.lower(), self.row_count(), row_index as int),
    {
        proof {
            use_type_invariant(self);
            reveal_strlit("");
        }
        if row_index == self.row_indexes[0] {
            self.labels[0].as_str()
        } else if row_index == self.row_indexes[1] {
            self.labels[1].as_str()
        } else {
            ""
        }
    }
}

/// The rows of a plot with their tick labels: before every row a column as
/// wide as the longer label of `codomain`, holding the label of its end in the
/// first row and that of its start in the last; below the rows one more, with
/// blanks under the column and the labels of `domain` under the plot. The
/// plot is as wide as its first row.
pub open spec fn with_labels(rows: Seq<Seq<char>>, domain: Domain, codomain: Domain) -> Seq<
    Seq<char>,
> {
    let low = label(domain.0.start as int);
    let high = label(domain.0.end as int);
    let upper = label(codomain.0.end as int);
    let lower = label(codomain.0.start as int);
    let column = label_column(upper, lower);
    Seq::new(
        rows.len(),
        |i: int| right_aligned(row_label(upper, lower, rows.len() as int, i), column) + rows[i],
    ).push(fill(' ', column) + tick_line(low, high, rows[0].len() as int))
}

/// Whether the two labels of `domain` fit under a plot `width` characters
/// wide.
pub open spec fn labels_fit(domain: Domain, width: int) -> bool {
    label(domain.0.start as int).len() + label(domain.0.end as int).len() <= width
}

/// The width of the label column of `codomain`.
pub open spec fn column_of(codomain: Domain) -> int {
    label_column(label(codomain.0.end as int), label(codomain.0.start as int))
}

/// The rows of a plot with their tick labels, where there is a row and the
/// labels of `domain` fit under the first one.
pub open spec fn decorated(rows: Seq<Seq<char>>, domain: Domain, codomain: Domain) -> Result<
    Seq<Seq<char>>,
    InvalidArgument,
> {
    if rows.len() == 0 {
        Err(InvalidArgument::EmptyGrid)
    } else if !labels_fit(domain, rows[0].len() as int) {
        Err(InvalidArgument::LabelsTooWide)
    } else {
        Ok(with_labels(rows, domain, codomain))
    }
}

/// Where all of `rows` are equally wide and the labels fit under them, the
/// rows with their labels are one more than `rows`, and all of them are
/// equally wide: as wide as the label column and a row together.
pub proof fn lemma_decorated_rows_are_uniform(
    rows: Seq<Seq<char>>,
    domain: Domain,
    codomain: Domain,
)
    requires
        rows.len() > 0,
        forall|i: int| 0 <= i < rows.len() ==> (#[trigger] rows[i]).len() == rows[0].len(),
        labels_fit(domain, rows[0].len() as int),
    ensures
        with_labels(rows, domain, codomain).len() == rows.len() + 1,
        forall|i: int|
            0 <= i <= rows.len() ==> (#[trigger] with_labels(rows, domain, codomain)[i]).len()
                == column_of(codomain) + rows[0].len(),
{
}

/// Puts the tick labels of both axes around the rows of a plot. The width of
/// the plot is that of its first row.
///
/// No rows are refused, and so are rows too narrow for the two labels of
/// `domain`.
pub fn decorate(rows: &Vec<String>, domain: &Domain, codomain: &Domain) -> (result: Result<
    Vec<String>,
    InvalidArgument,
>)
    ensures
        match result {
            Ok(out) => decorated(rows.deep_view(), *domain, *codomain) == Ok::<
                Seq<Seq<char>>,
                InvalidArgument,
            >(out.deep_view()),
            Err(e) => decorated(rows.deep_view(), *domain, *codomain) == Err::<
                Seq<Seq<char>>,
                InvalidArgument,
            >(e),
        },
{
    if rows.len() == 0 {
        return Err(InvalidArgument::EmptyGrid);
    }
    let width: usize = rows[0].as_str().unicode_len();
    let y_ticks = match YTicks::new(codomain, rows.len(), 2) {
        Ok(ticks) => ticks,
        Err(e) => {
            return Err(e);
        },
    };
    let offset: usize = y_ticks.display_width();
    let x_ticks = match XTicks::new(domain, width, 2) {
        Ok(ticks) => ticks,
        Err(e) => {
            return Err(e);
        },
    };
    let ghost expected = decorated(rows.deep_view(), *domain, *codomain)->Ok_0;
    let mut out: Vec<String> = Vec::new();
    let mut index: usize = 0;
    while index < rows.len()
        invariant
            index <= rows.len(),
            rows.len() > 0,
            decorated(rows.deep_view(), *domain, *codomain) is Ok,
            expected == decorated(rows.deep_view(), *domain, *codomain)->Ok_0,
            y_ticks.upper() == label(codomain.0.end as int),
            y_ticks.lower() == label(codomain.0.start as int),
            y_ticks.row_count() == rows.len(),
            offset == label_column(y_ticks.upper(), y_ticks.lower()),
            out.len() == index,
            forall|i: int| 0 <= i < index ==> (#[trigger] out[i])@ == expected[i],
        decreases rows.len() - index,
    {
        let mut row = String::new();
        push_right_aligned(&mut row, y_ticks.get(index), offset);
        row.append(rows[index].as_str());
        assert(row@ =~= expected[index as int]);
        out.push(row);
        index += 1;
    }
    let mut last = String::new();
    proof {
        reveal_strlit(" ");
    }
    push_fill(&mut last, " ", offset);
    last.append(x_ticks.to_string().as_str());
    assert(last@ =~= expected[rows.len() as int]);
    out.push(last);
    assert(out.deep_view() =~= expected);
    Ok(out)
}

} // verus!
