//! The pixel grid behind a plot, and the projection of plotting space onto it.
//!
//! The grid itself is a `drawille::Canvas`. What this library takes for
//! granted of it is stated here, at the four functions that call it. Three
//! names describe a canvas: the dots it shows, the cells it was made with,
//! and whether it holds anything but dots. The pixels of a line are stated
//! in full. The text of the rows has a name, and its shape is stated.

use crate::domain::{span, Domain};
use crate::error::InvalidArgument;
use crate::number::Scalar;
use crate::{Frame, Size};
use vstd::prelude::*;

verus! {

/// The longest side of a grid, in pixels.
pub const MAX_SIDE: usize = 65536;

/// `drawille::Canvas`: a grid of braille dots that grows with what is drawn
/// on it. Nothing inside it is visible here.
#[verifier::external_type_specification]
#[verifier::external_body]
pub struct ExCanvas(drawille::Canvas);

/// The pixels `(x, y)` of a canvas whose dot is raised, as
/// `drawille::Canvas::get` tells it, among all the pixels that a canvas can
/// address.
pub uninterp spec fn canvas_dots(canvas: drawille::Canvas) -> Set<(int, int)>;

/// The columns and lines of character cells that a canvas was made with: the
/// least that it renders, whatever is drawn.
pub uninterp spec fn canvas_cells(canvas: drawille::Canvas) -> (int, int);

/// Whether a canvas is as `new`, `set` and `line` alone leave it: every cell
/// that it stores holds a raised dot, no colour and no character.
pub uninterp spec fn canvas_plain(canvas: drawille::Canvas) -> bool;

/// The longer extent of the line between two pixels, across or down.
pub open spec fn line_reach(x1: int, y1: int, x2: int, y2: int) -> int {
    if span(x1, x2) >= span(y1, y2) {
        span(x1, x2)
    } else {
        span(y1, y2)
    }
}

/// Pixel `i` of the line from `(x1, y1)` to `(x2, y2)`: of the longer extent
/// it has gone `i` pixels, and of the shorter one the same share, rounded
/// down.
pub open spec fn line_dot(x1: int, y1: int, x2: int, y2: int, i: int) -> (int, int) {
    let reach = line_reach(x1, y1, x2, y2);
    (
        if x1 == x2 {
            x1
        } else if x1 < x2 {
            x1 + (i * span(x1, x2)) / reach
        } else {
            x1 - (i * span(x1, x2)) / reach
        },
        if y1 == y2 {
            y1
        } else if y1 < y2 {
            y1 + (i * span(y1, y2)) / reach
        } else {
            y1 - (i * span(y1, y2)) / reach
        },
    )
}

/// The pixels of the line from `(x1, y1)` to `(x2, y2)`: one for each pixel
/// of its longer extent, both ends among them.
pub open spec fn line_dots(x1: int, y1: int, x2: int, y2: int) -> Set<(int, int)> {
    Set::new(
        |p: (int, int)|
            exists|i: int|
                0 <= i <= line_reach(x1, y1, x2, y2) && p == #[trigger] line_dot(x1, y1, x2, y2, i),
    )
}

proof fn lemma_share(extent: int, reach: int, i: int)
    by (nonlinear_arith)
    requires
        0 <= extent <= reach,
        0 < reach,
        0 <= i <= reach,
    ensures
        0 <= (i * extent) / reach <= extent,
        i == 0 ==> (i * extent) / reach == 0,
        i == reach ==> (i * extent) / reach == extent,
{
}

/// A line holds both of its ends.
pub proof fn lemma_line_holds_its_ends(x1: int, y1: int, x2: int, y2: int)
    ensures
        line_dots(x1, y1, x2, y2).contains((x1, y1)),
        line_dots(x1, y1, x2, y2).contains((x2, y2)),
{
    let reach = line_reach(x1, y1, x2, y2);
    if reach > 0 {
        lemma_share(span(x1, x2), reach, 0);
        lemma_share(span(y1, y2), reach, 0);
        lemma_share(span(x1, x2), reach, reach);
        lemma_share(span(y1, y2), reach, reach);
    }
    assert(line_dot(x1, y1, x2, y2, 0) == (x1, y1));
    assert(line_dot(x1, y1, x2, y2, reach) == (x2, y2));
}

/// No pixel of a line lies outside the box that its two ends span.
pub proof fn lemma_line_lies_between_its_ends(x1: int, y1: int, x2: int, y2: int, p: (int, int))
    requires
        line_dots(x1, y1, x2, y2).contains(p),
    ensures
        x1 <= p.0 <= x2 || x2 <= p.0 <= x1,
        y1 <= p.1 <= y2 || y2 <= p.1 <= y1,
{
    let reach = line_reach(x1, y1, x2, y2);
    let i = choose|i: int| 0 <= i <= reach && p == #[trigger] line_dot(x1, y1, x2, y2, i);
    if reach > 0 {
        lemma_share(span(x1, x2), reach, i);
        lemma_share(span(y1, y2), reach, i);
    }
}

/// The rows of braille text that `drawille::Canvas::rows` gives for a plain
/// canvas made with `cells` and showing `dots`.
pub uninterp spec fn braille_rows(cells: (int, int), dots: Set<(int, int)>) -> Seq<Seq<char>>;

/// `drawille::Canvas::new`: an empty canvas. It stores half the width and a
/// quarter of the height as 16-bit numbers, which these sides fit.
#[verifier::external_body]
fn canvas_new(width: u32, height: u32) -> (canvas: drawille::Canvas)
    requires
        width <= MAX_SIDE,
        height <= MAX_SIDE,
    ensures
        canvas_dots(canvas) == Set::<(int, int)>::empty(),
        canvas_cells(canvas) == (width as int / 2, height as int / 4),
        canvas_plain(canvas),
{
    drawille::Canvas::new(width, height)
}

/// `drawille::Canvas::set`: raises the dot of one pixel and leaves the others
/// as they are. The cell of the pixel loses its colour and character, if it
/// had any. It stores the cell under half of `x` and a quarter of `y` as
/// 16-bit numbers, which these coordinates fit, and does not panic.
#[verifier::external_body]
fn canvas_set(canvas: &mut drawille::Canvas, x: u32, y: u32)
    requires
        x < MAX_SIDE,
        y < MAX_SIDE,
    ensures
        canvas_dots(*final(canvas)) == canvas_dots(*old(canvas)).insert((x as int, y as int)),
        canvas_cells(*final(canvas)) == canvas_cells(*old(canvas)),
        canvas_plain(*old(canvas)) ==> canvas_plain(*final(canvas)),
    no_unwind
{
    canvas.set(x, y)
}

/// `drawille::Canvas::line`: calls `set` on each pixel of the line between the
/// two end points, which are those of [`line_dots`]: it walks the longer
/// extent of the line pixel by pixel and moves along the shorter one by the
/// same share, rounded down. Its arithmetic is in 32 bits, and multiplies two
/// numbers up to the longer extent of the line: with end points below
/// [`MAX_SIDE`] it does not overflow, and so does not panic.
#[verifier::external_body]
fn canvas_line(canvas: &mut drawille::Canvas, x1: u32, y1: u32, x2: u32, y2: u32)
    requires
        x1 < MAX_SIDE,
        y1 < MAX_SIDE,
        x2 < MAX_SIDE,
        y2 < MAX_SIDE,
    ensures
        canvas_dots(*final(canvas)) == canvas_dots(*old(canvas)).union(
            line_dots(x1 as int, y1 as int, x2 as int, y2 as int),
        ),
        canvas_cells(*final(canvas)) == canvas_cells(*old(canvas)),
        canvas_plain(*old(canvas)) ==> canvas_plain(*final(canvas)),
    no_unwind
{
    canvas.line(x1, y1, x2, y2)
}

/// `drawille::Canvas::rows`: one text per line of cells, from the top. It
/// renders the cells from the first up to and with the one that the canvas
/// was made with, and beyond it as far as a stored cell lies: one line and
/// one column more than the canvas was made with, where no dot lies beyond
/// them. In a plain canvas each cell gives one character, a braille pattern
/// of its dots or a blank, so all rows are equally long and nothing but the
/// cells and the dots decides them.
#[verifier::external_body]
fn canvas_rows(canvas: &drawille::Canvas) -> (rows: Vec<String>)
    requires
        canvas_plain(*canvas),
    ensures
        rows.deep_view() == braille_rows(canvas_cells(*canvas), canvas_dots(*canvas)),
        rows.len() >= canvas_cells(*canvas).1 + 1,
        rows.len() >= 1,
        rows[0]@.len() >= canvas_cells(*canvas).0 + 1,
        forall|i: int| 0 <= i < rows.len() ==> (#[trigger] rows[i])@.len() == rows[0]@.len(),
        (forall|p: (int, int)| #[trigger]
            canvas_dots(*canvas).contains(p) ==> p.0 / 2 <= canvas_cells(*canvas).0 && p.1 / 4
                <= canvas_cells(*canvas).1) ==> rows.len() == canvas_cells(*canvas).1 + 1
            && rows[0]@.len() == canvas_cells(*canvas).0 + 1,
{
    canvas.rows()
}

/// Whether a grid of this size can be made: no side is empty or longer than
/// [`MAX_SIDE`].
pub open spec fn valid_size(size: Size) -> bool {
    1 <= size.w <= MAX_SIDE && 1 <= size.h <= MAX_SIDE
}

/// The character cells of a grid of this size: two pixels to a column, four
/// to a line.
pub open spec fn cells(size: Size) -> (int, int) {
    (size.w as int / 2, size.h as int / 4)
}

/// The number of characters in each row of text of a grid of this size.
pub open spec fn text_columns(size: Size) -> int {
    size.w as int / 2 + 1
}

/// The number of rows of text of a grid of this size.
pub open spec fn text_lines(size: Size) -> int {
    size.h as int / 4 + 1
}

/// Whether all of `dots` lie on a grid of this size.
pub open spec fn on_grid(dots: Set<(int, int)>, size: Size) -> bool {
    forall|p: (int, int)| #[trigger] dots.contains(p) ==> 0 <= p.0 < size.w && 0 <= p.1 < size.h
}

/// The quotient `n / d` rounded to the nearest integer, a half upwards.
pub open spec fn nearest(n: int, d: int) -> int {
    (2 * n + d) / (2 * d)
}

/// `v` brought onto a side of `side` pixels: into `0 ..= side - 1`.
pub open spec fn clamped(v: int, side: int) -> int {
    if v < 0 {
        0
    } else if v > side - 1 {
        side - 1
    } else {
        v
    }
}

/// The pixel column of `x`: the start of `domain` goes to column 0, its end
/// to the column one past the last, what lies between in proportion; the
/// result is rounded to the nearest column and brought onto the grid. A
/// domain without width sends what lies above it to the last column and the
/// rest to the first.
pub open spec fn pixel_column(domain: Domain, width: int, x: int) -> int {
    let range = span(domain.0.start as int, domain.0.end as int);
    if range == 0 {
        if x > domain.0.start {
            width - 1
        } else {
            0
        }
    } else {
        clamped(nearest((x - domain.0.start) * width, range), width)
    }
}

/// The pixel row of `y`, counted from the top: the start of `codomain` goes
/// to the row one past the last, its end to row 0, what lies between in
/// proportion; the result is rounded to the nearest row and brought onto the
/// grid. A codomain without height sends what lies below it to the last row
/// and the rest to the first.
pub open spec fn pixel_row(codomain: Domain, height: int, y: int) -> int {
    let range = span(codomain.0.start as int, codomain.0.end as int);
    if range == 0 {
        if y < codomain.0.start {
            height - 1
        } else {
            0
        }
    } else {
        clamped(nearest(height * range - (y - codomain.0.start) * height, range), height)
    }
}

/// The pixel of the point `(x, y)` of plotting space.
pub open spec fn project(frame: Frame, x: int, y: int) -> (int, int) {
    (
        pixel_column(frame.domain, frame.size.w as int, x),
        pixel_row(frame.codomain, frame.size.h as int, y),
    )
}

/// The pixels of the line between two points of plotting space.
pub open spec fn stroke(frame: Frame, x0: int, y0: int, x1: int, y1: int) -> Set<(int, int)> {
    line_dots(
        project(frame, x0, y0).0,
        project(frame, x0, y0).1,
        project(frame, x1, y1).0,
        project(frame, x1, y1).1,
    )
}

/// Every point of plotting space has its pixel on the grid.
pub proof fn lemma_project_lies_on_the_grid(frame: Frame, x: int, y: int)
    requires
        valid_size(frame.size),
    ensures
        0 <= project(frame, x, y).0 < frame.size.w,
        0 <= project(frame, x, y).1 < frame.size.h,
{
}

/// Every line between two points of plotting space lies on the grid.
pub proof fn lemma_stroke_lies_on_the_grid(frame: Frame, x0: int, y0: int, x1: int, y1: int)
    requires
        valid_size(frame.size),
    ensures
        on_grid(stroke(frame, x0, y0, x1, y1), frame.size),
{
    let from = project(frame, x0, y0);
    let to = project(frame, x1, y1);
    lemma_project_lies_on_the_grid(frame, x0, y0);
    lemma_project_lies_on_the_grid(frame, x1, y1);
    assert forall|p: (int, int)| #[trigger]
        stroke(frame, x0, y0, x1, y1).contains(p) implies 0 <= p.0 < frame.size.w && 0 <= p.1
        < frame.size.h by {
        lemma_line_lies_between_its_ends(from.0, from.1, to.0, to.1, p);
    }
}

/// The point at the start of the domain and of the codomain lies on the
/// bottom left pixel of the grid, whichever way the two run. Only a codomain
/// without height sends it elsewhere: to the top.
pub proof fn lemma_project_start(frame: Frame)
    requires
        valid_size(frame.size),
        frame.codomain.0.start != frame.codomain.0.end || frame.size.h == 1,
    ensures
        project(frame, frame.domain.0.start as int, frame.codomain.0.start as int) == (
            0int,
            frame.size.h - 1,
        ),
{
    let range = span(frame.codomain.0.start as int, frame.codomain.0.end as int);
    let height = frame.size.h as int;
    let width = frame.size.w as int;
    let d_range = span(frame.domain.0.start as int, frame.domain.0.end as int);
    assert(0 * width == 0);
    if d_range != 0 {
        assert(nearest(0, d_range) == 0) by (nonlinear_arith)
            requires
                d_range > 0,
        ;
    }
    assert(0 * height == 0);
    if range != 0 {
        assert(nearest(height * range, range) == height) by (nonlinear_arith)
            requires
                range > 0,
        {
            assert(2 * (height * range) + range == (2 * range) * height + range);
        }
    }
}

/// The point at the end of the domain and of the codomain lies on the top
/// right pixel of the grid, where the domain rises and the codomain does not
/// fall. A domain that does not rise sends it to the left edge, and a
/// codomain that falls to the bottom edge.
pub proof fn lemma_project_end(frame: Frame)
    requires
        valid_size(frame.size),
        frame.domain.0.start < frame.domain.0.end || frame.size.w == 1,
        frame.codomain.0.start <= frame.codomain.0.end || frame.size.h == 1,
    ensures
        project(frame, frame.domain.0.end as int, frame.codomain.0.end as int) == (
            frame.size.w - 1,
            0int,
        ),
{
    let range = frame.codomain.0.end - frame.codomain.0.start;
    let height = frame.size.h as int;
    let width = frame.size.w as int;
    let d_range = frame.domain.0.end - frame.domain.0.start;
    if d_range > 0 {
        assert(nearest(d_range * width, d_range) == width) by (nonlinear_arith)
            requires
                d_range > 0,
        {
            assert(2 * (d_range * width) + d_range == (2 * d_range) * width + d_range);
        }
    }
    if range > 0 {
        assert(height * range - range * height == 0) by (nonlinear_arith);
        assert(nearest(0, range) == 0) by (nonlinear_arith)
            requires
                range > 0,
        ;
    }
}

/// `numerator / range` rounded to the nearest pixel and brought onto a side of
/// `side` pixels.
fn place(numerator: i128, range: u64, side: usize) -> (pixel: u32)
    requires
        range > 0,
        1 <= side <= MAX_SIDE,
        -0x1_0000_0000_0000_0000_0000 <= numerator <= 0x2_0000_0000_0000_0000_0000,
    ensures
        pixel == clamped(nearest(numerator as int, range as int), side as int),
        pixel < side,
{
    let doubled: i128 = 2 * numerator + range as i128;
    let divisor: i128 = 2 * range as i128;
    if doubled < 0 {
        assert(nearest(numerator as int, range as int) < 0) by (nonlinear_arith)
            requires
                2 * numerator + range < 0,
                range > 0,
        ;
        return 0;
    }
    let quotient: i128 = doubled / divisor;
    assert(quotient == nearest(numerator as int, range as int));
    if quotient > side as i128 - 1 {
        (side - 1) as u32
    } else {
        quotient as u32
    }
}

/// The view where graphs are graphed and plots are plotted: a grid of braille
/// dots as large as the frame says, addressed in plotting space.
pub struct ViewCanvas<'view> {
    canvas: drawille::Canvas,
    frame: &'view Frame,
}

impl<'view> ViewCanvas<'view> {
    #[verifier::type_invariant]
    spec fn well_formed(self) -> bool {
        &&& valid_size(self.frame.size)
        &&& canvas_plain(self.canvas)
        &&& canvas_cells(self.canvas) == cells(self.frame.size)
        &&& on_grid(canvas_dots(self.canvas), self.frame.size)
    }

    /// The pixels drawn so far.
    pub closed spec fn dots(&self) -> Set<(int, int)> {
        canvas_dots(self.canvas)
    }

    /// The frame that the canvas was made for.
    pub closed spec fn frame(&self) -> Frame {
        *self.frame
    }

    /// An empty canvas for `frame`. A size with an empty side is refused, and
    /// so is one with a side longer than [`MAX_SIDE`].
    pub fn new(frame: &'view Frame) -> (result: Result<Self, InvalidArgument>)
        ensures
            match result {
                Ok(canvas) => {
                    &&& valid_size(frame.size)
                    &&& canvas.frame() == *frame
                    &&& canvas.dots() == Set::<(int, int)>::empty()
                },
                Err(e) => {
                    &&& !valid_size(frame.size)
                    &&& e == if frame.size.w == 0 || frame.size.h == 0 {
                        InvalidArgument::EmptyGrid
                    } else {
                        InvalidArgument::GridTooLarge
                    }
                },
            },
    {
        if frame.size.w == 0 || frame.size.h == 0 {
            return Err(InvalidArgument::EmptyGrid);
        }
        if frame.size.w > MAX_SIDE || frame.size.h > MAX_SIDE {
            return Err(InvalidArgument::GridTooLarge);
        }
        Ok(Self { canvas: canvas_new(frame.size.w as u32, frame.size.h as u32), frame })
    }

    /// The frame that the canvas was made for. Its size is one that a grid can
    /// have, and all that was drawn lies on the grid.
    pub fn context(&self) -> (frame: &'view Frame)
        ensures
            *frame == self.frame(),
            valid_size(frame.size),
            on_grid(self.dots(), frame.size),
    {
        proof {
            use_type_invariant(self);
        }
        self.frame
    }

    /// The canvas as rows of braille text, from the top: one row for every
    /// four pixel rows and one more, each with one character for every two
    /// pixel columns and one more.
    pub fn rows(&self) -> (rows: Vec<String>)
        ensures
            rows.deep_view() == braille_rows(cells(self.frame().size), self.dots()),
            rows.len() == text_lines(self.frame().size),
            forall|i: int|
                0 <= i < rows.len() ==> (#[trigger] rows[i])@.len() == text_columns(
                    self.frame().size,
                ),
    {
        proof {
            use_type_invariant(self);
            assert forall|p: (int, int)| #[trigger]
                canvas_dots(self.canvas).contains(p) implies p.0 / 2 <= self.frame.size.w as int / 2
                && p.1 / 4 <= self.frame.size.h as int / 4 by {}
        }
        canvas_rows(&self.canvas)
    }

    /// The pixel of a point of plotting space. Every point has one: what lies
    /// off the frame goes to the nearest edge of the grid.
    pub fn project_on_canvas(&self, x: Scalar, y: Scalar) -> (pixel: (u32, u32))
        ensures
            (pixel.0 as int, pixel.1 as int) == project(self.frame(), x as int, y as int),
            pixel.0 < self.frame().size.w,
            pixel.1 < self.frame().size.h,
    {
        proof {
            use_type_invariant(self);
        }
        let width: usize = self.frame.size.w;
        let height: usize = self.frame.size.h;
        let x_range: u64 = self.frame.domain.range();
        let column: u32 = if x_range == 0 {
            if x > self.frame.domain.min() {
                (width - 1) as u32
            } else {
                0
            }
        } else {
            let offset: i128 = x as i128 - self.frame.domain.min() as i128;
            assert(-0x1_0000_0000_0000_0000_0000 <= offset * width <= 0x1_0000_0000_0000_0000_0000)
                by (nonlinear_arith)
                requires
                    -0x1_0000_0000_0000_0000 <= offset <= 0x1_0000_0000_0000_0000,
                    0 <= width <= 0x1_0000,
            ;
            place(offset * width as i128, x_range, width)
        };
        let y_range: u64 = self.frame.codomain.range();
        let row: u32 = if y_range == 0 {
            if y < self.frame.codomain.min() {
                (height - 1) as u32
            } else {
                0
            }
        } else {
            let offset: i128 = y as i128 - self.frame.codomain.min() as i128;
            assert(-0x1_0000_0000_0000_0000_0000 <= offset * height
                <= 0x1_0000_0000_0000_0000_0000) by (nonlinear_arith)
                requires
                    -0x1_0000_0000_0000_0000 <= offset <= 0x1_0000_0000_0000_0000,
                    0 <= height <= 0x1_0000,
            ;
            assert(0 <= height * y_range <= 0x1_0000_0000_0000_0000_0000) by (nonlinear_arith)
                requires
                    0 <= y_range <= 0x1_0000_0000_0000_0000,
                    0 <= height <= 0x1_0000,
            ;
            place(height as i128 * y_range as i128 - offset * height as i128, y_range, height)
        };
        (column, row)
    }

    /// Draw a line from the point (`x0`, `y0`) to (`x1`, `y1`).
    ///
    /// The coordinates are of the plotting space, and **not the actual
    /// pixel's coordinates**: the frame decides which pixels are drawn.
    pub fn line(&mut self, x0: Scalar, y0: Scalar, x1: Scalar, y1: Scalar)
        ensures
            final(self).dots() == old(self).dots().union(
                stroke(old(self).frame(), x0 as int, y0 as int, x1 as int, y1 as int),
            ),
            final(self).frame() == old(self).frame(),
    {
        proof {
            use_type_invariant(&*self);
        }
        let from: (u32, u32) = self.project_on_canvas(x0, y0);
        let to: (u32, u32) = self.project_on_canvas(x1, y1);
        proof {
            lemma_stroke_lies_on_the_grid(*self.frame, x0 as int, y0 as int, x1 as int, y1 as int);
        }
        canvas_line(&mut self.canvas, from.0, from.1, to.0, to.1);
    }

    /// Draw a point at (`x`, `y`).
    ///
    /// The coordinates are of the plotting space, and **not the actual
    /// pixel's coordinates**: the frame decides which pixel is drawn.
    pub fn point(&mut self, x: Scalar, y: Scalar)
        ensures
            final(self).dots() == old(self).dots().insert(
                project(old(self).frame(), x as int, y as int),
            ),
            final(self).frame() == old(self).frame(),
    {
        proof {
            use_type_invariant(&*self);
        }
        let at: (u32, u32) = self.project_on_canvas(x, y);
        canvas_set(&mut self.canvas, at.0, at.1);
    }
}

} // verus!
