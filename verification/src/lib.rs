//! Plots for the terminal: functions, bars and histograms drawn with braille
//! dots, framed with tick labels, a title and axis captions.
//!
//! A [`Plot`] holds a view and what is written around it. The view has a
//! domain, a codomain and a size in pixels, and any number of components that
//! can draw themselves ([`DrawView`]): the ones of [`plot`], or others.
//! [`Plot::render`] draws the axes and the components on a fresh canvas and
//! gives the text.
//!
//! All numbers of plotting space are exact: a [`Scalar`] counts thousandths,
//! and `1.0` is written [`UNIT`]. So the same plot always gives the same
//! text, and what the text holds is stated for every plot, up to the braille
//! patterns themselves, which are the canvas's.

use vstd::prelude::*;
use vstd::view::View as _;

pub mod canvas;
pub mod domain;
pub mod error;
pub mod number;
pub mod plot;
pub mod text;
pub mod ticks;

use canvas::{braille_rows, cells, stroke, text_columns, text_lines, valid_size};
use text::{centered, fill, join, joined, lines, push_centered, push_fill};
use ticks::{column_of, decorate, labels_fit, lemma_decorated_rows_are_uniform, with_labels};

pub use canvas::ViewCanvas;
pub use domain::{Domain, DomainIterator};
pub use error::InvalidArgument;
pub use number::{Scalar, UNIT};

verus! {

/// A size in pixels. One character of the terminal is two pixels wide and
/// four pixels high.
#[derive(Clone, Copy, Debug, PartialEq, Eq, Structural)]
pub struct Size {
    /// The width.
    pub w: usize,
    /// The height.
    pub h: usize,
}

impl Size {
    /// A size `w` pixels wide and `h` pixels high.
    pub fn new(w: usize, h: usize) -> (size: Self)
        ensures
            size.w == w,
            size.h == h,
    {
        Self { w, h }
    }
}

impl Default for Size {
    /// A hundred pixels each way.
    fn default() -> (size: Self)
        ensures
            size.w == 100,
            size.h == 100,
    {
        Self { w: 100, h: 100 }
    }
}

/// What a component sees of the view that it is drawn on: the domain, the
/// codomain and the size in pixels.
pub struct Frame {
    /// Domain (range of the x axis) of the plot or graph.
    pub domain: Domain,
    /// Codomain (range of the y axis) of the plot or graph.
    pub codomain: Domain,
    /// The size of the view, in pixels. This does not include decorations
    /// around the plot.
    pub size: Size,
}

/// A drawable component on the view.
pub trait DrawView {
    /// The pixels that the component draws on a canvas made for `frame`.
    spec fn ink(&self, frame: &Frame) -> Set<(int, int)>;

    /// Draw the component on the given canvas.
    ///
    /// Simply draw on the given canvas lines and/or points. See
    /// [`ViewCanvas`] for more information.
    ///
    /// `frame` is provided only to give context if needed. It gives access to
    /// the domain, codomain and size of the view that the canvas was made for.
    fn draw(&self, frame: &Frame, canvas: &mut ViewCanvas)
        requires
            old(canvas).frame() == *frame,
        ensures
            final(canvas).dots() == old(canvas).dots().union(self.ink(frame)),
            final(canvas).frame() == old(canvas).frame(),
    ;
}

/// The pixels of the two axes: the x axis, a line along the whole domain at
/// the height zero, and the y axis, a line along the whole codomain at the
/// place zero. Where zero lies off the frame, the axis lies on the edge of the
/// grid.
pub open spec fn axis_ink(frame: Frame) -> Set<(int, int)> {
    stroke(frame, frame.domain.0.start as int, 0, frame.domain.0.end as int, 0).union(
        stroke(frame, 0, frame.codomain.0.start as int, 0, frame.codomain.0.end as int),
    )
}

/// What a drawable component draws, frame by frame: its pixels on a canvas
/// made for the frame.
pub type Ink = spec_fn(Frame) -> Set<(int, int)>;

/// The pixels of some plots together.
pub open spec fn plots_ink(frame: Frame, plots: Seq<Ink>) -> Set<(int, int)>
    decreases plots.len(),
{
    if plots.len() == 0 {
        Set::<(int, int)>::empty()
    } else {
        plots_ink(frame, plots.drop_last()).union(plots.last()(frame))
    }
}

/// The rows of text of a view: the braille rows of the axes and the plots,
/// with the tick labels around them where decoration is asked for. A view with
/// an empty side has none, nor has one with a side too long, nor a decorated
/// one whose rows are too narrow for the labels of its domain.
pub open spec fn drawn(frame: Frame, plots: Seq<Ink>, with_decoration: bool) -> Result<
    Seq<Seq<char>>,
    InvalidArgument,
> {
    let raw = braille_rows(cells(frame.size), axis_ink(frame).union(plots_ink(frame, plots)));
    if frame.size.w == 0 || frame.size.h == 0 {
        Err(InvalidArgument::EmptyGrid)
    } else if !valid_size(frame.size) {
        Err(InvalidArgument::GridTooLarge)
    } else if !with_decoration {
        Ok(raw)
    } else if !labels_fit(frame.domain, text_columns(frame.size)) {
        Err(InvalidArgument::LabelsTooWide)
    } else {
        Ok(with_labels(raw, frame.domain, frame.codomain))
    }
}

/// Whether `rows` have the shape of the rows of a view: one row for every
/// four pixel rows and one more, each with a character for every two pixel
/// columns and one more; with decoration a row more for the labels of the
/// domain, and before each row the column of the labels of the codomain.
pub open spec fn has_shape(rows: Seq<Seq<char>>, frame: Frame, with_decoration: bool) -> bool {
    if with_decoration {
        &&& rows.len() == text_lines(frame.size) + 1
        &&& forall|i: int|
            0 <= i < rows.len() ==> (#[trigger] rows[i]).len() == column_of(frame.codomain)
                + text_columns(frame.size)
    } else {
        &&& rows.len() == text_lines(frame.size)
        &&& forall|i: int|
            0 <= i < rows.len() ==> (#[trigger] rows[i]).len() == text_columns(frame.size)
    }
}

/// A `View` is where the graph and plots are drawn. The view does not
/// includes decorations around the plot (labels, title, border, etc..).
pub struct View {
    frame: Frame,
    plots: Vec<Layer<Box<dyn DrawView>>>,
}

/// One plot of a view, kept as it was handed in.
struct Layer<P> {
    plot: P,
}

impl Default for View {
    /// A view of a hundred pixels each way onto the default domain and
    /// codomain, with no plot.
    fn default() -> (view: Self)
        ensures
            view.frame() == default_frame(),
            view.plots() == Seq::<Ink>::empty(),
    {
        let view = Self {
            frame: Frame {
                domain: Domain::default(),
                codomain: Domain::default(),
                size: Size::default(),
            },
            plots: Vec::new(),
        };
        assert(view.plots() =~= Seq::<Ink>::empty());
        view
    }
}

/// The frame of a view as it is first made.
pub open spec fn default_frame() -> Frame {
    let bounds = std::ops::Range { start: (-10 * UNIT) as Scalar, end: (10 * UNIT) as Scalar };
    Frame { domain: Domain(bounds), codomain: Domain(bounds), size: Size { w: 100, h: 100 } }
}

impl View {
    /// The domain, the codomain and the size of the view.
    pub closed spec fn frame(&self) -> Frame {
        self.frame
    }

    /// What the plots of the view draw, in the order in which they were
    /// added.
    pub closed spec fn plots(&self) -> Seq<Ink> {
        Seq::new(self.plots@.len(), |i: int| |frame: Frame| self.plots@[i].plot.ink(&frame))
    }

    /// The domain, the codomain and the size of the view.
    pub fn context(&self) -> (frame: &Frame)
        ensures
            *frame == self.frame(),
    {
        &self.frame
    }

    /// Draw x and y axis onto the view.
    fn draw_axis(&self, canvas: &mut ViewCanvas)
        requires
            old(canvas).frame() == self.frame(),
        ensures
            final(canvas).dots() == old(canvas).dots().union(axis_ink(self.frame())),
            final(canvas).frame() == old(canvas).frame(),
    {
        canvas.line(self.frame.domain.min(), 0, self.frame.domain.max(), 0);
        canvas.line(0, self.frame.codomain.min(), 0, self.frame.codomain.max());
    }

    /// Draw the plots and graphs that were added.
    fn draw_plots(&self, canvas: &mut ViewCanvas)
        requires
            old(canvas).frame() == self.frame(),
        ensures
            final(canvas).dots() == old(canvas).dots().union(
                plots_ink(self.frame(), self.plots()),
            ),
            final(canvas).frame() == old(canvas).frame(),
    {
        let mut index: usize = 0;
        assert(self.plots().take(0) =~= Seq::<Ink>::empty());
        while index < self.plots.len()
            invariant
                index <= self.plots.len(),
                canvas.frame() == self.frame,
                canvas.dots() == old(canvas).dots().union(
                    plots_ink(self.frame, self.plots().take(index as int)),
                ),
            decreases self.plots.len() - index,
        {
            self.plots[index].plot.draw(&self.frame, canvas);
            proof {
                let now = self.plots().take(index + 1);
                assert(now.drop_last() =~= self.plots().take(index as int));
                assert(now.last() == self.plots()[index as int]);
                assert(canvas.dots() =~= old(canvas).dots().union(plots_ink(self.frame, now)));
            }
            index += 1;
        }
        assert(self.plots().take(self.plots.len() as int) =~= self.plots());
    }

    /// Return the plot with labels as a vector of strings.
    ///
    /// This function creates a [`ViewCanvas`] and draws elements (the axes,
    /// then the plots in the order in which they were added) onto the canvas.
    /// Where decoration is asked for, it also puts the tick labels of the axes
    /// around the rows.
    ///
    /// A view of no size or of too large a size is refused, and so is a
    /// decorated one too narrow for the tick labels below it. Every other view
    /// is drawn, and its rows have the shape that its size gives them.
    pub fn drawing(&self, with_decoration: bool) -> (result: Result<Vec<String>, InvalidArgument>)
        ensures
            match result {
                Ok(rows) => {
                    &&& drawn(self.frame(), self.plots(), with_decoration) == Ok::<
                        Seq<Seq<char>>,
                        InvalidArgument,
                    >(rows.deep_view())
                    &&& has_shape(rows.deep_view(), self.frame(), with_decoration)
                },
                Err(e) => drawn(self.frame(), self.plots(), with_decoration) == Err::<
                    Seq<Seq<char>>,
                    InvalidArgument,
                >(e),
            },
    {
        let mut canvas = match ViewCanvas::new(&self.frame) {
            Ok(canvas) => canvas,
            Err(e) => {
                return Err(e);
            },
        };
        self.draw_axis(&mut canvas);
        self.draw_plots(&mut canvas);
        let rows = canvas.rows();
        assert(canvas.dots() =~= axis_ink(self.frame).union(plots_ink(self.frame, self.plots())));
        assert forall|i: int| 0 <= i < rows.len() implies (#[trigger] rows.deep_view()[i]).len()
            == text_columns(self.frame.size) by {
            assert(rows.deep_view()[i] == rows[i]@);
        }
        if !with_decoration {
            return Ok(rows);
        }
        let result = decorate(&rows, &self.frame.domain, &self.frame.codomain);
        proof {
            if result is Ok {
                lemma_decorated_rows_are_uniform(
                    rows.deep_view(),
                    self.frame.domain,
                    self.frame.codomain,
                );
            }
        }
        result
    }
}

/// The top border of a plot `width` wide: a corner, the title in the middle
/// of a run of dashes, a corner, and a line feed.
pub open spec fn top_border(title: Seq<char>, width: int) -> Seq<char> {
    seq!['╭'] + centered(title, width, '─') + seq!['╮', '\n']
}

/// Every row between two side borders.
pub open spec fn bordered(rows: Seq<Seq<char>>) -> Seq<Seq<char>> {
    Seq::new(rows.len(), |i: int| seq!['│'] + rows[i] + seq!['│'])
}

/// The bottom border of a plot `width` wide: a corner, a run of dashes, a
/// corner, and a line feed.
pub open spec fn bottom_border(width: int) -> Seq<char> {
    seq!['╰'] + fill('─', width) + seq!['╯', '\n']
}

/// A caption under a plot `width` wide: the label in the middle of a line
/// that begins and ends with one blank more, and a line feed.
pub open spec fn caption(label: Seq<char>, width: int) -> Seq<char> {
    seq![' '] + centered(label, width, ' ') + seq![' ', '\n']
}

/// A plot as text between borders: the top border with the title, each row
/// between side borders, the bottom border, and below it the two captions.
/// The borders are as wide as the first row.
pub open spec fn framed(
    rows: Seq<Seq<char>>,
    title: Seq<char>,
    x_label: Seq<char>,
    y_label: Seq<char>,
) -> Seq<char> {
    let width: int = if rows.len() > 0 { rows[0].len() as int } else { 0 };
    top_border(title, width) + lines(bordered(rows)) + bottom_border(width) + caption(
        x_label,
        width,
    ) + caption(y_label, width)
}

/// The top border holds the title whole, between its two corners.
pub proof fn lemma_title_stands_in_top_border(title: Seq<char>, width: int)
    ensures
        ({
            let free: int = if width > title.len() { width - title.len() } else { 0 };
            let border = top_border(title, width);
            &&& border.len() == 3 + free + title.len()
            &&& border[0] == '╭'
            &&& border.subrange(1 + free / 2, 1 + free / 2 + title.len()) == title
            &&& border[1 + free + title.len()] == '╮'
        }),
{
    let free: int = if width > title.len() { width - title.len() } else { 0 };
    let border = top_border(title, width);
    assert(border.subrange(1 + free / 2, 1 + free / 2 + title.len()) =~= title);
}

/// Between the borders all lines are equally wide where the rows are: each
/// is a row and its two side borders, as wide as the bottom border and, where
/// the title fits, as the top border.
pub proof fn lemma_bordered_rows_are_uniform(rows: Seq<Seq<char>>, title: Seq<char>)
    requires
        rows.len() > 0,
        forall|i: int| 0 <= i < rows.len() ==> (#[trigger] rows[i]).len() == rows[0].len(),
    ensures
        bordered(rows).len() == rows.len(),
        forall|i: int|
            0 <= i < rows.len() ==> (#[trigger] bordered(rows)[i]).len() == rows[0].len() + 2,
        bottom_border(rows[0].len() as int).len() == rows[0].len() + 3,
        title.len() <= rows[0].len() ==> top_border(title, rows[0].len() as int).len()
            == rows[0].len() + 3,
{
}

/// The framed text begins with the top border.
pub proof fn lemma_framed_begins_with_top_border(
    rows: Seq<Seq<char>>,
    title: Seq<char>,
    x_label: Seq<char>,
    y_label: Seq<char>,
)
    ensures
        ({
            let width: int = if rows.len() > 0 { rows[0].len() as int } else { 0 };
            let border = top_border(title, width);
            let text = framed(rows, title, x_label, y_label);
            border.len() <= text.len() && text.subrange(0, border.len() as int) == border
        }),
{
    let width: int = if rows.len() > 0 { rows[0].len() as int } else { 0 };
    let border = top_border(title, width);
    let rest = lines(bordered(rows)) + bottom_border(width) + caption(x_label, width) + caption(
        y_label,
        width,
    );
    assert(framed(rows, title, x_label, y_label) =~= border + rest);
    assert((border + rest).subrange(0, border.len() as int) =~= border);
}

fn push_top_border(text: &mut String, title: &str, width: usize)
    ensures
        final(text)@ == old(text)@ + top_border(title@, width as int),
{
    proof {
        reveal_strlit("╭");
        reveal_strlit("╮\n");
        reveal_strlit("─");
    }
    text.append("╭");
    push_centered(text, title, width, "─");
    text.append("╮\n");
    assert(text@ =~= old(text)@ + top_border(title@, width as int));
}

fn push_bordered_rows(text: &mut String, rows: &Vec<String>)
    ensures
        final(text)@ == old(text)@ + lines(bordered(rows.deep_view())),
{
    let ghost all = bordered(rows.deep_view());
    let mut index: usize = 0;
    assert(all.take(0) =~= Seq::<Seq<char>>::empty());
    while index < rows.len()
        invariant
            index <= rows.len(),
            all == bordered(rows.deep_view()),
            text@ == old(text)@ + lines(all.take(index as int)),
        decreases rows.len() - index,
    {
        proof {
            reveal_strlit("│");
            reveal_strlit("│\n");
        }
        let ghost before = text@;
        text.append("│");
        text.append(rows[index].as_str());
        text.append("│\n");
        proof {
            let now = all.take(index + 1);
            assert(now.drop_last() =~= all.take(index as int));
            assert(now.last() == seq!['│'] + rows[index as int]@ + seq!['│']);
            assert(text@ =~= before + (now.last() + seq!['\n']));
            assert(lines(now) == lines(now.drop_last()) + now.last() + seq!['\n']);
            assert(text@ =~= old(text)@ + lines(now));
        }
        index += 1;
    }
    assert(all.take(rows.len() as int) =~= all);
}

fn push_bottom_border(text: &mut String, width: usize)
    ensures
        final(text)@ == old(text)@ + bottom_border(width as int),
{
    proof {
        reveal_strlit("╰");
        reveal_strlit("╯\n");
        reveal_strlit("─");
    }
    text.append("╰");
    push_fill(text, "─", width);
    text.append("╯\n");
    assert(text@ =~= old(text)@ + bottom_border(width as int));
}

fn push_caption(text: &mut String, label: &str, width: usize)
    ensures
        final(text)@ == old(text)@ + caption(label@, width as int),
{
    proof {
        reveal_strlit(" ");
        reveal_strlit(" \n");
    }
    text.append(" ");
    push_centered(text, label, width, " ");
    text.append(" \n");
    assert(text@ =~= old(text)@ + caption(label@, width as int));
}

/// Puts `rows` between borders, with a title above and two captions below.
pub fn frame_rows(rows: &Vec<String>, title: &str, x_label: &str, y_label: &str) -> (text: String)
    ensures
        text@ == framed(rows.deep_view(), title@, x_label@, y_label@),
{
    let width: usize = if rows.len() > 0 {
        rows[0].as_str().unicode_len()
    } else {
        0
    };
    let mut text = String::new();
    push_top_border(&mut text, title, width);
    push_bordered_rows(&mut text, rows);
    push_bottom_border(&mut text, width);
    push_caption(&mut text, x_label, width);
    push_caption(&mut text, y_label, width);
    assert(text@ =~= framed(rows.deep_view(), title@, x_label@, y_label@));
    text
}

/// What a plot is made of.
pub struct PlotModel {
    /// The title, which stands in the top border.
    pub title: Seq<char>,
    /// The caption of the x axis.
    pub x_label: Seq<char>,
    /// The caption of the y axis.
    pub y_label: Seq<char>,
    /// The domain, the codomain and the size of the view.
    pub frame: Frame,
    /// What the plots draw, in the order in which they were added.
    pub plots: Seq<Ink>,
    /// Whether the plot gets tick labels, borders, a title and captions.
    pub with_decoration: bool,
}

/// The text of a plot. With decoration it is the decorated rows of the view
/// between borders; without, the bare rows of the view, one to a line.
pub open spec fn rendered(plot: PlotModel) -> Result<Seq<char>, InvalidArgument> {
    match drawn(plot.frame, plot.plots, plot.with_decoration) {
        Ok(rows) => if plot.with_decoration {
            Ok(framed(rows, plot.title, plot.x_label, plot.y_label))
        } else {
            Ok(joined(rows))
        },
        Err(e) => Err(e),
    }
}

/// Whether `result` is what rendering `plot` gives.
pub open spec fn renders_to(plot: PlotModel, result: Result<String, InvalidArgument>) -> bool {
    match result {
        Ok(text) => rendered(plot) == Ok::<Seq<char>, InvalidArgument>(text@),
        Err(e) => rendered(plot) == Err::<Seq<char>, InvalidArgument>(e),
    }
}

/// Rendering a plot that was not changed in between gives the same outcome
/// each time: the same text, character for character, or the same refusal.
pub proof fn lemma_rendering_is_repeatable(
    plot: PlotModel,
    first: Result<String, InvalidArgument>,
    second: Result<String, InvalidArgument>,
)
    requires
        renders_to(plot, first),
        renders_to(plot, second),
    ensures
        first is Ok <==> second is Ok,
        first is Ok ==> first->Ok_0@ == second->Ok_0@,
        first is Err ==> first->Err_0 == second->Err_0,
{
}

/// A container used for adding plots.
pub struct Plot {
    title: String,
    x_label: String,
    y_label: String,
    view: View,
    with_decoration: bool,
}

impl vstd::view::View for Plot {
    type V = PlotModel;

    closed spec fn view(&self) -> PlotModel {
        PlotModel {
            title: self.title@,
            x_label: self.x_label@,
            y_label: self.y_label@,
            frame: self.view.frame,
            plots: self.view.plots(),
            with_decoration: self.with_decoration,
        }
    }
}

impl Default for Plot {
    /// A decorated plot of the default view, without a title or captions.
    fn default() -> (plot: Self)
        ensures
            plot@ == (PlotModel {
                title: Seq::<char>::empty(),
                x_label: Seq::<char>::empty(),
                y_label: Seq::<char>::empty(),
                frame: default_frame(),
                plots: Seq::<Ink>::empty(),
                with_decoration: true,
            }),
    {
        Self {
            title: String::new(),
            x_label: String::new(),
            y_label: String::new(),
            view: View::default(),
            with_decoration: true,
        }
    }
}

impl Plot {
    /// Add a plot or graph to the view.
    ///
    /// Multiple types of plots and graphs are already implemented. See
    /// [`plot`] for all the types of available plots and graphs.
    ///
    /// To create a new type of plot, see [`DrawView`].
    ///
    /// The plot comes last: what the plots before it draw stays as it was.
    pub fn add_plot(&mut self, plot: Box<dyn DrawView>) -> (this: &mut Self)
        ensures
            this@ == (PlotModel {
                plots: old(self)@.plots.push(|frame: Frame| plot.ink(&frame)),
                ..old(self)@
            }),
            this@.plots.len() == old(self)@.plots.len() + 1,
            forall|i: int|
                0 <= i < old(self)@.plots.len() ==> #[trigger] this@.plots[i] == old(
                    self,
                )@.plots[i],
            forall|frame: Frame| #[trigger] this@.plots.last()(frame) == plot.ink(&frame),
            this@.title == old(self)@.title,
            this@.x_label == old(self)@.x_label,
            this@.y_label == old(self)@.y_label,
            this@.frame == old(self)@.frame,
            this@.with_decoration == old(self)@.with_decoration,
            *final(self) == *final(this),
    {
        let ghost added: Ink = |frame: Frame| plot.ink(&frame);
        let layer = Layer { plot };
        let ghost pushed = layer;
        self.view.plots.push(layer);
        proof {
            let before = old(self).view.plots();
            let after = self.view.plots();
            assert(self.view.plots@ == old(self).view.plots@.push(pushed));
            assert forall|i: int| 0 <= i < after.len() implies #[trigger] after[i] == before.push(
                added,
            )[i] by {
                if i < before.len() {
                    assert(self.view.plots@[i] == old(self).view.plots@[i]);
                    assert(after[i] =~~= before[i]);
                } else {
                    assert(self.view.plots@[i] == pushed);
                    assert forall|frame: Frame| #[trigger] after[i](frame) == added(frame) by {
                        assert(after[i](frame) == self.view.plots@[i].plot.ink(&frame));
                    }
                    assert(after[i] =~~= added);
                }
            }
            assert(after =~= before.push(added));
        }
        self
    }

    /// Set the domain (range of the x axis) of the plot.
    ///
    /// By default the domain is from -10 to 10.
    pub fn set_domain(&mut self, domain: Domain) -> (this: &mut Self)
        ensures
            this@ == (PlotModel {
                frame: Frame { domain, ..old(self)@.frame },
                ..old(self)@
            }),
            *final(self) == *final(this),
    {
        self.view.frame.domain = domain;
        self
    }

    /// Set the codomain (range of the y axis) of the plot.
    ///
    /// By default the codomain is from -10 to 10.
    pub fn set_codomain(&mut self, codomain: Domain) -> (this: &mut Self)
        ensures
            this@ == (PlotModel {
                frame: Frame { codomain, ..old(self)@.frame },
                ..old(self)@
            }),
            *final(self) == *final(this),
    {
        self.view.frame.codomain = codomain;
        self
    }

    /// Set the title of the plot.
    pub fn set_title(&mut self, title: &str) -> (this: &mut Self)
        ensures
            this@ == (PlotModel { title: title@, ..old(self)@ }),
            *final(self) == *final(this),
    {
        self.title = title.to_owned();
        self
    }

    /// Set the label of the x axis.
    ///
    /// The label is shown at the bottom of the figure.
    pub fn set_x_label(&mut self, label: &str) -> (this: &mut Self)
        ensures
            this@ == (PlotModel { x_label: label@, ..old(self)@ }),
            *final(self) == *final(this),
    {
        self.x_label = label.to_owned();
        self
    }

    /// Set the label of the y axis.
    ///
    /// The label is shown at the bottom of the figure.
    pub fn set_y_label(&mut self, label: &str) -> (this: &mut Self)
        ensures
            this@ == (PlotModel { y_label: label@, ..old(self)@ }),
            *final(self) == *final(this),
    {
        self.y_label = label.to_owned();
        self
    }

    /// Set the size of the view. This does not include decorations around the
    /// plot.
    ///
    /// The size is not the number of chars but the number of pixels. Pixels
    /// are smaller than chars. A char in the terminal is 2 by 4 pixels.
    pub fn set_size(&mut self, size: Size) -> (this: &mut Self)
        ensures
            this@ == (PlotModel { frame: Frame { size, ..old(self)@.frame }, ..old(self)@ }),
            *final(self) == *final(this),
    {
        self.view.frame.size = size;
        self
    }

    /// Choose whether the plot gets tick labels, borders, a title and
    /// captions. By default it does.
    pub fn set_decoration(&mut self, with_decoration: bool) -> (this: &mut Self)
        ensures
            this@ == (PlotModel { with_decoration, ..old(self)@ }),
            *final(self) == *final(this),
    {
        self.with_decoration = with_decoration;
        self
    }

    /// The plot as text, ready to be printed.
    ///
    /// A plot whose view cannot be drawn is refused, for the reason for which
    /// the view is. The rows of every other plot have the shape that its size
    /// gives them, so all lines between the borders are equally wide.
    pub fn render(&self) -> (result: Result<String, InvalidArgument>)
        ensures
            renders_to(self@, result),
            result is Ok ==> drawn(self@.frame, self@.plots, self@.with_decoration) is Ok
                && has_shape(
                drawn(self@.frame, self@.plots, self@.with_decoration)->Ok_0,
                self@.frame,
                self@.with_decoration,
            ),
    {
        let rows = match self.view.drawing(self.with_decoration) {
            Ok(rows) => rows,
            Err(e) => {
                return Err(e);
            },
        };
        if !self.with_decoration {
            return Ok(join(&rows));
        }
        Ok(frame_rows(&rows, self.title.as_str(), self.x_label.as_str(), self.y_label.as_str()))
    }
}

} // verus!
