//! The frame of a plot: the range of each axis, where the axes are drawn,
//! and how grid offsets become cells.
//!
//! An offset counts cells from the low end of an axis: `across` from the left
//! edge, `up` from the bottom row. The caller computes the offset of a sample
//! `v` on an axis as `extent * ((v - min) / range)`, rounded half away from
//! zero, with `extent`, `min` and `range` taken from [`Frame::x_scale`] or
//! [`Frame::y_scale`].

use crate::bounds::{bounds_of, Bounds};
use crate::canvas::Canvas;
use crate::error::{ConfigError, DrawError};
use crate::sample::{
    above_zero, below_zero, finite, is_above_zero, is_below_zero, is_zero, rank, zero, ONE, ZERO,
};
use vstd::prelude::*;

verus! {

/// The margin that is taken off the width and the height to get the extent
/// that samples are spread over.
pub const PAD: usize = 2;

/// Every how many cells an axis carries a major tick.
pub const TICK: usize = 5;

/// The glyph of a major tick on an axis through zero, and of the cell where
/// the two axes cross: `+`.
pub const CROSS: u8 = 43;

/// The glyph of the vertical axis through zero between major ticks: `|`.
pub const BAR: u8 = 124;

/// The glyph of the horizontal axis through zero between major ticks: `-`.
pub const DASH: u8 = 45;

/// The glyph of a major tick on an axis that stands in for one through
/// zero: `.`.
pub const SPECK: u8 = 46;

/// The glyph of an axis that stands in for one through zero, between major
/// ticks: a space.
pub const GAP: u8 = 32;

/// One axis as the caller measured it: the bounds of its finite samples and
/// the two binary64 sums over them that laying out the axis can need.
#[derive(Clone, Copy, Debug, PartialEq, Eq, Structural)]
pub struct Extent {
    /// The least and the greatest finite sample.
    pub bounds: Bounds,
    /// `bounds.max - bounds.min`.
    pub span: u64,
    /// `bounds.min + 1`.
    pub unit_top: u64,
}

impl Extent {
    /// What holds of every extent that was measured as its fields say: the
    /// bounds are finite and in order, the difference of the greater and the
    /// less is a number not below zero, and one more than a bound above zero
    /// is above zero.
    pub open spec fn sound(self) -> bool {
        &&& finite(self.bounds.min)
        &&& finite(self.bounds.max)
        &&& rank(self.bounds.min) <= rank(self.bounds.max)
        &&& zero(self.span) || above_zero(self.span)
        &&& above_zero(self.bounds.min) ==> above_zero(self.unit_top)
    }
}

/// One axis of a frame.
#[derive(Clone, Copy, Debug, PartialEq, Eq, Structural)]
pub struct Axis {
    /// The sample at offset zero.
    pub min: u64,
    /// The sample at the far end.
    pub max: u64,
    /// The distance from `min` to `max`.
    pub range: u64,
}

/// Where the line of an axis is drawn.
#[derive(Clone, Copy, Debug, PartialEq, Eq, Structural)]
pub struct Anchor {
    /// The sample on the other axis that the line passes through.
    pub at: u64,
    /// The line passes through zero. Otherwise zero is out of range and the
    /// line stands at the bound nearest to it.
    pub zero_line: bool,
}

/// What the caller needs to turn a sample into an offset along one axis.
#[derive(Clone, Copy, Debug, PartialEq, Eq, Structural)]
pub struct Scale {
    /// The number of cells between the two ends of the axis.
    pub extent: usize,
    /// The sample at offset zero.
    pub min: u64,
    /// The range of the axis.
    pub range: u64,
}

impl Axis {
    /// The axis over `extent`: from `min` to `max`, or, where the two
    /// coincide, one unit wide from `min` up.
    pub open spec fn spanning(extent: Extent) -> Axis {
        if zero(extent.span) {
            Axis { min: extent.bounds.min, max: extent.unit_top, range: ONE }
        } else {
            Axis { min: extent.bounds.min, max: extent.bounds.max, range: extent.span }
        }
    }

    /// The axis with its low end moved down to zero where it lies above zero.
    /// The range is then `max` itself; should that be zero, the axis becomes
    /// one unit wide.
    pub open spec fn grounded(self) -> Axis {
        if above_zero(self.min) {
            if zero(self.max) {
                Axis { min: ZERO, max: ONE, range: ONE }
            } else {
                Axis { min: ZERO, max: self.max, range: self.max }
            }
        } else {
            self
        }
    }

    /// Zero lies within the axis.
    pub open spec fn holds_zero(self) -> bool {
        &&& zero(self.min) || below_zero(self.min)
        &&& zero(self.max) || above_zero(self.max)
    }

    /// Where the line across this axis is drawn: through zero where the axis
    /// holds it, else at `min` where the axis lies above zero and at `max`
    /// where it does not.
    pub open spec fn anchor(self) -> Anchor {
        if self.holds_zero() {
            Anchor { at: ZERO, zero_line: true }
        } else if above_zero(self.min) {
            Anchor { at: self.min, zero_line: false }
        } else {
            Anchor { at: self.max, zero_line: false }
        }
    }

    /// The range of an axis is above zero, whatever the samples: where the
    /// bounds coincide the axis is made one unit wide.
    pub proof fn lemma_range_above_zero(extent: Extent)
        requires
            extent.sound(),
        ensures
            above_zero(Axis::spanning(extent).range),
            above_zero(Axis::spanning(extent).grounded().range),
    {
    }

    /// Where every sample is finite and above zero, the grounded axis starts
    /// at zero exactly.
    pub proof fn lemma_grounded_at_zero(values: Seq<u64>, extent: Extent)
        requires
            forall|i: int|
                0 <= i < values.len() ==> finite(#[trigger] values[i]) && above_zero(values[i]),
            bounds_of(values, Some(extent.bounds)),
        ensures
            Axis::spanning(extent).grounded().min == ZERO,
    {
        let at = values.index_of(extent.bounds.min);
        assert(above_zero(values[at]));
    }

    /// Lays out the axis over `extent`.
    pub fn over(extent: Extent) -> (r: Axis)
        ensures
            r == Axis::spanning(extent),
    {
        if is_zero(extent.span) {
            Axis { min: extent.bounds.min, max: extent.unit_top, range: ONE }
        } else {
            Axis { min: extent.bounds.min, max: extent.bounds.max, range: extent.span }
        }
    }

    /// Moves the low end of an axis that lies above zero down to zero.
    pub fn ground(self) -> (r: Axis)
        ensures
            r == self.grounded(),
    {
        if is_above_zero(self.min) {
            if is_zero(self.max) {
                Axis { min: ZERO, max: ONE, range: ONE }
            } else {
                Axis { min: ZERO, max: self.max, range: self.max }
            }
        } else {
            self
        }
    }

    /// Decides where the line across this axis is drawn.
    pub fn place_line(&self) -> (r: Anchor)
        ensures
            r == self.anchor(),
    {
        let low = is_zero(self.min) || is_below_zero(self.min);
        let high = is_zero(self.max) || is_above_zero(self.max);
        if low && high {
            Anchor { at: ZERO, zero_line: true }
        } else if is_above_zero(self.min) {
            Anchor { at: self.min, zero_line: false }
        } else {
            Anchor { at: self.max, zero_line: false }
        }
    }
}

/// The row, counted from the top of a grid of `height` rows, that lies `up`
/// cells above the bottom row; `None` where the grid has no row that high.
pub open spec fn row_above(height: int, up: int) -> Option<int> {
    if 0 <= up < height {
        Some(height - up - 1)
    } else {
        None
    }
}

/// The cell, as (row, column), of the point that lies `across` cells from the
/// left edge and `up` cells above the bottom row of a grid of `height` rows.
pub open spec fn cell_at(height: int, across: int, up: int) -> Option<(int, int)> {
    match row_above(height, up) {
        Some(row) => Some((row, across)),
        None => None,
    }
}

/// Rows are counted against offsets: the low end of the vertical axis lies
/// in the bottom row, its high end one row below the top, and of two offsets
/// the greater lies in the row nearer the top.
pub proof fn lemma_rows_run_downward(height: int, lower: int, higher: int)
    requires
        height > PAD,
        0 <= lower < higher < height,
    ensures
        row_above(height, 0) == Some(height - 1),
        row_above(height, height - PAD) == Some(PAD - 1),
        row_above(height, lower)->0 > row_above(height, higher)->0,
        row_above(height, 0)->0 > row_above(height, height - PAD)->0,
{
}

/// The glyph of a major tick.
pub open spec fn major_tick(zero_line: bool) -> u8 {
    if zero_line {
        CROSS
    } else {
        SPECK
    }
}

/// The glyph of the vertical axis in `row`: a major tick in every fifth row.
pub open spec fn vertical_glyph(row: int, zero_line: bool) -> u8 {
    if row % (TICK as int) == 0 {
        major_tick(zero_line)
    } else if zero_line {
        BAR
    } else {
        GAP
    }
}

/// The glyph of the horizontal axis in `column`: a major tick in every fifth
/// column.
pub open spec fn horizontal_glyph(column: int, zero_line: bool) -> u8 {
    if column % (TICK as int) == 0 {
        major_tick(zero_line)
    } else if zero_line {
        DASH
    } else {
        GAP
    }
}

fn vertical_tick(row: usize, zero_line: bool) -> (r: u8)
    ensures
        r == vertical_glyph(row as int, zero_line),
{
    if row % TICK == 0 {
        if zero_line {
            CROSS
        } else {
            SPECK
        }
    } else if zero_line {
        BAR
    } else {
        GAP
    }
}

fn horizontal_tick(column: usize, zero_line: bool) -> (r: u8)
    ensures
        r == horizontal_glyph(column as int, zero_line),
{
    if column % TICK == 0 {
        if zero_line {
            CROSS
        } else {
            SPECK
        }
    } else if zero_line {
        DASH
    } else {
        GAP
    }
}

/// Where the two axes of a frame run and what they look like.
pub struct Axes {
    /// The width of the frame: the horizontal axis covers columns `0..width`.
    pub width: int,
    /// The height of the frame: the vertical axis covers rows `0..height`.
    pub height: int,
    /// The row of the horizontal axis.
    pub row: int,
    /// The column of the vertical axis.
    pub column: int,
    /// The vertical axis passes through zero.
    pub vertical_zero: bool,
    /// The horizontal axis passes through zero.
    pub horizontal_zero: bool,
}

impl Axes {
    /// The glyph at (`r`, `c`) once the axes are drawn over a cell that held
    /// `before`: a cross where the axes meet, else the horizontal axis, else
    /// the vertical axis, else what was there.
    pub open spec fn glyph(self, r: int, c: int, before: u8) -> u8 {
        if r == self.row && c == self.column {
            CROSS
        } else if r == self.row && 0 <= c < self.width {
            horizontal_glyph(c, self.horizontal_zero)
        } else if c == self.column && 0 <= r < self.height {
            vertical_glyph(r, self.vertical_zero)
        } else {
            before
        }
    }

    /// The grid `before` with the axes drawn over it.
    pub open spec fn drawn_over(self, before: Seq<Seq<u8>>) -> Seq<Seq<u8>> {
        Seq::new(
            before.len(),
            |r: int| Seq::new(before[r].len(), |c: int| self.glyph(r, c, before[r][c])),
        )
    }

    /// The first cell that drawing the axes reaches and a canvas of
    /// `canvas_width` by `canvas_height` cells lacks: the vertical axis is
    /// drawn first, top to bottom, then the horizontal axis, left to right.
    pub open spec fn first_missing(self, canvas_width: int, canvas_height: int) -> Option<
        (int, int),
    > {
        if self.column >= canvas_width {
            Some((0, self.column))
        } else if self.height > canvas_height {
            Some((canvas_height, self.column))
        } else if self.width > canvas_width {
            Some((self.row, canvas_width))
        } else {
            None
        }
    }
}

/// Along a drawn axis every fifth cell holds a major tick and every other
/// cell the glyph between ticks, but for the cell where the axes meet, which
/// holds a cross whatever the axes look like. A cell on neither axis keeps
/// what it held.
pub proof fn lemma_ticks(axes: Axes, before: Seq<Seq<u8>>, r: int, c: int)
    requires
        0 <= r < before.len(),
        0 <= c < before[r].len(),
    ensures
        ({
            let glyph = axes.drawn_over(before)[r][c];
            let on_horizontal = r == axes.row && c < axes.width;
            let on_vertical = c == axes.column && r < axes.height;
            &&& r == axes.row && c == axes.column ==> glyph == CROSS
            &&& on_horizontal && c != axes.column ==> glyph == if c % (TICK as int) == 0 {
                major_tick(axes.horizontal_zero)
            } else if axes.horizontal_zero {
                DASH
            } else {
                GAP
            }
            &&& on_vertical && r != axes.row ==> glyph == if r % (TICK as int) == 0 {
                major_tick(axes.vertical_zero)
            } else if axes.vertical_zero {
                BAR
            } else {
                GAP
            }
            &&& !on_horizontal && !on_vertical && !(r == axes.row && c == axes.column) ==> glyph
                == before[r][c]
        }),
{
}

/// The layout of one plot: the size of the grid and the two axes.
pub struct Frame {
    width: usize,
    height: usize,
    x: Axis,
    y: Axis,
}

impl Frame {
    #[verifier::type_invariant]
    closed spec fn well_formed(&self) -> bool {
        &&& self.width > PAD
        &&& self.height > PAD
        &&& self.width * self.height <= usize::MAX
    }

    /// The number of columns of the grid.
    pub closed spec fn spec_width(&self) -> int {
        self.width as int
    }

    /// The number of rows of the grid.
    pub closed spec fn spec_height(&self) -> int {
        self.height as int
    }

    /// The horizontal axis.
    pub closed spec fn x_axis(&self) -> Axis {
        self.x
    }

    /// The vertical axis.
    pub closed spec fn y_axis(&self) -> Axis {
        self.y
    }

    /// The axes of this frame, with the horizontal axis `up` cells above the
    /// bottom row and the vertical axis `across` cells from the left edge.
    pub open spec fn axes(&self, across: int, up: int) -> Axes {
        Axes {
            width: self.spec_width(),
            height: self.spec_height(),
            row: self.spec_height() - up - 1,
            column: across,
            vertical_zero: self.x_axis().anchor().zero_line,
            horizontal_zero: self.y_axis().anchor().zero_line,
        }
    }

    /// Lays out a frame of `width` by `height` cells over the two measured
    /// axes. The vertical axis is grounded: where all its samples lie above
    /// zero it starts at zero.
    pub fn new_over(width: usize, height: usize, x: Extent, y: Extent) -> (r: Result<
        Frame,
        ConfigError,
    >)
        ensures
            r is Ok <==> width > PAD && height > PAD && width * height <= usize::MAX,
            match r {
                Ok(frame) => {
                    &&& frame.spec_width() == width
                    &&& frame.spec_height() == height
                    &&& frame.x_axis() == Axis::spanning(x)
                    &&& frame.y_axis() == Axis::spanning(y).grounded()
                },
                Err(ConfigError::TooSmall) => width <= PAD || height <= PAD,
                Err(ConfigError::TooLarge) => width > PAD && height > PAD && width * height
                    > usize::MAX,
                Err(_) => false,
            },
    {
        if width <= PAD || height <= PAD {
            return Err(ConfigError::TooSmall);
        }
        if width.checked_mul(height).is_none() {
            return Err(ConfigError::TooLarge);
        }
        Ok(Frame { width, height, x: Axis::over(x), y: Axis::over(y).ground() })
    }

    /// The number of columns of the grid.
    pub fn width(&self) -> (r: usize)
        ensures
            r == self.spec_width(),
            r > PAD,
    {
        proof {
            use_type_invariant(self);
        }
        self.width
    }

    /// The number of rows of the grid.
    pub fn height(&self) -> (r: usize)
        ensures
            r == self.spec_height(),
            r > PAD,
            self.spec_width() * r <= usize::MAX,
    {
        proof {
            use_type_invariant(self);
        }
        self.height
    }

    /// The two ends of the horizontal axis.
    pub fn x_bounds(&self) -> (r: (u64, u64))
        ensures
            r == (self.x_axis().min, self.x_axis().max),
    {
        (self.x.min, self.x.max)
    }

    /// The two ends of the vertical axis.
    pub fn y_bounds(&self) -> (r: (u64, u64))
        ensures
            r == (self.y_axis().min, self.y_axis().max),
    {
        (self.y.min, self.y.max)
    }

    /// The ranges of the horizontal and of the vertical axis.
    pub fn range_xy(&self) -> (r: (u64, u64))
        ensures
            r == (self.x_axis().range, self.y_axis().range),
    {
        (self.x.range, self.y.range)
    }

    /// What turns an x sample into an offset from the left edge.
    pub fn x_scale(&self) -> (r: Scale)
        ensures
            r.extent == self.spec_width() - PAD,
            r.min == self.x_axis().min,
            r.range == self.x_axis().range,
    {
        proof {
            use_type_invariant(self);
        }
        Scale { extent: self.width - PAD, min: self.x.min, range: self.x.range }
    }

    /// What turns a y sample into an offset from the bottom row.
    pub fn y_scale(&self) -> (r: Scale)
        ensures
            r.extent == self.spec_height() - PAD,
            r.min == self.y_axis().min,
            r.range == self.y_axis().range,
    {
        proof {
            use_type_invariant(self);
        }
        Scale { extent: self.height - PAD, min: self.y.min, range: self.y.range }
    }

    /// Where the vertical axis is drawn, as a sample on the horizontal axis.
    pub fn vertical_anchor(&self) -> (r: Anchor)
        ensures
            r == self.x_axis().anchor(),
    {
        self.x.place_line()
    }

    /// Where the horizontal axis is drawn, as a sample on the vertical axis.
    pub fn horizontal_anchor(&self) -> (r: Anchor)
        ensures
            r == self.y_axis().anchor(),
    {
        self.y.place_line()
    }

    /// The row that lies `up` cells above the bottom row: rows are counted
    /// from the top, offsets from the bottom. `None` where the frame has no
    /// row that high.
    pub fn y_to_row(&self, up: usize) -> (r: Option<usize>)
        ensures
            r is Some <==> row_above(self.spec_height(), up as int) is Some,
            r matches Some(row) ==> row_above(self.spec_height(), up as int) == Some(row as int),
    {
        if up < self.height {
            Some(self.height - up - 1)
        } else {
            None
        }
    }

    /// The cell, as (row, column), of the point that lies `across` cells from
    /// the left edge and `up` cells above the bottom row. `None` where the
    /// frame has no row that high. The column is not held against the width:
    /// whoever writes to the cell asks the canvas whether it exists.
    pub fn point_to_cell(&self, across: usize, up: usize) -> (r: Option<(usize, usize)>)
        ensures
            r is Some <==> cell_at(self.spec_height(), across as int, up as int) is Some,
            r matches Some(cell) ==> cell_at(self.spec_height(), across as int, up as int) == Some(
                (cell.0 as int, cell.1 as int),
            ),
    {
        match self.y_to_row(up) {
            Some(row) => Some((row, across)),
            None => None,
        }
    }

    /// Draws the two axes into `canvas`: the horizontal one `up` cells above
    /// the bottom row, the vertical one `across` cells from the left edge.
    ///
    /// An axis through zero is drawn with a cross at every fifth cell and a
    /// bar or dash between; one that stands in for it, with a speck at every
    /// fifth cell and blanks between. Where the axes meet stands a cross.
    /// Where an axis would leave the canvas nothing is drawn, and the error
    /// names the first cell that is missing.
    pub fn draw_into(&self, canvas: &mut Canvas, across: usize, up: usize) -> (r: Result<
        (),
        DrawError,
    >)
        ensures
            final(canvas).spec_width() == old(canvas).spec_width(),
            final(canvas).spec_height() == old(canvas).spec_height(),
            match r {
                Ok(()) => {
                    &&& up < self.spec_height()
                    &&& self.axes(across as int, up as int).first_missing(
                        old(canvas).spec_width(),
                        old(canvas).spec_height(),
                    ) is None
                    &&& final(canvas)@ == self.axes(across as int, up as int).drawn_over(
                        old(canvas)@,
                    )
                },
                Err(DrawError::NoSuchRow { up: reported }) => {
                    &&& up >= self.spec_height()
                    &&& reported == up
                    &&& final(canvas)@ == old(canvas)@
                },
                Err(DrawError::NoSuchCell { row, column }) => {
                    &&& up < self.spec_height()
                    &&& self.axes(across as int, up as int).first_missing(
                        old(canvas).spec_width(),
                        old(canvas).spec_height(),
                    ) == Some((row as int, column as int))
                    &&& final(canvas)@ == old(canvas)@
                },
            },
    {
        proof {
            use_type_invariant(self);
            canvas.lemma_shape();
        }
        let row = match self.y_to_row(up) {
            Some(row) => row,
            None => {
                return Err(DrawError::NoSuchRow { up });
            },
        };
        let column = across;
        // The canvas is held against the axes before anything is drawn, so
        // that an error leaves it untouched.
        if column >= canvas.width() {
            return Err(DrawError::NoSuchCell { row: 0, column });
        }
        if self.height > canvas.height() {
            return Err(DrawError::NoSuchCell { row: canvas.height(), column });
        }
        if self.width > canvas.width() {
            return Err(DrawError::NoSuchCell { row, column: canvas.width() });
        }
        let vertical_zero = self.x.place_line().zero_line;
        let horizontal_zero = self.y.place_line().zero_line;
        let ghost axes = self.axes(across as int, up as int);
        let ghost before = canvas@;
        let ghost wide = canvas.spec_width();
        let ghost high = canvas.spec_height();
        for r in 0..self.height
            invariant
                self.height <= high,
                column < wide,
                canvas.spec_width() == wide,
                canvas.spec_height() == high,
                before.len() == high,
                forall|i: int| 0 <= i < high ==> (#[trigger] before[i]).len() == wide,
                vertical_zero == axes.vertical_zero,
                forall|i: int, j: int|
                    0 <= i < high && 0 <= j < wide ==> #[trigger] canvas@[i][j] == (if j == column
                        && i < r {
                        vertical_glyph(i, vertical_zero)
                    } else {
                        before[i][j]
                    }),
        {
            let glyph = vertical_tick(r, vertical_zero);
            proof {
                canvas.lemma_shape();
            }
            match canvas.cell(r, column) {
                Some(cell) => {
                    *cell = glyph;
                },
                None => {
                    return Err(DrawError::NoSuchCell { row: r, column });
                },
            }
            proof {
                canvas.lemma_shape();
            }
        }
        let ghost middle = canvas@;
        for c in 0..self.width
            invariant
                self.width <= wide,
                row < self.height <= high,
                canvas.spec_width() == wide,
                canvas.spec_height() == high,
                horizontal_zero == axes.horizontal_zero,
                forall|i: int, j: int|
                    0 <= i < high && 0 <= j < wide ==> #[trigger] canvas@[i][j] == (if i == row
                        && j < c {
                        horizontal_glyph(j, horizontal_zero)
                    } else {
                        middle[i][j]
                    }),
        {
            let glyph = horizontal_tick(c, horizontal_zero);
            proof {
                canvas.lemma_shape();
            }
            match canvas.cell(row, c) {
                Some(cell) => {
                    *cell = glyph;
                },
                None => {
                    return Err(DrawError::NoSuchCell { row, column: c });
                },
            }
            proof {
                canvas.lemma_shape();
            }
        }
        proof {
            canvas.lemma_shape();
        }
        match canvas.cell(row, column) {
            Some(cell) => {
                *cell = CROSS;
            },
            None => {
                return Err(DrawError::NoSuchCell { row, column });
            },
        }
        proof {
            canvas.lemma_shape();
            let after = canvas@;
            let wanted = axes.drawn_over(before);
            assert forall|i: int| 0 <= i < high implies #[trigger] after[i] == wanted[i] by {
                assert forall|j: int| 0 <= j < wide implies #[trigger] after[i][j] == wanted[i][j] by {
                    assert(middle[i][j] == (if j == column && i < self.height {
                        vertical_glyph(i, vertical_zero)
                    } else {
                        before[i][j]
                    }));
                }
                assert(after[i] =~= wanted[i]);
            }
            assert(after =~= wanted);
        }
        Ok(())
    }
}

} // verus!
