//! The character grid that a plot is drawn into.

use vstd::prelude::*;

verus! {

/// The glyph of a cell that nothing was drawn into: a space.
pub const BLANK: u8 = 32;

/// How the points of a dataset fill the grid.
#[derive(Clone, Copy, Debug, PartialEq, Eq, Structural)]
pub enum Mode {
    /// A cell shows how many points fell into it.
    Count,
    /// A cell shows whether any point fell into it.
    Dot,
}

/// The rows of a grid that is stored row by row in `cells`.
pub open spec fn grid(cells: Seq<u8>, width: int, height: int) -> Seq<Seq<u8>> {
    Seq::new(height as nat, |r: int| Seq::new(width as nat, |c: int| cells[r * width + c]))
}

/// A grid of `width` by `height` blank cells.
pub open spec fn blank_grid(width: int, height: int) -> Seq<Seq<u8>> {
    Seq::new(height as nat, |r: int| Seq::new(width as nat, |c: int| BLANK))
}

/// A cell of the grid has a place of its own in the row-by-row store.
pub proof fn lemma_cell_index(width: int, height: int, row: int, column: int)
    requires
        0 <= row < height,
        0 <= column < width,
    ensures
        0 <= row * width <= row * width + column < width * height,
{
    assert(row * width + column < width * height) by (nonlinear_arith)
        requires
            0 <= row < height,
            0 <= column < width,
    ;
    assert(0 <= row * width) by (nonlinear_arith)
        requires
            0 <= row,
            0 <= width,
    ;
}

/// Two cells share a place in the store only if they are the same cell.
pub proof fn lemma_cell_index_injective(width: int, r1: int, c1: int, r2: int, c2: int)
    requires
        0 <= c1 < width,
        0 <= c2 < width,
        r1 * width + c1 == r2 * width + c2,
    ensures
        r1 == r2,
        c1 == c2,
{
    assert(r1 == r2) by (nonlinear_arith)
        requires
            0 <= c1 < width,
            0 <= c2 < width,
            r1 * width + c1 == r2 * width + c2,
    ;
}

/// Writing one place of the store changes one cell of the grid.
pub proof fn lemma_grid_update(
    cells: Seq<u8>,
    width: int,
    height: int,
    row: int,
    column: int,
    glyph: u8,
)
    requires
        cells.len() == width * height,
        0 <= row < height,
        0 <= column < width,
    ensures
        grid(cells.update(row * width + column, glyph), width, height) == grid(
            cells,
            width,
            height,
        ).update(row, grid(cells, width, height)[row].update(column, glyph)),
{
    let before = grid(cells, width, height);
    let after = grid(cells.update(row * width + column, glyph), width, height);
    let wanted = before.update(row, before[row].update(column, glyph));
    lemma_cell_index(width, height, row, column);
    assert forall|r: int| 0 <= r < height implies #[trigger] after[r] == wanted[r] by {
        assert forall|c: int| 0 <= c < width implies #[trigger] after[r][c] == wanted[r][c] by {
            lemma_cell_index(width, height, r, c);
            if r * width + c == row * width + column {
                lemma_cell_index_injective(width, r, c, row, column);
            }
        }
        assert(after[r] =~= wanted[r]);
    }
    assert(after =~= wanted);
}

/// A fixed grid of single-byte glyphs. Row 0 is the top line of the plot.
pub struct Canvas {
    width: usize,
    height: usize,
    cells: Vec<u8>,
}

impl View for Canvas {
    type V = Seq<Seq<u8>>;

    /// The grid, row by row.
    closed spec fn view(&self) -> Seq<Seq<u8>> {
        grid(self.cells@, self.width as int, self.height as int)
    }
}

impl Canvas {
    #[verifier::type_invariant]
    closed spec fn well_formed(&self) -> bool {
        &&& self.width * self.height <= usize::MAX
        &&& self.cells@.len() == self.width * self.height
    }

    /// The number of columns.
    pub closed spec fn spec_width(&self) -> int {
        self.width as int
    }

    /// The number of rows.
    pub closed spec fn spec_height(&self) -> int {
        self.height as int
    }

    /// The grid has `spec_height()` rows of `spec_width()` glyphs each.
    pub proof fn lemma_shape(&self)
        ensures
            self@.len() == self.spec_height(),
            forall|r: int| 0 <= r < self.spec_height() ==> (#[trigger] self@[r]).len() == self.spec_width(),
    {
    }

    /// A grid of `width` by `height` blank cells.
    pub fn blank(width: usize, height: usize) -> (canvas: Canvas)
        requires
            width * height <= usize::MAX,
        ensures
            canvas.spec_width() == width,
            canvas.spec_height() == height,
            canvas@ == blank_grid(width as int, height as int),
    {
        let total: usize = width * height;
        let cells: Vec<u8> = vec![BLANK; total];
        proof {
            let rows = grid(cells@, width as int, height as int);
            assert forall|row: int| 0 <= row < height implies #[trigger] rows[row] == Seq::new(
                width as nat,
                |c: int| BLANK,
            ) by {
                assert forall|column: int| 0 <= column < width implies #[trigger] rows[row][column]
                    == BLANK by {
                    lemma_cell_index(width as int, height as int, row, column);
                }
                assert(rows[row] =~= Seq::new(width as nat, |c: int| BLANK));
            }
            assert(rows =~= blank_grid(width as int, height as int));
        }
        Canvas { width, height, cells }
    }

    /// A grid of `width` by `height` blank cells, or `None` where the number of
    /// cells does not fit in `usize`.
    pub fn new(width: usize, height: usize) -> (r: Option<Canvas>)
        ensures
            r is Some <==> width * height <= usize::MAX,
            r matches Some(canvas) ==> {
                &&& canvas.spec_width() == width
                &&& canvas.spec_height() == height
                &&& canvas@ == blank_grid(width as int, height as int)
            },
    {
        match width.checked_mul(height) {
            Some(_) => Some(Canvas::blank(width, height)),
            None => None,
        }
    }

    /// The number of columns.
    pub fn width(&self) -> (r: usize)
        ensures
            r == self.spec_width(),
    {
        self.width
    }

    /// The number of rows.
    pub fn height(&self) -> (r: usize)
        ensures
            r == self.spec_height(),
    {
        self.height
    }

    /// The number of cells.
    pub fn area(&self) -> (r: usize)
        ensures
            r == self.spec_width() * self.spec_height(),
    {
        proof {
            use_type_invariant(self);
        }
        self.width * self.height
    }

    /// The glyph at (`row`, `column`), or `None` where the grid has no such cell.
    pub fn glyph(&self, row: usize, column: usize) -> (r: Option<u8>)
        ensures
            r is Some <==> row < self.spec_height() && column < self.spec_width(),
            r matches Some(glyph) ==> glyph == self@[row as int][column as int],
    {
        proof {
            use_type_invariant(self);
        }
        if row < self.height && column < self.width {
            proof {
                lemma_cell_index(self.width as int, self.height as int, row as int, column as int);
            }
            Some(self.cells[row * self.width + column])
        } else {
            None
        }
    }

    /// The glyphs of one row, left to right, or `None` where the grid has no such row.
    pub fn line(&self, row: usize) -> (r: Option<Vec<u8>>)
        ensures
            r is Some <==> row < self.spec_height(),
            r matches Some(glyphs) ==> glyphs@ == self@[row as int],
    {
        proof {
            use_type_invariant(self);
        }
        if row >= self.height {
            return None;
        }
        let mut glyphs: Vec<u8> = Vec::new();
        for column in 0..self.width
            invariant
                row < self.height,
                self.width * self.height <= usize::MAX,
                self.cells@.len() == self.width * self.height,
                glyphs@ == self@[row as int].take(column as int),
        {
            proof {
                lemma_cell_index(self.width as int, self.height as int, row as int, column as int);
            }
            glyphs.push(self.cells[row * self.width + column]);
            assert(glyphs@ =~= self@[row as int].take(column + 1));
        }
        assert(glyphs@ =~= self@[row as int]);
        Some(glyphs)
    }

    /// A mutable reference to the glyph at (`row`, `column`), or `None` where the
    /// grid has no such cell.
    pub fn cell(&mut self, row: usize, column: usize) -> (r: Option<&mut u8>)
        ensures
            match r {
                Some(glyph) => {
                    &&& row < old(self).spec_height()
                    &&& column < old(self).spec_width()
                    &&& *glyph == old(self)@[row as int][column as int]
                    &&& final(self)@ == old(self)@.update(
                        row as int,
                        old(self)@[row as int].update(column as int, *final(glyph)),
                    )
                    &&& final(self).spec_width() == old(self).spec_width()
                    &&& final(self).spec_height() == old(self).spec_height()
                },
                None => {
                    &&& !(row < old(self).spec_height() && column < old(self).spec_width())
                    &&& *final(self) == *old(self)
                },
            },
    {
        proof {
            use_type_invariant(&*self);
        }
        if row < self.height && column < self.width {
            proof {
                lemma_cell_index(self.width as int, self.height as int, row as int, column as int);
                assert(self.width * self.height == self.cells@.len());
                assert(0 <= row * self.width <= row * self.width + column < self.cells@.len());
                assert forall|g: u8|
                    #[trigger] grid(
                        self.cells@.update(row * self.width + column, g),
                        self.width as int,
                        self.height as int,
                    ) == self@.update(row as int, self@[row as int].update(column as int, g)) by {
                    lemma_grid_update(
                        self.cells@,
                        self.width as int,
                        self.height as int,
                        row as int,
                        column as int,
                        g,
                    );
                }
            }
            let index: usize = row * self.width + column;
            Some(&mut self.cells[index])
        } else {
            None
        }
    }
}

} // verus!
