//! Filling the grid with the points of a dataset, after the axes are drawn.
//!
//! A point is given by its two grid offsets, `(across, up)`. In dot mode a
//! cell that any point falls into shows one mark, however many points fall
//! into it. In count mode the points of each cell are counted first, and the
//! count then picks the glyph from a scale of shades.

use crate::canvas::{blank_grid, lemma_cell_index, lemma_cell_index_injective, Canvas, Mode};
use crate::error::DrawError;
use crate::frame::{cell_at, Frame};
use vstd::prelude::*;

verus! {

/// The glyph of a cell that holds a point, in dot mode: `*`.
pub const MARK: u8 = 42;

/// One level of a scale of shades: cells with at least `from` points show
/// `glyph`, unless a later level claims them.
#[derive(Clone, Copy, Debug, PartialEq, Eq, Structural)]
pub struct Shade {
    /// The least count of this level.
    pub from: usize,
    /// The glyph of this level.
    pub glyph: u8,
}

/// The levels start at one point and rise strictly.
pub open spec fn graded(levels: Seq<Shade>) -> bool {
    &&& levels.len() >= 1
    &&& levels[0].from == 1
    &&& forall|i: int| 0 <= i < levels.len() - 1 ==> (#[trigger] levels[i]).from < levels[i + 1].from
}

/// The index of the last level that starts at or below `count`; the first
/// level where none does.
pub open spec fn level_of(levels: Seq<Shade>, count: int) -> int
    decreases levels.len(),
{
    if levels.len() <= 1 {
        0
    } else if levels.last().from <= count {
        levels.len() - 1
    } else {
        level_of(levels.drop_last(), count)
    }
}

/// The level of a count is a level of the scale.
pub proof fn lemma_level_in_range(levels: Seq<Shade>, count: int)
    requires
        levels.len() >= 1,
    ensures
        0 <= level_of(levels, count) < levels.len(),
    decreases levels.len(),
{
    if levels.len() > 1 && levels.last().from > count {
        lemma_level_in_range(levels.drop_last(), count);
    }
}

/// On a graded scale the level of a count is the one level whose range the
/// count lies in.
pub proof fn lemma_level_brackets(levels: Seq<Shade>, count: int)
    requires
        graded(levels),
        count >= 1,
    ensures
        levels[level_of(levels, count)].from <= count,
        level_of(levels, count) + 1 < levels.len() ==> count < levels[level_of(levels, count)
            + 1].from,
    decreases levels.len(),
{
    if levels.len() > 1 && levels.last().from > count {
        let shorter = levels.drop_last();
        assert forall|i: int| 0 <= i < shorter.len() - 1 implies (#[trigger] shorter[i]).from
            < shorter[i + 1].from by {
            assert(levels[i].from < levels[i + 1].from);
        }
        lemma_level_brackets(shorter, count);
        lemma_level_in_range(shorter, count);
    }
}

/// A cell with more points never gets an earlier level than a cell with
/// fewer: the glyph of a count of twice another is of the same level or of a
/// later one.
pub proof fn lemma_denser_never_lighter(levels: Seq<Shade>, fewer: int, more: int)
    requires
        levels.len() >= 1,
        fewer <= more,
    ensures
        level_of(levels, fewer) <= level_of(levels, more),
    decreases levels.len(),
{
    if levels.len() > 1 {
        if levels.last().from <= more {
            lemma_level_in_range(levels, fewer);
        } else {
            lemma_denser_never_lighter(levels.drop_last(), fewer, more);
        }
    }
}

/// A scale of shades: a graded table from counts to glyphs.
pub struct Shades {
    levels: Vec<Shade>,
}

impl View for Shades {
    type V = Seq<Shade>;

    /// The levels, lightest first.
    closed spec fn view(&self) -> Seq<Shade> {
        self.levels@
    }
}

impl Shades {
    #[verifier::type_invariant]
    closed spec fn well_formed(&self) -> bool {
        graded(self.levels@)
    }

    /// The scale with the given levels, or `None` where they are not graded:
    /// the first level must start at one point and each later level above
    /// the one before it.
    pub fn new(levels: Vec<Shade>) -> (r: Option<Shades>)
        ensures
            r is Some <==> graded(levels@),
            r matches Some(shades) ==> shades@ == levels@,
    {
        if levels.len() == 0 || levels[0].from != 1 {
            return None;
        }
        for i in 1..levels.len()
            invariant
                levels.len() >= 1,
                levels@[0].from == 1,
                forall|k: int| 0 <= k < i - 1 ==> (#[trigger] levels@[k]).from < levels@[k + 1].from,
        {
            if levels[i - 1].from >= levels[i].from {
                return None;
            }
        }
        Some(Shades { levels })
    }

    /// The scale that is used where none is given: `.` for a single point,
    /// then `:` from 2 points on, `o` from 4, `O` from 8 and `@` from 16.
    pub fn standard() -> (r: Shades)
        ensures
            r@ == seq![
                Shade { from: 1, glyph: 46 },
                Shade { from: 2, glyph: 58 },
                Shade { from: 4, glyph: 111 },
                Shade { from: 8, glyph: 79 },
                Shade { from: 16, glyph: 64 },
            ],
    {
        let levels = vec![
            Shade { from: 1, glyph: 46 },
            Shade { from: 2, glyph: 58 },
            Shade { from: 4, glyph: 111 },
            Shade { from: 8, glyph: 79 },
            Shade { from: 16, glyph: 64 },
        ];
        Shades { levels }
    }

    /// The index of the level that a cell with `count` points falls into:
    /// the level that starts at or below `count` while the next one, if there
    /// is one, starts above it. A count of zero falls into the first level.
    pub fn level(&self, count: usize) -> (r: usize)
        ensures
            r == level_of(self@, count as int),
            r < self@.len(),
            count >= 1 ==> self@[r as int].from <= count,
            count >= 1 && r + 1 < self@.len() ==> count < self@[r + 1].from,
    {
        proof {
            use_type_invariant(self);
            if count >= 1 {
                lemma_level_brackets(self.levels@, count as int);
            }
        }
        let mut i: usize = self.levels.len() - 1;
        assert(self.levels@.take(i + 1) =~= self.levels@);
        while i > 0 && self.levels[i].from > count
            invariant
                i < self.levels@.len(),
                level_of(self.levels@, count as int) == level_of(
                    self.levels@.take(i + 1),
                    count as int,
                ),
            decreases i,
        {
            assert(self.levels@.take(i + 1).drop_last() =~= self.levels@.take(i as int));
            i -= 1;
        }
        proof {
            let upto = self.levels@.take(i + 1);
            assert(upto.last() == self.levels@[i as int]);
        }
        i
    }

    /// The glyph of a cell with `count` points.
    pub fn glyph_for(&self, count: usize) -> (r: u8)
        ensures
            r == self@[level_of(self@, count as int)].glyph,
    {
        let i = self.level(count);
        self.levels[i].glyph
    }
}

/// The point with offsets `point` falls into the cell at (`row`, `column`) of
/// a frame of the given height.
pub open spec fn lands(height: int, point: (usize, usize), row: int, column: int) -> bool {
    cell_at(height, point.0 as int, point.1 as int) == Some((row, column))
}

/// How many of `points` fall into the cell at (`row`, `column`).
pub open spec fn hits(height: int, points: Seq<(usize, usize)>, row: int, column: int) -> nat {
    points.filter(|point: (usize, usize)| lands(height, point, row, column)).len()
}

/// The grid `before` with `points` plotted over it in dot mode.
pub open spec fn dotted(before: Seq<Seq<u8>>, height: int, points: Seq<(usize, usize)>) -> Seq<
    Seq<u8>,
> {
    Seq::new(
        before.len(),
        |r: int|
            Seq::new(
                before[r].len(),
                |c: int|
                    if hits(height, points, r, c) > 0 {
                        MARK
                    } else {
                        before[r][c]
                    },
            ),
    )
}

/// The grid `before` with `points` plotted over it in count mode.
pub open spec fn shaded(
    before: Seq<Seq<u8>>,
    height: int,
    points: Seq<(usize, usize)>,
    levels: Seq<Shade>,
) -> Seq<Seq<u8>> {
    Seq::new(
        before.len(),
        |r: int|
            Seq::new(
                before[r].len(),
                |c: int|
                    if hits(height, points, r, c) > 0 {
                        levels[level_of(levels, hits(height, points, r, c) as int)].glyph
                    } else {
                        before[r][c]
                    },
            ),
    )
}

/// The grid `before` with `points` plotted over it in the given mode.
pub open spec fn plotted(
    before: Seq<Seq<u8>>,
    height: int,
    points: Seq<(usize, usize)>,
    mode: Mode,
    levels: Seq<Shade>,
) -> Seq<Seq<u8>> {
    match mode {
        Mode::Dot => dotted(before, height, points),
        Mode::Count => shaded(before, height, points, levels),
    }
}

/// One more point adds one hit to the cell it falls into and none elsewhere.
pub proof fn lemma_hits_push(
    height: int,
    points: Seq<(usize, usize)>,
    point: (usize, usize),
    row: int,
    column: int,
)
    ensures
        hits(height, points.push(point), row, column) == hits(height, points, row, column) + (if lands(
            height,
            point,
            row,
            column,
        ) {
            1int
        } else {
            0int
        }),
        hits(height, points, row, column) <= points.len(),
{
    let falls = |p: (usize, usize)| lands(height, p, row, column);
    points.lemma_filter_len_push(falls, point);
    points.lemma_filter_len(falls);
}

/// In dot mode a second point in a cell changes nothing: two points that
/// fall into the same cell leave the grid as one of them does.
pub proof fn lemma_dot_idempotent(
    before: Seq<Seq<u8>>,
    height: int,
    points: Seq<(usize, usize)>,
    first: (usize, usize),
    second: (usize, usize),
)
    requires
        cell_at(height, first.0 as int, first.1 as int) == cell_at(
            height,
            second.0 as int,
            second.1 as int,
        ),
    ensures
        dotted(before, height, points.push(first).push(second)) == dotted(
            before,
            height,
            points.push(first),
        ),
{
    let once = dotted(before, height, points.push(first));
    let twice = dotted(before, height, points.push(first).push(second));
    assert forall|r: int| 0 <= r < before.len() implies #[trigger] once[r] == twice[r] by {
        assert forall|c: int| 0 <= c < before[r].len() implies #[trigger] once[r][c]
            == twice[r][c] by {
            lemma_hits_push(height, points, first, r, c);
            lemma_hits_push(height, points.push(first), second, r, c);
        }
        assert(once[r] =~= twice[r]);
    }
    assert(once =~= twice);
}

/// Plots `points` into `canvas` in dot mode: every cell that a point falls
/// into is set to the mark, whatever it held.
pub fn plot_dots(frame: &Frame, canvas: &mut Canvas, points: &Vec<(usize, usize)>)
    ensures
        final(canvas).spec_width() == old(canvas).spec_width(),
        final(canvas).spec_height() == old(canvas).spec_height(),
        final(canvas)@ == dotted(old(canvas)@, frame.spec_height(), points@),
{
    let ghost before = canvas@;
    let ghost wide = canvas.spec_width();
    let ghost high = canvas.spec_height();
    let ghost tall = frame.spec_height();
    proof {
        canvas.lemma_shape();
        assert forall|r: int, c: int| 0 <= r < high && 0 <= c < wide implies hits(
            tall,
            points@.take(0),
            r,
            c,
        ) == 0 by {
            assert(points@.take(0) =~= Seq::<(usize, usize)>::empty());
        }
    }
    for i in 0..points.len()
        invariant
            canvas.spec_width() == wide,
            canvas.spec_height() == high,
            tall == frame.spec_height(),
            before.len() == high,
            forall|r: int| 0 <= r < high ==> (#[trigger] before[r]).len() == wide,
            forall|r: int, c: int|
                0 <= r < high && 0 <= c < wide ==> #[trigger] canvas@[r][c] == (if hits(
                    tall,
                    points@.take(i as int),
                    r,
                    c,
                ) > 0 {
                    MARK
                } else {
                    before[r][c]
                }),
    {
        let across: usize = points[i].0;
        let up: usize = points[i].1;
        let ghost earlier = canvas@;
        proof {
            canvas.lemma_shape();
        }
        let ghost point = points@[i as int];
        let ghost sooner = points@.take(i as int);
        proof {
            assert(points@.take(i + 1) =~= sooner.push(point));
            assert forall|r: int, c: int| 0 <= r < high && 0 <= c < wide implies hits(
                tall,
                points@.take(i + 1),
                r,
                c,
            ) == hits(tall, sooner, r, c) + (if lands(tall, point, r, c) {
                1int
            } else {
                0int
            }) by {
                lemma_hits_push(tall, sooner, point, r, c);
            }
        }
        match frame.point_to_cell(across, up) {
            Some((row, column)) => {
                match canvas.cell(row, column) {
                    Some(cell) => {
                        *cell = MARK;
                    },
                    None => {},
                }
                proof {
                    canvas.lemma_shape();
                    assert forall|r: int, c: int|
                        0 <= r < high && 0 <= c < wide implies #[trigger] canvas@[r][c] == (if lands(
                        tall,
                        point,
                        r,
                        c,
                    ) {
                        MARK
                    } else {
                        earlier[r][c]
                    }) by {
                        assert(lands(tall, point, r, c) <==> r == row && c == column);
                    }
                }
            },
            None => {
                assert forall|r: int, c: int| 0 <= r < high && 0 <= c < wide implies !lands(
                    tall,
                    point,
                    r,
                    c,
                ) by {}
            },
        }
    }
    proof {
        canvas.lemma_shape();
        assert(points@.take(points.len() as int) =~= points@);
        let wanted = dotted(before, tall, points@);
        assert forall|r: int| 0 <= r < high implies #[trigger] canvas@[r] == wanted[r] by {
            assert forall|c: int| 0 <= c < wide implies #[trigger] canvas@[r][c] == wanted[r][c] by {}
            assert(canvas@[r] =~= wanted[r]);
        }
        assert(canvas@ =~= wanted);
    }
}

/// Plots `points` into `canvas` in count mode: the points of every cell are
/// counted, and each cell that holds any is set to the glyph that `shades`
/// gives for its count. Cells without a point keep what they held.
pub fn plot_counts(
    frame: &Frame,
    canvas: &mut Canvas,
    points: &Vec<(usize, usize)>,
    shades: &Shades,
)
    ensures
        final(canvas).spec_width() == old(canvas).spec_width(),
        final(canvas).spec_height() == old(canvas).spec_height(),
        final(canvas)@ == shaded(old(canvas)@, frame.spec_height(), points@, shades@),
{
    let wide = canvas.width();
    let high = canvas.height();
    let ghost before = canvas@;
    let ghost tall = frame.spec_height();
    let area = canvas.area();
    let mut tally: Vec<usize> = vec![0usize; area];
    proof {
        canvas.lemma_shape();
        assert forall|r: int, c: int| 0 <= r < high && 0 <= c < wide implies #[trigger] tally@[r
            * wide + c] == hits(tall, points@.take(0), r, c) by {
            lemma_cell_index(wide as int, high as int, r, c);
            assert(points@.take(0) =~= Seq::<(usize, usize)>::empty());
        }
    }
    for i in 0..points.len()
        invariant
            tall == frame.spec_height(),
            wide * high <= usize::MAX,
            tally@.len() == wide * high,
            forall|r: int, c: int|
                0 <= r < high && 0 <= c < wide ==> #[trigger] tally@[r * wide + c] == hits(
                    tall,
                    points@.take(i as int),
                    r,
                    c,
                ),
    {
        let across: usize = points[i].0;
        let up: usize = points[i].1;
        let ghost point = points@[i as int];
        let ghost sooner = points@.take(i as int);
        let ghost counted = tally@;
        proof {
            assert(points@.take(i + 1) =~= sooner.push(point));
            assert forall|r: int, c: int| 0 <= r < high && 0 <= c < wide implies hits(
                tall,
                points@.take(i + 1),
                r,
                c,
            ) == hits(tall, sooner, r, c) + (if lands(tall, point, r, c) {
                1int
            } else {
                0int
            }) by {
                lemma_hits_push(tall, sooner, point, r, c);
            }
        }
        match frame.point_to_cell(across, up) {
            Some((row, column)) => {
                if row < high && column < wide {
                    proof {
                        lemma_cell_index(wide as int, high as int, row as int, column as int);
                        lemma_hits_push(tall, sooner, point, row as int, column as int);
                    }
                    let index: usize = row * wide + column;
                    let count: usize = tally[index];
                    tally.set(index, count + 1);
                    proof {
                        assert forall|r: int, c: int|
                            0 <= r < high && 0 <= c < wide implies #[trigger] tally@[r * wide + c]
                            == hits(tall, points@.take(i + 1), r, c) by {
                            lemma_cell_index(wide as int, high as int, r, c);
                            if r * wide + c == row * wide + column {
                                lemma_cell_index_injective(
                                    wide as int,
                                    r,
                                    c,
                                    row as int,
                                    column as int,
                                );
                            }
                            assert(lands(tall, point, r, c) <==> r == row && c == column);
                            assert(counted[r * wide + c] == hits(tall, sooner, r, c));
                        }
                    }
                } else {
                    proof {
                        assert forall|r: int, c: int|
                            0 <= r < high && 0 <= c < wide implies #[trigger] tally@[r * wide + c]
                            == hits(tall, points@.take(i + 1), r, c) by {
                            assert(!lands(tall, point, r, c));
                        }
                    }
                }
            },
            None => {
                proof {
                    assert forall|r: int, c: int|
                        0 <= r < high && 0 <= c < wide implies #[trigger] tally@[r * wide + c]
                        == hits(tall, points@.take(i + 1), r, c) by {
                        assert(!lands(tall, point, r, c));
                    }
                }
            },
        }
    }
    assert(points@.take(points.len() as int) =~= points@);
    let ghost wanted = shaded(before, tall, points@, shades@);
    for r in 0..high
        invariant
            canvas.spec_width() == wide,
            canvas.spec_height() == high,
            before.len() == high,
            forall|i: int| 0 <= i < high ==> (#[trigger] before[i]).len() == wide,
            wide * high <= usize::MAX,
            tally@.len() == wide * high,
            wanted == shaded(before, tall, points@, shades@),
            forall|i: int, j: int|
                0 <= i < high && 0 <= j < wide ==> #[trigger] tally@[i * wide + j] == hits(
                    tall,
                    points@,
                    i,
                    j,
                ),
            forall|i: int, j: int|
                0 <= i < high && 0 <= j < wide ==> #[trigger] canvas@[i][j] == (if i < r {
                    wanted[i][j]
                } else {
                    before[i][j]
                }),
    {
        for c in 0..wide
            invariant
                r < high,
                canvas.spec_width() == wide,
                canvas.spec_height() == high,
                before.len() == high,
                forall|i: int| 0 <= i < high ==> (#[trigger] before[i]).len() == wide,
                wide * high <= usize::MAX,
            tally@.len() == wide * high,
                wanted == shaded(before, tall, points@, shades@),
                forall|i: int, j: int|
                    0 <= i < high && 0 <= j < wide ==> #[trigger] tally@[i * wide + j] == hits(
                        tall,
                        points@,
                        i,
                        j,
                    ),
                forall|i: int, j: int|
                    0 <= i < high && 0 <= j < wide ==> #[trigger] canvas@[i][j] == (if i < r || (i
                        == r && j < c) {
                        wanted[i][j]
                    } else {
                        before[i][j]
                    }),
        {
            proof {
                lemma_cell_index(wide as int, high as int, r as int, c as int);
                canvas.lemma_shape();
            }
            let count: usize = tally[r * wide + c];
            assert(count == hits(tall, points@, r as int, c as int));
            if count > 0 {
                let glyph = shades.glyph_for(count);
                match canvas.cell(r, c) {
                    Some(cell) => {
                        *cell = glyph;
                    },
                    None => {},
                }
            }
            proof {
                canvas.lemma_shape();
            }
        }
    }
    proof {
        canvas.lemma_shape();
        assert forall|i: int| 0 <= i < high implies #[trigger] canvas@[i] == wanted[i] by {
            assert forall|j: int| 0 <= j < wide implies #[trigger] canvas@[i][j] == wanted[i][j] by {}
            assert(canvas@[i] =~= wanted[i]);
        }
        assert(canvas@ =~= wanted);
    }
}

/// Plots `points` into `canvas` in the given mode. `shades` is looked at in
/// count mode only.
pub fn plot(
    frame: &Frame,
    canvas: &mut Canvas,
    points: &Vec<(usize, usize)>,
    mode: Mode,
    shades: &Shades,
)
    ensures
        final(canvas).spec_width() == old(canvas).spec_width(),
        final(canvas).spec_height() == old(canvas).spec_height(),
        final(canvas)@ == plotted(old(canvas)@, frame.spec_height(), points@, mode, shades@),
{
    match mode {
        Mode::Dot => plot_dots(frame, canvas, points),
        Mode::Count => plot_counts(frame, canvas, points, shades),
    }
}

/// The finished plot of a frame: a blank grid of the frame's size, the axes
/// drawn into it, and the points plotted over both. The horizontal axis
/// stands `up` cells above the bottom row, the vertical one `across` cells
/// from the left edge. A point that falls on an axis replaces its glyph.
pub fn render(
    frame: &Frame,
    across: usize,
    up: usize,
    points: &Vec<(usize, usize)>,
    mode: Mode,
    shades: &Shades,
) -> (r: Result<Canvas, DrawError>)
    ensures
        match r {
            Ok(canvas) => {
                &&& up < frame.spec_height()
                &&& across < frame.spec_width()
                &&& canvas.spec_width() == frame.spec_width()
                &&& canvas.spec_height() == frame.spec_height()
                &&& canvas@ == plotted(
                    frame.axes(across as int, up as int).drawn_over(
                        blank_grid(frame.spec_width(), frame.spec_height()),
                    ),
                    frame.spec_height(),
                    points@,
                    mode,
                    shades@,
                )
            },
            Err(DrawError::NoSuchRow { up: reported }) => up >= frame.spec_height() && reported
                == up,
            Err(DrawError::NoSuchCell { row, column }) => {
                &&& up < frame.spec_height()
                &&& across >= frame.spec_width()
                &&& row == 0
                &&& column == across
            },
        },
{
    let width = frame.width();
    let height = frame.height();
    let mut canvas = Canvas::blank(width, height);
    match frame.draw_into(&mut canvas, across, up) {
        Ok(()) => {},
        Err(fault) => {
            return Err(fault);
        },
    }
    plot(frame, &mut canvas, points, mode, shades);
    Ok(canvas)
}

} // verus!
