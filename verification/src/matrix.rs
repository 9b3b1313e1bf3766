//! A rectangular grid of copyable values with rotation, slicing, point
//! mutation and row-major traversal. The board, the card shapes and the
//! turn overlay are all grids of this type.

use vstd::prelude::*;

verus! {

/// Height and width of a matrix.
#[derive(Clone, Copy, Debug, PartialEq, Eq, Structural)]
pub struct MatrixSize {
    pub h: usize,
    pub w: usize,
}

impl MatrixSize {
    pub fn new(h: usize, w: usize) -> (r: Self)
        ensures
            r.h == h,
            r.w == w,
    {
        MatrixSize { h, w }
    }
}

/// A clockwise rotation by a number of quarter turns.
#[derive(Clone, Copy, Debug, PartialEq, Eq, Structural)]
pub enum MatrixRotation {
    Deg0,
    Deg90,
    Deg180,
    Deg270,
}

impl MatrixRotation {
    /// The number of clockwise quarter turns this rotation performs.
    pub open spec fn quarter_turns(self) -> int {
        match self {
            MatrixRotation::Deg0 => 0,
            MatrixRotation::Deg90 => 1,
            MatrixRotation::Deg180 => 2,
            MatrixRotation::Deg270 => 3,
        }
    }

    /// The rotation that performs `q` clockwise quarter turns, for `q` in `0..4`.
    pub open spec fn from_quarter_turns(q: int) -> MatrixRotation {
        if q == 0 {
            MatrixRotation::Deg0
        } else if q == 1 {
            MatrixRotation::Deg90
        } else if q == 2 {
            MatrixRotation::Deg180
        } else {
            MatrixRotation::Deg270
        }
    }
}

/// The width every row of a well-formed grid has.
pub open spec fn grid_width<T>(g: Seq<Seq<T>>) -> int {
    if g.len() == 0 {
        0
    } else {
        g[0].len() as int
    }
}

/// All rows have the same length.
pub open spec fn grid_wf<T>(g: Seq<Seq<T>>) -> bool {
    forall|i: int| 0 <= i < g.len() ==> (#[trigger] g[i]).len() == grid_width(g)
}

/// A grid that is either empty or has at least one column. Rotating a grid
/// with rows but no columns forgets its row count, so such grids are left
/// out of the rotation laws.
pub open spec fn grid_nondegenerate<T>(g: Seq<Seq<T>>) -> bool {
    g.len() == 0 || grid_width(g) > 0
}

/// One clockwise quarter turn.
pub open spec fn rot90<T>(g: Seq<Seq<T>>) -> Seq<Seq<T>> {
    Seq::new(
        grid_width(g) as nat,
        |i: int| Seq::new(g.len(), |j: int| g[g.len() - 1 - j][i]),
    )
}

/// Two clockwise quarter turns: rows reversed, each row reversed.
pub open spec fn rot180<T>(g: Seq<Seq<T>>) -> Seq<Seq<T>> {
    Seq::new(
        g.len(),
        |i: int| Seq::new(grid_width(g) as nat, |j: int| g[g.len() - 1 - i][grid_width(g) - 1 - j]),
    )
}

/// Three clockwise quarter turns.
pub open spec fn rot270<T>(g: Seq<Seq<T>>) -> Seq<Seq<T>> {
    Seq::new(
        grid_width(g) as nat,
        |i: int| Seq::new(g.len(), |j: int| g[j][grid_width(g) - 1 - i]),
    )
}

/// The grid after the given clockwise rotation.
pub open spec fn spec_rotate<T>(g: Seq<Seq<T>>, r: MatrixRotation) -> Seq<Seq<T>> {
    match r {
        MatrixRotation::Deg0 => g,
        MatrixRotation::Deg90 => rot90(g),
        MatrixRotation::Deg180 => rot180(g),
        MatrixRotation::Deg270 => rot270(g),
    }
}

/// A rectangular matrix, stored as rows of equal length and indexed `(x, y)`
/// with `y` naming the row.
#[derive(Clone, Debug, PartialEq, Eq)]
pub struct Matrix<T: Copy> {
    rows: Vec<Vec<T>>,
}

impl<T: Copy> View for Matrix<T> {
    type V = Seq<Seq<T>>;

    closed spec fn view(&self) -> Seq<Seq<T>> {
        self.rows@.map_values(|r: Vec<T>| r@)
    }
}

impl<T: Copy> Matrix<T> {
    pub open spec fn wf(&self) -> bool {
        grid_wf(self@)
    }

    pub open spec fn spec_width(&self) -> int {
        grid_width(self@)
    }

    /// Wraps the given rows. Every row must have the same length.
    pub fn new(rows: Vec<Vec<T>>) -> (r: Self)
        requires
            forall|i: int|
                0 <= i < rows@.len() ==> (#[trigger] rows@[i])@.len() == rows@[0]@.len(),
        ensures
            r@ == rows@.map_values(|row: Vec<T>| row@),
            r.wf(),
    {
        let r = Matrix { rows };
        proof {
            assert forall|i: int| 0 <= i < r@.len() implies (#[trigger] r@[i]).len()
                == grid_width(r@) by {
                assert(r@[i] == r.rows@[i]@);
                assert(r@[0] == r.rows@[0]@);
            }
        }
        r
    }

    /// A matrix of the given size holding `element` everywhere.
    pub fn filled_with(size: MatrixSize, element: T) -> (r: Self)
        ensures
            r@.len() == size.h,
            r.wf(),
            size.h > 0 ==> r.spec_width() == size.w,
            forall|y: int, x: int|
                0 <= y < size.h && 0 <= x < size.w ==> r@[y][x] == element,
    {
        let mut rows: Vec<Vec<T>> = Vec::new();
        let mut y: usize = 0;
        while y < size.h
            invariant
                y <= size.h,
                rows@.len() == y,
                forall|i: int| 0 <= i < y ==> (#[trigger] rows@[i])@.len() == size.w,
                forall|i: int, j: int|
                    0 <= i < y && 0 <= j < size.w ==> #[trigger] rows@[i]@[j] == element,
            decreases size.h - y,
        {
            let mut row: Vec<T> = Vec::new();
            let mut x: usize = 0;
            while x < size.w
                invariant
                    x <= size.w,
                    row@.len() == x,
                    forall|j: int| 0 <= j < x ==> row@[j] == element,
                decreases size.w - x,
            {
                row.push(element);
                x = x + 1;
            }
            rows.push(row);
            y = y + 1;
        }
        Matrix { rows }
    }

    /// The matrix with no rows.
    pub fn empty() -> (r: Self)
        ensures
            r@ =~= Seq::<Seq<T>>::empty(),
            r.wf(),
    {
        Matrix { rows: Vec::new() }
    }

    /// Height and width. A matrix with no rows has width zero.
    pub fn size(&self) -> (r: MatrixSize)
        ensures
            r.h == self@.len(),
            r.w == self.spec_width(),
    {
        let h = self.rows.len();
        let w = if self.rows.len() == 0 {
            0
        } else {
            self.rows[0].len()
        };
        MatrixSize { h, w }
    }

    /// The value at column `x` of row `y`.
    pub fn get(&self, x: usize, y: usize) -> (r: T)
        requires
            0 <= y < self@.len(),
            0 <= x < self@[y as int].len(),
        ensures
            r == self@[y as int][x as int],
    {
        self.rows[y][x]
    }

    /// Overwrites the value at column `x` of row `y`.
    pub fn set(&mut self, x: usize, y: usize, value: T)
        requires
            0 <= y < old(self)@.len(),
            0 <= x < old(self)@[y as int].len(),
        ensures
            final(self)@ =~= old(self)@.update(
                y as int,
                old(self)@[y as int].update(x as int, value),
            ),
            final(self)@.len() == old(self)@.len(),
            old(self).wf() ==> final(self).wf(),
    {
        self.rows[y][x] = value;
        proof {
            assert(final(self)@ =~~= old(self)@.update(
                y as int,
                old(self)@[y as int].update(x as int, value),
            ));
        }
    }

    /// The grid after the given clockwise rotation.
    pub fn rotate_clockwise(self, r: MatrixRotation) -> (res: Self)
        requires
            self.wf(),
        ensures
            res@ == spec_rotate(self@, r),
            res.wf(),
    {
        let size = self.size();
        let h = size.h;
        let w = size.w;
        match r {
            MatrixRotation::Deg0 => self,
            MatrixRotation::Deg90 => {
                let mut rows: Vec<Vec<T>> = Vec::new();
                let mut i: usize = 0;
                while i < w
                    invariant
                        self.wf(),
                        h == self@.len(),
                        w == self.spec_width(),
                        i <= w,
                        rows@.len() == i,
                        forall|k: int| 0 <= k < i ==> (#[trigger] rows@[k])@ =~= rot90(self@)[k],
                    decreases w - i,
                {
                    let mut row: Vec<T> = Vec::new();
                    let mut j: usize = 0;
                    while j < h
                        invariant
                            self.wf(),
                            h == self@.len(),
                            w == self.spec_width(),
                            i < w,
                            j <= h,
                            row@.len() == j,
                            forall|l: int|
                                0 <= l < j ==> row@[l] == self@[h - 1 - l][i as int],
                        decreases h - j,
                    {
                        proof {
                            assert(self.rows@[(h - 1 - j) as int]@ == self@[(h - 1 - j) as int]);
                        }
                        row.push(self.rows[h - 1 - j][i]);
                        j = j + 1;
                    }
                    proof {
                        assert(row@ =~= rot90(self@)[i as int]);
                    }
                    rows.push(row);
                    i = i + 1;
                }
                let res = Matrix { rows };
                proof {
                    assert(res@ =~~= rot90(self@));
                    assert forall|k: int| 0 <= k < res@.len() implies (#[trigger] res@[k]).len()
                        == grid_width(res@) by {}
                }
                res
            }
            MatrixRotation::Deg180 => {
                let mut rows: Vec<Vec<T>> = Vec::new();
                let mut i: usize = 0;
                while i < h
                    invariant
                        self.wf(),
                        h == self@.len(),
                        w == self.spec_width(),
                        i <= h,
                        rows@.len() == i,
                        forall|k: int| 0 <= k < i ==> (#[trigger] rows@[k])@ =~= rot180(self@)[k],
                    decreases h - i,
                {
                    let mut row: Vec<T> = Vec::new();
                    let mut j: usize = 0;
                    while j < w
                        invariant
                            self.wf(),
                            h == self@.len(),
                            w == self.spec_width(),
                            i < h,
                            j <= w,
                            row@.len() == j,
                            forall|l: int|
                                0 <= l < j ==> row@[l] == self@[h - 1 - i][w - 1 - l],
                        decreases w - j,
                    {
                        proof {
                            assert(self.rows@[(h - 1 - i) as int]@ == self@[(h - 1 - i) as int]);
                        }
                        row.push(self.rows[h - 1 - i][w - 1 - j]);
                        j = j + 1;
                    }
                    proof {
                        assert(row@ =~= rot180(self@)[i as int]);
                    }
                    rows.push(row);
                    i = i + 1;
                }
                let res = Matrix { rows };
                proof {
                    assert(res@ =~~= rot180(self@));
                }
                res
            }
            MatrixRotation::Deg270 => {
                let mut rows: Vec<Vec<T>> = Vec::new();
                let mut i: usize = 0;
                while i < w
                    invariant
                        self.wf(),
                        h == self@.len(),
                        w == self.spec_width(),
                        i <= w,
                        rows@.len() == i,
                        forall|k: int| 0 <= k < i ==> (#[trigger] rows@[k])@ =~= rot270(self@)[k],
                    decreases w - i,
                {
                    let mut row: Vec<T> = Vec::new();
                    let mut j: usize = 0;
                    while j < h
                        invariant
                            self.wf(),
                            h == self@.len(),
                            w == self.spec_width(),
                            i < w,
                            j <= h,
                            row@.len() == j,
                            forall|l: int|
                                0 <= l < j ==> row@[l] == self@[l][w - 1 - i],
                        decreases h - j,
                    {
                        proof {
                            assert(self.rows@[j as int]@ == self@[j as int]);
                        }
                        row.push(self.rows[j][w - 1 - i]);
                        j = j + 1;
                    }
                    proof {
                        assert(row@ =~= rot270(self@)[i as int]);
                    }
                    rows.push(row);
                    i = i + 1;
                }
                let res = Matrix { rows };
                proof {
                    assert(res@ =~~= rot270(self@));
                }
                res
            }
        }
    }

    /// The sub-grid of rows `from.1..to.1` and columns `from.0..to.0`
    /// (half-open). Consistent with indexing: the sliced cell `(x, y)` is the
    /// original cell `(from.0 + x, from.1 + y)`.
    pub fn slice(&self, from: (usize, usize), to: (usize, usize)) -> (r: Self)
        requires
            self.wf(),
            from.1 <= to.1 <= self@.len(),
            from.0 <= to.0 <= self.spec_width(),
        ensures
            r.wf(),
            r@.len() == to.1 - from.1,
            r@.len() > 0 ==> r.spec_width() == to.0 - from.0,
            forall|y: int, x: int|
                0 <= y < to.1 - from.1 && 0 <= x < to.0 - from.0
                    ==> #[trigger] r@[y][x] == self@[from.1 + y][from.0 + x],
    {
        let mut rows: Vec<Vec<T>> = Vec::new();
        let mut y: usize = from.1;
        while y < to.1
            invariant
                self.wf(),
                from.1 <= y <= to.1 <= self@.len(),
                from.0 <= to.0 <= self.spec_width(),
                rows@.len() == y - from.1,
                forall|i: int| 0 <= i < y - from.1 ==> (#[trigger] rows@[i])@.len() == to.0 - from.0,
                forall|i: int, j: int|
                    0 <= i < y - from.1 && 0 <= j < to.0 - from.0
                        ==> #[trigger] rows@[i]@[j] == self@[from.1 + i][from.0 + j],
            decreases to.1 - y,
        {
            let mut row: Vec<T> = Vec::new();
            let mut x: usize = from.0;
            while x < to.0
                invariant
                    self.wf(),
                    from.1 <= y < to.1 <= self@.len(),
                    from.0 <= x <= to.0 <= self.spec_width(),
                    row@.len() == x - from.0,
                    forall|j: int|
                        0 <= j < x - from.0 ==> row@[j] == self@[y as int][from.0 + j],
                decreases to.0 - x,
            {
                proof {
                    assert(self.rows@[y as int]@ == self@[y as int]);
                }
                row.push(self.rows[y][x]);
                x = x + 1;
            }
            rows.push(row);
            y = y + 1;
        }
        Matrix { rows }
    }

    /// The sub-grid of rows `from.1..=to.1` and columns `from.0..=to.0`
    /// (inclusive at both ends).
    pub fn slice_inclusive(&self, from: (usize, usize), to: (usize, usize)) -> (r: Self)
        requires
            self.wf(),
            from.1 <= to.1 < self@.len(),
            from.0 <= to.0 < self.spec_width(),
        ensures
            r.wf(),
            r@.len() == to.1 - from.1 + 1,
            r.spec_width() == to.0 - from.0 + 1,
            forall|y: int, x: int|
                0 <= y <= to.1 - from.1 && 0 <= x <= to.0 - from.0
                    ==> #[trigger] r@[y][x] == self@[from.1 + y][from.0 + x],
    {
        let size = self.size();
        proof {
            assert(to.0 < size.w && to.1 < size.h);
        }
        let r = self.slice(from, (to.0 + 1, to.1 + 1));
        r
    }

    /// Copies every cell of `items` into this matrix, translated by `start`.
    pub fn replace(&mut self, start: crate::position::UNamedPosition, items: Matrix<T>)
        requires
            old(self).wf(),
            items.wf(),
            items@.len() > 0 && grid_width(items@) > 0 ==> {
                &&& start.y + items@.len() <= old(self)@.len()
                &&& start.x + grid_width(items@) <= old(self).spec_width()
            },
        ensures
            final(self).wf(),
            final(self)@.len() == old(self)@.len(),
            final(self).spec_width() == old(self).spec_width(),
            forall|y: int, x: int|
                0 <= y < old(self)@.len() && 0 <= x < old(self).spec_width()
                    ==> #[trigger] final(self)@[y][x] == if start.y <= y < start.y + items@.len()
                        && start.x <= x < start.x + grid_width(items@) {
                        items@[y - start.y][x - start.x]
                    } else {
                        old(self)@[y][x]
                    },
    {
        let isize_ = items.size();
        let own_size = self.size();
        let mut y: usize = 0;
        while y < isize_.h
            invariant
                items.wf(),
                isize_.h == items@.len(),
                isize_.w == grid_width(items@),
                y <= isize_.h,
                self.wf(),
                self@.len() == old(self)@.len(),
                self.spec_width() == old(self).spec_width(),
                own_size.h == self@.len(),
                own_size.w == self.spec_width(),
                isize_.h > 0 && isize_.w > 0 ==> {
                    &&& start.y + isize_.h <= self@.len()
                    &&& start.x + isize_.w <= self.spec_width()
                },
                forall|yy: int, xx: int|
                    0 <= yy < self@.len() && 0 <= xx < self.spec_width()
                        ==> #[trigger] self@[yy][xx] == if start.y <= yy < start.y + y
                            && start.x <= xx < start.x + isize_.w {
                            items@[yy - start.y][xx - start.x]
                        } else {
                            old(self)@[yy][xx]
                        },
            decreases isize_.h - y,
        {
            let mut x: usize = 0;
            while x < isize_.w
                invariant
                    items.wf(),
                    isize_.h == items@.len(),
                    isize_.w == grid_width(items@),
                    y < isize_.h,
                    x <= isize_.w,
                    self.wf(),
                    self@.len() == old(self)@.len(),
                    self.spec_width() == old(self).spec_width(),
                    own_size.h == self@.len(),
                    own_size.w == self.spec_width(),
                    isize_.h > 0 && isize_.w > 0 ==> {
                        &&& start.y + isize_.h <= self@.len()
                        &&& start.x + isize_.w <= self.spec_width()
                    },
                    forall|yy: int, xx: int|
                        0 <= yy < self@.len() && 0 <= xx < self.spec_width()
                            ==> #[trigger] self@[yy][xx] == if start.y <= yy < start.y + y
                                && start.x <= xx < start.x + isize_.w {
                                items@[yy - start.y][xx - start.x]
                            } else if yy == start.y + y && start.x <= xx < start.x + x {
                                items@[yy - start.y][xx - start.x]
                            } else {
                                old(self)@[yy][xx]
                            },
                decreases isize_.w - x,
            {
                let v = items.get(x, y);
                proof {
                    assert(isize_.h > 0 && isize_.w > 0);
                    assert(start.y + isize_.h <= own_size.h);
                    assert(start.x + isize_.w <= own_size.w);
                }
                self.set(start.x + x, start.y + y, v);
                x = x + 1;
            }
            y = y + 1;
        }
    }

    /// A copy of this matrix with the same cells.
    pub fn duplicate(&self) -> (r: Self)
        ensures
            r@ == self@,
    {
        let mut rows: Vec<Vec<T>> = Vec::new();
        let mut y: usize = 0;
        while y < self.rows.len()
            invariant
                y <= self.rows.len(),
                rows@.len() == y,
                self@.len() == self.rows@.len(),
                forall|i: int| 0 <= i < y ==> #[trigger] rows@[i]@ == self@[i],
            decreases self.rows.len() - y,
        {
            let mut row: Vec<T> = Vec::new();
            let mut x: usize = 0;
            proof {
                assert(self.rows@[y as int]@ == self@[y as int]);
            }
            while x < self.rows[y].len()
                invariant
                    y < self.rows@.len(),
                    self@.len() == self.rows@.len(),
                    self.rows@[y as int]@ == self@[y as int],
                    x <= self@[y as int].len(),
                    row@.len() == x,
                    forall|j: int| 0 <= j < x ==> row@[j] == self@[y as int][j],
                decreases self@[y as int].len() - x,
            {
                row.push(self.rows[y][x]);
                x = x + 1;
            }
            proof {
                assert(row@ =~= self@[y as int]);
            }
            rows.push(row);
            y = y + 1;
        }
        let r = Matrix { rows };
        proof {
            assert(r@ =~~= self@);
        }
        r
    }

    /// The width that a row-major cell listing implies: one more than the
    /// largest column named by a cell of the first row, or zero when no cell
    /// lies on the first row.
    pub open spec fn cells_row_size(cells: Seq<(T, (usize, usize))>) -> int
        decreases cells.len(),
    {
        if cells.len() == 0 {
            0
        } else {
            let rest = Self::cells_row_size(cells.drop_last());
            let last = cells.last();
            if last.1.1 == 0 && last.1.0 + 1 > rest {
                last.1.0 + 1
            } else {
                rest
            }
        }
    }

    /// Rebuilds a matrix from a row-major cell listing, as produced by the
    /// matrix iterator. The width is taken from the cells that name row zero;
    /// when none does, the row count cannot be recovered and the empty matrix
    /// is returned.
    pub fn from_cells(cells: Vec<(T, (usize, usize))>) -> (r: Self)
        requires
            Self::cells_row_size(cells@) <= usize::MAX,
            Self::cells_row_size(cells@) > 0 ==> cells@.len() as int % Self::cells_row_size(cells@)
                == 0,
        ensures
            r.wf(),
            Self::cells_row_size(cells@) == 0 ==> r@ =~= Seq::<Seq<T>>::empty(),
            Self::cells_row_size(cells@) > 0 ==> {
                &&& r@.len() == cells@.len() as int / Self::cells_row_size(cells@)
                &&& forall|i: int, j: int|
                    0 <= i < r@.len() && 0 <= j < Self::cells_row_size(cells@)
                        ==> #[trigger] r@[i][j] == cells@[i * Self::cells_row_size(cells@) + j].0
                &&& forall|i: int|
                    0 <= i < r@.len() ==> (#[trigger] r@[i]).len() == Self::cells_row_size(cells@)
            },
    {
        let ghost rs = Self::cells_row_size(cells@);
        let n_cells = cells.len();
        proof {
            lemma_cells_row_size_mono(cells@, 0);
            assert(cells@.subrange(0, 0) =~= Seq::<(T, (usize, usize))>::empty());
        }
        let mut row_size: usize = 0;
        let mut k: usize = 0;
        while k < cells.len()
            invariant
                k <= cells@.len(),
                Self::cells_row_size(cells@) <= usize::MAX,
                row_size == Self::cells_row_size(cells@.subrange(0, k as int)),
                Self::cells_row_size(cells@.subrange(0, k as int)) <= Self::cells_row_size(cells@),
            decreases cells@.len() - k,
        {
            proof {
                assert(cells@.subrange(0, k + 1).drop_last() =~= cells@.subrange(0, k as int));
                assert(cells@.subrange(0, k + 1).last() == cells@[k as int]);
                lemma_cells_row_size_mono(cells@, k + 1);
            }
            let c = cells[k];
            if c.1.1 == 0 && c.1.0 + 1 > row_size {
                row_size = c.1.0 + 1;
            }
            k = k + 1;
        }
        proof {
            assert(cells@.subrange(0, cells@.len() as int) =~= cells@);
        }
        if row_size == 0 {
            Matrix::empty()
        } else {
            let n_rows = cells.len() / row_size;
            let mut rows: Vec<Vec<T>> = Vec::new();
            let mut i: usize = 0;
            while i < n_rows
                invariant
                    rs == Self::cells_row_size(cells@),
                    row_size == rs,
                    row_size > 0,
                    n_cells == cells@.len(),
                    cells@.len() as int % rs == 0,
                    n_rows == cells@.len() as int / rs,
                    i <= n_rows,
                    rows@.len() == i,
                    forall|a: int| 0 <= a < i ==> (#[trigger] rows@[a])@.len() == rs,
                    forall|a: int, b: int|
                        0 <= a < i && 0 <= b < rs ==> #[trigger] rows@[a]@[b] == cells@[a * rs
                            + b].0,
                decreases n_rows - i,
            {
                let mut row: Vec<T> = Vec::new();
                let mut j: usize = 0;
                while j < row_size
                    invariant
                        rs == Self::cells_row_size(cells@),
                        row_size == rs,
                        row_size > 0,
                        n_cells == cells@.len(),
                        cells@.len() as int % rs == 0,
                        n_rows == cells@.len() as int / rs,
                        i < n_rows,
                        j <= row_size,
                        row@.len() == j,
                        forall|b: int| 0 <= b < j ==> row@[b] == cells@[i as int * rs + b].0,
                    decreases row_size - j,
                {
                    proof {
                        let ghost ii = i as int;
                        let ghost jj = j as int;
                        let ghost nn = cells@.len() as int;
                        assert(0 <= ii * rs + jj < nn) by (nonlinear_arith)
                            requires
                                0 <= ii,
                                ii < nn / rs,
                                0 <= jj,
                                jj < rs,
                                nn % rs == 0,
                                rs > 0,
                        ;
                    }
                    let idx = i * row_size + j;
                    row.push(cells[idx].0);
                    j = j + 1;
                }
                rows.push(row);
                i = i + 1;
            }
            let r = Matrix { rows };
            proof {
                assert forall|a: int| 0 <= a < r@.len() implies (#[trigger] r@[a]).len()
                    == grid_width(r@) by {
                    assert(r@[a] == rows@[a]@);
                    assert(r@[0] == rows@[0]@);
                }
            }
            r
        }
    }
}

/// A longer prefix of a cell listing never implies a narrower width.
proof fn lemma_cells_row_size_mono<T: Copy>(cells: Seq<(T, (usize, usize))>, k: int)
    requires
        0 <= k <= cells.len(),
    ensures
        Matrix::<T>::cells_row_size(cells.subrange(0, k)) <= Matrix::<T>::cells_row_size(cells),
    decreases cells.len() - k,
{
    if k == cells.len() {
        assert(cells.subrange(0, k) =~= cells);
    } else {
        lemma_cells_row_size_mono(cells, k + 1);
        assert(cells.subrange(0, k + 1).drop_last() =~= cells.subrange(0, k));
    }
}

/// Row-major traversal of a matrix, yielding each cell with its `(x, y)`
/// position.
pub struct MatrixIter<T: Copy> {
    pub matrix: Matrix<T>,
    pub size: MatrixSize,
    pub position: crate::position::UNamedPosition,
}

impl<T: Copy> MatrixIter<T> {
    /// The grid being traversed.
    pub open spec fn grid(&self) -> Seq<Seq<T>> {
        self.matrix@
    }

    /// The column the traversal stands on.
    pub open spec fn pos_x(&self) -> int {
        self.position.x as int
    }

    /// The row the traversal stands on.
    pub open spec fn pos_y(&self) -> int {
        self.position.y as int
    }

    pub open spec fn wf(&self) -> bool {
        &&& self.matrix.wf()
        &&& self.size.h == self.grid().len()
        &&& self.size.w == grid_width(self.grid())
        &&& self.pos_y() <= self.grid().len()
        &&& (self.pos_x() == 0 || self.pos_x() < grid_width(self.grid()))
        &&& (self.pos_y() == self.grid().len() ==> self.pos_x() == 0)
    }

    pub fn new(matrix: Matrix<T>) -> (r: Self)
        requires
            matrix.wf(),
        ensures
            r.wf(),
            r.grid() == matrix@,
            r.pos_x() == 0,
            r.pos_y() == 0,
            r.size.h == matrix@.len(),
            r.size.w == grid_width(matrix@),
    {
        let size = matrix.size();
        MatrixIter { matrix, size, position: crate::position::UNamedPosition::new(0, 0) }
    }

    /// The next cell in row-major order, or `None` when the traversal is done.
    /// A matrix with rows but no columns yields nothing.
    pub fn next(&mut self) -> (r: Option<(T, (usize, usize))>)
        requires
            old(self).wf(),
        ensures
            final(self).wf(),
            final(self).grid() == old(self).grid(),
            final(self).size == old(self).size,
            old(self).pos_y() >= old(self).grid().len() || old(self).size.w == 0 ==> {
                &&& r is None
                &&& final(self).pos_x() == old(self).pos_x()
                &&& final(self).pos_y() == old(self).pos_y()
            },
            old(self).pos_y() < old(self).grid().len() && old(self).size.w > 0 ==> {
                &&& r == Some(
                    (
                        old(self).grid()[old(self).pos_y()][old(self).pos_x()],
                        (old(self).pos_x() as usize, old(self).pos_y() as usize),
                    ),
                )
                &&& if old(self).pos_x() + 1 < old(self).size.w {
                    final(self).pos_x() == old(self).pos_x() + 1 && final(self).pos_y() == old(
                        self,
                    ).pos_y()
                } else {
                    final(self).pos_x() == 0 && final(self).pos_y() == old(self).pos_y() + 1
                }
            },
    {
        if self.position.y >= self.size.h || self.size.w == 0 {
            None
        } else {
            let item = self.matrix.get(self.position.x, self.position.y);
            let item_position = (self.position.x, self.position.y);

            if self.position.x >= self.size.w - 1 {
                self.position.x = 0;
                self.position.y = self.position.y + 1;
            } else {
                self.position.x = self.position.x + 1;
            }

            Some((item, item_position))
        }
    }

    /// How many cells the traversal has left.
    pub fn size_hint(&self) -> (r: (usize, Option<usize>))
        requires
            self.wf(),
            self.size.h * self.size.w <= usize::MAX,
        ensures
            r.0 == self.size.h * self.size.w - (self.pos_y() * self.size.w + self.pos_x()),
            r.1 == Some(r.0),
    {
        proof {
            assert(self.pos_y() * self.size.w + self.pos_x() <= self.size.h * self.size.w)
                by (nonlinear_arith)
                requires
                    0 <= self.pos_y() <= self.size.h,
                    0 <= self.pos_x(),
                    self.pos_x() == 0 || self.pos_x() < self.size.w,
                    self.pos_y() == self.size.h ==> self.pos_x() == 0,
            ;
            assert(self.pos_y() * self.size.w >= 0) by (nonlinear_arith)
                requires
                    self.pos_y() >= 0,
                    self.size.w >= 0,
            ;
        }
        let item_count = self.size.h * self.size.w;
        let items_passed = (self.position.y * self.size.w) + self.position.x;
        let items_remaining = item_count - items_passed;

        (items_remaining, Some(items_remaining))
    }
}

/// Turning a grid by zero quarter turns leaves it as it is.
pub proof fn lemma_rotate_none<T>(g: Seq<Seq<T>>)
    ensures
        spec_rotate(g, MatrixRotation::Deg0) == g,
{
}

/// One quarter turn of a quarter turn is a half turn.
proof fn lemma_rot90_rot90<T>(g: Seq<Seq<T>>)
    requires
        grid_wf(g),
        grid_nondegenerate(g),
    ensures
        rot90(rot90(g)) =~~= rot180(g),
{
}

/// A quarter turn of a half turn is a three-quarter turn.
proof fn lemma_rot90_rot180<T>(g: Seq<Seq<T>>)
    requires
        grid_wf(g),
        grid_nondegenerate(g),
    ensures
        rot90(rot180(g)) =~~= rot270(g),
{
}

/// A quarter turn of a three-quarter turn restores the grid.
proof fn lemma_rot90_rot270<T>(g: Seq<Seq<T>>)
    requires
        grid_wf(g),
        grid_nondegenerate(g),
    ensures
        rot90(rot270(g)) =~~= g,
{
}

/// A rotated well-formed grid is well formed, and nondegeneracy is kept.
pub proof fn lemma_rotate_wf<T>(g: Seq<Seq<T>>, r: MatrixRotation)
    requires
        grid_wf(g),
        grid_nondegenerate(g),
    ensures
        grid_wf(spec_rotate(g, r)),
        grid_nondegenerate(spec_rotate(g, r)),
        spec_rotate(g, r).len() * grid_width(spec_rotate(g, r)) == g.len() * grid_width(g),
{
    assert(g.len() as int * grid_width(g) == grid_width(g) * g.len() as int) by (nonlinear_arith);
}

/// Composing two rotations turns the grid by the sum of their quarter
/// turns, modulo four. A grid with rows but no columns is left out: turning
/// it once forgets its row count.
pub proof fn lemma_rotate_compose<T>(g: Seq<Seq<T>>, r1: MatrixRotation, r2: MatrixRotation)
    requires
        grid_wf(g),
        grid_nondegenerate(g),
    ensures
        spec_rotate(spec_rotate(g, r1), r2) == spec_rotate(
            g,
            MatrixRotation::from_quarter_turns((r1.quarter_turns() + r2.quarter_turns()) % 4),
        ),
{
    lemma_rot90_rot90(g);
    lemma_rot90_rot180(g);
    lemma_rot90_rot270(g);
    lemma_rotate_wf(g, MatrixRotation::Deg90);
    lemma_rotate_wf(g, MatrixRotation::Deg180);
    lemma_rotate_wf(g, MatrixRotation::Deg270);
    let x90 = rot90(g);
    let x180 = rot180(g);
    let x270 = rot270(g);
    match r1 {
        MatrixRotation::Deg0 => {}
        MatrixRotation::Deg90 => {
            match r2 {
                MatrixRotation::Deg0 => {}
                MatrixRotation::Deg90 => {}
                MatrixRotation::Deg180 => {
                    lemma_rot90_rot90(x90);
                }
                MatrixRotation::Deg270 => {
                    lemma_rot90_rot90(x90);
                    lemma_rot90_rot180(x90);
                }
            }
        }
        MatrixRotation::Deg180 => {
            match r2 {
                MatrixRotation::Deg0 => {}
                MatrixRotation::Deg90 => {}
                MatrixRotation::Deg180 => {
                    lemma_rot90_rot90(x180);
                }
                MatrixRotation::Deg270 => {
                    lemma_rot90_rot90(x180);
                    lemma_rot90_rot180(x180);
                }
            }
        }
        MatrixRotation::Deg270 => {
            match r2 {
                MatrixRotation::Deg0 => {}
                MatrixRotation::Deg90 => {}
                MatrixRotation::Deg180 => {
                    lemma_rot90_rot90(x270);
                }
                MatrixRotation::Deg270 => {
                    lemma_rot90_rot90(x270);
                    lemma_rot90_rot180(x270);
                }
            }
        }
    }
}

/// The positions of a grid of the given height and width.
pub open spec fn grid_positions(h: int, w: int) -> Set<(int, int)> {
    Set::new(|p: (int, int)| 0 <= p.0 < w && 0 <= p.1 < h)
}

/// The positions holding the given value.
pub open spec fn cells_with<T>(g: Seq<Seq<T>>, v: T) -> Set<(int, int)> {
    Set::new(
        |p: (int, int)| 0 <= p.0 < grid_width(g) && 0 <= p.1 < g.len() && g[p.1][p.0] == v,
    )
}

proof fn lemma_grid_positions_finite(h: int, w: int)
    ensures
        grid_positions(h, w).finite(),
    decreases h,
{
    if h <= 0 {
        assert(grid_positions(h, w) =~= Set::<(int, int)>::empty());
    } else {
        lemma_grid_positions_finite(h - 1, w);
        let row = vstd::set_lib::set_int_range(0, w).map(|x: int| (x, h - 1));
        vstd::set_lib::lemma_int_range(0, if w < 0 {
            0
        } else {
            w
        });
        if w < 0 {
            assert(vstd::set_lib::set_int_range(0, w) =~= vstd::set_lib::set_int_range(0, 0));
        }
        vstd::set_lib::set_int_range(0, w).lemma_map_finite(|x: int| (x, h - 1));
        assert forall|p: (int, int)| grid_positions(h, w).contains(p) implies (grid_positions(
            h - 1,
            w,
        ) + row).contains(p) by {
            if p.1 == h - 1 {
                assert(vstd::set_lib::set_int_range(0, w).contains(p.0));
                assert(row.contains(p));
            }
        }
        assert(grid_positions(h, w) =~= (grid_positions(h - 1, w) + row).intersect(
            grid_positions(h, w),
        ));
        vstd::set_lib::lemma_set_union_finite_iff(grid_positions(h - 1, w), row);
    }
}

/// Mapping a finite set through a function that tells its elements apart
/// keeps its size.
proof fn lemma_injective_map_len<A, B>(s: Set<A>, f: spec_fn(A) -> B)
    requires
        s.finite(),
        forall|x: A, y: A| s.contains(x) && s.contains(y) && f(x) == f(y) ==> x == y,
    ensures
        s.map(f).finite(),
        s.map(f).len() == s.len(),
    decreases s.len(),
{
    broadcast use vstd::set::group_set_axioms;

    if s.len() == 0 {
        assert forall|b: B| #[trigger] s.map(f).contains(b) implies false by {
            let x = choose|x: A| s.contains(x) && f(x) == b;
        }
        assert(s.map(f) =~= Set::<B>::empty());
    } else {
        let x = s.choose();
        assert(s.contains(x));
        let rest = s.remove(x);
        assert forall|a: A, b: A| rest.contains(a) && rest.contains(b) && f(a) == f(b) implies a
            == b by {}
        lemma_injective_map_len(rest, f);
        assert(!rest.map(f).contains(f(x))) by {
            if rest.map(f).contains(f(x)) {
                let y = choose|y: A| rest.contains(y) && f(y) == f(x);
            }
        }
        assert(s.map(f) =~= rest.map(f).insert(f(x))) by {
            assert forall|b: B| #[trigger] s.map(f).contains(b) implies rest.map(f).insert(
                f(x),
            ).contains(b) by {
                let y = choose|y: A| s.contains(y) && f(y) == b;
                if y != x {
                    assert(rest.contains(y));
                }
            }
            assert forall|b: B| rest.map(f).insert(f(x)).contains(b) implies #[trigger] s.map(
                f,
            ).contains(b) by {
                if b == f(x) {
                    assert(s.contains(x) && f(x) == b);
                } else {
                    let y = choose|y: A| rest.contains(y) && f(y) == b;
                    assert(s.contains(y));
                }
            }
        }
    }
}

/// Where a cell of the grid lands after the rotation.
pub open spec fn rotated_position(h: int, w: int, r: MatrixRotation, p: (int, int)) -> (int, int) {
    match r {
        MatrixRotation::Deg0 => p,
        MatrixRotation::Deg90 => (h - 1 - p.1, p.0),
        MatrixRotation::Deg180 => (w - 1 - p.0, h - 1 - p.1),
        MatrixRotation::Deg270 => (p.1, w - 1 - p.0),
    }
}

/// Rotation neither adds nor loses cells: for every value, as many cells
/// hold it after the turn as before, and the area is unchanged. Together
/// with the area equality this says the multiset of cells is invariant.
pub proof fn lemma_rotate_preserves_cells<T>(g: Seq<Seq<T>>, r: MatrixRotation, v: T)
    requires
        grid_wf(g),
        grid_nondegenerate(g),
    ensures
        cells_with(spec_rotate(g, r), v).finite(),
        cells_with(g, v).finite(),
        cells_with(spec_rotate(g, r), v).len() == cells_with(g, v).len(),
        spec_rotate(g, r).len() * grid_width(spec_rotate(g, r)) == g.len() * grid_width(g),
{
    broadcast use vstd::set_lib::lemma_set_subset_finite;

    let h = g.len() as int;
    let w = grid_width(g);
    let rg = spec_rotate(g, r);
    lemma_rotate_wf(g, r);
    lemma_grid_positions_finite(h, w);
    lemma_grid_positions_finite(rg.len() as int, grid_width(rg));
    assert(cells_with(g, v).subset_of(grid_positions(h, w)));
    assert(cells_with(rg, v).subset_of(grid_positions(rg.len() as int, grid_width(rg))));

    let f = |p: (int, int)| rotated_position(h, w, r, p);
    assert forall|x: (int, int), y: (int, int)|
        cells_with(g, v).contains(x) && cells_with(g, v).contains(y) && f(x) == f(y) implies x
        == y by {}
    lemma_injective_map_len(cells_with(g, v), f);
    assert(cells_with(rg, v) =~= cells_with(g, v).map(f)) by {
        assert forall|p: (int, int)| #[trigger] cells_with(rg, v).contains(p) implies cells_with(
            g,
            v,
        ).map(f).contains(p) by {
            let q: (int, int) = match r {
                MatrixRotation::Deg0 => p,
                MatrixRotation::Deg90 => (p.1, h - 1 - p.0),
                MatrixRotation::Deg180 => (w - 1 - p.0, h - 1 - p.1),
                MatrixRotation::Deg270 => (w - 1 - p.1, p.0),
            };
            assert(cells_with(g, v).contains(q) && f(q) == p);
        }
        assert forall|p: (int, int)| cells_with(g, v).map(f).contains(p) implies #[trigger]
        cells_with(rg, v).contains(p) by {
            let q = choose|q: (int, int)| cells_with(g, v).contains(q) && f(q) == p;
            assert(rg[p.1][p.0] == g[q.1][q.0]);
        }
    }
}

} // verus!
