use vstd::prelude::*;

verus! {

/// Number of cells along each side of an instance's grid.
pub const GRID_SIDE: usize = 128;

/// Number of cells in an instance's grid.
pub const GRID_CELLS: usize = 16384;

/// Whether `(x, y)` names a cell of the grid.
pub open spec fn in_grid(x: int, y: int) -> bool {
    0 <= x < GRID_SIDE && 0 <= y < GRID_SIDE
}

/// Position of cell `(x, y)` in the row-major sequence of cells.
pub open spec fn cell_index(x: int, y: int) -> int {
    x * 128 + y
}

/// Sum of `f` over the cells `(x, y)` with `ylo <= y < yhi`.
pub open spec fn col_sum<T>(s: Seq<T>, f: spec_fn(T) -> int, x: int, ylo: int, yhi: int) -> int
    decreases yhi - ylo,
{
    if yhi <= ylo {
        0
    } else {
        col_sum(s, f, x, ylo, yhi - 1) + f(s[cell_index(x, yhi - 1)])
    }
}

/// Sum of `f` over the cells `(x, y)` with `xlo <= x < xhi` and `ylo <= y < yhi`.
pub open spec fn rect_sum<T>(
    s: Seq<T>,
    f: spec_fn(T) -> int,
    xlo: int,
    xhi: int,
    ylo: int,
    yhi: int,
) -> int
    decreases xhi - xlo,
{
    if xhi <= xlo {
        0
    } else {
        rect_sum(s, f, xlo, xhi - 1, ylo, yhi) + col_sum(s, f, xhi - 1, ylo, yhi)
    }
}

/// Sum of `f` over the whole grid.
pub open spec fn grid_sum<T>(s: Seq<T>, f: spec_fn(T) -> int) -> int {
    rect_sum(s, f, 0, 128, 0, 128)
}

/// Lower bound (inclusive) of the window of radius `r` around coordinate `c`,
/// clipped to the grid.
pub open spec fn win_lo(c: int, r: int) -> int {
    if c - r < 0 {
        0
    } else {
        c - r
    }
}

/// Upper bound (exclusive) of the window of radius `r` around coordinate `c`,
/// clipped to the grid.
pub open spec fn win_hi(c: int, r: int) -> int {
    if c + r + 1 > 128 {
        128
    } else {
        c + r + 1
    }
}

/// Whether cell `(a, b)` lies within radius `r` of `(x, y)` (in both axes).
pub open spec fn in_window(x: int, y: int, r: int, a: int, b: int) -> bool {
    &&& x - r <= a <= x + r
    &&& y - r <= b <= y + r
}

/// Sum of `f` over the cells of the grid within radius `r` of `(x, y)`.
pub open spec fn window_sum<T>(s: Seq<T>, f: spec_fn(T) -> int, x: int, y: int, r: int) -> int {
    rect_sum(s, f, win_lo(x, r), win_hi(x, r), win_lo(y, r), win_hi(y, r))
}

/// Cells of the grid have positions within the grid.
pub proof fn lemma_cell_index(x: int, y: int)
    requires
        in_grid(x, y),
    ensures
        0 <= cell_index(x, y) < GRID_CELLS,
{
}

/// Distinct cells of the grid have distinct positions.
pub proof fn lemma_cell_index_injective(x1: int, y1: int, x2: int, y2: int)
    requires
        0 <= y1 < 128,
        0 <= y2 < 128,
        cell_index(x1, y1) == cell_index(x2, y2),
    ensures
        x1 == x2,
        y1 == y2,
{
}

/// Summing a column changes by the change of the one updated cell, if it is in the column.
pub proof fn lemma_col_update<T>(
    s: Seq<T>,
    f: spec_fn(T) -> int,
    x: int,
    ylo: int,
    yhi: int,
    a: int,
    b: int,
    v: T,
)
    requires
        s.len() == GRID_CELLS,
        in_grid(a, b),
        0 <= x < 128,
        0 <= ylo,
        yhi <= 128,
    ensures
        col_sum(s.update(cell_index(a, b), v), f, x, ylo, yhi) == col_sum(s, f, x, ylo, yhi) + (
        if x == a && ylo <= b < yhi {
            f(v) - f(s[cell_index(a, b)])
        } else {
            0
        }),
    decreases yhi - ylo,
{
    if yhi > ylo {
        lemma_col_update(s, f, x, ylo, yhi - 1, a, b, v);
        if cell_index(x, yhi - 1) == cell_index(a, b) {
            lemma_cell_index_injective(x, yhi - 1, a, b);
        }
    }
}

/// Summing a rectangle changes by the change of the one updated cell, if it is in the rectangle.
pub proof fn lemma_rect_update<T>(
    s: Seq<T>,
    f: spec_fn(T) -> int,
    xlo: int,
    xhi: int,
    ylo: int,
    yhi: int,
    a: int,
    b: int,
    v: T,
)
    requires
        s.len() == GRID_CELLS,
        in_grid(a, b),
        0 <= xlo,
        xhi <= 128,
        0 <= ylo,
        yhi <= 128,
    ensures
        rect_sum(s.update(cell_index(a, b), v), f, xlo, xhi, ylo, yhi) == rect_sum(
            s,
            f,
            xlo,
            xhi,
            ylo,
            yhi,
        ) + (if xlo <= a < xhi && ylo <= b < yhi {
            f(v) - f(s[cell_index(a, b)])
        } else {
            0
        }),
    decreases xhi - xlo,
{
    if xhi > xlo {
        lemma_rect_update(s, f, xlo, xhi - 1, ylo, yhi, a, b, v);
        lemma_col_update(s, f, xhi - 1, ylo, yhi, a, b, v);
    }
}

/// A window sum changes by the change of the one updated cell exactly when that
/// cell lies within the window.
pub proof fn lemma_window_update<T>(
    s: Seq<T>,
    f: spec_fn(T) -> int,
    x: int,
    y: int,
    r: int,
    a: int,
    b: int,
    v: T,
)
    requires
        s.len() == GRID_CELLS,
        in_grid(a, b),
        r >= 0,
    ensures
        window_sum(s.update(cell_index(a, b), v), f, x, y, r) == window_sum(s, f, x, y, r) + (
        if in_window(x, y, r, a, b) {
            f(v) - f(s[cell_index(a, b)])
        } else {
            0
        }),
{
    lemma_rect_update(s, f, win_lo(x, r), win_hi(x, r), win_lo(y, r), win_hi(y, r), a, b, v);
}

/// Two grids that agree under `f` on a column have the same column sum.
pub proof fn lemma_col_ext<T>(
    s1: Seq<T>,
    s2: Seq<T>,
    f: spec_fn(T) -> int,
    x: int,
    ylo: int,
    yhi: int,
)
    requires
        forall|y: int| ylo <= y < yhi ==> f(s1[cell_index(x, y)]) == f(s2[cell_index(x, y)]),
    ensures
        col_sum(s1, f, x, ylo, yhi) == col_sum(s2, f, x, ylo, yhi),
    decreases yhi - ylo,
{
    if yhi > ylo {
        lemma_col_ext(s1, s2, f, x, ylo, yhi - 1);
    }
}

/// Two grids that agree under `f` on a rectangle have the same rectangle sum.
pub proof fn lemma_rect_ext<T>(
    s1: Seq<T>,
    s2: Seq<T>,
    f: spec_fn(T) -> int,
    xlo: int,
    xhi: int,
    ylo: int,
    yhi: int,
)
    requires
        forall|x: int, y: int|
            xlo <= x < xhi && ylo <= y < yhi ==> f(s1[cell_index(x, y)]) == f(
                s2[cell_index(x, y)],
            ),
    ensures
        rect_sum(s1, f, xlo, xhi, ylo, yhi) == rect_sum(s2, f, xlo, xhi, ylo, yhi),
    decreases xhi - xlo,
{
    if xhi > xlo {
        lemma_rect_ext(s1, s2, f, xlo, xhi - 1, ylo, yhi);
        assert forall|y: int| ylo <= y < yhi implies #[trigger] f(s1[cell_index(xhi - 1, y)])
            == f(s2[cell_index(xhi - 1, y)]) by {}
        lemma_col_ext(s1, s2, f, xhi - 1, ylo, yhi);
    }
}

/// Sums over grids compare as their cells do.
pub proof fn lemma_col_le<T>(
    s: Seq<T>,
    f: spec_fn(T) -> int,
    g: spec_fn(T) -> int,
    x: int,
    ylo: int,
    yhi: int,
)
    requires
        forall|y: int| ylo <= y < yhi ==> f(s[cell_index(x, y)]) <= g(s[cell_index(x, y)]),
    ensures
        col_sum(s, f, x, ylo, yhi) <= col_sum(s, g, x, ylo, yhi),
    decreases yhi - ylo,
{
    if yhi > ylo {
        lemma_col_le(s, f, g, x, ylo, yhi - 1);
    }
}

/// Sums over grids compare as their cells do.
pub proof fn lemma_rect_le<T>(
    s: Seq<T>,
    f: spec_fn(T) -> int,
    g: spec_fn(T) -> int,
    xlo: int,
    xhi: int,
    ylo: int,
    yhi: int,
)
    requires
        forall|x: int, y: int|
            xlo <= x < xhi && ylo <= y < yhi ==> f(s[cell_index(x, y)]) <= g(
                s[cell_index(x, y)],
            ),
    ensures
        rect_sum(s, f, xlo, xhi, ylo, yhi) <= rect_sum(s, g, xlo, xhi, ylo, yhi),
    decreases xhi - xlo,
{
    if xhi > xlo {
        lemma_rect_le(s, f, g, xlo, xhi - 1, ylo, yhi);
        lemma_col_le(s, f, g, xhi - 1, ylo, yhi);
    }
}

/// A column sum splits at any row in between.
pub proof fn lemma_col_split<T>(s: Seq<T>, f: spec_fn(T) -> int, x: int, a: int, b: int, c: int)
    requires
        a <= b <= c,
    ensures
        col_sum(s, f, x, a, c) == col_sum(s, f, x, a, b) + col_sum(s, f, x, b, c),
    decreases c - b,
{
    if c > b {
        lemma_col_split(s, f, x, a, b, c - 1);
    }
}

/// A rectangle sum splits at any column in between.
pub proof fn lemma_rect_split<T>(
    s: Seq<T>,
    f: spec_fn(T) -> int,
    a: int,
    b: int,
    c: int,
    ylo: int,
    yhi: int,
)
    requires
        a <= b <= c,
    ensures
        rect_sum(s, f, a, c, ylo, yhi) == rect_sum(s, f, a, b, ylo, yhi) + rect_sum(
            s,
            f,
            b,
            c,
            ylo,
            yhi,
        ),
    decreases c - b,
{
    if c > b {
        lemma_rect_split(s, f, a, b, c - 1, ylo, yhi);
    }
}

/// Sums of nonnegative cells are nonnegative.
pub proof fn lemma_col_nonneg<T>(s: Seq<T>, f: spec_fn(T) -> int, x: int, ylo: int, yhi: int)
    requires
        forall|t: T| #[trigger] f(t) >= 0,
    ensures
        col_sum(s, f, x, ylo, yhi) >= 0,
    decreases yhi - ylo,
{
    if yhi > ylo {
        lemma_col_nonneg(s, f, x, ylo, yhi - 1);
    }
}

/// Sums of nonnegative cells are nonnegative.
pub proof fn lemma_rect_nonneg<T>(
    s: Seq<T>,
    f: spec_fn(T) -> int,
    xlo: int,
    xhi: int,
    ylo: int,
    yhi: int,
)
    requires
        forall|t: T| #[trigger] f(t) >= 0,
    ensures
        rect_sum(s, f, xlo, xhi, ylo, yhi) >= 0,
    decreases xhi - xlo,
{
    if xhi > xlo {
        lemma_rect_nonneg(s, f, xlo, xhi - 1, ylo, yhi);
        lemma_col_nonneg(s, f, xhi - 1, ylo, yhi);
    }
}

/// For nonnegative cells, a sub-rectangle sums to no more than the whole grid.
pub proof fn lemma_rect_le_grid<T>(
    s: Seq<T>,
    f: spec_fn(T) -> int,
    xlo: int,
    xhi: int,
    ylo: int,
    yhi: int,
)
    requires
        forall|t: T| #[trigger] f(t) >= 0,
        0 <= xlo <= xhi <= 128,
        0 <= ylo <= yhi <= 128,
    ensures
        rect_sum(s, f, xlo, xhi, ylo, yhi) <= grid_sum(s, f),
    decreases xhi - xlo,
{
    lemma_rect_rows_le(s, f, xlo, xhi, ylo, yhi);
    lemma_rect_split(s, f, 0, xlo, 128, 0, 128);
    lemma_rect_split(s, f, xlo, xhi, 128, 0, 128);
    lemma_rect_nonneg(s, f, 0, xlo, 0, 128);
    lemma_rect_nonneg(s, f, xhi, 128, 0, 128);
}

/// For nonnegative cells, narrowing the rows of a rectangle does not increase its sum.
pub proof fn lemma_rect_rows_le<T>(
    s: Seq<T>,
    f: spec_fn(T) -> int,
    xlo: int,
    xhi: int,
    ylo: int,
    yhi: int,
)
    requires
        forall|t: T| #[trigger] f(t) >= 0,
        0 <= ylo <= yhi <= 128,
    ensures
        rect_sum(s, f, xlo, xhi, ylo, yhi) <= rect_sum(s, f, xlo, xhi, 0, 128),
    decreases xhi - xlo,
{
    if xhi > xlo {
        lemma_rect_rows_le(s, f, xlo, xhi - 1, ylo, yhi);
        let x = xhi - 1;
        lemma_col_split(s, f, x, 0, ylo, 128);
        lemma_col_split(s, f, x, ylo, yhi, 128);
        lemma_col_nonneg(s, f, x, 0, ylo);
        lemma_col_nonneg(s, f, x, yhi, 128);
    }
}

/// For nonnegative cells, a column sums to more than zero exactly when one of
/// its cells does.
pub proof fn lemma_col_pos<T>(s: Seq<T>, f: spec_fn(T) -> int, x: int, ylo: int, yhi: int)
    requires
        forall|t: T| #[trigger] f(t) >= 0,
    ensures
        col_sum(s, f, x, ylo, yhi) > 0 <==> exists|b: int|
            ylo <= b < yhi && #[trigger] f(s[cell_index(x, b)]) > 0,
    decreases yhi - ylo,
{
    if yhi > ylo {
        lemma_col_pos(s, f, x, ylo, yhi - 1);
        lemma_col_nonneg(s, f, x, ylo, yhi - 1);
        if exists|b: int| ylo <= b < yhi && #[trigger] f(s[cell_index(x, b)]) > 0 {
            let b = choose|b: int| ylo <= b < yhi && #[trigger] f(s[cell_index(x, b)]) > 0;
            if b < yhi - 1 {
                assert(f(s[cell_index(x, yhi - 1)]) >= 0);
            }
        }
        if col_sum(s, f, x, ylo, yhi) > 0 {
            if col_sum(s, f, x, ylo, yhi - 1) > 0 {
                let b = choose|b: int| ylo <= b < yhi - 1 && #[trigger] f(s[cell_index(x, b)]) > 0;
                assert(ylo <= b < yhi && f(s[cell_index(x, b)]) > 0);
            } else {
                assert(f(s[cell_index(x, yhi - 1)]) > 0);
            }
        }
    }
}

/// For nonnegative cells, a rectangle sums to more than zero exactly when one
/// of its cells does.
pub proof fn lemma_rect_pos<T>(
    s: Seq<T>,
    f: spec_fn(T) -> int,
    xlo: int,
    xhi: int,
    ylo: int,
    yhi: int,
)
    requires
        forall|t: T| #[trigger] f(t) >= 0,
    ensures
        rect_sum(s, f, xlo, xhi, ylo, yhi) > 0 <==> exists|a: int, b: int|
            xlo <= a < xhi && ylo <= b < yhi && #[trigger] f(s[cell_index(a, b)]) > 0,
    decreases xhi - xlo,
{
    if xhi > xlo {
        lemma_rect_pos(s, f, xlo, xhi - 1, ylo, yhi);
        lemma_rect_nonneg(s, f, xlo, xhi - 1, ylo, yhi);
        lemma_col_pos(s, f, xhi - 1, ylo, yhi);
        lemma_col_nonneg(s, f, xhi - 1, ylo, yhi);
        if exists|a: int, b: int| xlo <= a < xhi && ylo <= b < yhi && #[trigger] f(s[cell_index(a, b)]) > 0 {
            let (a, b) = choose|a: int, b: int|
                xlo <= a < xhi && ylo <= b < yhi && #[trigger] f(s[cell_index(a, b)]) > 0;
            if a < xhi - 1 {
                assert(rect_sum(s, f, xlo, xhi - 1, ylo, yhi) > 0);
            } else {
                assert(col_sum(s, f, xhi - 1, ylo, yhi) > 0);
            }
        }
        if rect_sum(s, f, xlo, xhi, ylo, yhi) > 0 {
            if rect_sum(s, f, xlo, xhi - 1, ylo, yhi) > 0 {
                let (a, b) = choose|a: int, b: int|
                    xlo <= a < xhi - 1 && ylo <= b < yhi && #[trigger] f(s[cell_index(a, b)]) > 0;
                assert(xlo <= a < xhi && ylo <= b < yhi && f(s[cell_index(a, b)]) > 0);
            } else {
                let b = choose|b: int| ylo <= b < yhi && #[trigger] f(s[cell_index(xhi - 1, b)]) > 0;
                assert(xlo <= xhi - 1 < xhi && ylo <= b < yhi && f(s[cell_index(xhi - 1, b)]) > 0);
            }
        }
    }
}

/// Two grids summed under two functions that agree cell by cell on a column
/// have the same column sum.
pub proof fn lemma_col_ext2<T, U>(
    s1: Seq<T>,
    f1: spec_fn(T) -> int,
    s2: Seq<U>,
    f2: spec_fn(U) -> int,
    x: int,
    ylo: int,
    yhi: int,
)
    requires
        forall|y: int| ylo <= y < yhi ==> #[trigger] f1(s1[cell_index(x, y)]) == f2(s2[cell_index(x, y)]),
    ensures
        col_sum(s1, f1, x, ylo, yhi) == col_sum(s2, f2, x, ylo, yhi),
    decreases yhi - ylo,
{
    if yhi > ylo {
        lemma_col_ext2(s1, f1, s2, f2, x, ylo, yhi - 1);
    }
}

/// Two grids summed under two functions that agree cell by cell on a
/// rectangle have the same rectangle sum.
pub proof fn lemma_rect_ext2<T, U>(
    s1: Seq<T>,
    f1: spec_fn(T) -> int,
    s2: Seq<U>,
    f2: spec_fn(U) -> int,
    xlo: int,
    xhi: int,
    ylo: int,
    yhi: int,
)
    requires
        forall|x: int, y: int|
            xlo <= x < xhi && ylo <= y < yhi ==> #[trigger] f1(s1[cell_index(x, y)]) == f2(s2[cell_index(x, y)]),
    ensures
        rect_sum(s1, f1, xlo, xhi, ylo, yhi) == rect_sum(s2, f2, xlo, xhi, ylo, yhi),
    decreases xhi - xlo,
{
    if xhi > xlo {
        lemma_rect_ext2(s1, f1, s2, f2, xlo, xhi - 1, ylo, yhi);
        assert forall|y: int| ylo <= y < yhi implies #[trigger] f1(s1[cell_index(xhi - 1, y)]) == f2(s2[cell_index(xhi - 1, y)]) by {
            assert(f1(s1[cell_index(xhi - 1, y)]) == f2(s2[cell_index(xhi - 1, y)]));
        }
        lemma_col_ext2(s1, f1, s2, f2, xhi - 1, ylo, yhi);
    }
}

} // verus!
