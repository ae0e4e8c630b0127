//! The seam engine: finds vertical seams of minimal greedy cost through an
//! energy grid and removes or duplicates their columns.
//!
//! Seam search is the greedy one-row-lookahead scheme, not full cumulative
//! dynamic programming: the starting column minimizes the top cell's energy
//! plus the minimum of the three cells reachable one row below, and each
//! subsequent row moves to the cheapest of the three reachable cells, ties
//! broken toward the same column unless the right neighbor undercuts the
//! running choice. This greedy shortcut is deliberate, documented behavior.

use vstd::prelude::*;

use crate::energy::{grid_rect, grid_view, grid_width, Energy};
use crate::error::TransformError;

verus! {

/// The minimum energy among the cells of `row` reachable from column `i`:
/// left, same, right, with out-of-bounds neighbors excluded.
pub open spec fn min_reach_spec(row: Seq<i32>, i: int) -> int
    recommends
        0 <= i < row.len(),
{
    let m0 = row[i] as int;
    let m1 = if i > 0 && row[i - 1] < m0 {
        row[i - 1] as int
    } else {
        m0
    };
    if i + 1 < row.len() && row[i + 1] < m1 {
        row[i + 1] as int
    } else {
        m1
    }
}

/// The projected cost of starting a seam at top-row column `i`: the top
/// cell's energy plus a one-row lookahead (zero when the grid has a single
/// row).
pub open spec fn projected_cost_spec(g: Seq<Seq<i32>>, i: int) -> int
    recommends
        g.len() >= 1,
        0 <= i < grid_width(g),
{
    if g.len() >= 2 {
        g[0][i] + min_reach_spec(g[1], i)
    } else {
        g[0][i] as int
    }
}

/// The first index in `[0, n)` with minimal projected cost (0 when `n <= 1`).
pub open spec fn best_start_upto(g: Seq<Seq<i32>>, n: int) -> int
    decreases n,
{
    if n <= 1 {
        0
    } else {
        let p = best_start_upto(g, n - 1);
        if projected_cost_spec(g, n - 1) < projected_cost_spec(g, p) {
            n - 1
        } else {
            p
        }
    }
}

/// The column the seam moves to in `row`, coming from column `i` in the row
/// above: the cheapest of left, same, right; ties keep the same column
/// unless the right neighbor is strictly cheaper than the running choice,
/// and left is taken only when strictly cheaper than the same column.
pub open spec fn step_col_spec(row: Seq<i32>, i: int) -> int
    recommends
        0 <= i < row.len(),
{
    let c1 = if i > 0 && row[i - 1] < row[i] {
        i - 1
    } else {
        i
    };
    if i + 1 < row.len() && row[i + 1] < row[c1] {
        i + 1
    } else {
        c1
    }
}

/// The column the current minimal seam visits at row `r`.
pub open spec fn seam_col_spec(g: Seq<Seq<i32>>, r: int) -> int
    decreases r,
{
    if r <= 0 {
        best_start_upto(g, grid_width(g))
    } else {
        step_col_spec(g[r], seam_col_spec(g, r - 1))
    }
}

/// The grid after removing the current minimal seam: each row loses the
/// cell the seam visits in it.
pub open spec fn carve_one_spec(g: Seq<Seq<i32>>) -> Seq<Seq<i32>> {
    Seq::new(g.len(), |r: int| g[r].remove(seam_col_spec(g, r)))
}

/// The grid after `n` greedy seam removals, each computed against the
/// already-narrowed grid of the previous step.
pub open spec fn carve_steps_spec(g: Seq<Seq<i32>>, n: int) -> Seq<Seq<i32>>
    decreases n,
{
    if n <= 0 {
        g
    } else {
        carve_one_spec(carve_steps_spec(g, n - 1))
    }
}

/// The top-row column recorded for seam `i` of `n`: the start of the
/// minimal seam of the grid after `i` earlier removals.
pub open spec fn seam_start_spec(g: Seq<Seq<i32>>, i: int) -> int {
    seam_col_spec(carve_steps_spec(g, i), 0)
}

/// A row after a removal pass: walking the row left to right, a cell is
/// dropped when its column matches the next pending entry of `cols`
/// (starting from entry `p`), and kept otherwise.
pub open spec fn remove_pending_spec(row: Seq<i32>, cols: Seq<usize>, j: int, p: int) -> Seq<i32>
    decreases row.len() - j,
{
    if j < 0 || j >= row.len() {
        Seq::empty()
    } else if 0 <= p < cols.len() && cols[p] == j {
        remove_pending_spec(row, cols, j + 1, p + 1)
    } else {
        seq![row[j]] + remove_pending_spec(row, cols, j + 1, p)
    }
}

/// A row after a duplication pass: walking the row left to right, a cell is
/// emitted twice when its column matches the next pending entry of `cols`,
/// and once otherwise.
pub open spec fn dup_pending_spec(row: Seq<i32>, cols: Seq<usize>, j: int, p: int) -> Seq<i32>
    decreases row.len() - j,
{
    if j < 0 || j >= row.len() {
        Seq::empty()
    } else if 0 <= p < cols.len() && cols[p] == j {
        seq![row[j], row[j]] + dup_pending_spec(row, cols, j + 1, p + 1)
    } else {
        seq![row[j]] + dup_pending_spec(row, cols, j + 1, p)
    }
}

/// The first minimum over a prefix lies inside that prefix.
proof fn lemma_best_start_bound(g: Seq<Seq<i32>>, n: int)
    requires
        n >= 1,
    ensures
        0 <= best_start_upto(g, n) < n,
    decreases n,
{
    if n > 1 {
        lemma_best_start_bound(g, n - 1);
    }
}

/// Stepping from an in-bounds column stays in bounds.
proof fn lemma_step_col_bound(row: Seq<i32>, i: int)
    requires
        0 <= i < row.len(),
    ensures
        0 <= step_col_spec(row, i) < row.len(),
{
}

/// Every column of the minimal seam is in bounds, in a rectangular grid of
/// positive width.
proof fn lemma_seam_col_bound(g: Seq<Seq<i32>>, r: int)
    requires
        grid_rect(g),
        g.len() >= 1,
        grid_width(g) >= 1,
        0 <= r < g.len(),
    ensures
        0 <= seam_col_spec(g, r) < grid_width(g),
    decreases r,
{
    if r <= 0 {
        lemma_best_start_bound(g, grid_width(g));
    } else {
        lemma_seam_col_bound(g, r - 1);
        assert(g[r].len() == grid_width(g));
        lemma_step_col_bound(g[r], seam_col_spec(g, r - 1));
    }
}

/// Removing one seam keeps the grid rectangular, with the same height and
/// one less column per row.
proof fn lemma_carve_one_shape(g: Seq<Seq<i32>>)
    requires
        grid_rect(g),
        g.len() >= 1,
        grid_width(g) >= 1,
    ensures
        carve_one_spec(g).len() == g.len(),
        grid_rect(carve_one_spec(g)),
        grid_width(carve_one_spec(g)) == grid_width(g) - 1,
{
    let c = carve_one_spec(g);
    assert forall|r: int| 0 <= r < c.len() implies (#[trigger] c[r]).len() == grid_width(g)
        - 1 by {
        lemma_seam_col_bound(g, r);
        assert(g[r].len() == grid_width(g));
    }
    assert(c[0].len() == grid_width(g) - 1);
}

/// After `n <= width` greedy removals the grid is rectangular with the same
/// height and `n` fewer columns per row.
proof fn lemma_carve_steps_shape(g: Seq<Seq<i32>>, n: int)
    requires
        grid_rect(g),
        g.len() >= 1,
        0 <= n <= grid_width(g),
    ensures
        carve_steps_spec(g, n).len() == g.len(),
        grid_rect(carve_steps_spec(g, n)),
        grid_width(carve_steps_spec(g, n)) == grid_width(g) - n,
    decreases n,
{
    if n > 0 {
        lemma_carve_steps_shape(g, n - 1);
        lemma_carve_one_shape(carve_steps_spec(g, n - 1));
    }
}

/// The minimum energy among the cells of `row` reachable from column `i`.
fn min_reach(row: &Vec<i32>, i: usize) -> (m: i32)
    requires
        i < row@.len(),
    ensures
        m as int == min_reach_spec(row@, i as int),
{
    let len = row.len();
    let mut m = row[i];
    if i > 0 {
        let left = row[i - 1];
        if left < m {
            m = left;
        }
    }
    if i + 1 < len {
        let right = row[i + 1];
        if right < m {
            m = right;
        }
    }
    m
}

/// The next column of a seam being traced into `row` from column `i` of the
/// row above.
fn step_col(row: &Vec<i32>, i: usize) -> (c: usize)
    requires
        i < row@.len(),
    ensures
        c as int == step_col_spec(row@, i as int),
        c < row@.len(),
{
    let len = row.len();
    let mut c = i;
    if i > 0 && row[i - 1] < row[i] {
        c = i - 1;
    }
    if i + 1 < len && row[i + 1] < row[c] {
        c = i + 1;
    }
    c
}

/// A copy of `row` with the cell at column `c` removed.
fn remove_at_copy(row: &Vec<i32>, c: usize) -> (out: Vec<i32>)
    requires
        c < row@.len(),
    ensures
        out@ == row@.remove(c as int),
{
    let mut out: Vec<i32> = Vec::new();
    let len = row.len();
    let mut j: usize = 0;
    while j < len
        invariant
            j <= len,
            len == row@.len(),
            c < len,
            out@ == if j <= c {
                row@.subrange(0, j as int)
            } else {
                row@.subrange(0, c as int) + row@.subrange(c as int + 1, j as int)
            },
        decreases len - j,
    {
        if j != c {
            out.push(row[j]);
            proof {
                if j < c {
                    assert(out@ =~= row@.subrange(0, j + 1));
                } else {
                    assert(out@ =~= row@.subrange(0, c as int) + row@.subrange(
                        c as int + 1,
                        j + 1,
                    ));
                }
            }
        } else {
            proof {
                assert(out@ =~= row@.subrange(0, c as int) + row@.subrange(
                    c as int + 1,
                    j + 1,
                ));
            }
        }
        j = j + 1;
    }
    proof {
        assert(out@ =~= row@.remove(c as int));
    }
    out
}

impl Energy {
    /// Finds `seam_count` greedy minimal seams, each against the grid
    /// already narrowed by the previous removals, and returns their top-row
    /// columns in order. Fails if and only if `seam_count` exceeds the
    /// current width.
    pub fn find_seams(&self, seam_count: usize) -> (res: Result<Vec<usize>, TransformError>)
        requires
            grid_rect(grid_view(self.pixels)),
            grid_view(self.pixels).len() >= 1,
        ensures
            ({
                let g0 = grid_view(self.pixels);
                match res {
                    Ok(seams) => {
                        &&& seam_count <= grid_width(g0)
                        &&& seams@.len() == seam_count
                        &&& forall|i: int|
                            0 <= i < seam_count ==> #[trigger] seams@[i] as int == seam_start_spec(
                                g0,
                                i,
                            )
                    },
                    Err(e) => e == TransformError::InvalidParameter && seam_count > grid_width(g0),
                }
            }),
    {
        let ghost g0 = grid_view(self.pixels);
        let h = self.pixels.len();
        let w0 = self.pixels[0].len();
        proof {
            assert(grid_width(g0) == w0);
        }
        if seam_count > w0 {
            return Err(TransformError::InvalidParameter);
        }
        let mut work: Vec<Vec<i32>> = self.get_pixels();
        let mut result: Vec<usize> = Vec::new();
        let mut it: usize = 0;
        while it < seam_count
            invariant
                it <= seam_count,
                seam_count <= w0,
                h == g0.len(),
                h >= 1,
                w0 == grid_width(g0),
                grid_rect(g0),
                grid_view(work) == carve_steps_spec(g0, it as int),
                result@.len() == it,
                forall|i: int|
                    0 <= i < it ==> #[trigger] result@[i] as int == seam_start_spec(g0, i),
            decreases seam_count - it,
        {
            let ghost gcur = carve_steps_spec(g0, it as int);
            proof {
                lemma_carve_steps_shape(g0, it as int);
                assert(gcur.len() == h);
                assert(grid_width(gcur) == w0 - it);
            }
            let wcur = work[0].len();
            proof {
                assert(grid_view(work)[0] == work@[0]@);
                assert(wcur == grid_width(gcur));
                assert(wcur >= 1);
            }
            // Scan the top row for the starting column with the lowest
            // projected cost.
            let mut best: usize = 0;
            let mut best_cost: i64 = work[0][0] as i64 + (if h >= 2 {
                proof {
                    assert(grid_view(work)[1] == work@[1]@);
                    assert(work@[1]@.len() == wcur);
                }
                min_reach(&work[1], 0) as i64
            } else {
                0
            });
            proof {
                assert(best_cost == projected_cost_spec(gcur, 0));
            }
            let mut i: usize = 1;
            while i < wcur
                invariant
                    1 <= i <= wcur,
                    h == gcur.len(),
                    h >= 1,
                    grid_rect(gcur),
                    wcur == grid_width(gcur),
                    wcur >= 1,
                    grid_view(work) == gcur,
                    work@.len() == h,
                    best < i,
                    best as int == best_start_upto(gcur, i as int),
                    best_cost == projected_cost_spec(gcur, best as int),
                decreases wcur - i,
            {
                proof {
                    assert(grid_view(work)[0] == work@[0]@);
                    assert(work@[0]@.len() == wcur);
                }
                let cost: i64 = work[0][i] as i64 + (if h >= 2 {
                    proof {
                        assert(grid_view(work)[1] == work@[1]@);
                        assert(work@[1]@.len() == wcur);
                    }
                    min_reach(&work[1], i) as i64
                } else {
                    0
                });
                proof {
                    assert(cost == projected_cost_spec(gcur, i as int));
                }
                if cost < best_cost {
                    best = i;
                    best_cost = cost;
                }
                i = i + 1;
            }
            // Trace the seam downward and drop the visited cell of each row.
            let mut new_work: Vec<Vec<i32>> = Vec::new();
            proof {
                assert(grid_view(work)[0] == work@[0]@);
                assert(best as int == seam_col_spec(gcur, 0));
            }
            let first = remove_at_copy(&work[0], best);
            new_work.push(first);
            let mut prev: usize = best;
            let mut r: usize = 1;
            while r < h
                invariant
                    1 <= r <= h,
                    h == gcur.len(),
                    grid_rect(gcur),
                    wcur == grid_width(gcur),
                    wcur >= 1,
                    grid_view(work) == gcur,
                    work@.len() == h,
                    prev < wcur,
                    prev as int == seam_col_spec(gcur, r - 1),
                    new_work@.len() == r,
                    forall|rr: int|
                        0 <= rr < r ==> (#[trigger] new_work@[rr])@ == gcur[rr].remove(
                            seam_col_spec(gcur, rr),
                        ),
                decreases h - r,
            {
                proof {
                    assert(grid_view(work)[r as int] == work@[r as int]@);
                    assert(work@[r as int]@.len() == wcur);
                }
                let c = step_col(&work[r], prev);
                proof {
                    assert(c as int == seam_col_spec(gcur, r as int));
                }
                let carved = remove_at_copy(&work[r], c);
                new_work.push(carved);
                prev = c;
                r = r + 1;
            }
            proof {
                lemma_carve_one_shape(gcur);
                assert(grid_view(new_work) =~= carve_one_spec(gcur));
            }
            work = new_work;
            result.push(best);
            it = it + 1;
        }
        Ok(result)
    }

    /// Removes the given seam columns from every row in one pass: a cell is
    /// dropped when its column matches the next pending seam index. The
    /// `scale` flag requests interpolated filling, which is not implemented:
    /// asking for it fails loudly and leaves the grid untouched.
    pub fn remove_seams(&mut self, seams: Vec<usize>, scale: bool) -> (res: Result<
        (),
        TransformError,
    >)
        ensures
            final(self).kernel == old(self).kernel,
            scale ==> {
                &&& res == Err::<(), TransformError>(TransformError::InvalidParameter)
                &&& final(self).pixels@ == old(self).pixels@
            },
            !scale ==> {
                &&& res == Ok::<(), TransformError>(())
                &&& grid_view(final(self).pixels).len() == grid_view(old(self).pixels).len()
                &&& forall|r: int|
                    0 <= r < grid_view(old(self).pixels).len() ==> #[trigger] grid_view(
                        final(self).pixels,
                    )[r] == remove_pending_spec(grid_view(old(self).pixels)[r], seams@, 0, 0)
            },
    {
        if scale {
            return Err(TransformError::InvalidParameter);
        }
        let ghost g0 = grid_view(self.pixels);
        let h = self.pixels.len();
        let mut result: Vec<Vec<i32>> = Vec::new();
        let mut r: usize = 0;
        while r < h
            invariant
                r <= h,
                h == g0.len(),
                g0 == grid_view(self.pixels),
                result@.len() == r,
                forall|rr: int|
                    0 <= rr < r ==> (#[trigger] result@[rr])@ == remove_pending_spec(
                        g0[rr],
                        seams@,
                        0,
                        0,
                    ),
            decreases h - r,
        {
            let row = &self.pixels[r];
            let len = row.len();
            let mut newrow: Vec<i32> = Vec::new();
            let mut p: usize = 0;
            let mut j: usize = 0;
            while j < len
                invariant
                    j <= len,
                    len == row@.len(),
                    p <= seams@.len(),
                    remove_pending_spec(row@, seams@, 0, 0) == newrow@ + remove_pending_spec(
                        row@,
                        seams@,
                        j as int,
                        p as int,
                    ),
                decreases len - j,
            {
                if p < seams.len() && seams[p] == j {
                    p = p + 1;
                } else {
                    newrow.push(row[j]);
                }
                proof {
                    assert(remove_pending_spec(row@, seams@, 0, 0) =~= newrow@
                        + remove_pending_spec(row@, seams@, j + 1, p as int));
                }
                j = j + 1;
            }
            proof {
                assert(newrow@ =~= remove_pending_spec(row@, seams@, 0, 0));
                assert(g0[r as int] == self.pixels@[r as int]@);
            }
            result.push(newrow);
            r = r + 1;
        }
        self.pixels = result;
        proof {
            assert forall|rr: int| 0 <= rr < g0.len() implies #[trigger] grid_view(
                final(self).pixels,
            )[rr] == remove_pending_spec(g0[rr], seams@, 0, 0) by {
                assert(grid_view(self.pixels)[rr] == self.pixels@[rr]@);
            }
        }
        Ok(())
    }

    /// Widens the grid by duplicating, per row, the cell at each recorded
    /// seam position of that row.
    pub fn add_seams(&mut self, seams: Vec<Vec<usize>>) -> (r: ())
        requires
            seams@.len() == grid_view(old(self).pixels).len(),
        ensures
            final(self).kernel == old(self).kernel,
            grid_view(final(self).pixels).len() == grid_view(old(self).pixels).len(),
            forall|r: int|
                0 <= r < grid_view(old(self).pixels).len() ==> #[trigger] grid_view(
                    final(self).pixels,
                )[r] == dup_pending_spec(grid_view(old(self).pixels)[r], seams@[r]@, 0, 0),
    {
        let ghost g0 = grid_view(self.pixels);
        let h = self.pixels.len();
        let mut result: Vec<Vec<i32>> = Vec::new();
        let mut r: usize = 0;
        while r < h
            invariant
                r <= h,
                h == g0.len(),
                g0 == grid_view(self.pixels),
                seams@.len() == h,
                result@.len() == r,
                forall|rr: int|
                    0 <= rr < r ==> (#[trigger] result@[rr])@ == dup_pending_spec(
                        g0[rr],
                        seams@[rr]@,
                        0,
                        0,
                    ),
            decreases h - r,
        {
            let row = &self.pixels[r];
            let cols = &seams[r];
            let len = row.len();
            let mut newrow: Vec<i32> = Vec::new();
            let mut p: usize = 0;
            let mut j: usize = 0;
            while j < len
                invariant
                    j <= len,
                    len == row@.len(),
                    p <= cols@.len(),
                    dup_pending_spec(row@, cols@, 0, 0) == newrow@ + dup_pending_spec(
                        row@,
                        cols@,
                        j as int,
                        p as int,
                    ),
                decreases len - j,
            {
                if p < cols.len() && cols[p] == j {
                    newrow.push(row[j]);
                    newrow.push(row[j]);
                    p = p + 1;
                } else {
                    newrow.push(row[j]);
                }
                proof {
                    assert(dup_pending_spec(row@, cols@, 0, 0) =~= newrow@ + dup_pending_spec(
                        row@,
                        cols@,
                        j + 1,
                        p as int,
                    ));
                }
                j = j + 1;
            }
            proof {
                assert(newrow@ =~= dup_pending_spec(row@, cols@, 0, 0));
                assert(g0[r as int] == self.pixels@[r as int]@);
                assert(cols@ == seams@[r as int]@);
            }
            result.push(newrow);
            r = r + 1;
        }
        self.pixels = result;
        proof {
            assert forall|rr: int| 0 <= rr < g0.len() implies #[trigger] grid_view(
                final(self).pixels,
            )[rr] == dup_pending_spec(g0[rr], seams@[rr]@, 0, 0) by {
                assert(grid_view(self.pixels)[rr] == self.pixels@[rr]@);
            }
        }
    }
}

/// A removal pass never lengthens a row.
pub proof fn lemma_remove_pending_len_le(row: Seq<i32>, cols: Seq<usize>, j: int, p: int)
    requires
        0 <= j <= row.len(),
    ensures
        remove_pending_spec(row, cols, j, p).len() <= row.len() - j,
    decreases row.len() - j,
{
    if j < row.len() {
        if 0 <= p < cols.len() && cols[p] == j {
            lemma_remove_pending_len_le(row, cols, j + 1, p + 1);
        } else {
            lemma_remove_pending_len_le(row, cols, j + 1, p);
        }
    }
}

/// What a removal pass keeps depends only on the row's length, not its
/// values: rows of equal length shrink alike.
pub proof fn lemma_remove_pending_len_eq(r1: Seq<i32>, r2: Seq<i32>, cols: Seq<usize>, j: int, p: int)
    requires
        r1.len() == r2.len(),
    ensures
        remove_pending_spec(r1, cols, j, p).len() == remove_pending_spec(r2, cols, j, p).len(),
    decreases r1.len() - j,
{
    if 0 <= j < r1.len() {
        if 0 <= p < cols.len() && cols[p] == j {
            lemma_remove_pending_len_eq(r1, r2, cols, j + 1, p + 1);
        } else {
            lemma_remove_pending_len_eq(r1, r2, cols, j + 1, p);
        }
    }
}

/// For pending seam columns that are strictly increasing and in range, a
/// removal pass drops exactly one cell per pending column, and every kept
/// cell is one of the row's own: no value is fabricated.
pub proof fn lemma_remove_pending_exact(row: Seq<i32>, cols: Seq<usize>, j: int, p: int)
    requires
        0 <= j <= row.len(),
        0 <= p <= cols.len(),
        forall|a: int, b: int| p <= a < b < cols.len() ==> cols[a] < cols[b],
        forall|a: int| p <= a < cols.len() ==> j <= #[trigger] cols[a] < row.len(),
    ensures
        remove_pending_spec(row, cols, j, p).len() == row.len() - j - (cols.len() - p),
        forall|t: int|
            0 <= t < remove_pending_spec(row, cols, j, p).len() ==> row.contains(
                #[trigger] remove_pending_spec(row, cols, j, p)[t],
            ),
    decreases row.len() - j,
{
    if j >= row.len() {
        if p < cols.len() {
            assert(j <= cols[p] < row.len());
        }
    } else if 0 <= p < cols.len() && cols[p] == j {
        lemma_remove_pending_exact(row, cols, j + 1, p + 1);
    } else {
        if p < cols.len() {
            assert(j <= cols[p]);
            assert(cols[p] != j);
        }
        lemma_remove_pending_exact(row, cols, j + 1, p);
        let res = remove_pending_spec(row, cols, j, p);
        let rest = remove_pending_spec(row, cols, j + 1, p);
        assert(res == seq![row[j]] + rest);
        assert forall|t: int| 0 <= t < res.len() implies row.contains(#[trigger] res[t]) by {
            if t == 0 {
                assert(res[0] == row[j]);
            } else {
                assert(res[t] == rest[t - 1]);
            }
        }
    }
}

/// The grid-level seam-removal law: on a rectangular grid of width `w`, a
/// removal pass with `k` strictly increasing in-range seam columns yields
/// rows of exactly `w - k` cells, every one of them drawn from its own
/// original row.
pub proof fn lemma_remove_seams_shrinks_exactly(g: Seq<Seq<i32>>, cols: Seq<usize>)
    requires
        grid_rect(g),
        forall|a: int, b: int| 0 <= a < b < cols.len() ==> cols[a] < cols[b],
        forall|a: int| 0 <= a < cols.len() ==> #[trigger] cols[a] < grid_width(g),
        cols.len() <= grid_width(g),
    ensures
        forall|r: int|
            0 <= r < g.len() ==> (#[trigger] remove_pending_spec(g[r], cols, 0, 0)).len()
                == grid_width(g) - cols.len(),
        forall|r: int, t: int|
            0 <= r < g.len() && 0 <= t < remove_pending_spec(g[r], cols, 0, 0).len() ==> g[
                r
            ].contains(#[trigger] remove_pending_spec(g[r], cols, 0, 0)[t]),
{
    assert forall|r: int| 0 <= r < g.len() implies (#[trigger] remove_pending_spec(
        g[r],
        cols,
        0,
        0,
    )).len() == grid_width(g) - cols.len() by {
        assert(g[r].len() == grid_width(g));
        lemma_remove_pending_exact(g[r], cols, 0, 0);
    }
    assert forall|r: int, t: int|
        0 <= r < g.len() && 0 <= t < remove_pending_spec(g[r], cols, 0, 0).len() implies g[
        r
    ].contains(#[trigger] remove_pending_spec(g[r], cols, 0, 0)[t]) by {
        assert(g[r].len() == grid_width(g));
        lemma_remove_pending_exact(g[r], cols, 0, 0);
    }
}

} // verus!
