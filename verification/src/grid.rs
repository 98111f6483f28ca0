use vstd::arithmetic::div_mod::{lemma_fundamental_div_mod, lemma_fundamental_div_mod_converse};
use vstd::prelude::*;

verus! {

/// The column of cell `c` on a grid `w` cells wide (cells are numbered row
/// by row).
pub open spec fn col(w: nat, c: int) -> int {
    c % (w as int)
}

/// The row of cell `c` on a grid `w` cells wide.
pub open spec fn row(w: nat, c: int) -> int {
    c / (w as int)
}

/// `d` is a neighbor of `c` on a `w` by `h` grid: another cell within
/// Chebyshev distance 2 (the grid does not wrap around).
pub open spec fn is_neighbor(w: nat, h: nat, c: int, d: int) -> bool {
    &&& 0 <= c < w * h
    &&& 0 <= d < w * h
    &&& d != c
    &&& -2 <= col(w, d) - col(w, c) <= 2
    &&& -2 <= row(w, d) - row(w, c) <= 2
}

/// `a` comes before `b` in row-major order.
pub open spec fn row_major_before(w: nat, a: int, b: int) -> bool {
    row(w, a) < row(w, b) || (row(w, a) == row(w, b) && col(w, a) < col(w, b))
}

/// `seg` lists the neighbors of `c`, each once, in row-major order.
pub open spec fn lists_neighbors(w: nat, h: nat, c: int, seg: Seq<usize>) -> bool {
    &&& forall|i: int| 0 <= i < seg.len() ==> #[trigger] is_neighbor(w, h, c, seg[i] as int)
    &&& forall|d: int| #[trigger] is_neighbor(w, h, c, d) ==> seg.contains(d as usize)
    &&& forall|i: int, j: int|
        0 <= i < j < seg.len() ==> row_major_before(w, #[trigger] seg[i] as int, #[trigger] seg[j] as int)
}

/// Being neighbors is symmetric: if `d` is a neighbor of `c`, then `c` is a
/// neighbor of `d`.
pub proof fn law_neighbors_symmetric(w: nat, h: nat, c: int, d: int)
    requires
        is_neighbor(w, h, c, d),
    ensures
        is_neighbor(w, h, d, c),
{
}

/// Cell `d` lies before position (`r`, `x`) of a row-major scan.
spec fn scanned(w: nat, d: int, r: int, x: int) -> bool {
    row(w, d) < r || (row(w, d) == r && col(w, d) < x)
}

proof fn lemma_cell_coords(w: nat, h: nat, d: int)
    requires
        0 < w,
        0 <= d < w * h,
    ensures
        d == row(w, d) * w + col(w, d),
        0 <= col(w, d) < w,
        0 <= row(w, d) < h,
{
    lemma_fundamental_div_mod(d, w as int);
    let q = row(w, d);
    let r = col(w, d);
    assert(d == q * w + r) by (nonlinear_arith)
        requires
            d == (w as int) * q + r,
    ;
    assert(0 <= r < w);
    assert(0 <= q < h) by (nonlinear_arith)
        requires
            d == q * w + r,
            0 <= r < w,
            0 <= d < w * h,
            0 < w,
    ;
}

proof fn lemma_cell_at(w: nat, h: nat, y: int, x: int)
    requires
        0 < w,
        0 <= x < w,
        0 <= y < h,
    ensures
        0 <= y * w + x < w * h,
        row(w, y * w + x) == y,
        col(w, y * w + x) == x,
{
    lemma_fundamental_div_mod_converse(y * w + x, w as int, y, x);
    assert(0 <= y * w + x < w * h) by (nonlinear_arith)
        requires
            0 <= x < w,
            0 <= y < h,
            0 < w,
    ;
}

/// The lowest coordinate within 2 of `x` on the grid.
pub open spec fn reach_lo(x: int) -> int {
    if x >= 2 {
        x - 2
    } else {
        0
    }
}

/// The highest coordinate within 2 of `x` on a side of `n` cells.
pub open spec fn reach_hi(x: int, n: nat) -> int {
    if x + 2 < n {
        x + 2
    } else {
        n - 1
    }
}

/// How many neighbors cell `c` of a `w` by `h` grid has: the cells of the
/// five by five square around it that lie on the grid, less `c` itself.
pub open spec fn neighbor_count(w: nat, h: nat, c: int) -> int {
    (reach_hi(col(w, c), w) - reach_lo(col(w, c)) + 1) * (reach_hi(row(w, c), h) - reach_lo(
        row(w, c),
    ) + 1) - 1
}

/// The cells of the first `k` rows of the square around `c` (clipped to
/// the grid).
spec fn block(w: nat, h: nat, c: int, k: int) -> Set<int> {
    Set::new(
        |d: int|
            0 <= d < w * h && reach_lo(row(w, c)) <= row(w, d) < reach_lo(row(w, c)) + k && reach_lo(
                col(w, c),
            ) <= col(w, d) <= reach_hi(col(w, c), w),
    )
}

proof fn lemma_block_len(w: nat, h: nat, c: int, k: int)
    requires
        0 < w,
        0 <= c < w * h,
        0 <= k,
        reach_lo(row(w, c)) + k <= h,
    ensures
        block(w, h, c, k).finite(),
        block(w, h, c, k).len() == k * (reach_hi(col(w, c), w) - reach_lo(col(w, c)) + 1),
    decreases k,
{
    broadcast use vstd::set::group_set_axioms;
    lemma_cell_coords(w, h, c);
    let xlo = reach_lo(col(w, c));
    let xhi = reach_hi(col(w, c), w);
    let ylo = reach_lo(row(w, c));
    let span = xhi - xlo + 1;
    if k == 0 {
        assert(block(w, h, c, k) =~= Set::empty());
    } else {
        lemma_block_len(w, h, c, k - 1);
        let y = ylo + k - 1;
        let line = vstd::set_lib::set_int_range(y * w + xlo, y * w + xhi + 1);
        vstd::set_lib::lemma_int_range(y * w + xlo, y * w + xhi + 1);
        assert forall|d: int| #[trigger] block(w, h, c, k).contains(d) <==> (block(w, h, c, k - 1)
            + line).contains(d) by {
            if line.contains(d) {
                lemma_cell_at(w, h, y, d - y * w);
            }
            if 0 <= d < w * h {
                lemma_cell_coords(w, h, d);
            }
        }
        assert(block(w, h, c, k) =~= block(w, h, c, k - 1) + line);
        assert(block(w, h, c, k - 1).disjoint(line)) by {
            assert forall|d: int| block(w, h, c, k - 1).contains(d) implies !line.contains(d) by {
                if line.contains(d) {
                    lemma_cell_at(w, h, y, d - y * w);
                }
            }
        }
        vstd::set_lib::lemma_set_disjoint_lens(block(w, h, c, k - 1), line);
        assert(line.len() == span);
        assert((block(w, h, c, k - 1) + line).len() == block(w, h, c, k - 1).len() + line.len());
        assert((k - 1) * span + span == k * span) by (nonlinear_arith);
        assert(block(w, h, c, k).len() == (k - 1) * span + span);
    }
}

/// A list of the neighbors of a cell, each once, has exactly
/// `neighbor_count` entries: 24 in the middle of the grid, fewer near its
/// edges.
pub proof fn law_neighbor_count(w: nat, h: nat, c: int, seg: Seq<usize>)
    requires
        0 < w,
        0 <= c < w * h,
        w * h <= usize::MAX,
        lists_neighbors(w, h, c, seg),
    ensures
        seg.len() == neighbor_count(w, h, c),
{
    broadcast use vstd::set::group_set_axioms;
    lemma_cell_coords(w, h, c);
    let ylo = reach_lo(row(w, c));
    let yhi = reach_hi(row(w, c), h);
    let ints = seg.map_values(|x: usize| x as int);
    assert(ints.no_duplicates()) by {
        assert forall|i: int, j: int| 0 <= i < ints.len() && 0 <= j < ints.len() && i != j implies ints[i]
            != ints[j] by {
            if i < j {
                assert(row_major_before(w, seg[i] as int, seg[j] as int));
            } else {
                assert(row_major_before(w, seg[j] as int, seg[i] as int));
            }
        }
    }
    ints.unique_seq_to_set();
    let full = block(w, h, c, yhi - ylo + 1);
    lemma_block_len(w, h, c, yhi - ylo + 1);
    assert forall|d: int| #[trigger] ints.to_set().contains(d) <==> full.remove(c).contains(d) by {
        if ints.to_set().contains(d) {
            let i = choose|i: int| 0 <= i < ints.len() && ints[i] == d;
            assert(is_neighbor(w, h, c, seg[i] as int));
            lemma_cell_coords(w, h, d);
        }
        if full.remove(c).contains(d) {
            lemma_cell_coords(w, h, d);
            assert(is_neighbor(w, h, c, d));
            assert(seg.contains(d as usize));
            let i = choose|i: int| 0 <= i < seg.len() && seg[i] == d as usize;
            assert(ints[i] == d);
        }
    }
    assert(ints.to_set() =~= full.remove(c));
    assert(full.contains(c));
}

/// Append the neighbors of `cell`, in row-major order, to `indices`.
fn push_neighbors(indices: &mut Vec<usize>, w: usize, h: usize, cell: usize)
    requires
        0 < w,
        cell < w * h,
        w * h + 4 <= usize::MAX,
    ensures
        final(indices)@.len() >= old(indices)@.len(),
        final(indices)@.subrange(0, old(indices)@.len() as int) == old(indices)@,
        lists_neighbors(
            w as nat,
            h as nat,
            cell as int,
            final(indices)@.subrange(old(indices)@.len() as int, final(indices)@.len() as int),
        ),
{
    let ghost wn = w as nat;
    let ghost hn = h as nat;
    let ghost c = cell as int;
    let ghost prefix = indices@;
    let start = indices.len();
    proof {
        lemma_cell_coords(wn, hn, c);
    }
    let cx = cell % w;
    let cy = cell / w;
    assert(w <= w * h) by (nonlinear_arith)
        requires
            0 < w,
            cell < w * h,
    ;
    let x_lo = if cx >= 2 {
        cx - 2
    } else {
        0
    };
    let x_hi = if cx + 2 < w - 1 {
        cx + 2
    } else {
        w - 1
    };
    let y_lo = if cy >= 2 {
        cy - 2
    } else {
        0
    };
    let y_hi = if cy + 2 < h - 1 {
        cy + 2
    } else {
        h - 1
    };
    proof {
        assert(indices@.subrange(0, start as int) =~= prefix);
        assert forall|d: int|
            #[trigger] is_neighbor(wn, hn, c, d) && scanned(
                wn,
                d,
                y_lo as int,
                x_lo as int,
            ) implies indices@.subrange(start as int, indices@.len() as int).contains(d as usize) by {
            lemma_cell_coords(wn, hn, d);
        }
    }
    let mut ny = y_lo;
    while ny <= y_hi
        invariant
            0 < w,
            cell < w * h,
            w * h + 4 <= usize::MAX,
            wn == w,
            hn == h,
            c == cell,
            cx == col(wn, c),
            cy == row(wn, c),
            x_lo <= cx <= x_hi < w,
            y_lo <= cy <= y_hi < h,
            x_lo == cx - 2 || (x_lo == 0 && cx < 2),
            x_hi == cx + 2 || x_hi == w - 1,
            x_hi <= cx + 2,
            y_lo == cy - 2 || (y_lo == 0 && cy < 2),
            y_hi == cy + 2 || y_hi == h - 1,
            y_hi <= cy + 2,
            y_lo <= ny <= y_hi + 1,
            start == prefix.len(),
            indices@.len() >= start,
            indices@.subrange(0, start as int) == prefix,
            forall|i: int|
                start <= i < indices@.len() ==> is_neighbor(wn, hn, c, #[trigger] indices@[i] as int)
                    && scanned(wn, indices@[i] as int, ny as int, x_lo as int),
            forall|d: int|
                #[trigger] is_neighbor(wn, hn, c, d) && scanned(wn, d, ny as int, x_lo as int)
                    ==> indices@.subrange(start as int, indices@.len() as int).contains(d as usize),
            forall|i: int, j: int|
                start <= i < j < indices@.len() ==> row_major_before(
                    wn,
                    #[trigger] indices@[i] as int,
                    #[trigger] indices@[j] as int,
                ),
        decreases h - ny,
    {
        let mut nx = x_lo;
        while nx <= x_hi
            invariant
                0 < w,
                cell < w * h,
                w * h + 4 <= usize::MAX,
                wn == w,
                hn == h,
                c == cell,
                cx == col(wn, c),
                cy == row(wn, c),
                x_lo <= cx <= x_hi < w,
                y_lo <= cy <= y_hi < h,
                x_lo == cx - 2 || (x_lo == 0 && cx < 2),
                x_hi == cx + 2 || x_hi == w - 1,
            x_hi <= cx + 2,
                y_lo == cy - 2 || (y_lo == 0 && cy < 2),
                y_hi == cy + 2 || y_hi == h - 1,
            y_hi <= cy + 2,
                y_lo <= ny <= y_hi,
                x_lo <= nx <= x_hi + 1,
                start == prefix.len(),
                indices@.len() >= start,
                indices@.subrange(0, start as int) == prefix,
                forall|i: int|
                    start <= i < indices@.len() ==> is_neighbor(
                        wn,
                        hn,
                        c,
                        #[trigger] indices@[i] as int,
                    ) && scanned(wn, indices@[i] as int, ny as int, nx as int),
                forall|d: int|
                    #[trigger] is_neighbor(wn, hn, c, d) && scanned(wn, d, ny as int, nx as int)
                        ==> indices@.subrange(start as int, indices@.len() as int).contains(
                        d as usize,
                    ),
                forall|i: int, j: int|
                    start <= i < j < indices@.len() ==> row_major_before(
                        wn,
                        #[trigger] indices@[i] as int,
                        #[trigger] indices@[j] as int,
                    ),
            decreases w - nx,
        {
            let ghost old_idx = indices@;
            let ghost d = ny * w + nx;
            proof {
                lemma_cell_at(wn, hn, ny as int, nx as int);
            }
            if !(nx == cx && ny == cy) {
                let v = ny * w + nx;
                indices.push(v);
                proof {
                    assert(is_neighbor(wn, hn, c, d));
                    assert forall|i: int|
                        start <= i < indices@.len() implies is_neighbor(
                        wn,
                        hn,
                        c,
                        #[trigger] indices@[i] as int,
                    ) && scanned(wn, indices@[i] as int, ny as int, nx + 1) by {
                        if i < old_idx.len() {
                            assert(indices@[i] == old_idx[i]);
                        }
                    }
                    assert forall|d2: int|
                        #[trigger] is_neighbor(wn, hn, c, d2) && scanned(
                            wn,
                            d2,
                            ny as int,
                            nx + 1,
                        ) implies indices@.subrange(start as int, indices@.len() as int).contains(
                        d2 as usize,
                    ) by {
                        let seg0 = old_idx.subrange(start as int, old_idx.len() as int);
                        let seg1 = indices@.subrange(start as int, indices@.len() as int);
                        assert(seg1 == seg0.push(v));
                        if scanned(wn, d2, ny as int, nx as int) {
                            let k = choose|k: int| 0 <= k < seg0.len() && seg0[k] == d2 as usize;
                            assert(seg1[k] == d2 as usize);
                        } else {
                            lemma_cell_coords(wn, hn, d2);
                            assert(d2 == d);
                            assert(seg1[seg0.len() as int] == v);
                        }
                    }
                    assert forall|i: int, j: int|
                        start <= i < j < indices@.len() implies row_major_before(
                        wn,
                        #[trigger] indices@[i] as int,
                        #[trigger] indices@[j] as int,
                    ) by {
                        if j < old_idx.len() {
                            assert(indices@[i] == old_idx[i]);
                            assert(indices@[j] == old_idx[j]);
                        } else {
                            assert(indices@[i] == old_idx[i]);
                            assert(is_neighbor(wn, hn, c, old_idx[i] as int));
                        }
                    }
                    assert(indices@.subrange(0, start as int) =~= prefix);
                }
            } else {
                proof {
                    assert forall|d2: int|
                        #[trigger] is_neighbor(wn, hn, c, d2) && scanned(
                            wn,
                            d2,
                            ny as int,
                            nx + 1,
                        ) implies indices@.subrange(start as int, indices@.len() as int).contains(
                        d2 as usize,
                    ) by {
                        if !scanned(wn, d2, ny as int, nx as int) {
                            lemma_cell_coords(wn, hn, d2);
                            lemma_cell_coords(wn, hn, c);
                        }
                    }
                }
            }
            nx = nx + 1;
        }
        proof {
            assert forall|d2: int| #[trigger] is_neighbor(wn, hn, c, d2) implies (scanned(
                wn,
                d2,
                ny as int,
                nx as int,
            ) <==> scanned(wn, d2, ny + 1, x_lo as int)) by {
                lemma_cell_coords(wn, hn, d2);
            }
        }
        ny = ny + 1;
    }
    proof {
        assert forall|d2: int| #[trigger] is_neighbor(wn, hn, c, d2) implies scanned(
            wn,
            d2,
            ny as int,
            x_lo as int,
        ) by {
            lemma_cell_coords(wn, hn, d2);
        }
        let seg = indices@.subrange(start as int, indices@.len() as int);
        assert forall|i: int| 0 <= i < seg.len() implies #[trigger] is_neighbor(
            wn,
            hn,
            c,
            seg[i] as int,
        ) by {
            assert(seg[i] == indices@[start + i]);
        }
        assert forall|i: int, j: int| 0 <= i < j < seg.len() implies row_major_before(
            wn,
            #[trigger] seg[i] as int,
            #[trigger] seg[j] as int,
        ) by {
            assert(seg[i] == indices@[start + i]);
            assert(seg[j] == indices@[start + j]);
        }
    }
}


/// `indices` and `ranges` form the neighbor table of a `w` by `h` grid: the
/// neighbors of cell `c` are `indices[ranges[c].0 .. ranges[c].1]`.
pub open spec fn neighbor_table_of(
    w: nat,
    h: nat,
    indices: Seq<usize>,
    ranges: Seq<(usize, usize)>,
) -> bool {
    &&& ranges.len() == w * h
    &&& forall|c: int|
        0 <= c < w * h ==> (#[trigger] ranges[c]).0 <= ranges[c].1 <= indices.len()
            && lists_neighbors(w, h, c, indices.subrange(ranges[c].0 as int, ranges[c].1 as int))
}

/// Pre-compute the neighbor table of a `w` by `h` grid.
pub(crate) fn neighbor_table(w: usize, h: usize) -> (table: (Vec<usize>, Vec<(usize, usize)>))
    requires
        w * h * 192 <= isize::MAX,
    ensures
        neighbor_table_of(w as nat, h as nat, table.0@, table.1@),
{
    let total = w * h;
    let mut indices: Vec<usize> = Vec::with_capacity(total * 24);
    let mut ranges: Vec<(usize, usize)> = Vec::with_capacity(total);
    let mut cell: usize = 0;
    while cell < total
        invariant
            total == w * h,
            w * h * 192 <= isize::MAX,
            cell <= total,
            ranges@.len() == cell,
            forall|c: int|
                0 <= c < cell ==> (#[trigger] ranges@[c]).0 <= ranges@[c].1 <= indices@.len()
                    && lists_neighbors(
                    w as nat,
                    h as nat,
                    c,
                    indices@.subrange(ranges@[c].0 as int, ranges@[c].1 as int),
                ),
        decreases total - cell,
    {
        let start = indices.len();
        let ghost before = indices@;
        push_neighbors(&mut indices, w, h, cell);
        ranges.push((start, indices.len()));
        proof {
            assert forall|c: int|
                0 <= c < cell + 1 implies (#[trigger] ranges@[c]).0 <= ranges@[c].1 <= indices@.len()
                && lists_neighbors(
                w as nat,
                h as nat,
                c,
                indices@.subrange(ranges@[c].0 as int, ranges@[c].1 as int),
            ) by {
                if c < cell {
                    let (a, b) = ranges@[c];
                    assert(indices@.subrange(a as int, b as int) =~= before.subrange(a as int, b as int)) by {
                        assert(indices@.subrange(0, before.len() as int) == before);
                        assert forall|k: int| 0 <= k < b - a implies indices@.subrange(a as int, b as int)[k]
                            == before.subrange(a as int, b as int)[k] by {
                            assert(indices@.subrange(0, before.len() as int)[a + k] == indices@[a + k]);
                        }
                    }
                }
            }
        }
        cell = cell + 1;
    }
    (indices, ranges)
}


/// A neighbor table: one flat list of cells, and for each cell the range
/// of that list that holds its neighbors.
pub struct NeighborTable {
    /// Pre-computed flat buffer of all neighbor indices.
    indices: Vec<usize>,
    /// Per-cell (start, end) range into `indices`.
    ranges: Vec<(usize, usize)>,
}

/// `indices` and `ranges` describe neighbor lists of `ranges.len()` cells:
/// each range lies within `indices`, and each cell's neighbors are other
/// cells.
pub open spec fn valid_table(indices: Seq<usize>, ranges: Seq<(usize, usize)>) -> bool {
    forall|c: int|
        0 <= c < ranges.len() ==> {
            &&& (#[trigger] ranges[c]).0 <= ranges[c].1 <= indices.len()
            &&& forall|i: int|
                ranges[c].0 <= i < ranges[c].1 ==> #[trigger] indices[i] < ranges.len() && indices[i]
                    != c
        }
}

impl NeighborTable {
    /// The number of cells the table covers.
    pub closed spec fn cells(&self) -> nat {
        self.ranges@.len()
    }

    /// The neighbors listed for cell `c`.
    pub closed spec fn entries(&self, c: int) -> Seq<usize> {
        self.indices@.subrange(self.ranges@[c].0 as int, self.ranges@[c].1 as int)
    }

    /// Each cell's neighbors are other cells of the table.
    pub closed spec fn valid(&self) -> bool {
        valid_table(self.indices@, self.ranges@)
    }

    /// In a valid table, the neighbors of a cell are other cells of it.
    pub proof fn lemma_entries_in_range(&self, c: int)
        requires
            self.valid(),
            0 <= c < self.cells(),
        ensures
            forall|i: int|
                0 <= i < self.entries(c).len() ==> #[trigger] self.entries(c)[i] < self.cells()
                    && self.entries(c)[i] != c,
    {
        assert forall|i: int| 0 <= i < self.entries(c).len() implies #[trigger] self.entries(c)[i]
            < self.cells() && self.entries(c)[i] != c by {
            assert(self.entries(c)[i] == self.indices@[self.ranges@[c].0 + i]);
        }
    }

    /// The table is that of a `w` by `h` grid.
    pub closed spec fn of_grid(&self, w: nat, h: nat) -> bool {
        neighbor_table_of(w, h, self.indices@, self.ranges@)
    }

    /// The table of a grid lists, for each cell, its neighbors on the grid.
    pub proof fn lemma_grid_table(&self, w: nat, h: nat)
        requires
            self.of_grid(w, h),
        ensures
            self.valid(),
            self.cells() == w * h,
            forall|c: int| 0 <= c < w * h ==> lists_neighbors(w, h, c, #[trigger] self.entries(c)),
    {
        assert forall|c: int| 0 <= c < self.ranges@.len() implies {
            &&& (#[trigger] self.ranges@[c]).0 <= self.ranges@[c].1 <= self.indices@.len()
            &&& forall|i: int|
                self.ranges@[c].0 <= i < self.ranges@[c].1 ==> #[trigger] self.indices@[i]
                    < self.ranges@.len() && self.indices@[i] != c
        } by {
            let seg = self.entries(c);
            assert forall|i: int|
                self.ranges@[c].0 <= i < self.ranges@[c].1 implies #[trigger] self.indices@[i]
                < self.ranges@.len() && self.indices@[i] != c by {
                assert(seg[i - self.ranges@[c].0] == self.indices@[i]);
                assert(is_neighbor(w, h, c, seg[i - self.ranges@[c].0] as int));
            }
        }
    }

    /// Pre-compute the neighbor table of a `w` by `h` grid.
    pub fn new(w: usize, h: usize) -> (table: Self)
        requires
            w * h * 192 <= isize::MAX,
        ensures
            table.of_grid(w as nat, h as nat),
    {
        let (indices, ranges) = neighbor_table(w, h);
        NeighborTable { indices, ranges }
    }

    /// A table from a flat list of neighbors and a range of it per cell;
    /// `None` when a range leaves the list, or a cell is listed as its own
    /// neighbor or as a neighbor that is not a cell of the table.
    pub fn from_ranges(indices: Vec<usize>, ranges: Vec<(usize, usize)>) -> (r: Option<Self>)
        ensures
            r is Some <==> valid_table(indices@, ranges@),
            r matches Some(t) ==> t.cells() == ranges@.len() && forall|c: int|
                0 <= c < ranges@.len() ==> #[trigger] t.entries(c) == indices@.subrange(
                    ranges@[c].0 as int,
                    ranges@[c].1 as int,
                ),
    {
        let n = ranges.len();
        let mut c: usize = 0;
        while c < n
            invariant
                n == ranges@.len(),
                c <= n,
                forall|k: int|
                    0 <= k < c ==> {
                        &&& (#[trigger] ranges@[k]).0 <= ranges@[k].1 <= indices@.len()
                        &&& forall|i: int|
                            ranges@[k].0 <= i < ranges@[k].1 ==> #[trigger] indices@[i] < n
                                && indices@[i] != k
                    },
            decreases n - c,
        {
            let (start, end) = ranges[c];
            if start > end || end > indices.len() {
                return None;
            }
            let mut i: usize = start;
            while i < end
                invariant
                    n == ranges@.len(),
                    c < n,
                    ranges@[c as int] == (start, end),
                    start <= i <= end <= indices@.len(),
                    forall|j: int| start <= j < i ==> #[trigger] indices@[j] < n && indices@[j] != c,
                decreases end - i,
            {
                if indices[i] >= n || indices[i] == c {
                    return None;
                }
                i = i + 1;
            }
            c = c + 1;
        }
        Some(NeighborTable { indices, ranges })
    }

    /// The number of cells the table covers.
    pub fn num_cells(&self) -> (n: usize)
        ensures
            n == self.cells(),
    {
        self.ranges.len()
    }

    /// The neighbors listed for `cell`.
    pub fn neighbors_of(&self, cell: usize) -> (n: &[usize])
        requires
            self.valid(),
            cell < self.cells(),
        ensures
            n@ == self.entries(cell as int),
            forall|i: int| 0 <= i < n@.len() ==> #[trigger] n@[i] < self.cells() && n@[i] != cell,
    {
        let (start, end) = self.ranges[cell];
        let n = vstd::slice::slice_subrange(self.indices.as_slice(), start, end);
        proof {
            assert forall|i: int| 0 <= i < n@.len() implies #[trigger] n@[i] < self.cells() && n@[i]
                != cell by {
                assert(n@[i] == self.indices@[start + i]);
            }
        }
        n
    }
}

/// The lists `ls`, one after the other.
pub open spec fn joined(ls: Seq<Seq<usize>>) -> Seq<usize>
    decreases ls.len(),
{
    if ls.len() == 0 {
        Seq::empty()
    } else {
        joined(ls.drop_last()) + ls.last()
    }
}

/// The lists of a table of vectors, as sequences.
pub open spec fn list_views(lists: Seq<Vec<usize>>) -> Seq<Seq<usize>> {
    lists.map_values(|l: Vec<usize>| l@)
}

/// Lay the neighbor lists of the cells end to end: the flat list, and for
/// each cell the range of it that holds its list.
pub fn flatten_lists(lists: &[Vec<usize>]) -> (r: (Vec<usize>, Vec<(usize, usize)>))
    requires
        joined(list_views(lists@)).len() <= usize::MAX,
    ensures
        r.0@ == joined(list_views(lists@)),
        r.1@.len() == lists@.len(),
        forall|c: int|
            0 <= c < lists@.len() ==> {
                &&& (#[trigger] r.1@[c]).0 == joined(list_views(lists@).take(c)).len()
                &&& r.1@[c].1 == joined(list_views(lists@).take(c + 1)).len()
                &&& r.0@.subrange(r.1@[c].0 as int, r.1@[c].1 as int) == lists@[c]@
            },
{
    let ghost ls = list_views(lists@);
    let mut indices: Vec<usize> = Vec::new();
    let mut ranges: Vec<(usize, usize)> = Vec::new();
    let mut c: usize = 0;
    while c < lists.len()
        invariant
            ls == list_views(lists@),
            joined(ls).len() <= usize::MAX,
            c <= lists@.len(),
            indices@ == joined(ls.take(c as int)),
            ranges@.len() == c,
            forall|k: int|
                0 <= k < c ==> (#[trigger] ranges@[k]).0 <= ranges@[k].1 <= indices@.len(),
            forall|k: int|
                0 <= k < c ==> {
                    &&& (#[trigger] ranges@[k]).0 == joined(ls.take(k)).len()
                    &&& ranges@[k].1 == joined(ls.take(k + 1)).len()
                    &&& joined(ls.take(c as int)).subrange(ranges@[k].0 as int, ranges@[k].1 as int)
                        == ls[k]
                },
        decreases lists@.len() - c,
    {
        let ghost before = indices@;
        assert(ls.take(c + 1).drop_last() =~= ls.take(c as int));
        assert(ls.take(c + 1).last() == lists@[c as int]@);
        proof {
            lemma_joined_prefix(ls, c + 1);
        }
        let start = indices.len();
        let list = &lists[c];
        let mut j: usize = 0;
        while j < list.len()
            invariant
                indices@ == before + list@.take(j as int),
                before == joined(ls.take(c as int)),
                before.len() + list@.len() <= usize::MAX,
                j <= list@.len(),
            decreases list@.len() - j,
        {
            indices.push(list[j]);
            assert(indices@ =~= before + list@.take(j + 1));
            j += 1;
        }
        assert(list@.take(j as int) =~= list@);
        ranges.push((start, indices.len()));
        proof {
            assert(indices@ =~= joined(ls.take(c + 1)));
            assert forall|k: int|
                0 <= k < c + 1 implies {
                    &&& (#[trigger] ranges@[k]).0 == joined(ls.take(k)).len()
                    &&& ranges@[k].1 == joined(ls.take(k + 1)).len()
                    &&& joined(ls.take(c + 1)).subrange(ranges@[k].0 as int, ranges@[k].1 as int)
                        == ls[k]
                } by {
                if k < c {
                    assert(joined(ls.take(c + 1)).subrange(ranges@[k].0 as int, ranges@[k].1 as int)
                        =~= before.subrange(ranges@[k].0 as int, ranges@[k].1 as int));
                } else {
                    assert(joined(ls.take(c + 1)).subrange(ranges@[k].0 as int, ranges@[k].1 as int)
                        =~= list@);
                }
            }
        }
        c += 1;
    }
    assert(ls.take(c as int) =~= ls);
    (indices, ranges)
}

proof fn lemma_joined_prefix(ls: Seq<Seq<usize>>, k: int)
    requires
        0 <= k <= ls.len(),
    ensures
        joined(ls.take(k)).len() <= joined(ls).len(),
    decreases ls.len(),
{
    if k < ls.len() {
        assert(ls.drop_last().take(k) =~= ls.take(k));
        lemma_joined_prefix(ls.drop_last(), k);
    } else {
        assert(ls.take(k) =~= ls);
    }
}

} // verus!
