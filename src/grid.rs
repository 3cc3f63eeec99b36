use vstd::prelude::*;

verus! {

/// Clamps `c` into `[0, n - 1]`.
pub open spec fn clamp_cell(c: int, n: int) -> int {
    if c < 0 {
        0
    } else if c >= n {
        n - 1
    } else {
        c
    }
}

/// The bucket of cell `(x, y)`, or nothing when the cell lies off the grid.
pub open spec fn bucket_at(b: Seq<Seq<usize>>, cols: int, rows: int, x: int, y: int) -> Seq<usize> {
    if 0 <= x < cols && 0 <= y < rows {
        b[y * cols + x]
    } else {
        Seq::empty()
    }
}

/// The buckets of the first `k` cells of the 3×3 block centred on `(cx, cy)`,
/// taken row by row and left to right, one after the other.
pub open spec fn block_prefix(b: Seq<Seq<usize>>, cols: int, rows: int, cx: int, cy: int, k: nat) -> Seq<usize>
    decreases k,
{
    if k == 0 {
        Seq::empty()
    } else {
        let j = k - 1;
        block_prefix(b, cols, rows, cx, cy, (k - 1) as nat)
            + bucket_at(b, cols, rows, cx + j % 3 - 1, cy + j / 3 - 1)
    }
}

/// The indices listed in the 3×3 block of cells centred on `(cx, cy)`.
pub open spec fn block_items(b: Seq<Seq<usize>>, cols: int, rows: int, cx: int, cy: int) -> Seq<usize> {
    block_prefix(b, cols, rows, cx, cy, 9)
}

/// A uniform grid of `cols`×`rows` square cells; each cell lists the indices
/// of the particles placed in it, in order of insertion.
pub struct SpatialGrid {
    cols: usize,
    rows: usize,
    buckets: Vec<Vec<usize>>,
}

impl SpatialGrid {
    /// Number of columns.
    pub closed spec fn cols(&self) -> int {
        self.cols as int
    }

    /// Number of rows.
    pub closed spec fn rows(&self) -> int {
        self.rows as int
    }

    /// The bucket of each cell, row-major.
    pub closed spec fn buckets(&self) -> Seq<Seq<usize>> {
        Seq::new(self.buckets@.len(), |i: int| self.buckets@[i]@)
    }

    /// The grid has at least one cell and one bucket per cell.
    pub closed spec fn wf(&self) -> bool {
        &&& self.cols >= 1
        &&& self.rows >= 1
        &&& self.buckets@.len() == self.cols * self.rows
    }

    /// An empty grid of `cols`×`rows` cells.
    pub fn new(cols: usize, rows: usize) -> (r: Self)
        requires
            cols >= 1,
            rows >= 1,
            cols * rows <= usize::MAX,
        ensures
            r.wf(),
            r.cols() == cols,
            r.rows() == rows,
            r.buckets().len() == cols * rows,
            forall|i: int| 0 <= i < r.buckets().len() ==> (#[trigger] r.buckets()[i]).len() == 0,
    {
        let n = cols * rows;
        let mut buckets: Vec<Vec<usize>> = Vec::with_capacity(n);
        let mut i: usize = 0;
        while i < n
            invariant
                i <= n,
                buckets@.len() == i,
                forall|j: int| 0 <= j < i ==> (#[trigger] buckets@[j])@.len() == 0,
            decreases n - i,
        {
            buckets.push(Vec::new());
            i += 1;
        }
        SpatialGrid { cols, rows, buckets }
    }

    /// Number of columns.
    pub fn col_count(&self) -> (r: usize)
        ensures
            r == self.cols(),
    {
        self.cols
    }

    /// Number of rows.
    pub fn row_count(&self) -> (r: usize)
        ensures
            r == self.rows(),
    {
        self.rows
    }

    /// Empties every bucket, keeping the shape of the grid.
    pub fn clear(&mut self)
        requires
            old(self).wf(),
        ensures
            final(self).wf(),
            final(self).cols() == old(self).cols(),
            final(self).rows() == old(self).rows(),
            final(self).buckets().len() == old(self).buckets().len(),
            forall|i: int|
                0 <= i < final(self).buckets().len() ==> (#[trigger] final(self).buckets()[i]).len() == 0,
    {
        let n = self.buckets.len();
        let mut i: usize = 0;
        while i < n
            invariant
                i <= n,
                n == self.buckets@.len(),
                self.wf(),
                self.cols == old(self).cols,
                self.rows == old(self).rows,
                forall|j: int| 0 <= j < i ==> (#[trigger] self.buckets@[j])@.len() == 0,
            decreases n - i,
        {
            self.buckets[i].clear();
            i += 1;
        }
    }

    /// Appends particle `i` to the cell `(cx, cy)`, each coordinate clamped
    /// onto the grid.
    pub fn insert(&mut self, cx: i64, cy: i64, i: usize)
        requires
            old(self).wf(),
        ensures
            final(self).wf(),
            final(self).cols() == old(self).cols(),
            final(self).rows() == old(self).rows(),
            final(self).buckets() == old(self).buckets().update(
                clamp_cell(cy as int, old(self).rows()) * old(self).cols() + clamp_cell(
                    cx as int,
                    old(self).cols(),
                ),
                old(self).buckets()[clamp_cell(cy as int, old(self).rows()) * old(self).cols()
                    + clamp_cell(cx as int, old(self).cols())].push(i),
            ),
    {
        let x: usize = if cx < 0 {
            0
        } else if cx as u64 >= self.cols as u64 {
            self.cols - 1
        } else {
            cx as usize
        };
        let y: usize = if cy < 0 {
            0
        } else if cy as u64 >= self.rows as u64 {
            self.rows - 1
        } else {
            cy as usize
        };
        let nb = self.buckets.len();
        assert(y * self.cols + x < self.cols * self.rows) by (nonlinear_arith)
            requires
                x < self.cols,
                y < self.rows,
        ;
        let k = y * self.cols + x;
        self.buckets[k].push(i);
        assert(self.buckets() =~= old(self).buckets().update(k as int, old(self).buckets()[k as int].push(i)));
    }

    /// The indices in the 3×3 block of cells centred on `(cx, cy)`: cell by
    /// cell, row by row and left to right, skipping cells off the grid.
    pub fn neighbors(&self, cx: i64, cy: i64) -> (r: Vec<usize>)
        requires
            self.wf(),
        ensures
            r@ == block_items(self.buckets(), self.cols(), self.rows(), cx as int, cy as int),
    {
        let mut out: Vec<usize> = Vec::new();
        let mut k: usize = 0;
        while k < 9
            invariant
                self.wf(),
                k <= 9,
                out@ == block_prefix(self.buckets(), self.cols(), self.rows(), cx as int, cy as int, k as nat),
            decreases 9 - k,
        {
            let ox = (k % 3) as i128 - 1;
            let oy = (k / 3) as i128 - 1;
            let nx: i128 = cx as i128 + ox;
            let ny: i128 = cy as i128 + oy;
            if 0 <= nx && nx < self.cols as i128 && 0 <= ny && ny < self.rows as i128 {
                let x = nx as usize;
                let y = ny as usize;
                let nb = self.buckets.len();
                assert(y * self.cols + x < self.cols * self.rows) by (nonlinear_arith)
                    requires
                        x < self.cols,
                        y < self.rows,
                ;
                let bucket = &self.buckets[y * self.cols + x];
                let ghost before = out@;
                let mut t: usize = 0;
                while t < bucket.len()
                    invariant
                        t <= bucket@.len(),
                        out@ == before + bucket@.subrange(0, t as int),
                    decreases bucket@.len() - t,
                {
                    out.push(bucket[t]);
                    t += 1;
                    assert(out@ =~= before + bucket@.subrange(0, t as int));
                }
                assert(bucket@.subrange(0, bucket@.len() as int) =~= bucket@);
            }
            k += 1;
        }
        out
    }
}

} // verus!
