use vstd::prelude::*;
use crate::outline::{is_set, lemma_cell};

verus! {

/// First coordinate of a window of radius `r` around `c`, clipped at zero.
pub open spec fn window_lo(c: int, r: int) -> int {
    if c - r < 0 {
        0
    } else {
        c - r
    }
}

/// One past the last coordinate of a window of radius `r` around `c`,
/// clipped at `n`.
pub open spec fn window_hi(c: int, r: int, n: int) -> int {
    if c + r + 1 > n {
        n
    } else {
        c + r + 1
    }
}

/// The marked cells `(x, y)` of row `y` with `x0 <= x < x1`, left to right.
pub open spec fn row_marks(w: int, edge: Seq<u8>, y: int, x0: int, x1: int) -> Seq<(usize, usize)>
    decreases x1 - x0,
{
    if x1 <= x0 {
        Seq::empty()
    } else {
        row_marks(w, edge, y, x0, x1 - 1) + if is_set(edge, w, x1 - 1, y) {
            seq![((x1 - 1) as usize, y as usize)]
        } else {
            Seq::empty()
        }
    }
}

/// The marked cells of rows `y0 <= y < y1` and columns `x0 <= x < x1`,
/// row by row and left to right.
pub open spec fn block_marks(w: int, edge: Seq<u8>, y0: int, y1: int, x0: int, x1: int) -> Seq<(usize, usize)>
    decreases y1 - y0,
{
    if y1 <= y0 {
        Seq::empty()
    } else {
        block_marks(w, edge, y0, y1 - 1, x0, x1) + row_marks(w, edge, y1 - 1, x0, x1)
    }
}

/// A block without columns holds no cells.
proof fn lemma_block_marks_no_cols(w: int, edge: Seq<u8>, y0: int, y1: int, x0: int, x1: int)
    requires
        x1 <= x0,
    ensures
        block_marks(w, edge, y0, y1, x0, x1) =~= Seq::<(usize, usize)>::empty(),
    decreases y1 - y0,
{
    if y1 > y0 {
        lemma_block_marks_no_cols(w, edge, y0, y1 - 1, x0, x1);
    }
}

/// Each cell of a row scan is a marked cell of that row within its columns.
proof fn lemma_row_marks_marked(w: int, edge: Seq<u8>, y: int, x0: int, x1: int)
    requires
        0 <= x0,
        0 <= y,
        x1 <= w,
        w <= usize::MAX,
        y <= usize::MAX,
    ensures
        forall|k: int|
            0 <= k < row_marks(w, edge, y, x0, x1).len() ==> {
                let c = #[trigger] row_marks(w, edge, y, x0, x1)[k];
                x0 <= c.0 < x1 && c.1 == y && is_set(edge, w, c.0 as int, c.1 as int)
            },
    decreases x1 - x0,
{
    if x1 > x0 {
        lemma_row_marks_marked(w, edge, y, x0, x1 - 1);
        let a = row_marks(w, edge, y, x0, x1 - 1);
        let b: Seq<(usize, usize)> = if is_set(edge, w, x1 - 1, y) {
            seq![((x1 - 1) as usize, y as usize)]
        } else {
            Seq::empty()
        };
        assert(row_marks(w, edge, y, x0, x1) == a + b);
        assert forall|k: int| 0 <= k < (a + b).len() implies {
            let c = #[trigger] (a + b)[k];
            x0 <= c.0 < x1 && c.1 == y && is_set(edge, w, c.0 as int, c.1 as int)
        } by {
            if k < a.len() {
                assert((a + b)[k] == a[k]);
            } else {
                assert((a + b)[k] == b[k - a.len()]);
            }
        }
    }
}

/// Each cell of a block scan is a marked cell of the block.
proof fn lemma_block_marks_marked(w: int, h: int, edge: Seq<u8>, y0: int, y1: int, x0: int, x1: int)
    requires
        0 <= x0,
        0 <= y0,
        x1 <= w,
        y1 <= h,
        w <= usize::MAX,
        h <= usize::MAX,
    ensures
        forall|k: int|
            0 <= k < block_marks(w, edge, y0, y1, x0, x1).len() ==> {
                let c = #[trigger] block_marks(w, edge, y0, y1, x0, x1)[k];
                x0 <= c.0 < x1 && y0 <= c.1 < y1 && is_set(edge, w, c.0 as int, c.1 as int)
            },
    decreases y1 - y0,
{
    if y1 > y0 {
        lemma_block_marks_marked(w, h, edge, y0, y1 - 1, x0, x1);
        lemma_row_marks_marked(w, edge, y1 - 1, x0, x1);
        let a = block_marks(w, edge, y0, y1 - 1, x0, x1);
        let b = row_marks(w, edge, y1 - 1, x0, x1);
        assert forall|k: int| 0 <= k < (a + b).len() implies {
            let c = #[trigger] (a + b)[k];
            x0 <= c.0 < x1 && y0 <= c.1 < y1 && is_set(edge, w, c.0 as int, c.1 as int)
        } by {
            if k < a.len() {
                assert((a + b)[k] == a[k]);
            } else {
                assert((a + b)[k] == b[k - a.len()]);
            }
        }
    }
}

/// Every projection candidate is a marked cell on the canvas: a point snapped
/// onto one lands on the centre of a pixel of the edge band, inside the canvas.
pub proof fn lemma_window_cells_on_canvas(w: int, h: int, edge: Seq<u8>, cx: int, cy: int, radius: int)
    requires
        0 <= w <= usize::MAX,
        0 <= h <= usize::MAX,
    ensures
        forall|k: int|
            0 <= k < window_cells(w, h, edge, cx, cy, radius).len() ==> {
                let c = #[trigger] window_cells(w, h, edge, cx, cy, radius)[k];
                c.0 < w && c.1 < h && is_set(edge, w, c.0 as int, c.1 as int)
            },
{
    let r = search_radius(radius);
    lemma_block_marks_marked(w, h, edge, window_lo(cy, r), window_hi(cy, r, h), window_lo(cx, r), window_hi(cx, r, w));
}

/// The search radius actually used: at least one.
pub open spec fn search_radius(radius: int) -> int {
    if radius < 1 {
        1
    } else {
        radius
    }
}

/// The marked cells of the square window of the given radius centred on cell
/// `(cx, cy)`, clipped to the canvas, in row-major scan order.
pub open spec fn window_cells(w: int, h: int, edge: Seq<u8>, cx: int, cy: int, radius: int) -> Seq<(usize, usize)> {
    let r = search_radius(radius);
    block_marks(w, edge, window_lo(cy, r), window_hi(cy, r, h), window_lo(cx, r), window_hi(cx, r, w))
}

/// The candidates of a projection onto the edge band: every marked cell of
/// the window of `radius` (at least one) around cell `(cx, cy)` that lies on
/// the canvas, in row-major scan order. The nearest of them, first one on a
/// tie, is where the point is projected; with none, the point stays put.
pub fn edge_cells_in_window(
    w: usize,
    h: usize,
    edge: &[u8],
    cx: i64,
    cy: i64,
    radius: i64,
) -> (r: Vec<(usize, usize)>)
    requires
        edge@.len() == w * h,
    ensures
        r@ == window_cells(w as int, h as int, edge@, cx as int, cy as int, radius as int),
{
    let n = edge.len();
    let rad: i128 = if radius < 1 { 1 } else { radius as i128 };
    let ylo: i128 = if cy as i128 - rad < 0 { 0 } else { cy as i128 - rad };
    let yhi: i128 = if cy as i128 + rad + 1 > h as i128 { h as i128 } else { cy as i128 + rad + 1 };
    let xlo: i128 = if cx as i128 - rad < 0 { 0 } else { cx as i128 - rad };
    let xhi: i128 = if cx as i128 + rad + 1 > w as i128 { w as i128 } else { cx as i128 + rad + 1 };
    let mut out: Vec<(usize, usize)> = Vec::new();
    if ylo >= yhi || xlo >= xhi {
        proof {
            if xlo >= xhi {
                lemma_block_marks_no_cols(w as int, edge@, ylo as int, yhi as int, xlo as int, xhi as int);
            }
        }
        assert(out@ =~= window_cells(w as int, h as int, edge@, cx as int, cy as int, radius as int));
        return out;
    }
    let y0 = ylo as usize;
    let y1 = yhi as usize;
    let x0 = xlo as usize;
    let x1 = xhi as usize;
    let mut y = y0;
    while y < y1
        invariant
            edge@.len() == w * h,
            n == w * h,
            y0 <= y <= y1 <= h,
            x0 < x1 <= w,
            out@ == block_marks(w as int, edge@, y0 as int, y as int, x0 as int, x1 as int),
        decreases y1 - y,
    {
        let mut x = x0;
        while x < x1
            invariant
                edge@.len() == w * h,
                n == w * h,
                y0 <= y < y1 <= h,
                x0 <= x <= x1 <= w,
                out@ == block_marks(w as int, edge@, y0 as int, y as int, x0 as int, x1 as int)
                    + row_marks(w as int, edge@, y as int, x0 as int, x as int),
            decreases x1 - x,
        {
            proof {
                lemma_cell(w as int, h as int, x as int, y as int);
            }
            if edge[y * w + x] != 0 {
                out.push((x, y));
            }
            x += 1;
            assert(out@ =~= block_marks(w as int, edge@, y0 as int, y as int, x0 as int, x1 as int)
                + row_marks(w as int, edge@, y as int, x0 as int, x as int));
        }
        y += 1;
        assert(out@ =~= block_marks(w as int, edge@, y0 as int, y as int, x0 as int, x1 as int));
    }
    out
}

} // verus!
