use vstd::prelude::*;
use vstd::arithmetic::div_mod::lemma_fundamental_div_mod_converse;

verus! {

/// Half-width of the square that paints the inner ring around each boundary pixel.
pub const THICK1: i32 = 2;

/// Distance from the shape at which the outer ring begins.
pub const GAP: i32 = 3;

/// Thickness of the outer ring.
pub const THICK2: i32 = 2;

/// Row-major position of cell `(x, y)` in a grid `w` cells wide.
pub open spec fn cell_index(w: int, x: int, y: int) -> int {
    y * w + x
}

/// Whether `m` holds a nonzero byte at cell `(x, y)`.
pub open spec fn is_set(m: Seq<u8>, w: int, x: int, y: int) -> bool {
    m[cell_index(w, x, y)] != 0
}

/// The `w`×`h` 0/1 grid, row-major, that marks the cells where `f` holds.
pub open spec fn grid_of(w: int, h: int, f: spec_fn(int, int) -> bool) -> Seq<u8> {
    Seq::new((w * h) as nat, |i: int| if f(i % w, i / w) { 1u8 } else { 0u8 })
}

/// The inside mask: 1 where the pixel's alpha byte exceeds `threshold`.
pub open spec fn inside_spec(w: int, h: int, rgba: Seq<u8>, threshold: u8) -> Seq<u8> {
    Seq::new((w * h) as nat, |i: int| if rgba[4 * i + 3] > threshold { 1u8 } else { 0u8 })
}

/// Some set cell of `m` lies within Chebyshev distance `r` of `(x, y)`.
pub open spec fn dilated_at(w: int, h: int, m: Seq<u8>, r: int, x: int, y: int) -> bool {
    exists|a: int, b: int|
        0 <= a < w && 0 <= b < h && x - r <= a <= x + r && y - r <= b <= y + r
            && #[trigger] is_set(m, w, a, b)
}

/// Square dilation of `m` by radius `r`; a non-positive radius leaves `m` as it is.
pub open spec fn dilate_spec(w: int, h: int, m: Seq<u8>, r: int) -> Seq<u8> {
    if r <= 0 {
        m
    } else {
        grid_of(w, h, |x: int, y: int| dilated_at(w, h, m, r, x, y))
    }
}

/// A strictly interior set cell with at least one of its 8 neighbours clear.
pub open spec fn is_boundary(w: int, h: int, m: Seq<u8>, x: int, y: int) -> bool {
    &&& 1 <= x < w - 1
    &&& 1 <= y < h - 1
    &&& is_set(m, w, x, y)
    &&& has_clear_neighbor(w, m, x, y)
}

/// One of the 8 neighbours of `(x, y)` is clear in `m`.
pub open spec fn has_clear_neighbor(w: int, m: Seq<u8>, x: int, y: int) -> bool {
    exists|a: int, b: int|
        x - 1 <= a <= x + 1 && y - 1 <= b <= y + 1 && !(a == x && b == y)
            && !#[trigger] is_set(m, w, a, b)
}

/// The boundary-pixel mask of `m`.
pub open spec fn edge8_spec(w: int, h: int, m: Seq<u8>) -> Seq<u8> {
    grid_of(w, h, |x: int, y: int| is_boundary(w, h, m, x, y))
}

/// The edge band with radii `t1` (inner ring), `g` (gap) and `t2` (outer ring):
/// the boundary dilated by `t1`, together with the cells that the inside
/// dilated by `g + t2` reaches and the inside dilated by `g` does not.
pub open spec fn edge_band_spec(w: int, h: int, inside: Seq<u8>, t1: int, g: int, t2: int) -> Seq<u8> {
    let ring = dilate_spec(w, h, edge8_spec(w, h, inside), t1);
    let near = dilate_spec(w, h, inside, g);
    let far = dilate_spec(w, h, inside, g + t2);
    Seq::new(
        (w * h) as nat,
        |i: int| if ring[i] == 1 || (far[i] == 1 && near[i] == 0) { 1u8 } else { 0u8 },
    )
}

/// The edge mask built with the library's radii.
pub open spec fn edge_mask_spec(w: int, h: int, inside: Seq<u8>) -> Seq<u8> {
    edge_band_spec(w, h, inside, THICK1 as int, GAP as int, THICK2 as int)
}

/// Where cell `(x, y)` lies in the row-major layout.
pub proof fn lemma_cell(w: int, h: int, x: int, y: int)
    requires
        0 <= x < w,
        0 <= y < h,
    ensures
        y * w <= cell_index(w, x, y) < (y + 1) * w,
        (y + 1) * w <= w * h,
        0 <= cell_index(w, x, y) < w * h,
        cell_index(w, x, y) % w == x,
        cell_index(w, x, y) / w == y,
{
    assert((y + 1) * w <= w * h) by (nonlinear_arith)
        requires
            0 <= y < h,
            0 < w,
    ;
    assert(0 <= y * w) by (nonlinear_arith)
        requires
            0 <= y,
            0 < w,
    ;
    assert((y + 1) * w == y * w + w) by (nonlinear_arith);
    lemma_fundamental_div_mod_converse(cell_index(w, x, y), w, y, x);
}

/// Every index of a `w`×`h` grid is the position of its own cell.
pub proof fn lemma_index_cell(w: int, h: int, i: int)
    requires
        0 < w,
        0 <= i < w * h,
    ensures
        0 <= i % w < w,
        0 <= i / w < h,
        cell_index(w, i % w, i / w) == i,
{
    vstd::arithmetic::div_mod::lemma_fundamental_div_mod(i, w);
    vstd::arithmetic::div_mod::lemma_mod_bound(i, w);
    vstd::arithmetic::div_mod::lemma_div_pos_is_pos(i, w);
    vstd::arithmetic::mul::lemma_mul_is_commutative(w, i / w);
    if i / w >= h {
        assert(w * (i / w) >= w * h) by (nonlinear_arith)
            requires
                i / w >= h,
                0 < w,
        ;
    }
}

/// Dilation is monotone in its radius: a cell marked by dilating with `r1`
/// stays marked when dilating the same mask with any `r2 >= r1`.
pub proof fn lemma_dilate_monotone(w: int, h: int, m: Seq<u8>, r1: int, r2: int, i: int)
    requires
        0 < w,
        m.len() == w * h,
        r1 <= r2,
        0 <= i < w * h,
        dilate_spec(w, h, m, r1)[i] != 0,
    ensures
        dilate_spec(w, h, m, r2)[i] != 0,
{
    lemma_index_cell(w, h, i);
    let x = i % w;
    let y = i / w;
    if r2 > 0 {
        if r1 <= 0 {
            assert(is_set(m, w, x, y));
        } else {
            let (a, b) = choose|a: int, b: int|
                0 <= a < w && 0 <= b < h && x - r1 <= a <= x + r1 && y - r1 <= b <= y + r1
                    && #[trigger] is_set(m, w, a, b);
            assert(is_set(m, w, a, b));
        }
        assert(dilated_at(w, h, m, r2, x, y));
    }
}

/// Widening the inner ring (`t1` to `u1`) or the outer ring (`t2` to `u2`) of
/// the edge band, with the gap `g` held, never unmarks a cell.
pub proof fn lemma_edge_band_monotone(
    w: int,
    h: int,
    inside: Seq<u8>,
    t1: int,
    g: int,
    t2: int,
    u1: int,
    u2: int,
    i: int,
)
    requires
        0 < w,
        inside.len() == w * h,
        t1 <= u1,
        t2 <= u2,
        0 <= i < w * h,
        edge_band_spec(w, h, inside, t1, g, t2)[i] == 1,
    ensures
        edge_band_spec(w, h, inside, u1, g, u2)[i] == 1,
{
    let base = edge8_spec(w, h, inside);
    let ring = dilate_spec(w, h, base, t1);
    let ring2 = dilate_spec(w, h, base, u1);
    let far = dilate_spec(w, h, inside, g + t2);
    let far2 = dilate_spec(w, h, inside, g + u2);
    if ring[i] == 1 {
        lemma_dilate_monotone(w, h, base, t1, u1, i);
        assert(ring2[i] == 1);
    } else {
        if g + u2 > 0 {
            lemma_dilate_monotone(w, h, inside, g + t2, g + u2, i);
            assert(far2[i] == 1);
        } else {
            assert(far2 == far);
        }
    }
}

/// Thresholds the alpha channel of a row-major RGBA buffer into the inside mask.
pub fn build_inside_mask(w: usize, h: usize, rgba: &[u8], alpha_threshold: u8) -> (r: Vec<u8>)
    requires
        rgba@.len() >= w * h * 4,
    ensures
        r@ == inside_spec(w as int, h as int, rgba@, alpha_threshold),
{
    let len = rgba.len();
    assert(w * h <= w * h * 4) by (nonlinear_arith)
        requires
            0 <= w * h,
    ;
    let n = w * h;
    let mut inside: Vec<u8> = Vec::with_capacity(n);
    let mut i: usize = 0;
    while i < n
        invariant
            n == w * h,
            i <= n,
            rgba@.len() >= 4 * n,
            len == rgba@.len(),
            inside@.len() == i,
            forall|j: int|
                0 <= j < i ==> inside@[j] == inside_spec(w as int, h as int, rgba@, alpha_threshold)[j],
        decreases n - i,
    {
        assert(4 * i + 3 < 4 * n);
        let a = rgba[4 * i + 3];
        inside.push(if a > alpha_threshold { 1 } else { 0 });
        i += 1;
    }
    assert(inside@ =~= inside_spec(w as int, h as int, rgba@, alpha_threshold));
    inside
}

/// Whether some set cell of `mask` lies within Chebyshev distance `r` of `(x, y)`.
fn window_any(w: usize, h: usize, mask: &[u8], r: usize, x: usize, y: usize) -> (b: bool)
    requires
        mask@.len() == w * h,
        x < w,
        y < h,
    ensures
        b == dilated_at(w as int, h as int, mask@, r as int, x as int, y as int),
{
    let n = mask.len();
    let y0 = if y >= r { y - r } else { 0 };
    let y1 = if h - 1 - y >= r { y + r } else { h - 1 };
    let x0 = if x >= r { x - r } else { 0 };
    let x1 = if w - 1 - x >= r { x + r } else { w - 1 };
    let mut sy = y0;
    while sy <= y1
        invariant
            mask@.len() == w * h,
            n == w * h,
            x < w,
            y < h,
            y0 <= sy <= y1 + 1,
            y1 < h,
            x0 <= x1 < w,
            y0 == (if y >= r { y - r } else { 0 }),
            y1 == (if h - 1 - y >= r { y + r } else { h - 1 }),
            x0 == (if x >= r { x - r } else { 0 }),
            x1 == (if w - 1 - x >= r { x + r } else { w - 1 }),
            forall|a: int, b: int|
                y0 <= b < sy && x0 <= a <= x1 ==> !#[trigger] is_set(mask@, w as int, a, b),
        decreases y1 + 1 - sy,
    {
        let mut sx = x0;
        while sx <= x1
            invariant
                mask@.len() == w * h,
                n == w * h,
                x < w,
                y < h,
                y0 == (if y >= r { y - r } else { 0 }),
                y1 == (if h - 1 - y >= r { y + r } else { h - 1 }),
                x0 == (if x >= r { x - r } else { 0 }),
                x1 == (if w - 1 - x >= r { x + r } else { w - 1 }),
                y0 <= sy <= y1,
                y1 < h,
                x0 <= sx <= x1 + 1,
                x1 < w,
                forall|a: int, b: int|
                    y0 <= b < sy && x0 <= a <= x1 ==> !#[trigger] is_set(mask@, w as int, a, b),
                forall|a: int| x0 <= a < sx ==> !#[trigger] is_set(mask@, w as int, a, sy as int),
            decreases x1 + 1 - sx,
        {
            proof {
                lemma_cell(w as int, h as int, sx as int, sy as int);
            }
            if mask[sy * w + sx] != 0 {
                assert(is_set(mask@, w as int, sx as int, sy as int));
                return true;
            }
            sx += 1;
        }
        sy += 1;
    }
    false
}

/// Square dilation: a cell is set in the result when a set cell of `mask`
/// lies within `radius` of it on both axes. A non-positive radius returns
/// `mask` unchanged.
pub fn dilate(w: usize, h: usize, mask: &[u8], radius: i32) -> (r: Vec<u8>)
    requires
        mask@.len() == w * h,
    ensures
        r@ == dilate_spec(w as int, h as int, mask@, radius as int),
{
    if radius <= 0 {
        return vstd::slice::slice_to_vec(mask);
    }
    let rr = radius as usize;
    let ghost target = dilate_spec(w as int, h as int, mask@, radius as int);
    let n = mask.len();
    let mut out: Vec<u8> = Vec::with_capacity(n);
    let mut y: usize = 0;
    while y < h
        invariant
            mask@.len() == w * h,
            n == w * h,
            radius > 0,
            rr == radius,
            target == dilate_spec(w as int, h as int, mask@, radius as int),
            y <= h,
            out@.len() == y * w,
            forall|j: int| 0 <= j < out@.len() ==> out@[j] == target[j],
        decreases h - y,
    {
        let mut x: usize = 0;
        while x < w
            invariant
                mask@.len() == w * h,
                n == w * h,
                radius > 0,
                rr == radius,
                target == dilate_spec(w as int, h as int, mask@, radius as int),
                x <= w,
                y < h,
                out@.len() == y * w + x,
                forall|j: int| 0 <= j < out@.len() ==> out@[j] == target[j],
            decreases w - x,
        {
            proof {
                lemma_cell(w as int, h as int, x as int, y as int);
            }
            let v = window_any(w, h, mask, rr, x, y);
            out.push(if v { 1 } else { 0 });
            x += 1;
        }
        assert(y * w + w == (y + 1) * w) by (nonlinear_arith);
        y += 1;
    }
    assert(h * w == w * h) by (nonlinear_arith);
    assert(out@ =~= target);
    out
}

/// Whether one of the 8 neighbours of the interior cell `(x, y)` is clear.
fn any_clear_neighbor(w: usize, h: usize, m: &[u8], x: usize, y: usize) -> (b: bool)
    requires
        m@.len() == w * h,
        1 <= x < w - 1,
        1 <= y < h - 1,
    ensures
        b == has_clear_neighbor(w as int, m@, x as int, y as int),
{
    let n = m.len();
    let mut b = y - 1;
    while b <= y + 1
        invariant
            m@.len() == w * h,
            n == w * h,
            1 <= x < w - 1,
            1 <= y < h - 1,
            y - 1 <= b <= y + 2,
            forall|i: int, j: int|
                y - 1 <= j < b && x - 1 <= i <= x + 1 && !(i == x && j == y)
                    ==> #[trigger] is_set(m@, w as int, i, j),
        decreases y + 2 - b,
    {
        let mut a = x - 1;
        while a <= x + 1
            invariant
                m@.len() == w * h,
                n == w * h,
                1 <= x < w - 1,
                1 <= y < h - 1,
                y - 1 <= b <= y + 1,
                x - 1 <= a <= x + 2,
                forall|i: int, j: int|
                    y - 1 <= j < b && x - 1 <= i <= x + 1 && !(i == x && j == y)
                        ==> #[trigger] is_set(m@, w as int, i, j),
                forall|i: int|
                    x - 1 <= i < a && !(i == x && b == y) ==> #[trigger] is_set(m@, w as int, i, b as int),
            decreases x + 2 - a,
        {
            proof {
                lemma_cell(w as int, h as int, a as int, b as int);
            }
            if !(a == x && b == y) && m[b * w + a] == 0 {
                assert(!is_set(m@, w as int, a as int, b as int));
                return true;
            }
            a += 1;
        }
        b += 1;
    }
    false
}

/// Marks each strictly interior set cell that has a clear cell among its 8
/// neighbours. Cells of the outermost rows and columns are never marked.
pub fn edge8(w: usize, h: usize, inside: &[u8]) -> (r: Vec<u8>)
    requires
        inside@.len() == w * h,
    ensures
        r@ == edge8_spec(w as int, h as int, inside@),
{
    let ghost target = edge8_spec(w as int, h as int, inside@);
    let n = inside.len();
    let mut out: Vec<u8> = Vec::with_capacity(n);
    let mut y: usize = 0;
    while y < h
        invariant
            inside@.len() == w * h,
            n == w * h,
            target == edge8_spec(w as int, h as int, inside@),
            y <= h,
            out@.len() == y * w,
            forall|j: int| 0 <= j < out@.len() ==> out@[j] == target[j],
        decreases h - y,
    {
        let mut x: usize = 0;
        while x < w
            invariant
                inside@.len() == w * h,
                n == w * h,
                target == edge8_spec(w as int, h as int, inside@),
                x <= w,
                y < h,
                out@.len() == y * w + x,
                forall|j: int| 0 <= j < out@.len() ==> out@[j] == target[j],
            decreases w - x,
        {
            proof {
                lemma_cell(w as int, h as int, x as int, y as int);
            }
            let marked = 1 <= x && x + 1 < w && 1 <= y && y + 1 < h && inside[y * w + x] != 0
                && any_clear_neighbor(w, h, inside, x, y);
            out.push(if marked { 1 } else { 0 });
            x += 1;
        }
        assert(y * w + w == (y + 1) * w) by (nonlinear_arith);
        y += 1;
    }
    assert(h * w == w * h) by (nonlinear_arith);
    assert(out@ =~= target);
    out
}

/// Builds the edge band of the inside mask: the boundary pixels dilated by
/// `THICK1`, together with the shell of cells that the inside dilated by
/// `GAP + THICK2` reaches and the inside dilated by `GAP` does not.
pub fn build_edge_mask(w: usize, h: usize, inside: &[u8]) -> (r: Vec<u8>)
    requires
        inside@.len() == w * h,
    ensures
        r@ == edge_mask_spec(w as int, h as int, inside@),
{
    let base = edge8(w, h, inside);
    let ring1 = dilate(w, h, base.as_slice(), THICK1);
    let d_gap = dilate(w, h, inside, GAP);
    let d_outer = dilate(w, h, inside, GAP + THICK2);
    let ghost target = edge_mask_spec(w as int, h as int, inside@);
    let n = inside.len();
    let mut out: Vec<u8> = Vec::with_capacity(n);
    let mut i: usize = 0;
    while i < n
        invariant
            n == w * h,
            i <= n,
            ring1@ == dilate_spec(w as int, h as int, edge8_spec(w as int, h as int, inside@), THICK1 as int),
            d_gap@ == dilate_spec(w as int, h as int, inside@, GAP as int),
            d_outer@ == dilate_spec(w as int, h as int, inside@, (GAP + THICK2) as int),
            target == edge_mask_spec(w as int, h as int, inside@),
            out@.len() == i,
            forall|j: int| 0 <= j < i ==> out@[j] == target[j],
        decreases n - i,
    {
        let outer_ring = d_outer[i] == 1 && d_gap[i] == 0;
        out.push(if ring1[i] == 1 || outer_ring { 1 } else { 0 });
        i += 1;
    }
    assert(out@ =~= target);
    out
}

} // verus!
