//! Toroidal grid geometry: flat row-major indices and the eight wrapped
//! neighbours of a cell.
use vstd::prelude::*;

verus! {

/// The dimensions of a board, in cells.
#[derive(Debug, Clone, Copy, PartialEq, Eq, Structural)]
pub struct Size {
    pub width: u16,
    pub height: u16,
}

impl Size {
    /// Number of cells on a board of this size.
    pub open spec fn area(self) -> nat {
        self.width as nat * self.height as nat
    }

    /// Number of cells on a board of this size, `None` when it does not fit in a `usize`.
    pub fn cell_count(&self) -> (r: Option<usize>)
        ensures
            r matches Some(n) ==> n as nat == self.area(),
            r is None ==> self.area() > usize::MAX,
    {
        (self.width as usize).checked_mul(self.height as usize)
    }
}

impl Default for Size {
    fn default() -> (r: Size)
        ensures
            r.width == 160 && r.height == 32,
    {
        Size { width: 160, height: 32 }
    }
}

/// Column offset of the `k`-th neighbour. The neighbours are numbered
/// up, upper-right, right, lower-right, down, lower-left, left, upper-left.
pub open spec fn offset_x(k: int) -> int {
    if 1 <= k <= 3 {
        1
    } else if 5 <= k <= 7 {
        -1
    } else {
        0
    }
}

/// Row offset of the `k`-th neighbour (rows grow downwards).
pub open spec fn offset_y(k: int) -> int {
    if k == 0 || k == 1 || k == 7 {
        -1
    } else if 3 <= k <= 5 {
        1
    } else {
        0
    }
}

/// Column of flat index `i` on a grid `w` cells wide.
pub open spec fn column(w: int, i: int) -> int {
    i % w
}

/// Row of flat index `i` on a grid `w` cells wide.
pub open spec fn row(w: int, i: int) -> int {
    i / w
}

/// Flat index of the `k`-th neighbour of cell `i` on a `w` by `h` torus.
pub open spec fn neighbor(w: int, h: int, i: int, k: int) -> int {
    ((row(w, i) + offset_y(k)) % h) * w + (column(w, i) + offset_x(k)) % w
}

proof fn lemma_cell_in_grid(w: int, h: int, r: int, c: int)
    requires
        0 <= r < h,
        0 <= c < w,
    ensures
        0 <= r * w + c < w * h,
{
    assert(r * w <= (h - 1) * w) by (nonlinear_arith)
        requires
            0 <= r < h,
            0 <= w,
    ;
    assert((h - 1) * w == w * h - w) by (nonlinear_arith);
    assert(0 <= r * w) by (nonlinear_arith)
        requires
            0 <= r,
            0 <= w,
    ;
}

/// Two cells of a grid `w` wide share a flat index only if they share row and column.
proof fn lemma_cell_index_unique(w: int, r1: int, c1: int, r2: int, c2: int)
    requires
        0 <= c1 < w,
        0 <= c2 < w,
        r1 * w + c1 == r2 * w + c2,
    ensures
        r1 == r2,
        c1 == c2,
{
    vstd::arithmetic::div_mod::lemma_fundamental_div_mod_converse(r1 * w + c1, w, r1, c1);
    vstd::arithmetic::div_mod::lemma_fundamental_div_mod_converse(r2 * w + c2, w, r2, c2);
}

proof fn lemma_row_in_grid(w: int, h: int, i: int)
    requires
        0 < w,
        0 <= i < w * h,
    ensures
        0 <= row(w, i) < h,
        0 <= column(w, i) < w,
        i == row(w, i) * w + column(w, i),
{
    vstd::arithmetic::div_mod::lemma_fundamental_div_mod(i, w);
    let r = i / w;
    let c = i % w;
    assert(0 <= c < w);
    assert(r * w == w * r) by (nonlinear_arith);
    if r >= h {
        assert(w * r >= w * h) by (nonlinear_arith)
            requires
                r >= h,
                w > 0,
        ;
    }
    if r < 0 {
        assert(w * r <= -w) by (nonlinear_arith)
            requires
                r < 0,
                w > 0,
        ;
    }
}

/// Every neighbour index of an in-range cell is itself in range.
pub proof fn lemma_neighbor_in_grid(w: int, h: int, i: int, k: int)
    requires
        0 <= i < w * h,
        0 < w,
    ensures
        0 <= neighbor(w, h, i, k) < w * h,
{
    lemma_row_in_grid(w, h, i);
    let r = (row(w, i) + offset_y(k)) % h;
    let c = (column(w, i) + offset_x(k)) % w;
    lemma_cell_in_grid(w, h, r, c);
}

/// The eight neighbour indices of any cell lie on the grid, and they are
/// pairwise distinct once the grid is at least three cells wide and high.
pub proof fn lemma_neighbors_distinct(size: Size, i: int)
    requires
        0 <= i < size.area(),
    ensures
        forall|k: int| 0 <= k < 8 ==> 0 <= #[trigger] neighbor(size.width as int, size.height as int, i, k) < size.area(),
        size.width >= 3 && size.height >= 3 ==> forall|k1: int, k2: int|
            0 <= k1 < 8 && 0 <= k2 < 8 && k1 != k2 ==> #[trigger] neighbor(size.width as int, size.height as int, i, k1)
                != #[trigger] neighbor(size.width as int, size.height as int, i, k2),
{
    let w = size.width as int;
    let h = size.height as int;
    assert(w > 0) by (nonlinear_arith)
        requires
            0 <= i < w * h,
            w >= 0,
    ;
    lemma_row_in_grid(w, h, i);
    assert forall|k: int| 0 <= k < 8 implies 0 <= #[trigger] neighbor(w, h, i, k) < size.area() by {
        lemma_neighbor_in_grid(w, h, i, k);
    }
    if w >= 3 && h >= 3 {
        assert forall|k1: int, k2: int|
            0 <= k1 < 8 && 0 <= k2 < 8 && k1 != k2 implies #[trigger] neighbor(w, h, i, k1)
                != #[trigger] neighbor(w, h, i, k2) by {
            let r = row(w, i);
            let c = column(w, i);
            let r1 = (r + offset_y(k1)) % h;
            let c1 = (c + offset_x(k1)) % w;
            let r2 = (r + offset_y(k2)) % h;
            let c2 = (c + offset_x(k2)) % w;
            if neighbor(w, h, i, k1) == neighbor(w, h, i, k2) {
                lemma_cell_index_unique(w, r1, c1, r2, c2);
                lemma_wrap_step_injective(r, h, offset_y(k1), offset_y(k2));
                lemma_wrap_step_injective(c, w, offset_x(k1), offset_x(k2));
            }
        }
    }
}

/// Stepping by -1, 0 or 1 around a cycle of length at least 3 lands on distinct places.
proof fn lemma_wrap_step_injective(v: int, n: int, d1: int, d2: int)
    requires
        0 <= v < n,
        n >= 3,
        -1 <= d1 <= 1,
        -1 <= d2 <= 1,
        (v + d1) % n == (v + d2) % n,
    ensures
        d1 == d2,
{
    let a = v + d1;
    let b = v + d2;
    if a == -1 {
        vstd::arithmetic::div_mod::lemma_fundamental_div_mod_converse(a, n, -1, n - 1);
    }
    if a == n {
        vstd::arithmetic::div_mod::lemma_fundamental_div_mod_converse(a, n, 1, 0);
    }
    if 0 <= a < n {
        vstd::arithmetic::div_mod::lemma_fundamental_div_mod_converse(a, n, 0, a);
    }
    if b == -1 {
        vstd::arithmetic::div_mod::lemma_fundamental_div_mod_converse(b, n, -1, n - 1);
    }
    if b == n {
        vstd::arithmetic::div_mod::lemma_fundamental_div_mod_converse(b, n, 1, 0);
    }
    if 0 <= b < n {
        vstd::arithmetic::div_mod::lemma_fundamental_div_mod_converse(b, n, 0, b);
    }
}

/// `(v + d) % n` for `v` in `[0, n)` and `d` in `{-1, 0, 1}`, without negative intermediates.
fn wrap_step(v: usize, n: usize, d: i8) -> (r: usize)
    requires
        v < n,
        -1 <= d <= 1,
    ensures
        r as int == (v as int + d as int) % (n as int),
        r < n,
{
    proof {
        let a = v as int + d as int;
        if a == -1 {
            vstd::arithmetic::div_mod::lemma_fundamental_div_mod_converse(a, n as int, -1, n - 1);
        } else if a == n as int {
            vstd::arithmetic::div_mod::lemma_fundamental_div_mod_converse(a, n as int, 1, 0);
        } else {
            vstd::arithmetic::div_mod::lemma_fundamental_div_mod_converse(a, n as int, 0, a);
        }
    }
    if d < 0 {
        if v == 0 { n - 1 } else { v - 1 }
    } else if d > 0 {
        if v + 1 == n { 0 } else { v + 1 }
    } else {
        v
    }
}

/// The cells of any board with `u16` dimensions can be counted in a `usize`.
pub proof fn lemma_area_fits(size: Size)
    ensures
        size.area() <= usize::MAX,
{
    let w = size.width as int;
    let h = size.height as int;
    assert(w * h <= 65535 * 65535) by (nonlinear_arith)
        requires
            0 <= w <= 65535,
            0 <= h <= 65535,
    ;
}

/// The eight toroidal neighbours of cell `idx`, in the order
/// up, upper-right, right, lower-right, down, lower-left, left, upper-left.
pub fn neighbors(size: Size, idx: usize) -> (r: [usize; 8])
    requires
        idx < size.area(),
    ensures
        forall|k: int| 0 <= k < 8 ==> #[trigger] r@[k] as int == neighbor(size.width as int, size.height as int, idx as int, k),
        forall|k: int| 0 <= k < 8 ==> #[trigger] r@[k] < size.area(),
{
    let w = size.width as usize;
    let h = size.height as usize;
    proof {
        lemma_row_in_grid(w as int, h as int, idx as int);
        lemma_area_fits(size);
    }
    let x = idx % w;
    let y = idx / w;
    let xl = wrap_step(x, w, -1);
    let xr = wrap_step(x, w, 1);
    let yu = wrap_step(y, h, -1);
    let yd = wrap_step(y, h, 1);
    proof {
        lemma_cell_in_grid(w as int, h as int, yu as int, x as int);
        lemma_cell_in_grid(w as int, h as int, yu as int, xr as int);
        lemma_cell_in_grid(w as int, h as int, y as int, xr as int);
        lemma_cell_in_grid(w as int, h as int, yd as int, xr as int);
        lemma_cell_in_grid(w as int, h as int, yd as int, x as int);
        lemma_cell_in_grid(w as int, h as int, yd as int, xl as int);
        lemma_cell_in_grid(w as int, h as int, y as int, xl as int);
        lemma_cell_in_grid(w as int, h as int, yu as int, xl as int);
        vstd::arithmetic::div_mod::lemma_fundamental_div_mod_converse(x as int, w as int, 0, x as int);
        vstd::arithmetic::div_mod::lemma_fundamental_div_mod_converse(y as int, h as int, 0, y as int);
    }
    let r = [
        yu * w + x,
        yu * w + xr,
        y * w + xr,
        yd * w + xr,
        yd * w + x,
        yd * w + xl,
        y * w + xl,
        yu * w + xl,
    ];
    r
}

} // verus!
