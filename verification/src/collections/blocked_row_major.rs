use vstd::prelude::*;

verus! {

/// Row-major index of cell (`x`, `y`) in a grid `m` cells wide.
pub open spec fn row_major_spec(m: int, x: int, y: int) -> int {
    x + m * y
}

#[inline]
fn row_major(m: usize, x: usize, y: usize) -> (r: usize)
    requires
        m * y + x <= usize::MAX,
    ensures
        r == row_major_spec(m as int, x as int, y as int),
{
    proof {
        vstd::arithmetic::mul::lemma_mul_nonnegative(m as int, y as int);
    }
    x + m * y
}

/// The height of block row `by` of blocks `qq` high in a grid `n` high:
/// the last row of blocks holds what is left when `qq` does not divide `n`.
pub open spec fn brm_height(qq: int, n: int, by: int) -> int {
    if n % qq != 0 && by == n / qq { n % qq } else { qq }
}

/// The width of block column `bx` of blocks `pp` wide in a grid `m` wide:
/// the last column of blocks holds what is left when `pp` does not divide
/// `m`.
pub open spec fn brm_width(pp: int, m: int, bx: int) -> int {
    if bx == m / pp { m % pp } else { pp }
}

/// Where cell (`x`, `y`) lands in the blocked layout of blocks `pp` wide and
/// `qq` high: after the earlier rows of blocks (each `qq` rows of the full
/// width), after the earlier blocks of its own row of blocks, at its
/// row-major place inside its block.
pub open spec fn brm_place(pp: int, qq: int, m: int, n: int, x: int, y: int) -> int {
    let bx = x / pp;
    let by = y / qq;
    ((by * qq) * m + (bx * pp) * brm_height(qq, n, by)) + row_major_spec(brm_width(pp, m, bx), x % pp, y % qq)
}

/// The blocked row-major index of row-major index `i`, blocks clamped to
/// the grid.
pub open spec fn brm_spec(p: int, q: int, m: int, n: int, i: int) -> int {
    let pp = if p < m { p } else { m };
    let qq = if q < n { q } else { n };
    brm_place(pp, qq, m, n, i % m, i / m)
}

/// Map row-major to blocked-row-major index.
///
/// Given an 2d array flattened with row-major indexes,
/// map each index to a PxQ sub-grid of blocked row-major.
///
/// Given an array 5x5 linear data
///   abcdefghijklmnopqrstuvwxy
/// remap to form blocks of 2x2 in linear data
///   abeficdghjklopsmnqrtuvwxy
pub fn map_rm_to_brm(p: usize, q: usize, m: usize, n: usize, i: usize) -> (r: usize)
    requires
        m > 0,
        n > 0,
        p > 0,
        q > 0,
        brm_spec(p as int, q as int, m as int, n as int, i as int) <= usize::MAX,
    ensures
        r == brm_spec(p as int, q as int, m as int, n as int, i as int),
        i < m * n ==> r < m * n,
{
    proof {
        if i < m * n {
            lemma_brm_split(p as int, q as int, m as int, n as int, i as int);
        }
    }
    let ghost total = brm_spec(p as int, q as int, m as int, n as int, i as int);
    let p = if p < m { p } else { m };
    let q = if q < n { q } else { n };
    let x = i % m;
    let y = i / m;
    let bx = x / p;
    let by = y / q;
    let a = if bx == m / p { m % p } else { p };
    let h = if n % q != 0 && by == n / q { n % q } else { q };
    proof {
        assert(a == brm_width(p as int, m as int, bx as int));
        assert(h == brm_height(q as int, n as int, by as int));
        assert(0 <= by * q <= y) by (nonlinear_arith) requires by == y / q, q > 0;
        assert(0 <= bx * p <= x) by (nonlinear_arith) requires bx == x / p, p > 0;
        assert(0 <= (by * q) * m) by (nonlinear_arith) requires by * q >= 0, m > 0;
        assert(0 <= (bx * p) * h) by (nonlinear_arith) requires bx * p >= 0, h >= 0;
        assert(0 <= a * (y % q)) by (nonlinear_arith) requires a >= 0, q > 0;
        assert(total == ((by * q) * m + (bx * p) * h) + row_major_spec(a as int, (x % p) as int, (y % q) as int));
    }
    let rows_before = (by * q) * m;
    let blocks_before = (bx * p) * h;
    let inner = row_major(a, x % p, y % q);
    rows_before + blocks_before + inner
}

/// When a block spans the full width of the grid, the blocked layout is
/// the row-major layout itself.
pub proof fn lemma_full_width_blocks_identity(p: int, q: int, m: int, n: int, i: int)
    requires
        m > 0,
        n > 0,
        p >= m,
        q > 0,
        0 <= i,
    ensures
        brm_spec(p, q, m, n, i) == i,
{
    let qq = if q < n { q } else { n };
    let x = i % m;
    let y = i / m;
    let by = y / qq;
    let h = brm_height(qq, n, by);
    assert(x / m == 0 && x % m == x && 0 <= x < m) by (nonlinear_arith)
        requires x == i % m, m > 0, i >= 0;
    assert(m / m == 1) by (nonlinear_arith) requires m > 0;
    assert(brm_width(m, m, 0) == m);
    assert(y >= 0) by (nonlinear_arith) requires y == i / m, m > 0, i >= 0;
    assert(by * qq + y % qq == y) by (nonlinear_arith) requires by == y / qq, qq > 0, y >= 0;
    assert(x + m * y == i) by (nonlinear_arith) requires x == i % m, y == i / m, m > 0;
    assert(((by * qq) * m + (0 * m) * h) + row_major_spec(m, x, y % qq) == i) by (nonlinear_arith)
        requires by * qq + y % qq == y, x + m * y == i;
}

/// The parts of a cell of the grid: its block and its place in the block,
/// each inside the block's size.
proof fn lemma_brm_cell(pp: int, qq: int, m: int, n: int, x: int, y: int)
    requires
        0 < pp <= m,
        0 < qq <= n,
        0 <= x < m,
        0 <= y < n,
    ensures
        ({
            let bx = x / pp;
            let by = y / qq;
            let h = brm_height(qq, n, by);
            let a = brm_width(pp, m, bx);
            &&& x == bx * pp + x % pp
            &&& y == by * qq + y % qq
            &&& 0 <= bx && 0 <= by
            &&& 0 <= x % pp < a <= pp
            &&& bx * pp + a <= m
            &&& 0 <= y % qq < h <= qq
            &&& by * qq + h <= n
        }),
{
    let bx = x / pp;
    let by = y / qq;
    let ix = x % pp;
    let iy = y % qq;
    let h = brm_height(qq, n, by);
    let a = brm_width(pp, m, bx);
    assert(x == bx * pp + ix && 0 <= ix < pp && bx >= 0) by (nonlinear_arith)
        requires bx == x / pp, ix == x % pp, pp > 0, x >= 0;
    assert(y == by * qq + iy && 0 <= iy < qq && by >= 0) by (nonlinear_arith)
        requires by == y / qq, iy == y % qq, qq > 0, y >= 0;
    assert(m == (m / pp) * pp + m % pp && 0 <= m % pp < pp) by (nonlinear_arith) requires pp > 0, m > 0;
    assert(n == (n / qq) * qq + n % qq && 0 <= n % qq < qq) by (nonlinear_arith) requires qq > 0, n > 0;
    assert(bx <= m / pp) by (nonlinear_arith) requires bx == x / pp, x < m, pp > 0, x >= 0;
    assert(by <= n / qq) by (nonlinear_arith) requires by == y / qq, y < n, qq > 0, y >= 0;
    if bx == m / pp {
        assert(a == m % pp);
        assert(ix < a) by (nonlinear_arith)
            requires x == bx * pp + ix, x < m, m == (m / pp) * pp + m % pp, bx == m / pp, a == m % pp;
        assert(bx * pp + a == m);
    } else {
        assert(a == pp);
        assert(bx * pp + pp <= m) by (nonlinear_arith)
            requires bx + 1 <= m / pp, m == (m / pp) * pp + m % pp, m % pp >= 0, pp > 0;
    }
    if n % qq != 0 && by == n / qq {
        assert(h == n % qq);
        assert(iy < h) by (nonlinear_arith)
            requires y == by * qq + iy, y < n, n == (n / qq) * qq + n % qq, by == n / qq, h == n % qq;
        assert(by * qq + h == n);
    } else {
        assert(h == qq);
        if by == n / qq {
            assert(n % qq == 0);
            assert(false) by (nonlinear_arith)
                requires y == by * qq + iy, y < n, n == (n / qq) * qq + n % qq, by == n / qq, n % qq == 0, iy >= 0;
        }
        assert(by * qq + qq <= n) by (nonlinear_arith)
            requires by + 1 <= n / qq, n == (n / qq) * qq + n % qq, n % qq >= 0, qq > 0;
    }
}

/// The place of an index of the grid splits into its row of blocks, then
/// its block, then its row-major place in the block, each part below the
/// size of the next; the place lies inside the grid.
proof fn lemma_brm_split(p: int, q: int, m: int, n: int, i: int)
    requires
        m > 0,
        n > 0,
        p > 0,
        q > 0,
        0 <= i < m * n,
    ensures
        ({
            let pp = if p < m { p } else { m };
            let qq = if q < n { q } else { n };
            let x = i % m;
            let y = i / m;
            let bx = x / pp;
            let by = y / qq;
            let h = brm_height(qq, n, by);
            let a = brm_width(pp, m, bx);
            let inner = (y % qq) * a + x % pp;
            let row = bx * (pp * h) + inner;
            &&& 0 <= x < m
            &&& 0 <= y < n
            &&& i == x + m * y
            &&& brm_spec(p, q, m, n, i) == by * (qq * m) + row
            &&& 0 <= inner < pp * h
            &&& 0 <= row < qq * m
            &&& 0 <= brm_spec(p, q, m, n, i) < m * n
        }),
{
    let pp = if p < m { p } else { m };
    let qq = if q < n { q } else { n };
    let x = i % m;
    let y = i / m;
    assert(0 <= x < m && 0 <= y < n && i == x + m * y) by (nonlinear_arith)
        requires x == i % m, y == i / m, 0 <= i < m * n, m > 0;
    lemma_brm_cell(pp, qq, m, n, x, y);
    let bx = x / pp;
    let by = y / qq;
    let h = brm_height(qq, n, by);
    let a = brm_width(pp, m, bx);
    let (ix, iy) = (x % pp, y % qq);
    let inner = iy * a + ix;
    let row = bx * (pp * h) + inner;
    assert(brm_spec(p, q, m, n, i) == by * (qq * m) + row) by (nonlinear_arith)
        requires brm_spec(p, q, m, n, i) == ((by * qq) * m + (bx * pp) * h) + row_major_spec(a, ix, iy),
            row == bx * (pp * h) + inner, inner == iy * a + ix;
    assert(0 <= inner < a * h) by (nonlinear_arith)
        requires inner == iy * a + ix, 0 <= ix < a, 0 <= iy < h;
    assert(a * h <= pp * h) by (nonlinear_arith) requires a <= pp, h > 0;
    assert(0 <= row < m * h) by (nonlinear_arith)
        requires row == bx * (pp * h) + inner, 0 <= inner < a * h, bx * pp + a <= m, bx >= 0, h > 0, pp > 0;
    assert(m * h <= qq * m) by (nonlinear_arith) requires h <= qq, m > 0;
    assert(by * (qq * m) + row < m * n) by (nonlinear_arith)
        requires row < m * h, by * qq + h <= n, m > 0, by >= 0;
    assert(by * (qq * m) + row >= 0) by (nonlinear_arith) requires row >= 0, by >= 0, qq > 0, m > 0;
}

/// Two indices of the grid with one place are one index.
proof fn lemma_brm_injective(p: int, q: int, m: int, n: int, i: int, j: int)
    requires
        m > 0,
        n > 0,
        p > 0,
        q > 0,
        0 <= i < m * n,
        0 <= j < m * n,
        brm_spec(p, q, m, n, i) == brm_spec(p, q, m, n, j),
    ensures
        i == j,
{
    lemma_brm_split(p, q, m, n, i);
    lemma_brm_split(p, q, m, n, j);
    let pp = if p < m { p } else { m };
    let qq = if q < n { q } else { n };
    let (xi, yi, xj, yj) = (i % m, i / m, j % m, j / m);
    lemma_brm_cell(pp, qq, m, n, xi, yi);
    lemma_brm_cell(pp, qq, m, n, xj, yj);
    let r = brm_spec(p, q, m, n, i);
    let (bxi, byi, bxj, byj) = (xi / pp, yi / qq, xj / pp, yj / qq);
    let hi = brm_height(qq, n, byi);
    let hj = brm_height(qq, n, byj);
    let ai = brm_width(pp, m, bxi);
    let aj = brm_width(pp, m, bxj);
    let ini = (yi % qq) * ai + xi % pp;
    let inj = (yj % qq) * aj + xj % pp;
    let rowi = bxi * (pp * hi) + ini;
    let rowj = bxj * (pp * hj) + inj;
    assert(qq * m > 0) by (nonlinear_arith) requires qq > 0, m > 0;
    vstd::arithmetic::div_mod::lemma_fundamental_div_mod_converse(r, qq * m, byi, rowi);
    vstd::arithmetic::div_mod::lemma_fundamental_div_mod_converse(r, qq * m, byj, rowj);
    assert(byi == byj && rowi == rowj);
    assert(hi == hj);
    assert(pp * hi > 0) by (nonlinear_arith) requires pp > 0, hi > 0;
    vstd::arithmetic::div_mod::lemma_fundamental_div_mod_converse(rowi, pp * hi, bxi, ini);
    vstd::arithmetic::div_mod::lemma_fundamental_div_mod_converse(rowi, pp * hi, bxj, inj);
    assert(bxi == bxj && ini == inj);
    assert(ai == aj);
    vstd::arithmetic::div_mod::lemma_fundamental_div_mod_converse(ini, ai, yi % qq, xi % pp);
    vstd::arithmetic::div_mod::lemma_fundamental_div_mod_converse(ini, ai, yj % qq, xj % pp);
    assert(xi == xj && yi == yj);
}

/// The blocked layout is a permutation of the grid's `m * n` indices: every
/// index lands inside the grid, and no two land on one place.
pub proof fn lemma_brm_permutation(p: int, q: int, m: int, n: int)
    requires
        m > 0,
        n > 0,
        p > 0,
        q > 0,
    ensures
        forall|i: int| 0 <= i < m * n ==> 0 <= #[trigger] brm_spec(p, q, m, n, i) < m * n,
        forall|i: int, j: int| 0 <= i < m * n && 0 <= j < m * n && i != j
            ==> #[trigger] brm_spec(p, q, m, n, i) != #[trigger] brm_spec(p, q, m, n, j),
{
    assert forall|i: int| 0 <= i < m * n implies 0 <= #[trigger] brm_spec(p, q, m, n, i) < m * n by {
        lemma_brm_split(p, q, m, n, i);
    }
    assert forall|i: int, j: int| 0 <= i < m * n && 0 <= j < m * n && i != j
        implies #[trigger] brm_spec(p, q, m, n, i) != #[trigger] brm_spec(p, q, m, n, j) by {
        if brm_spec(p, q, m, n, i) == brm_spec(p, q, m, n, j) {
            lemma_brm_injective(p, q, m, n, i, j);
        }
    }
}

} // verus!
