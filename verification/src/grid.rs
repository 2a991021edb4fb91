//! Tile grid geometry. Columns are the ceiling of the square root of the tile count, which gives
//! the one to nine layouts 1x1, 2x1, 2x2, 2x2, 3x2, 3x2, 3x3, 3x3, 3x3.
use vstd::prelude::*;

verus! {

/// `cols` is the ceiling of the square root of `count`: the least whole number whose square
/// reaches `count`.
pub open spec fn is_ceil_sqrt(count: nat, cols: nat) -> bool {
    &&& cols * cols >= count
    &&& cols == 0 || (cols - 1) * (cols - 1) < count
}

/// `rows` is `count` divided by `cols`, rounded up.
pub open spec fn is_ceil_div(count: nat, cols: nat, rows: nat) -> bool {
    &&& rows * cols >= count
    &&& rows == 0 || (rows - 1) * cols < count
}

fn square(c: u128) -> (r: u128)
    requires
        c <= 0x1_0000_0000,
    ensures
        r == c * c,
{
    assert(c * c <= 0x1_0000_0000 * 0x1_0000_0000) by (nonlinear_arith)
        requires
            c <= 0x1_0000_0000,
    ;
    c * c
}

/// Columns and rows for `count` tiles: no grid for no tiles, else the ceiling square root of
/// the count as columns and as many rows as those columns need.
pub fn dimensions(count: usize) -> (d: (usize, usize))
    ensures
        count == 0 ==> d == (0usize, 0usize),
        count > 0 ==> is_ceil_sqrt(count as nat, d.0 as nat) && d.0 > 0 && is_ceil_div(
            count as nat,
            d.0 as nat,
            d.1 as nat,
        ),
{
    if count == 0 {
        return (0, 0);
    }
    let n = count as u128;
    let mut cols: u128 = 1;
    while square(cols) < n
        invariant
            1 <= cols,
            n == count as u128,
            n >= 1,
            (cols - 1) * (cols - 1) < n,
            cols <= n,
            cols <= 0x1_0000_0000,
        decreases n - cols,
    {
        assert(cols * cols < n);
        assert(cols + 1 <= n) by (nonlinear_arith)
            requires
                cols * cols < n,
                cols >= 1,
        ;
        assert(cols < 0x1_0000_0000) by (nonlinear_arith)
            requires
                cols * cols < n,
                n <= 0xffff_ffff_ffff_ffff,
        ;
        cols = cols + 1;
    }
    let rows = (n + cols - 1) / cols;
    proof {
        let rr = rows as int;
        let cc = cols as int;
        let nn = n as int;
        assert(rr <= nn) by (nonlinear_arith)
            requires
                rr == (nn + cc - 1) / cc,
                cc >= 1,
                nn >= 1,
        ;
        let r = rows as int;
        let c = cols as int;
        let m = n as int;
        assert(r * c >= m && (r == 0 || (r - 1) * c < m)) by (nonlinear_arith)
            requires
                r == (m + c - 1) / c,
                c >= 1,
                m >= 1,
        ;
    }
    (cols as usize, rows as usize)
}

} // verus!
