//! Exact integer arithmetic helpers: floor division, round-to-nearest
//! division and the integer square root, each with a contract that pins the
//! result down completely.

use vstd::prelude::*;
use vstd::arithmetic::div_mod::lemma_fundamental_div_mod;

verus! {

/// The quotient `n / d` for a positive divisor is the unique integer `q`
/// with `q * d <= n < q * d + d`.
pub proof fn lemma_div_unique(n: int, d: int, q: int)
    requires
        d > 0,
        q * d <= n < q * d + d,
    ensures
        n / d == q,
{
    lemma_fundamental_div_mod(n, d);
    assert(0 <= n % d < d);
    assert(n == d * (n / d) + n % d);
    assert(q * d <= d * (n / d) + n % d < q * d + d);
    assert(n / d == q) by (nonlinear_arith)
        requires
            d > 0,
            0 <= n - d * (n / d) < d,
            q * d <= d * (n / d) + (n - d * (n / d)) < q * d + d,
    ;
}

/// Floor division by a positive divisor: rounds toward negative infinity,
/// matching `/` on `int` in specifications.
pub fn div_floor(num: i64, den: i64) -> (q: i64)
    requires
        1 <= den <= 0x4000_0000_0000_0000,
        -0x4000_0000_0000_0000 <= num <= 0x4000_0000_0000_0000,
    ensures
        q as int == num as int / den as int,
        q * den <= num < q * den + den,
{
    let ghost ni: int = num as int;
    let ghost di: int = den as int;
    if num >= 0 {
        let qu: u64 = (num as u64) / (den as u64);
        proof {
            lemma_fundamental_div_mod(ni, di);
            lemma_div_unique(ni, di, ni / di);
            assert((num as u64 / den as u64) as int == ni / di);
            assert(0 <= ni / di <= ni) by (nonlinear_arith)
                requires
                    di >= 1,
                    ni >= 0,
                    (ni / di) * di <= ni < (ni / di) * di + di,
            ;
        }
        qu as i64
    } else {
        let m: u64 = (-num) as u64;
        let d: u64 = den as u64;
        let t: u64 = m / d;
        let rem: u64 = m % d;
        proof {
            let mi: int = m as int;
            lemma_fundamental_div_mod(mi, di);
            assert(mi == di * (mi / di) + mi % di);
            assert(0 <= mi % di < di);
            assert(t as int == mi / di);
            assert(rem as int == mi % di);
            assert(0 <= mi / di <= mi) by (nonlinear_arith)
                requires
                    di >= 1,
                    mi >= 0,
                    mi == di * (mi / di) + mi % di,
                    0 <= mi % di < di,
            ;
            if rem == 0 {
                assert((-(t as int)) * di <= ni < (-(t as int)) * di + di)
                    by (nonlinear_arith)
                    requires
                        di >= 1,
                        ni == -mi,
                        mi == di * (t as int),
                ;
                lemma_div_unique(ni, di, -(t as int));
            } else {
                assert((-(t as int) - 1) * di <= ni < (-(t as int) - 1) * di + di)
                    by (nonlinear_arith)
                    requires
                        di >= 1,
                        ni == -mi,
                        mi == di * (t as int) + (rem as int),
                        0 < (rem as int) && (rem as int) < di,
                ;
                lemma_div_unique(ni, di, -(t as int) - 1);
            }
        }
        if rem == 0 {
            -(t as i64)
        } else {
            -(t as i64) - 1
        }
    }
}

/// Rounding a ratio to the nearest integer, halves rounding up:
/// `round_ratio(n, d) == (2n + d) / (2d)` with floor division.
pub open spec fn round_ratio(n: int, d: int) -> int {
    (2 * n + d) / (2 * d)
}

/// Rounds `n / d` to the nearest integer for a positive divisor, halves
/// rounding up.
pub fn round_div(num: i64, den: i64) -> (q: i64)
    requires
        1 <= den <= 0x1000_0000_0000_0000,
        -0x1000_0000_0000_0000 <= num <= 0x1000_0000_0000_0000,
    ensures
        q as int == round_ratio(num as int, den as int),
        -(den as int) <= 2 * (num - q * den) < den as int,
{
    let q = div_floor(2 * num + den, 2 * den);
    proof {
        let ni: int = num as int;
        let di: int = den as int;
        assert(q * (2 * di) <= 2 * ni + di < q * (2 * di) + 2 * di);
        assert(-di <= 2 * (ni - q * di) < di) by (nonlinear_arith)
            requires
                q * (2 * di) <= 2 * ni + di < q * (2 * di) + 2 * di,
        ;
    }
    q
}

/// The defining window of `round_ratio`: the result is the unique integer
/// whose double-denominator multiple brackets `2 n + d`.
pub proof fn lemma_round_ratio_window(n: int, d: int)
    requires
        d >= 1,
    ensures
        round_ratio(n, d) * (2 * d) <= 2 * n + d < round_ratio(n, d) * (2 * d) + 2 * d,
{
    let q = round_ratio(n, d);
    lemma_fundamental_div_mod(2 * n + d, 2 * d);
    assert(q * (2 * d) <= 2 * n + d < q * (2 * d) + 2 * d) by (nonlinear_arith)
        requires
            d >= 1,
            2 * n + d == (2 * d) * q + (2 * n + d) % (2 * d),
            0 <= (2 * n + d) % (2 * d) < 2 * d,
    ;
}

/// `r` is the integer square root of `n`.
pub open spec fn is_sqrt(n: int, r: int) -> bool {
    &&& r >= 0
    &&& r * r <= n
    &&& n < (r + 1) * (r + 1)
}

/// The integer square root, as a function; well defined for nonnegative
/// arguments by `lemma_sqrt_exists` and `lemma_sqrt_unique`.
pub open spec fn sqrt_floor(n: int) -> int {
    choose|r: int| is_sqrt(n, r)
}

/// Every nonnegative integer has an integer square root.
pub proof fn lemma_sqrt_exists(n: int)
    requires
        n >= 0,
    ensures
        is_sqrt(n, sqrt_floor(n)),
    decreases n,
{
    if n == 0 {
        assert(is_sqrt(0, 0));
    } else {
        lemma_sqrt_exists(n - 1);
        let p = sqrt_floor(n - 1);
        if n < (p + 1) * (p + 1) {
            assert(is_sqrt(n, p));
        } else {
            assert((p + 1) * (p + 1) <= n);
            assert(n < (p + 2) * (p + 2)) by (nonlinear_arith)
                requires
                    p >= 0,
                    n - 1 < (p + 1) * (p + 1),
            ;
            assert(is_sqrt(n, p + 1));
        }
    }
}

/// At most one integer is the square root of `n`.
pub proof fn lemma_sqrt_unique(n: int, r: int)
    requires
        is_sqrt(n, r),
    ensures
        r == sqrt_floor(n),
{
    assert(is_sqrt(n, sqrt_floor(n)));
    let s = sqrt_floor(n);
    assert(r == s) by (nonlinear_arith)
        requires
            r >= 0,
            s >= 0,
            r * r <= n < (r + 1) * (r + 1),
            s * s <= n < (s + 1) * (s + 1),
    ;
}

/// Computes the integer square root by binary search.
pub fn isqrt(n: u64) -> (r: u64)
    ensures
        is_sqrt(n as int, r as int),
        r as int == sqrt_floor(n as int),
        r <= 0x1_0000_0000,
{
    let mut lo: u64 = 0;
    let mut hi: u64 = 0x1_0000_0000;
    if n < hi {
        hi = n + 1;
    }
    proof {
        if hi as int == n as int + 1 {
            assert((n as int) < (n as int + 1) * (n as int + 1)) by (nonlinear_arith)
                requires
                    n as int >= 0,
            ;
        } else {
            assert((n as int) < 0x1_0000_0000i64 * 0x1_0000_0000i64) by (nonlinear_arith)
                requires
                    n as int <= 0xFFFF_FFFF_FFFF_FFFFu64 as int,
            ;
        }
    }
    while lo + 1 < hi
        invariant
            0 <= lo < hi <= 0x1_0000_0000,
            (lo as int) * (lo as int) <= n as int,
            (n as int) < (hi as int) * (hi as int),
        decreases hi - lo,
    {
        let mid: u64 = lo + (hi - lo) / 2;
        assert(lo < mid < hi);
        proof {
            assert((mid as int) * (mid as int) < 0x1_0000_0000_0000_0000_0000_0000_0000_0000int)
                by (nonlinear_arith)
                requires
                    0 <= mid as int <= 0x1_0000_0000i64,
            ;
        }
        let sq: u128 = (mid as u128) * (mid as u128);
        if sq <= n as u128 {
            lo = mid;
        } else {
            hi = mid;
        }
    }
    proof {
        assert(is_sqrt(n as int, lo as int));
        lemma_sqrt_unique(n as int, lo as int);
    }
    lo
}

} // verus!
