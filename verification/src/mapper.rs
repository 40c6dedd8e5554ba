//! Bidirectional conversion between axial hex coordinates and world-plane
//! positions, in fixed-point milliunits (thousandths of a world unit).
//!
//! The mapper places flat-top hexagons: a cell `(q, r)` has its centre at
//! `(sx * q, sz * (q + 2 r))`, where `sx` is three halves of the cell outer
//! radius and `sz` approximates half the square root of three times that
//! radius. The inverse conversion recovers fractional axial coordinates as
//! exact rationals over those same two integers and rounds them to the
//! nearest cell, so the two directions are exact inverses on cell centres.

use vstd::prelude::*;
use crate::coords::HexCoord;
use crate::numeric::{div_floor, round_div, round_ratio, lemma_div_unique, lemma_round_ratio_window};

verus! {

/// Largest cell scale accepted, in milliunits of the cell outer radius.
pub const MAX_SCALE: i64 = 10_000;

/// Smallest cell scale accepted, in milliunits of the cell outer radius.
pub const MIN_SCALE: i64 = 10;

/// Largest magnitude of an axial index the mapper accepts.
pub const MAX_COORD: i32 = 2_000;

/// Largest magnitude of a world-plane milliunit position the mapper accepts.
pub const MAX_WORLD: i64 = 200_000_000;

/// Pure configuration of the hex-cell placement: `sx` milliunits between
/// neighbouring cell centres along the x axis per unit of `q`, and `sz`
/// milliunits of z per half step of `q + 2 r`.
#[derive(Clone, Copy, PartialEq, Eq, Structural, Debug)]
pub struct CoordinateMapper {
    pub sx: i64,
    pub sz: i64,
}

impl CoordinateMapper {
    /// The mapper's steps stay in the range that keeps every conversion
    /// below any integer limit.
    pub open spec fn wf(self) -> bool {
        &&& 8 <= self.sx <= 15_000
        &&& 8 <= self.sz <= 8_660
    }

    /// Builds the mapper for a cell outer radius of `scale` milliunits.
    pub fn new(scale: i64) -> (m: CoordinateMapper)
        requires
            MIN_SCALE <= scale <= MAX_SCALE,
        ensures
            m.wf(),
            m.sx == 3 * scale / 2,
            m.sz == scale * 866 / 1000,
    {
        let sx = div_floor(3 * scale, 2);
        let sz = div_floor(scale * 866, 1000);
        CoordinateMapper { sx, sz }
    }

    /// The exact x milliunit coordinate of the centre of cell `c`.
    pub open spec fn center_x(self, c: HexCoord) -> int {
        self.sx * c.q
    }

    /// The exact z milliunit coordinate of the centre of cell `c`.
    pub open spec fn center_z(self, c: HexCoord) -> int {
        self.sz * (c.q + 2 * c.r)
    }
}

/// Whether an axial coordinate is within the mapper's accepted range.
pub open spec fn coord_in_range(c: HexCoord) -> bool {
    &&& -(MAX_COORD as int) <= c.q <= MAX_COORD as int
    &&& -(MAX_COORD as int) <= c.r <= MAX_COORD as int
}

/// Whether a world-plane milliunit position is within the mapper's
/// accepted range.
pub open spec fn world_in_range(x: int, z: int) -> bool {
    &&& -(MAX_WORLD as int) <= x <= MAX_WORLD as int
    &&& -(MAX_WORLD as int) <= z <= MAX_WORLD as int
}

/// Converts a hex coordinate to the world position of its cell centre.
pub fn hex_to_world(m: &CoordinateMapper, c: HexCoord) -> (p: (i64, i64))
    requires
        m.wf(),
        coord_in_range(c),
    ensures
        p.0 as int == m.center_x(c),
        p.1 as int == m.center_z(c),
        -52_000_000 <= p.0 <= 52_000_000,
        -52_000_000 <= p.1 <= 52_000_000,
        world_in_range(p.0 as int, p.1 as int),
{
    proof {
        assert(vstd::math::abs(m.sx as int * (c.q as int)) <= 30_000_000
            && vstd::math::abs(m.sz as int * (c.q as int + 2 * (c.r as int))) <= 52_000_000)
            by (nonlinear_arith)
            requires
                8 <= m.sx <= 15_000,
                8 <= m.sz <= 8_660,
                -2_000 <= c.q <= 2_000,
                -2_000 <= c.r <= 2_000,
        ;
    }
    let x = m.sx * (c.q as i64);
    let z = m.sz * ((c.q as i64) + 2 * (c.r as i64));
    (x, z)
}

/// The fractional axial coordinates of a world position, rounded to the
/// nearest cell with the standard cube fix-up: round both axes, then
/// correct the axis with the larger rounding error so that the rounded
/// cube coordinates still sum to zero.
pub open spec fn world_to_hex_spec(m: CoordinateMapper, x: int, z: int) -> HexCoord {
    let den = 2 * m.sx * m.sz;
    let qn = 2 * m.sz * x;
    let rn = m.sx * z - m.sz * x;
    let q0 = round_ratio(qn, den);
    let r0 = round_ratio(rn, den);
    let fq = qn - q0 * den;
    let fr = rn - r0 * den;
    if vstd::math::abs(fq) >= vstd::math::abs(fr) {
        let adj = round_ratio(2 * fq + fr, 2 * den);
        HexCoord { q: (q0 + adj) as i32, r: r0 as i32 }
    } else {
        let adj = round_ratio(2 * fr + fq, 2 * den);
        HexCoord { q: q0 as i32, r: (r0 + adj) as i32 }
    }
}

/// Converts a world-plane position to the hex coordinate of the cell it
/// lies in. Every position maps to exactly one cell, populated or not.
pub fn world_to_hex(m: &CoordinateMapper, x: i64, z: i64) -> (c: HexCoord)
    requires
        m.wf(),
        world_in_range(x as int, z as int),
    ensures
        c == world_to_hex_spec(*m, x as int, z as int),
{
    proof {
        assert(64 <= m.sx as int * m.sz as int <= 129_900_000
            && vstd::math::abs(m.sz as int * x as int) <= 1_732_000_000_000
            && vstd::math::abs(m.sx as int * z as int) <= 3_000_000_000_000)
            by (nonlinear_arith)
            requires
                8 <= m.sx <= 15_000,
                8 <= m.sz <= 8_660,
                -200_000_000 <= x <= 200_000_000,
                -200_000_000 <= z <= 200_000_000,
        ;
    }
    let t: i64 = m.sx * m.sz;
    let den: i64 = 2 * t;
    let u: i64 = m.sz * x;
    let qn: i64 = 2 * u;
    let v: i64 = m.sx * z;
    let rn: i64 = v - u;
    proof {
        assert(den as int == 2 * m.sx as int * m.sz as int
            && qn as int == 2 * m.sz as int * x as int
            && rn as int == m.sx as int * z as int - m.sz as int * x as int)
            by (nonlinear_arith)
            requires
                t as int == m.sx as int * m.sz as int,
                den as int == 2 * t as int,
                u as int == m.sz as int * x as int,
                qn as int == 2 * u as int,
                v as int == m.sx as int * z as int,
                rn as int == v as int - u as int,
        ;
        lemma_q0_bound(*m, x as int, z as int);
    }
    let q0: i64 = round_div(qn, den);
    let r0: i64 = round_div(rn, den);
    proof {
        assert(vstd::math::abs(q0 as int * den as int) <= 0x2000_0000_0000_0000
            && vstd::math::abs(r0 as int * den as int) <= 0x2000_0000_0000_0000)
            by (nonlinear_arith)
            requires
                1 <= den as int <= 259_800_000,
                -0x4000_0000 <= q0 as int <= 0x4000_0000,
                -0x4000_0000 <= r0 as int <= 0x4000_0000,
        ;
    }
    let fq: i64 = qn - q0 * den;
    let fr: i64 = rn - r0 * den;
    let afq: i64 = if fq >= 0 { fq } else { -fq };
    let afr: i64 = if fr >= 0 { fr } else { -fr };
    if afq >= afr {
        let adj: i64 = round_div(2 * fq + fr, 2 * den);
        proof {
            lemma_adj_bound(2 * fq as int + fr as int, den as int, adj as int);
        }
        HexCoord { q: (q0 + adj) as i32, r: r0 as i32 }
    } else {
        let adj: i64 = round_div(2 * fr + fq, 2 * den);
        proof {
            lemma_adj_bound(2 * fr as int + fq as int, den as int, adj as int);
        }
        HexCoord { q: q0 as i32, r: (r0 + adj) as i32 }
    }
}

/// The rounded axial coordinates of an in-range position fit in 32 bits.
proof fn lemma_q0_bound(m: CoordinateMapper, x: int, z: int)
    requires
        m.wf(),
        world_in_range(x, z),
    ensures
        -(0x4000_0000 as int) <= round_ratio(2 * m.sz * x, 2 * m.sx * m.sz) <= 0x4000_0000 as int,
        -(0x4000_0000 as int) <= round_ratio(m.sx * z - m.sz * x, 2 * m.sx * m.sz) <= 0x4000_0000 as int,
{
    let den = 2 * m.sx * m.sz;
    let qn = 2 * m.sz * x;
    let rn = m.sx * z - m.sz * x;
    assert(den >= 128 && vstd::math::abs(qn) <= (0x4000_0000 - 1) * den
        && vstd::math::abs(rn) <= (0x4000_0000 - 1) * den) by (nonlinear_arith)
        requires
            8 <= m.sx <= 15_000,
            8 <= m.sz <= 8_660,
            -200_000_000 <= x <= 200_000_000,
            -200_000_000 <= z <= 200_000_000,
            den == 2 * m.sx * m.sz,
            qn == 2 * m.sz * x,
            rn == m.sx * z - m.sz * x,
    ;
    lemma_round_in_band(qn, den, 0x4000_0000);
    lemma_round_in_band(rn, den, 0x4000_0000);
}

/// Rounding a ratio whose numerator is at most `bound` times the
/// denominator gives a result within `bound`.
proof fn lemma_round_in_band(n: int, d: int, bound: int)
    requires
        d >= 1,
        bound >= 1,
        vstd::math::abs(n) <= (bound - 1) * d,
    ensures
        -bound <= round_ratio(n, d) <= bound,
{
    let q = round_ratio(n, d);
    lemma_round_ratio_window(n, d);
    assert(-bound <= q <= bound) by (nonlinear_arith)
        requires
            d >= 1,
            bound >= 1,
            -((bound - 1) * d) <= n <= (bound - 1) * d,
            q * (2 * d) <= 2 * n + d < q * (2 * d) + 2 * d,
    ;
}

/// The cube fix-up adjustment is at most one cell.
proof fn lemma_adj_bound(n: int, d: int, adj: int)
    requires
        d >= 1,
        vstd::math::abs(n) <= 2 * d,
        adj == round_ratio(n, 2 * d),
    ensures
        -1 <= adj <= 1,
{
    lemma_round_ratio_window(n, 2 * d);
    assert(-1 <= adj <= 1) by (nonlinear_arith)
        requires
            d >= 1,
            -(2 * d) <= n <= 2 * d,
            adj * (2 * (2 * d)) <= 2 * n + 2 * d < adj * (2 * (2 * d)) + 2 * (2 * d),
    ;
}

/// Rounding an exact integer multiple of the denominator recovers the
/// integer.
proof fn lemma_round_exact(k: int, d: int)
    requires
        d >= 1,
    ensures
        round_ratio(k * d, d) == k,
{
    assert(k * (2 * d) <= 2 * (k * d) + d < k * (2 * d) + 2 * d) by (nonlinear_arith)
        requires
            d >= 1,
    ;
    lemma_div_unique(2 * (k * d) + d, 2 * d, k);
}

/// Converting a cell centre back to hex coordinates recovers the cell:
/// for every coordinate in range, `world_to_hex` applied to
/// `hex_to_world`'s result returns the original coordinate.
pub proof fn lemma_world_round_trip(m: CoordinateMapper, c: HexCoord)
    requires
        m.wf(),
        coord_in_range(c),
    ensures
        world_to_hex_spec(m, m.center_x(c), m.center_z(c)) == c,
{
    let x = m.center_x(c);
    let z = m.center_z(c);
    let den = 2 * m.sx * m.sz;
    let qn = 2 * m.sz * x;
    let rn = m.sx * z - m.sz * x;
    assert(den >= 128 && qn == c.q * den && rn == c.r * den) by (nonlinear_arith)
        requires
            8 <= m.sx <= 15_000,
            8 <= m.sz <= 8_660,
            x == m.sx * c.q,
            z == m.sz * (c.q + 2 * c.r),
            den == 2 * m.sx * m.sz,
            qn == 2 * m.sz * x,
            rn == m.sx * z - m.sz * x,
    ;
    lemma_round_exact(c.q as int, den);
    lemma_round_exact(c.r as int, den);
    assert(qn - c.q * den == 0) by (nonlinear_arith)
        requires
            qn == c.q * den,
    ;
    assert(rn - c.r * den == 0) by (nonlinear_arith)
        requires
            rn == c.r * den,
    ;
    lemma_round_exact(0, 2 * den);
    assert(0 * (2 * den) == 0) by (nonlinear_arith);
}

} // verus!
