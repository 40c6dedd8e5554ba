//! Axial hex coordinates, the cube distance and the adjacency relation.

use vstd::prelude::*;
use vstd::math::{abs, max3};

verus! {

/// An axial hex coordinate on a flat-top hexagonal grid. The pair `(q, r)`
/// identifies a cell uniquely; equality and hashing are by value.
#[derive(Clone, Copy, PartialEq, Eq, Structural, Debug, Hash)]
pub struct HexCoord {
    pub q: i32,
    pub r: i32,
}

/// The hex (cube) distance between two coordinates: with cube deltas
/// `(dq, dr, -(dq + dr))`, the distance is the largest absolute component.
pub open spec fn hex_dist(a: HexCoord, b: HexCoord) -> int {
    let dq = a.q - b.q;
    let dr = a.r - b.r;
    max3(abs(dq) as int, abs(dr) as int, abs(dq + dr) as int)
}

/// The distance of a coordinate from the grid origin.
pub open spec fn hex_norm(c: HexCoord) -> int {
    hex_dist(c, HexCoord { q: 0, r: 0 })
}

/// Two cells are adjacent exactly when their cube distance is one; that
/// holds of the six axial neighbour offsets
/// `(1,0) (0,1) (-1,1) (-1,0) (0,-1) (1,-1)` and of no other pair.
pub open spec fn adjacent(a: HexCoord, b: HexCoord) -> bool {
    hex_dist(a, b) == 1
}

/// The triangle inequality of the cube distance.
pub proof fn lemma_hex_triangle(a: HexCoord, b: HexCoord, c: HexCoord)
    ensures
        hex_dist(a, c) <= hex_dist(a, b) + hex_dist(b, c),
{
}

/// The cube distance is symmetric and zero exactly on equal cells.
pub proof fn lemma_hex_dist_basics(a: HexCoord, b: HexCoord)
    ensures
        hex_dist(a, b) == hex_dist(b, a),
        hex_dist(a, b) >= 0,
        hex_dist(a, b) == 0 <==> a == b,
{
}

/// Computes the hex (cube) distance between two coordinates.
pub fn hex_distance(a: HexCoord, b: HexCoord) -> (d: u64)
    ensures
        d as int == hex_dist(a, b),
{
    let dq: i64 = a.q as i64 - b.q as i64;
    let dr: i64 = a.r as i64 - b.r as i64;
    let ds: i64 = dq + dr;
    let aq: i64 = if dq >= 0 { dq } else { -dq };
    let ar: i64 = if dr >= 0 { dr } else { -dr };
    let as_: i64 = if ds >= 0 { ds } else { -ds };
    let m: i64 = if aq >= ar { aq } else { ar };
    if m >= as_ {
        m as u64
    } else {
        as_ as u64
    }
}

/// Twice the cube distance is the sum of the three cube component
/// magnitudes.
pub proof fn lemma_dist_half_sum(a: HexCoord, b: HexCoord)
    ensures
        2 * hex_dist(a, b) == abs(a.q - b.q) + abs(a.r - b.r) + abs((a.q - b.q) + (a.r - b.r)),
{
}

} // verus!
