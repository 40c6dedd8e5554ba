//! The hex-grid spatial index: the set of populated cells, each with its
//! opaque occupant handle, the mutable set of blocked coordinates, and the
//! queue of handles of the committed path.

use vstd::prelude::*;
use crate::coords::{HexCoord, hex_norm};
use crate::mapper::{CoordinateMapper, coord_in_range};

verus! {

/// One populated grid cell: its coordinate and the opaque handle of its
/// occupant (a scene-graph node id, for instance).
#[derive(Clone, Copy, PartialEq, Eq, Structural, Debug)]
pub struct GridCell {
    pub coord: HexCoord,
    pub handle: u64,
}

/// The grid index. Created once at scene setup; only `blocked` and
/// `path_queue` change afterwards.
pub struct HexGridIndex {
    /// Conversion between hex coordinates and world-plane positions.
    pub mapper: CoordinateMapper,
    /// The populated cells; coordinates and handles are unique.
    pub occupants: Vec<GridCell>,
    /// Coordinates currently impassable; a subset of the populated cells.
    pub blocked: Vec<HexCoord>,
    /// Occupant handles of the committed path, consumed front to back.
    pub path_queue: Vec<u64>,
}

impl HexGridIndex {
    /// A coordinate is valid when some populated cell carries it.
    pub open spec fn valid_coord(self, c: HexCoord) -> bool {
        exists|i: int| 0 <= i < self.occupants@.len() && self.occupants@[i].coord == c
    }

    /// The index of the populated cell at `c`; meaningful when `c` is valid.
    pub open spec fn occ_index(self, c: HexCoord) -> int {
        choose|i: int| 0 <= i < self.occupants@.len() && self.occupants@[i].coord == c
    }

    /// The occupant handle at `c`; meaningful when `c` is valid.
    pub open spec fn handle_of(self, c: HexCoord) -> u64 {
        self.occupants@[self.occ_index(c)].handle
    }

    /// Whether some populated cell carries the occupant handle `h`.
    pub open spec fn handle_resolvable(self, h: u64) -> bool {
        exists|i: int| 0 <= i < self.occupants@.len() && (#[trigger] self.occupants@[i]).handle == h
    }

    /// The index of the populated cell with handle `h`; meaningful when the
    /// handle is resolvable.
    pub open spec fn handle_index(self, h: u64) -> int {
        choose|i: int| 0 <= i < self.occupants@.len() && (#[trigger] self.occupants@[i]).handle == h
    }

    /// The coordinate of the populated cell with handle `h`; meaningful when
    /// the handle is resolvable.
    pub open spec fn coord_of(self, h: u64) -> HexCoord {
        self.occupants@[self.handle_index(h)].coord
    }

    /// Whether `c` is currently flagged impassable.
    pub open spec fn is_blocked(self, c: HexCoord) -> bool {
        self.blocked@.contains(c)
    }

    /// A coordinate is walkable when it is populated and not blocked.
    pub open spec fn walkable(self, c: HexCoord) -> bool {
        self.valid_coord(c) && !self.is_blocked(c)
    }

    /// Well-formedness: the mapper is in range, cell coordinates and handles
    /// are unique and in range, and the blocked set is a duplicate-free
    /// subset of the populated coordinates.
    pub open spec fn wf(self) -> bool {
        &&& self.mapper.wf()
        &&& forall|i: int, j: int|
            0 <= i < j < self.occupants@.len() ==> self.occupants@[i].coord
                != self.occupants@[j].coord
        &&& forall|i: int, j: int|
            0 <= i < j < self.occupants@.len() ==> self.occupants@[i].handle
                != self.occupants@[j].handle
        &&& forall|i: int|
            0 <= i < self.occupants@.len() ==> coord_in_range(
                #[trigger] self.occupants@[i].coord,
            )
        &&& forall|i: int|
            0 <= i < self.blocked@.len() ==> self.valid_coord(#[trigger] self.blocked@[i])
        &&& forall|i: int, j: int|
            0 <= i < j < self.blocked@.len() ==> self.blocked@[i] != self.blocked@[j]
    }

    /// At a cell whose coordinate is `c`, the chosen occupant index is that
    /// cell's index, by uniqueness.
    pub proof fn lemma_handle_at(self, c: HexCoord, i: int)
        requires
            self.wf(),
            0 <= i < self.occupants@.len(),
            self.occupants@[i].coord == c,
        ensures
            self.valid_coord(c),
            self.occ_index(c) == i,
            self.handle_of(c) == self.occupants@[i].handle,
    {
        assert(self.valid_coord(c));
        let j = self.occ_index(c);
        if i != j {
            assert(self.occupants@[i].coord != self.occupants@[j].coord);
        }
    }

    /// Looks up the occupant handle at `c`.
    pub fn occupant_of(&self, c: HexCoord) -> (r: Option<u64>)
        requires
            self.wf(),
        ensures
            match r {
                Some(h) => self.valid_coord(c) && h == self.handle_of(c),
                None => !self.valid_coord(c),
            },
    {
        let n = self.occupants.len();
        let mut i: usize = 0;
        while i < n
            invariant
                n == self.occupants@.len(),
                0 <= i <= n,
                forall|k: int| 0 <= k < i ==> self.occupants@[k].coord != c,
                self.wf(),
            decreases n - i,
        {
            let cell = self.occupants[i];
            if cell.coord.q == c.q && cell.coord.r == c.r {
                proof {
                    self.lemma_handle_at(c, i as int);
                }
                return Some(cell.handle);
            }
            i += 1;
        }
        None
    }

    /// Finds the coordinate of the cell whose occupant handle is `h`.
    pub fn coord_of_handle(&self, h: u64) -> (r: Option<HexCoord>)
        requires
            self.wf(),
        ensures
            match r {
                Some(c) => self.handle_resolvable(h) && c == self.coord_of(h)
                    && self.valid_coord(c) && h == self.handle_of(c) && coord_in_range(c),
                None => !self.handle_resolvable(h),
            },
    {
        let n = self.occupants.len();
        let mut i: usize = 0;
        while i < n
            invariant
                n == self.occupants@.len(),
                0 <= i <= n,
                forall|k: int| 0 <= k < i ==> (#[trigger] self.occupants@[k]).handle != h,
                self.wf(),
            decreases n - i,
        {
            let cell = self.occupants[i];
            if cell.handle == h {
                proof {
                    self.lemma_handle_at(cell.coord, i as int);
                    assert(self.handle_resolvable(h));
                    let j = self.handle_index(h);
                    if j != i as int {
                        assert(self.occupants@[j].handle != self.occupants@[i as int].handle);
                    }
                }
                return Some(cell.coord);
            }
            i += 1;
        }
        proof {
            if self.handle_resolvable(h) {
                let j = self.handle_index(h);
                assert(self.occupants@[j].handle != h);
            }
        }
        None
    }

    /// Whether `c` is populated and not blocked.
    pub fn is_walkable(&self, c: HexCoord) -> (r: bool)
        requires
            self.wf(),
        ensures
            r == self.walkable(c),
    {
        match self.occupant_of(c) {
            None => false,
            Some(_) => !contains_coord(&self.blocked, c),
        }
    }

    /// The uniform step cost of entering the cell `(q, r)`: one for a
    /// walkable cell, impassable otherwise.
    pub fn step_cost(&self, q: i32, r: i32) -> (cost: Option<u32>)
        requires
            self.wf(),
        ensures
            cost == if self.walkable(HexCoord { q, r }) {
                Some(1u32)
            } else {
                Option::<u32>::None
            },
    {
        if self.is_walkable(HexCoord { q, r }) {
            Some(1)
        } else {
            None
        }
    }

    /// Flips the blocked state of `c`: unblocks it if blocked; otherwise, if
    /// `c` is populated, blocks it and prunes its occupant handle from the
    /// committed path queue; otherwise does nothing.
    pub fn toggle_blocked(&mut self, c: HexCoord)
        requires
            old(self).wf(),
        ensures
            final(self).wf(),
            toggle_rel(*old(self), *final(self), c),
    {
        match find_index(&self.blocked, c) {
            Some(i) => {
                let ghost g0 = *self;
                self.blocked.remove(i);
                proof {
                    lemma_remove_membership(g0.blocked@, self.blocked@, i as int, c);
                    assert(g0.is_blocked(c));
                    assert forall|c2: HexCoord|
                        #[trigger] self.is_blocked(c2) == (g0.is_blocked(c2) && c2 != c) by {
                        assert(self.blocked@.contains(c2) == (g0.blocked@.contains(c2) && c2
                            != c));
                    }
                    assert forall|k: int|
                        0 <= k < self.blocked@.len() implies self.valid_coord(
                        #[trigger] self.blocked@[k],
                    ) by {
                        assert(self.blocked@.contains(self.blocked@[k]));
                        let j = choose|j: int|
                            0 <= j < g0.blocked@.len() && g0.blocked@[j] == self.blocked@[k];
                        assert(g0.valid_coord(g0.blocked@[j]));
                    }
                }
            },
            None => {
                let ghost g0 = *self;
                proof {
                    if g0.blocked@.contains(c) {
                        let k = choose|k: int|
                            0 <= k < g0.blocked@.len() && g0.blocked@[k] == c;
                        assert(g0.blocked@[k] != c);
                    }
                    assert(!g0.is_blocked(c));
                }
                let handle = match self.occupant_of(c) {
                    None => {
                        return ;
                    },
                    Some(h) => h,
                };
                self.blocked.push(c);
                let mut kept: Vec<u64> = Vec::new();
                let n = self.path_queue.len();
                let mut i: usize = 0;
                proof {
                    assert(self.path_queue@.subrange(0, 0) =~= Seq::<u64>::empty());
                    assert(Seq::<u64>::empty().filter(|h2: u64| h2 != handle)
                        =~= Seq::<u64>::empty()) by {
                        reveal(Seq::filter);
                    }
                }
                while i < n
                    invariant
                        n == self.path_queue@.len(),
                        0 <= i <= n,
                        kept@ =~= self.path_queue@.subrange(0, i as int).filter(
                            |h2: u64| h2 != handle,
                        ),
                    decreases n - i,
                {
                    let v = self.path_queue[i];
                    proof {
                        assert(self.path_queue@.subrange(0, i as int + 1)
                            =~= self.path_queue@.subrange(0, i as int).push(v));
                        lemma_filter_push(
                            self.path_queue@.subrange(0, i as int),
                            v,
                            |h2: u64| h2 != handle,
                        );
                    }
                    if v != handle {
                        kept.push(v);
                    }
                    i += 1;
                }
                proof {
                    assert(self.path_queue@.subrange(0, n as int) =~= self.path_queue@);
                    assert((|h2: u64| h2 != handle) =~= (|h2: u64| h2 != g0.handle_of(c)));
                    assert(kept@ == g0.path_queue@.filter(|h2: u64| h2 != g0.handle_of(c)));
                }
                self.path_queue = kept;
                proof {
                    assert forall|c2: HexCoord|
                        #[trigger] self.is_blocked(c2) == (g0.is_blocked(c2) || c2 == c) by {
                        if self.blocked@.contains(c2) {
                            let k = choose|k: int|
                                0 <= k < self.blocked@.len() && self.blocked@[k] == c2;
                            if k < g0.blocked@.len() {
                                assert(g0.blocked@[k] == c2);
                                assert(g0.blocked@.contains(c2));
                            } else {
                                assert(c2 == c);
                            }
                        }
                        if g0.blocked@.contains(c2) {
                            let k = choose|k: int|
                                0 <= k < g0.blocked@.len() && g0.blocked@[k] == c2;
                            assert(self.blocked@[k] == c2);
                            assert(self.blocked@.contains(c2));
                        }
                        if c2 == c {
                            assert(self.blocked@[self.blocked@.len() - 1] == c);
                            assert(self.blocked@.contains(c));
                        }
                    }
                    assert forall|k: int|
                        0 <= k < self.blocked@.len() implies self.valid_coord(
                        #[trigger] self.blocked@[k],
                    ) by {
                        if k < g0.blocked@.len() {
                            assert(g0.valid_coord(g0.blocked@[k]));
                            let j = choose|j: int|
                                0 <= j < g0.occupants@.len() && g0.occupants@[j].coord
                                    == g0.blocked@[k];
                            assert(self.occupants@[j].coord == self.blocked@[k]);
                        } else {
                            assert(self.blocked@[k] == c);
                            assert(g0.valid_coord(c));
                            let j = choose|j: int|
                                0 <= j < g0.occupants@.len() && g0.occupants@[j].coord == c;
                            assert(self.occupants@[j].coord == c);
                        }
                    }
                    assert forall|p: int, q: int|
                        0 <= p < q < self.blocked@.len() implies self.blocked@[p]
                        != self.blocked@[q] by {
                        if q == self.blocked@.len() - 1 {
                            assert(self.blocked@[q] == c);
                            assert(g0.blocked@[p] == self.blocked@[p]);
                            if self.blocked@[p] == c {
                                assert(g0.blocked@.contains(c));
                            }
                        }
                    }
                }

            },
        }
    }
}

/// How one `toggle_blocked` call relates the grid after the call to the
/// grid before it.
pub open spec fn toggle_rel(pre: HexGridIndex, post: HexGridIndex, c: HexCoord) -> bool {
    &&& post.mapper == pre.mapper
    &&& post.occupants == pre.occupants
    &&& if pre.is_blocked(c) {
        &&& forall|c2: HexCoord|
            #[trigger] post.is_blocked(c2) == (pre.is_blocked(c2) && c2 != c)
        &&& post.path_queue == pre.path_queue
    } else if pre.valid_coord(c) {
        &&& forall|c2: HexCoord|
            #[trigger] post.is_blocked(c2) == (pre.is_blocked(c2) || c2 == c)
        &&& post.path_queue@ == pre.path_queue@.filter(|h: u64| h != pre.handle_of(c))
    } else {
        &&& post.path_queue == pre.path_queue
        &&& post.blocked == pre.blocked
    }
}

/// Toggling the same coordinate twice restores every cell's blocked flag
/// and walkable state, and never touches the populated cells.
pub proof fn lemma_toggle_idempotent(
    g0: HexGridIndex,
    g1: HexGridIndex,
    g2: HexGridIndex,
    c: HexCoord,
)
    requires
        g0.wf(),
        toggle_rel(g0, g1, c),
        toggle_rel(g1, g2, c),
    ensures
        g2.occupants == g0.occupants,
        forall|c2: HexCoord| #[trigger] g2.is_blocked(c2) == g0.is_blocked(c2),
        forall|c2: HexCoord| #[trigger] g2.walkable(c2) == g0.walkable(c2),
{
    if g0.is_blocked(c) {
        let i = choose|i: int| 0 <= i < g0.blocked@.len() && g0.blocked@[i] == c;
        assert(g0.valid_coord(g0.blocked@[i]));
        assert(g1.valid_coord(c));
        assert(!g1.is_blocked(c));
        assert(forall|c2: HexCoord| #[trigger] g2.is_blocked(c2) == g0.is_blocked(c2));
    } else if g0.valid_coord(c) {
        assert(g1.is_blocked(c));
        assert(forall|c2: HexCoord| #[trigger] g2.is_blocked(c2) == g0.is_blocked(c2));
    } else {
        assert(g1.blocked == g0.blocked);
        if g1.is_blocked(c) {
            let i = choose|i: int| 0 <= i < g1.blocked@.len() && g1.blocked@[i] == c;
            assert(g0.blocked@[i] == c);
            assert(g0.is_blocked(c));
            assert(false);
        }
        assert(!g1.valid_coord(c));
    }
    assert(forall|c2: HexCoord| g2.valid_coord(c2) == g0.valid_coord(c2)) by {
        assert(g2.occupants == g0.occupants);
    }
}

/// Well-formedness never depends on the committed path queue.
pub proof fn lemma_wf_queue_irrelevant(g1: HexGridIndex, g2: HexGridIndex)
    requires
        g1.wf(),
        g2.mapper == g1.mapper,
        g2.occupants == g1.occupants,
        g2.blocked == g1.blocked,
    ensures
        g2.wf(),
{
    assert forall|i: int|
        0 <= i < g2.blocked@.len() implies g2.valid_coord(#[trigger] g2.blocked@[i]) by {
        assert(g1.valid_coord(g1.blocked@[i]));
        let j = choose|j: int|
            0 <= j < g1.occupants@.len() && g1.occupants@[j].coord == g1.blocked@[i];
        assert(g2.occupants@[j].coord == g2.blocked@[i]);
    }
}

/// Finds the index of `c` in a coordinate list.
fn find_index(v: &Vec<HexCoord>, c: HexCoord) -> (r: Option<usize>)
    ensures
        match r {
            Some(i) => i < v@.len() && v@[i as int] == c,
            None => forall|k: int| 0 <= k < v@.len() ==> v@[k] != c,
        },
{
    let n = v.len();
    let mut i: usize = 0;
    while i < n
        invariant
            n == v@.len(),
            0 <= i <= n,
            forall|k: int| 0 <= k < i ==> v@[k] != c,
        decreases n - i,
    {
        if v[i].q == c.q && v[i].r == c.r {
            return Some(i);
        }
        i += 1;
    }
    None
}

/// Whether a coordinate list contains `c`.
pub fn contains_coord(v: &Vec<HexCoord>, c: HexCoord) -> (r: bool)
    ensures
        r == v@.contains(c),
{
    match find_index(v, c) {
        Some(i) => {
            proof {
                assert(v@[i as int] == c);
            }
            true
        },
        None => {
            proof {
                if v@.contains(c) {
                    let k = choose|k: int| 0 <= k < v@.len() && v@[k] == c;
                    assert(v@[k] != c);
                }
            }
            false
        },
    }
}

/// Removing the only index holding `c` from a duplicate-free list removes
/// exactly `c` from the membership.
proof fn lemma_remove_membership(pre: Seq<HexCoord>, post: Seq<HexCoord>, i: int, c: HexCoord)
    requires
        0 <= i < pre.len(),
        pre[i] == c,
        forall|p: int, q: int| 0 <= p < q < pre.len() ==> pre[p] != pre[q],
        post == pre.remove(i),
    ensures
        forall|c2: HexCoord| #[trigger] post.contains(c2) == (pre.contains(c2) && c2 != c),
        forall|p: int, q: int| 0 <= p < q < post.len() ==> post[p] != post[q],
{
    assert(post.len() == pre.len() - 1);
    assert(forall|k: int| 0 <= k < i ==> post[k] == pre[k]);
    assert(forall|k: int| i <= k < post.len() ==> post[k] == pre[k + 1]);
    assert forall|c2: HexCoord| #[trigger] post.contains(c2) == (pre.contains(c2) && c2 != c) by {
        if post.contains(c2) {
            let k = choose|k: int| 0 <= k < post.len() && post[k] == c2;
            if k < i {
                assert(pre[k] == c2);
                if c2 == c {
                    assert(pre[k] != pre[i]);
                }
            } else {
                assert(pre[k + 1] == c2);
                if c2 == c {
                    assert(pre[i] != pre[k + 1]);
                }
            }
            assert(pre.contains(c2));
        }
        if pre.contains(c2) && c2 != c {
            let k = choose|k: int| 0 <= k < pre.len() && pre[k] == c2;
            if k < i {
                assert(post[k] == c2);
            } else {
                assert(k > i);
                assert(post[k - 1] == c2);
            }
            assert(post.contains(c2));
        }
    }
}

/// Filtering a sequence extended by one element keeps the element exactly
/// when it satisfies the predicate.
proof fn lemma_filter_push<A>(s: Seq<A>, x: A, pred: spec_fn(A) -> bool)
    ensures
        s.push(x).filter(pred) == if pred(x) {
            s.filter(pred).push(x)
        } else {
            s.filter(pred)
        },
{
    reveal(Seq::filter);
    assert(s.push(x).drop_last() =~= s);
    assert(s.push(x).last() == x);
}

} // verus!

use crate::mapper::{MIN_SCALE, MAX_SCALE};

verus! {

/// Relies on hexx: `Hex::spiral_range` over the ranges `0..=radius` yields
/// the cells within `radius` of the origin exactly once, ordered as
/// concentric rings of nondecreasing distance, the origin first; ring `k`
/// holds `6 k` cells, so `1 + 3 radius (radius + 1)` cells come out in all.
#[verifier::external_body]
fn spiral_coords(radius: u32) -> (r: Vec<HexCoord>)
    requires
        radius <= 1_000,
    ensures
        r@.len() == 1 + 3 * (radius as int) * (radius as int + 1),
        r@[0] == (HexCoord { q: 0, r: 0 }),
        forall|i: int, j: int| 0 <= i < j < r@.len() ==> r@[i] != r@[j],
        forall|i: int| 0 <= i < r@.len() ==> hex_norm(#[trigger] r@[i]) <= radius as int,
        forall|c: HexCoord| hex_norm(c) <= radius as int ==> r@.contains(c),
        forall|i: int, j: int| 0 <= i <= j < r@.len() ==> hex_norm(r@[i]) <= hex_norm(r@[j]),
{
    hexx::Hex::ZERO
        .spiral_range(0..=radius)
        .map(|h| HexCoord { q: h.x, r: h.y })
        .collect()
}

/// Whether the cell at spiral index `k` is born blocked: with a nonzero
/// `period` every `period`-th cell after the origin starts impassable.
pub open spec fn born_blocked(k: int, period: int) -> bool {
    period > 0 && k > 0 && k % period == 0
}

/// Whether `b` is the coordinate of some born-blocked cell among the first
/// `i` spiral cells.
pub open spec fn blocked_src(coords: Seq<HexCoord>, i: int, period: int, b: HexCoord) -> bool {
    exists|k: int| 0 <= k < i && #[trigger] coords[k] == b && born_blocked(k, period)
}

/// Builds the grid of every cell within `radius` of the origin, with cell
/// scale `scale` milliunits, occupant handles equal to the cells' spiral
/// indices, an empty path queue, and every `block_period`-th spiral cell
/// after the origin born blocked (none with a zero `block_period`).
pub fn build_grid(radius: u32, scale: i64, block_period: usize) -> (g: HexGridIndex)
    requires
        radius <= 1_000,
        MIN_SCALE <= scale <= MAX_SCALE,
    ensures
        g.wf(),
        forall|c: HexCoord| #[trigger] g.valid_coord(c) <==> hex_norm(c) <= radius as int,
        g.path_queue@.len() == 0,
        g.occupants@.len() == 1 + 3 * (radius as int) * (radius as int + 1),
        forall|i: int|
            0 <= i < g.occupants@.len() ==> (#[trigger] g.occupants@[i]).handle == i as u64,
        g.occupants@[0].coord == (HexCoord { q: 0, r: 0 }),
        forall|i: int|
            0 <= i < g.occupants@.len() ==> (g.is_blocked(#[trigger] g.occupants@[i].coord)
                <==> born_blocked(i, block_period as int)),
        block_period == 0 ==> g.blocked@.len() == 0,
{
    let coords = spiral_coords(radius);
    let mapper = CoordinateMapper::new(scale);
    let mut occupants: Vec<GridCell> = Vec::new();
    let mut blocked: Vec<HexCoord> = Vec::new();
    let n = coords.len();
    proof {
        assert(3 * (radius as int) * (radius as int + 1) <= 3_003_000) by (nonlinear_arith)
            requires
                0 <= radius as int <= 1_000,
        ;
    }
    let mut i: usize = 0;
    while i < n
        invariant
            n == coords@.len(),
            0 <= i <= n,
            n <= 4_000_000,
            forall|p: int, q: int| 0 <= p < q < n ==> coords@[p] != coords@[q],
            forall|p: int| 0 <= p < n ==> hex_norm(#[trigger] coords@[p]) <= radius as int,
            occupants@.len() == i,
            forall|k: int|
                0 <= k < i ==> (#[trigger] occupants@[k]).coord == coords@[k]
                    && occupants@[k].handle == k as u64,
            forall|k: int|
                0 <= k < i ==> (blocked@.contains(#[trigger] coords@[k]) <==> born_blocked(
                    k,
                    block_period as int,
                )),
            forall|j: int|
                0 <= j < blocked@.len() ==> blocked_src(
                    coords@,
                    i as int,
                    block_period as int,
                    #[trigger] blocked@[j],
                ),
            forall|p: int, q: int| 0 <= p < q < blocked@.len() ==> blocked@[p] != blocked@[q],
            block_period == 0 ==> blocked@.len() == 0,
        decreases n - i,
    {
        let c = coords[i];
        occupants.push(GridCell { coord: c, handle: i as u64 });
        let ghost pre = blocked@;
        if block_period > 0 && i > 0 && i % block_period == 0 {
            blocked.push(c);
            proof {
                assert(blocked@[blocked@.len() - 1] == c);
                assert(blocked@.contains(c));
                assert forall|k: int|
                    0 <= k < i + 1 implies (blocked@.contains(#[trigger] coords@[k])
                    <==> born_blocked(k, block_period as int)) by {
                    if k < i {
                        if blocked@.contains(coords@[k]) && !pre.contains(coords@[k]) {
                            let j = choose|j: int|
                                0 <= j < blocked@.len() && blocked@[j] == coords@[k];
                            assert(j == blocked@.len() - 1);
                            assert(coords@[k] == c);
                        }
                        if pre.contains(coords@[k]) {
                            let j = choose|j: int| 0 <= j < pre.len() && pre[j] == coords@[k];
                            assert(blocked@[j] == coords@[k]);
                        }
                    }
                }
                assert forall|p: int, q: int|
                    0 <= p < q < blocked@.len() implies blocked@[p] != blocked@[q] by {
                    if q == blocked@.len() - 1 {
                        if blocked@[p] == c {
                            assert(pre.contains(c));
                        }
                    }
                }
                assert forall|j: int|
                    0 <= j < blocked@.len() implies blocked_src(
                    coords@,
                    i as int + 1,
                    block_period as int,
                    #[trigger] blocked@[j],
                ) by {
                    if j < pre.len() {
                        let k = choose|k: int|
                            0 <= k < i && #[trigger] coords@[k] == pre[j] && born_blocked(
                                k,
                                block_period as int,
                            );
                        assert(coords@[k] == blocked@[j] && born_blocked(
                            k,
                            block_period as int,
                        ));
                    } else {
                        assert(blocked@[j] == c);
                        assert(coords@[i as int] == blocked@[j] && born_blocked(
                            i as int,
                            block_period as int,
                        ));
                    }
                }
            }
        } else {
            proof {
                if blocked@.contains(c) {
                    let j = choose|j: int| 0 <= j < blocked@.len() && blocked@[j] == c;
                    assert(blocked_src(coords@, i as int, block_period as int, blocked@[j]));
                    let k = choose|k: int|
                        0 <= k < i && #[trigger] coords@[k] == blocked@[j] && born_blocked(
                            k,
                            block_period as int,
                        );
                    assert(coords@[k] == coords@[i as int]);
                }
            }
        }
        i += 1;
    }
    let g = HexGridIndex { mapper, occupants, blocked, path_queue: Vec::new() };
    proof {
        assert forall|idx: int|
            0 <= idx < g.occupants@.len() implies coord_in_range(
            #[trigger] g.occupants@[idx].coord,
        ) by {
            assert(hex_norm(g.occupants@[idx].coord) <= 1_000);
        }
        assert forall|j: int|
            0 <= j < g.blocked@.len() implies g.valid_coord(#[trigger] g.blocked@[j]) by {
            assert(blocked_src(coords@, n as int, block_period as int, g.blocked@[j]));
            let k = choose|k: int|
                0 <= k < n && #[trigger] coords@[k] == g.blocked@[j] && born_blocked(
                    k,
                    block_period as int,
                );
            assert(g.occupants@[k].coord == g.blocked@[j]);
        }
        assert forall|c: HexCoord| #[trigger] g.valid_coord(c) <==> hex_norm(c)
            <= radius as int by {
            if g.valid_coord(c) {
                let k = choose|k: int|
                    0 <= k < g.occupants@.len() && g.occupants@[k].coord == c;
                assert(coords@[k] == c);
            }
            if hex_norm(c) <= radius as int {
                assert(coords@.contains(c));
                let k = choose|k: int| 0 <= k < coords@.len() && coords@[k] == c;
                assert(g.occupants@[k].coord == c);
            }
        }
    }
    g
}

} // verus!
