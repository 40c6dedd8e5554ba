//! Shortest-path planning over the walkable cells of the grid, with
//! uniform step cost one per move between adjacent cells.

use vstd::prelude::*;
use vstd::math::abs;
use crate::coords::{HexCoord, adjacent, hex_dist, hex_norm, lemma_dist_half_sum, lemma_hex_triangle, lemma_hex_dist_basics};
use crate::grid::HexGridIndex;
use crate::mapper::{world_in_range, world_to_hex_spec, world_to_hex};

verus! {

/// `p` is a walkable path from `start` to `goal` inclusive: it begins at
/// `start`, ends at `goal`, every cell on it is walkable, and consecutive
/// cells are hex-adjacent.
pub open spec fn path_ok(
    g: HexGridIndex,
    start: HexCoord,
    goal: HexCoord,
    p: Seq<HexCoord>,
) -> bool {
    &&& p.len() >= 1
    &&& p[0] == start
    &&& p[p.len() - 1] == goal
    &&& forall|i: int| 0 <= i < p.len() ==> g.walkable(#[trigger] p[i])
    &&& forall|i: int| 0 <= i < p.len() - 1 ==> adjacent(#[trigger] p[i], p[i + 1])
}

/// `p` is a walkable path from `start` to `goal` of minimal length.
pub open spec fn shortest_path(
    g: HexGridIndex,
    start: HexCoord,
    goal: HexCoord,
    p: Seq<HexCoord>,
) -> bool {
    &&& path_ok(g, start, goal, p)
    &&& forall|p2: Seq<HexCoord>| #[trigger] path_ok(g, start, goal, p2) ==> p2.len() >= p.len()
}

/// Relies on hexx: `algorithms::a_star` with the unit step costs of
/// `HexGridIndex::step_cost` is a standard A* over the six-neighbour hex
/// graph with the admissible cube-distance heuristic. It returns a
/// cost-minimal walkable path from `start` to `goal` inclusive whenever the
/// walkable cells connect them (both endpoints walkable included, as it
/// checks the cost of the two endpoints up front), and `None` when no
/// walkable connection exists.
#[verifier::external_body]
fn hex_a_star(grid: &HexGridIndex, start: HexCoord, goal: HexCoord) -> (r: Option<Vec<HexCoord>>)
    requires
        grid.wf(),
    ensures
        match r {
            Some(p) => shortest_path(*grid, start, goal, p@),
            None => forall|p2: Seq<HexCoord>| !path_ok(*grid, start, goal, p2),
        },
{
    hexx::algorithms::a_star(
        hexx::Hex::new(start.q, start.r),
        hexx::Hex::new(goal.q, goal.r),
        |_, h: hexx::Hex| grid.step_cost(h.x, h.y),
    ).map(|path| path.into_iter().map(|h| HexCoord { q: h.x, r: h.y }).collect())
}

/// How one planning call relates the grid after the call and the returned
/// handle sequence to the grid before it. A same-cell request and an
/// unreachable goal both leave the grid unchanged and return the empty
/// sequence; a reachable goal installs the handles of the cells of some
/// shortest walkable path, the start cell excluded, as the new path queue.
pub open spec fn plan_rel(
    pre: HexGridIndex,
    post: HexGridIndex,
    from: HexCoord,
    to: HexCoord,
    handles: Seq<u64>,
) -> bool {
    &&& post.mapper == pre.mapper
    &&& post.occupants == pre.occupants
    &&& post.blocked == pre.blocked
    &&& if from == to {
        handles.len() == 0 && post.path_queue == pre.path_queue
    } else if exists|p: Seq<HexCoord>| #[trigger] path_ok(pre, from, to, p) {
        exists|p: Seq<HexCoord>|
            {
                &&& #[trigger] shortest_path(pre, from, to, p)
                &&& handles.len() == p.len() - 1
                &&& forall|i: int|
                    0 <= i < p.len() - 1 ==> handles[i] == pre.handle_of(#[trigger] p[i + 1])
                &&& post.path_queue@ == handles
            }
    } else {
        handles.len() == 0 && post.path_queue == pre.path_queue
    }
}

/// Plans a shortest walkable path from `from` to `to` and, when one
/// exists, installs its occupant handles as the committed path queue,
/// replacing any previous queue. An empty result means "stay put": the
/// cells coincide, or no walkable path connects them, and the queue is
/// left as it was.
pub fn move_to_hex(from: HexCoord, to: HexCoord, grid: &mut HexGridIndex) -> (r: Vec<u64>)
    requires
        old(grid).wf(),
    ensures
        final(grid).wf(),
        plan_rel(*old(grid), *final(grid), from, to, r@),
{
    if from == to {
        return Vec::new();
    }
    let ghost g0 = *grid;
    match hex_a_star(grid, from, to) {
        None => {
            proof {
                if exists|p: Seq<HexCoord>| #[trigger] path_ok(g0, from, to, p) {
                    let p = choose|p: Seq<HexCoord>| #[trigger] path_ok(g0, from, to, p);
                    assert(!path_ok(g0, from, to, p));
                }
            }
            Vec::new()
        },
        Some(path) => {
            let n = path.len();
            let mut handles: Vec<u64> = Vec::new();
            let mut queue: Vec<u64> = Vec::new();
            let mut i: usize = 1;
            while i < n
                invariant
                    grid.wf(),
                    *grid == g0,
                    n == path@.len(),
                    1 <= i <= n,
                    shortest_path(g0, from, to, path@),
                    handles@.len() == i - 1,
                    queue@ == handles@,
                    forall|k: int|
                        0 <= k < i - 1 ==> handles@[k] == g0.handle_of(#[trigger] path@[k + 1]),
                decreases n - i,
            {
                proof {
                    assert(g0.walkable(path@[i as int]));
                }
                match grid.occupant_of(path[i]) {
                    Some(h) => {
                        handles.push(h);
                        queue.push(h);
                    },
                    None => {
                        proof {
                            assert(false);
                        }
                    },
                }
                i += 1;
            }
            grid.path_queue = queue;
            proof {
                assert(grid.occupants == g0.occupants && grid.blocked == g0.blocked
                    && grid.mapper == g0.mapper);
                assert forall|i: int|
                    0 <= i < grid.blocked@.len() implies grid.valid_coord(
                    #[trigger] grid.blocked@[i],
                ) by {
                    assert(g0.valid_coord(g0.blocked@[i]));
                    let j = choose|j: int|
                        0 <= j < g0.occupants@.len() && g0.occupants@[j].coord
                            == g0.blocked@[i];
                    assert(grid.occupants@[j].coord == grid.blocked@[i]);
                }
                assert(grid.wf());
                assert(path_ok(g0, from, to, path@));
                assert(shortest_path(g0, from, to, path@));
                assert(handles@.len() == path@.len() - 1);
            }
            handles
        },
    }
}

/// The hex coordinate of the cell a world position lies in, under the
/// grid's own mapper.
pub fn get_character_hex(pos_x: i64, pos_z: i64, grid: &HexGridIndex) -> (c: HexCoord)
    requires
        grid.wf(),
        world_in_range(pos_x as int, pos_z as int),
    ensures
        c == world_to_hex_spec(grid.mapper, pos_x as int, pos_z as int),
{
    world_to_hex(&grid.mapper, pos_x, pos_z)
}

/// Plans a path from the cell under the given world position to
/// `target`, installing it as the committed path queue as `move_to_hex`
/// does.
pub fn move_character_to_hex(
    target: HexCoord,
    pos_x: i64,
    pos_z: i64,
    grid: &mut HexGridIndex,
) -> (r: Vec<u64>)
    requires
        old(grid).wf(),
        world_in_range(pos_x as int, pos_z as int),
    ensures
        final(grid).wf(),
        plan_rel(
            *old(grid),
            *final(grid),
            world_to_hex_spec(old(grid).mapper, pos_x as int, pos_z as int),
            target,
            r@,
        ),
{
    let current = get_character_hex(pos_x, pos_z, grid);
    move_to_hex(current, target, grid)
}

/// An unreachable goal leaves the actor without a path: when the goal
/// cell is blocked or missing, planning returns the empty sequence and
/// leaves the queue untouched.
pub proof fn lemma_unreachable_goal(
    pre: HexGridIndex,
    post: HexGridIndex,
    from: HexCoord,
    to: HexCoord,
    handles: Seq<u64>,
)
    requires
        plan_rel(pre, post, from, to, handles),
        !pre.walkable(to),
        from != to,
    ensures
        handles.len() == 0,
        post.path_queue == pre.path_queue,
{
    if exists|p: Seq<HexCoord>| #[trigger] path_ok(pre, from, to, p) {
        let p = choose|p: Seq<HexCoord>| #[trigger] path_ok(pre, from, to, p);
        assert(pre.walkable(p[p.len() - 1]));
    }
}

/// Any walkable path uses at least as many edges as the cube distance
/// between its endpoints.
pub proof fn lemma_path_length_lower_bound(
    g: HexGridIndex,
    start: HexCoord,
    goal: HexCoord,
    p: Seq<HexCoord>,
)
    requires
        path_ok(g, start, goal, p),
    ensures
        p.len() - 1 >= hex_dist(start, goal),
    decreases p.len(),
{
    lemma_hex_dist_basics(start, goal);
    if p.len() == 1 {
        assert(start == goal);
    } else {
        let tail = p.drop_first();
        assert(tail.len() == p.len() - 1);
        assert forall|i: int| 0 <= i < tail.len() implies g.walkable(#[trigger] tail[i]) by {
            assert(tail[i] == p[i + 1]);
        }
        assert forall|i: int|
            0 <= i < tail.len() - 1 implies adjacent(#[trigger] tail[i], tail[i + 1]) by {
            assert(tail[i] == p[i + 1] && tail[i + 1] == p[i + 2]);
            assert(adjacent(p[i + 1], p[i + 2]));
        }
        assert(tail[0] == p[1]);
        assert(tail[tail.len() - 1] == p[p.len() - 1]);
        assert(path_ok(g, p[1], goal, tail));
        lemma_path_length_lower_bound(g, p[1], goal, tail);
        assert(adjacent(p[0], p[1]));
        lemma_hex_triangle(start, p[1], goal);
    }
}

/// In a grid whose walkable cells are exactly those within `radius` of the
/// origin, any two walkable cells are joined by a walkable path of exactly
/// the cube distance many edges.
#[verifier::rlimit(80)]
pub proof fn lemma_line_path_exists(g: HexGridIndex, radius: int, a: HexCoord, b: HexCoord)
    requires
        forall|c: HexCoord| #[trigger] g.walkable(c) <==> hex_norm(c) <= radius,
        hex_norm(a) <= radius,
        hex_norm(b) <= radius,
    ensures
        exists|p: Seq<HexCoord>|
            #[trigger] path_ok(g, a, b, p) && p.len() - 1 == hex_dist(a, b),
    decreases hex_dist(a, b),
{
    lemma_hex_dist_basics(a, b);
    if a == b {
        let p = seq![a];
        assert(g.walkable(a));
        assert(path_ok(g, a, b, p) && p.len() - 1 == hex_dist(a, b));
    } else {
        let dq = b.q - a.q;
        let dr = b.r - a.r;
        let dz = dq + dr;
        let step: (int, int) = if dq > 0 && dr < 0 {
            (1int, -1int)
        } else if dq > 0 && dz > 0 {
            (1int, 0int)
        } else if dr > 0 && dq < 0 {
            (-1int, 1int)
        } else if dr > 0 && dz > 0 {
            (0int, 1int)
        } else if dz < 0 && dq < 0 {
            (-1int, 0int)
        } else {
            (0int, -1int)
        };
        let c = HexCoord { q: (a.q + step.0) as i32, r: (a.r + step.1) as i32 };
        lemma_dist_half_sum(a, b);
        lemma_dist_half_sum(c, b);
        lemma_dist_half_sum(a, c);
        assert(-0x8000_0000 <= a.q + step.0 < 0x8000_0000 && -0x8000_0000 <= a.r + step.1
            < 0x8000_0000) by {
            assert(hex_dist(a, b) >= 1);
            assert(abs(a.q as int) <= hex_norm(a) && abs(a.r as int) <= hex_norm(a)) by {
                lemma_dist_half_sum(a, HexCoord { q: 0, r: 0 });
            }
        }
        assert(adjacent(a, c));
        assert(hex_dist(c, b) == hex_dist(a, b) - 1);
        assert(hex_norm(c) <= radius) by {
            lemma_dist_half_sum(c, HexCoord { q: 0, r: 0 });
            lemma_dist_half_sum(a, HexCoord { q: 0, r: 0 });
            lemma_dist_half_sum(b, HexCoord { q: 0, r: 0 });
        }
        assert(g.walkable(c));
        lemma_line_path_exists(g, radius, c, b);
        let rest = choose|p2: Seq<HexCoord>|
            #[trigger] path_ok(g, c, b, p2) && p2.len() - 1 == hex_dist(c, b);
        let p = seq![a] + rest;
        assert(p[0] == a);
        assert(p.len() == rest.len() + 1);
        assert(p[p.len() - 1] == rest[rest.len() - 1]);
        assert forall|i: int| 0 <= i < p.len() implies g.walkable(#[trigger] p[i]) by {
            if i == 0 {
                assert(g.walkable(a));
            } else {
                assert(p[i] == rest[i - 1]);
            }
        }
        assert forall|i: int|
            0 <= i < p.len() - 1 implies adjacent(#[trigger] p[i], p[i + 1]) by {
            if i == 0 {
                assert(p[1] == rest[0] && rest[0] == c);
            } else {
                assert(p[i] == rest[i - 1] && p[i + 1] == rest[i]);
                assert(adjacent(rest[i - 1], rest[i]));
            }
        }
        assert(path_ok(g, a, b, p) && p.len() - 1 == hex_dist(a, b));
    }
}

/// Shortest-path optimality: on an unobstructed grid, a shortest walkable
/// path between two cells uses exactly the cube distance many edges.
pub proof fn lemma_shortest_path_length(
    g: HexGridIndex,
    radius: int,
    from: HexCoord,
    to: HexCoord,
    p: Seq<HexCoord>,
)
    requires
        forall|c: HexCoord| #[trigger] g.walkable(c) <==> hex_norm(c) <= radius,
        hex_norm(from) <= radius,
        hex_norm(to) <= radius,
        shortest_path(g, from, to, p),
    ensures
        p.len() - 1 == hex_dist(from, to),
{
    lemma_path_length_lower_bound(g, from, to, p);
    lemma_line_path_exists(g, radius, from, to);
    let q = choose|q: Seq<HexCoord>|
        #[trigger] path_ok(g, from, to, q) && q.len() - 1 == hex_dist(from, to);
    assert(q.len() >= p.len());
}

/// Shortest-path optimality at the planner: on an unobstructed grid the
/// planned handle sequence holds exactly the cube distance many waypoints.
pub proof fn lemma_unobstructed_plan_length(
    pre: HexGridIndex,
    post: HexGridIndex,
    from: HexCoord,
    to: HexCoord,
    handles: Seq<u64>,
    radius: int,
)
    requires
        plan_rel(pre, post, from, to, handles),
        forall|c: HexCoord| #[trigger] pre.walkable(c) <==> hex_norm(c) <= radius,
        hex_norm(from) <= radius,
        hex_norm(to) <= radius,
        from != to,
    ensures
        handles.len() == hex_dist(from, to),
{
    lemma_line_path_exists(pre, radius, from, to);
    let q = choose|q: Seq<HexCoord>|
        #[trigger] path_ok(pre, from, to, q) && q.len() - 1 == hex_dist(from, to);
    assert(exists|p2: Seq<HexCoord>| #[trigger] path_ok(pre, from, to, p2));
    let p = choose|p: Seq<HexCoord>|
        {
            &&& #[trigger] shortest_path(pre, from, to, p)
            &&& handles.len() == p.len() - 1
            &&& forall|i: int|
                0 <= i < p.len() - 1 ==> handles[i] == pre.handle_of(#[trigger] p[i + 1])
            &&& post.path_queue@ == handles
        };
    lemma_shortest_path_length(pre, radius, from, to, p);
}

/// Path validity: whenever planning installs a path, the cells of some
/// shortest walkable path from start to goal stand behind the returned
/// handles: consecutive cells are hex-adjacent, and none of them is
/// blocked at planning time.
pub proof fn lemma_planned_path_valid(
    pre: HexGridIndex,
    post: HexGridIndex,
    from: HexCoord,
    to: HexCoord,
    handles: Seq<u64>,
)
    requires
        plan_rel(pre, post, from, to, handles),
        handles.len() > 0,
    ensures
        exists|p: Seq<HexCoord>|
            {
                &&& #[trigger] shortest_path(pre, from, to, p)
                &&& p[0] == from
                &&& p[p.len() - 1] == to
                &&& forall|i: int| 0 <= i < p.len() - 1 ==> adjacent(#[trigger] p[i], p[i + 1])
                &&& forall|i: int| 0 <= i < p.len() ==> !pre.is_blocked(#[trigger] p[i])
                &&& handles.len() == p.len() - 1
                &&& forall|i: int|
                    0 <= i < p.len() - 1 ==> handles[i] == pre.handle_of(#[trigger] p[i + 1])
            },
{
    if from == to {
        assert(false);
    } else if exists|p2: Seq<HexCoord>| #[trigger] path_ok(pre, from, to, p2) {
        let p = choose|p: Seq<HexCoord>|
            {
                &&& #[trigger] shortest_path(pre, from, to, p)
                &&& handles.len() == p.len() - 1
                &&& forall|i: int|
                    0 <= i < p.len() - 1 ==> handles[i] == pre.handle_of(#[trigger] p[i + 1])
                &&& post.path_queue@ == handles
            };
        assert(forall|i: int| 0 <= i < p.len() ==> pre.walkable(#[trigger] p[i]));
    } else {
        assert(false);
    }
}

} // verus!
