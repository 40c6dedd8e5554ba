//! The per-actor movement controller: consumes the committed path queue one
//! waypoint at a time and advances the actor's planar position toward the
//! current waypoint each frame, at constant speed, snapping onto the target
//! when it is reached or would be overshot.

use vstd::prelude::*;
use vstd::arithmetic::div_mod::lemma_div_is_ordered;
use crate::grid::{HexGridIndex, lemma_wf_queue_irrelevant};
use crate::mapper::hex_to_world;
use crate::numeric::{div_floor, isqrt, is_sqrt, sqrt_floor, lemma_div_unique, lemma_sqrt_exists};

verus! {

/// Largest actor position magnitude, in milliunits.
pub const MAX_POS: i64 = 100_000_000;

/// Largest magnitude of a cached target position, in milliunits; every hex
/// cell centre is well below it.
pub const MAX_TARGET: i64 = 60_000_000;

/// Largest movement speed, in milliunits per second.
pub const MAX_SPEED: i64 = 100_000;

/// Largest arrival threshold, in milliunits.
pub const MAX_EPS: i64 = 100_000;

/// Largest frame duration, in milliseconds.
pub const MAX_DT: i64 = 10_000;

/// Per-actor motion state: planar position and heading in milliunits, the
/// configured speed and arrival threshold, the waypoint handle being
/// approached and its cached world position. The actor is idle exactly when
/// no current target is set.
pub struct ActorState {
    pub pos_x: i64,
    pub pos_z: i64,
    pub heading_x: i64,
    pub heading_z: i64,
    pub move_speed: i64,
    pub arrival_epsilon: i64,
    pub current_target: Option<u64>,
    pub target_position: Option<(i64, i64)>,
}

impl ActorState {
    /// All scalars within the controller's working ranges; a cached target
    /// position exists only while a waypoint is being approached.
    pub open spec fn wf(self) -> bool {
        &&& -MAX_POS <= self.pos_x <= MAX_POS
        &&& -MAX_POS <= self.pos_z <= MAX_POS
        &&& 1 <= self.move_speed <= MAX_SPEED
        &&& 1 <= self.arrival_epsilon <= MAX_EPS
        &&& match self.target_position {
            Some(tp) => {
                &&& -MAX_TARGET <= tp.0 <= MAX_TARGET
                &&& -MAX_TARGET <= tp.1 <= MAX_TARGET
                &&& self.current_target is Some
            },
            None => true,
        }
    }

    /// Builds an idle actor at the given position with the given speed and
    /// arrival threshold.
    pub fn new(pos_x: i64, pos_z: i64, move_speed: i64, arrival_epsilon: i64) -> (a: ActorState)
        requires
            -MAX_POS <= pos_x <= MAX_POS,
            -MAX_POS <= pos_z <= MAX_POS,
            1 <= move_speed <= MAX_SPEED,
            1 <= arrival_epsilon <= MAX_EPS,
        ensures
            a.wf(),
            a.pos_x == pos_x,
            a.pos_z == pos_z,
            a.move_speed == move_speed,
            a.arrival_epsilon == arrival_epsilon,
            a.current_target is None,
            a.target_position is None,
            a.heading_x == 0,
            a.heading_z == 0,
    {
        ActorState {
            pos_x,
            pos_z,
            heading_x: 0,
            heading_z: 0,
            move_speed,
            arrival_epsilon,
            current_target: None,
            target_position: None,
        }
    }
}

/// The squared planar distance between two points.
pub open spec fn dist_sq(ax: int, az: int, bx: int, bz: int) -> int {
    (ax - bx) * (ax - bx) + (az - bz) * (az - bz)
}

/// One axis of the constant-speed velocity toward a target `delta` away
/// along this axis with squared distance `d2`: zero when the target is
/// nearer than a hundredth of a unit, else the axis share of the speed.
pub open spec fn vel_part(delta: int, d2: int, speed: int) -> int {
    if d2 < 100 {
        0
    } else {
        (delta * speed) / sqrt_floor(d2)
    }
}

/// One axis of the distance advanced in `dt` milliseconds.
pub open spec fn step_part(delta: int, d2: int, speed: int, dt: int) -> int {
    (vel_part(delta, d2, speed) * dt) / 1000
}

/// Computes the velocity, in milliunits per second, of constant-speed
/// motion from the current point toward the target point: the zero vector
/// when the target is nearer than a hundredth of a unit.
pub fn calculate_velocity(cur_x: i64, cur_z: i64, tgt_x: i64, tgt_z: i64, speed: i64) -> (v: (
    i64,
    i64,
))
    requires
        -MAX_POS <= cur_x <= MAX_POS,
        -MAX_POS <= cur_z <= MAX_POS,
        -MAX_POS <= tgt_x <= MAX_POS,
        -MAX_POS <= tgt_z <= MAX_POS,
        1 <= speed <= MAX_SPEED,
    ensures
        v.0 as int == vel_part(
            tgt_x as int - cur_x as int,
            dist_sq(cur_x as int, cur_z as int, tgt_x as int, tgt_z as int),
            speed as int,
        ),
        v.1 as int == vel_part(
            tgt_z as int - cur_z as int,
            dist_sq(cur_x as int, cur_z as int, tgt_x as int, tgt_z as int),
            speed as int,
        ),
{
    let dx: i64 = tgt_x - cur_x;
    let dz: i64 = tgt_z - cur_z;
    proof {
        assert(0 <= dx as int * dx as int <= 40_000_000_000_000_000 && 0 <= dz as int
            * dz as int <= 40_000_000_000_000_000) by (nonlinear_arith)
            requires
                -200_000_000 <= dx as int <= 200_000_000,
                -200_000_000 <= dz as int <= 200_000_000,
        ;
    }
    let d2: i64 = dx * dx + dz * dz;
    proof {
        assert(dist_sq(cur_x as int, cur_z as int, tgt_x as int, tgt_z as int) == d2 as int)
            by (nonlinear_arith)
            requires
                dx as int == tgt_x as int - cur_x as int,
                dz as int == tgt_z as int - cur_z as int,
                d2 as int == dx as int * dx as int + dz as int * dz as int,
        ;
    }
    if d2 < 100 {
        (0, 0)
    } else {
        let d: i64 = isqrt(d2 as u64) as i64;
        proof {
            assert(d as int >= 10) by (nonlinear_arith)
                requires
                    is_sqrt(d2 as int, d as int),
                    d2 as int >= 100,
            ;
            assert(vstd::math::abs(dx as int * speed as int) <= 0x1000_0000_0000_0000
                && vstd::math::abs(dz as int * speed as int) <= 0x1000_0000_0000_0000)
                by (nonlinear_arith)
                requires
                    -200_000_000 <= dx as int <= 200_000_000,
                    -200_000_000 <= dz as int <= 200_000_000,
                    1 <= speed as int <= 100_000,
            ;
        }
        let vx = div_floor(dx * speed, d);
        let vz = div_floor(dz * speed, d);
        (vx, vz)
    }
}

/// The per-axis step is no larger than the speed allows in the elapsed
/// time, and it never points away from the target.
proof fn lemma_axis_step(delta: int, d2: int, speed: int, dt: int)
    requires
        d2 >= 0,
        delta * delta <= d2,
        1 <= speed <= 100_000,
        1 <= dt <= 10_000,
    ensures
        -speed <= vel_part(delta, d2, speed) <= speed,
        delta >= 0 ==> 0 <= step_part(delta, d2, speed, dt) <= 1_000_000,
        delta <= 0 ==> -1_000_000 <= step_part(delta, d2, speed, dt) <= 0,
{
    if d2 < 100 {
        assert(vel_part(delta, d2, speed) == 0);
        assert((0 as int) * dt == 0 && (0 as int) * 1000 == 0) by (nonlinear_arith);
        assert(step_part(delta, d2, speed, dt) == (0 as int) * dt / 1000);
        lemma_div_unique((0 as int) * dt, 1000, 0);
    } else {
        lemma_sqrt_exists(d2);
        let d = sqrt_floor(d2);
        assert(is_sqrt(d2, d));
        assert(d >= 1 && -d <= delta <= d) by (nonlinear_arith)
            requires
                is_sqrt(d2, d),
                d2 >= 100,
                delta * delta <= d2,
        ;
        let v = (delta * speed) / d;
        assert(delta * speed <= d * speed && -(d * speed) <= delta * speed)
            by (nonlinear_arith)
            requires
                -d <= delta <= d,
                speed >= 1,
        ;
        assert(speed * d <= d * speed && d * speed < speed * d + d && (-speed) * d <= -(d
            * speed) && -(d * speed) < (-speed) * d + d) by (nonlinear_arith)
            requires
                d >= 1,
        ;
        lemma_div_unique(d * speed, d, speed);
        lemma_div_unique(-(d * speed), d, -speed);
        lemma_div_is_ordered(delta * speed, d * speed, d);
        lemma_div_is_ordered(-(d * speed), delta * speed, d);
        assert(-speed <= v <= speed);
        let st = (v * dt) / 1000;
        assert(v * dt <= speed * dt && -(speed * dt) <= v * dt && speed * dt <= 1_000_000_000
            && -1_000_000_000 <= v * dt) by (nonlinear_arith)
            requires
                -speed <= v <= speed,
                1 <= dt <= 10_000,
                1 <= speed <= 100_000,
        ;
        lemma_div_is_ordered(v * dt, 1_000_000_000, 1000);
        lemma_div_is_ordered(-1_000_000_000, v * dt, 1000);
        lemma_div_unique(1_000_000_000, 1000, 1_000_000);
        lemma_div_unique(-1_000_000_000, 1000, -1_000_000);
        assert(-1_000_000 <= st <= 1_000_000);
        if delta >= 0 {
            assert((0 as int) * d <= delta * speed) by (nonlinear_arith)
                requires
                    delta >= 0,
                    speed >= 1,
            ;
            lemma_div_is_ordered((0 as int) * d, delta * speed, d);
            lemma_div_unique((0 as int) * d, d, 0);
            assert(v >= 0);
            assert((0 as int) * 1000 <= v * dt) by (nonlinear_arith)
                requires
                    v >= 0,
                    dt >= 1,
            ;
            lemma_div_is_ordered((0 as int) * 1000, v * dt, 1000);
            lemma_div_unique((0 as int) * 1000, 1000, 0);
            assert(st >= 0);
        }
        if delta <= 0 {
            assert(delta * speed <= 0 * d) by (nonlinear_arith)
                requires
                    delta <= 0,
                    speed >= 1,
            ;
            lemma_div_is_ordered(delta * speed, (0 as int) * d, d);
            lemma_div_unique((0 as int) * d, d, 0);
            assert(v <= 0);
            assert(v * dt <= (0 as int) * 1000) by (nonlinear_arith)
                requires
                    v <= 0,
                    dt >= 1,
            ;
            lemma_div_is_ordered(v * dt, (0 as int) * 1000, 1000);
            lemma_div_unique((0 as int) * 1000, 1000, 0);
            assert(st <= 0);
        }
    }
}

/// How one movement tick relates the actor and grid after the tick to the
/// actor and grid before it, for an elapsed time of `dt` milliseconds.
///
/// An idle actor takes the front of the path queue as its new waypoint, or
/// stays put when the queue is empty. An approaching actor resolves its
/// waypoint's cell centre, caching it on the first frame of the leg;
/// abandons the leg when the handle no longer resolves; snaps exactly onto
/// the cached target and goes idle when nearer than the arrival threshold,
/// or when the next step would end farther away or within the threshold;
/// and otherwise advances by its speed share along each axis. Heading,
/// speed and threshold never change here.
pub open spec fn update_rel(
    a0: ActorState,
    g0: HexGridIndex,
    dt: int,
    a1: ActorState,
    g1: HexGridIndex,
) -> bool {
    &&& g1.mapper == g0.mapper
    &&& g1.occupants == g0.occupants
    &&& g1.blocked == g0.blocked
    &&& a1.move_speed == a0.move_speed
    &&& a1.arrival_epsilon == a0.arrival_epsilon
    &&& a1.heading_x == a0.heading_x
    &&& a1.heading_z == a0.heading_z
    &&& match a0.current_target {
        None => {
            if g0.path_queue@.len() > 0 {
                &&& a1.current_target == Some(g0.path_queue@[0])
                &&& a1.target_position is None
                &&& a1.pos_x == a0.pos_x
                &&& a1.pos_z == a0.pos_z
                &&& g1.path_queue@ == g0.path_queue@.drop_first()
            } else {
                &&& a1 == a0
                &&& g1.path_queue == g0.path_queue
            }
        },
        Some(h) => {
            &&& g1.path_queue == g0.path_queue
            &&& if !g0.handle_resolvable(h) {
                &&& a1.pos_x == a0.pos_x
                &&& a1.pos_z == a0.pos_z
                &&& a1.current_target is None
                &&& a1.target_position is None
            } else {
                let cx = g0.mapper.center_x(g0.coord_of(h));
                let cz = g0.mapper.center_z(g0.coord_of(h));
                let tx = match a0.target_position {
                    Some(tp) => tp.0 as int,
                    None => cx,
                };
                let tz = match a0.target_position {
                    Some(tp) => tp.1 as int,
                    None => cz,
                };
                let d2 = dist_sq(a0.pos_x as int, a0.pos_z as int, tx, tz);
                let e2 = a0.arrival_epsilon * a0.arrival_epsilon;
                if d2 < e2 {
                    arrived_at(a0, a1, tx, tz)
                } else {
                    let nx = a0.pos_x + step_part(
                        tx - a0.pos_x,
                        d2,
                        a0.move_speed as int,
                        dt,
                    );
                    let nz = a0.pos_z + step_part(
                        tz - a0.pos_z,
                        d2,
                        a0.move_speed as int,
                        dt,
                    );
                    let nd2 = dist_sq(nx, nz, tx, tz);
                    if nd2 > d2 || nd2 < e2 {
                        arrived_at(a0, a1, tx, tz)
                    } else {
                        &&& a1.pos_x == nx
                        &&& a1.pos_z == nz
                        &&& a1.current_target == Some(h)
                        &&& a1.target_position matches Some(tp) && tp.0 == tx && tp.1 == tz
                    }
                }
            }
        },
    }
}

/// The actor has finished its leg this tick: it stands exactly on the
/// target and is idle again.
pub open spec fn arrived_at(a0: ActorState, a1: ActorState, tx: int, tz: int) -> bool {
    &&& a1.pos_x == tx
    &&& a1.pos_z == tz
    &&& a1.current_target is None
    &&& a1.target_position is None
}

/// Advances the actor by one frame of `dt_ms` milliseconds, following the
/// committed path queue as `update_rel` describes.
pub fn update_movement(actor: &mut ActorState, grid: &mut HexGridIndex, dt_ms: i64)
    requires
        old(actor).wf(),
        old(grid).wf(),
        1 <= dt_ms <= MAX_DT,
    ensures
        final(actor).wf(),
        final(grid).wf(),
        update_rel(*old(actor), *old(grid), dt_ms as int, *final(actor), *final(grid)),
{
    let ghost a0 = *actor;
    let ghost g0 = *grid;
    match actor.current_target {
        None => {
            if grid.path_queue.len() > 0 {
                let h = grid.path_queue.remove(0);
                actor.current_target = Some(h);
                actor.target_position = None;
                proof {
                    assert(grid.path_queue@ =~= g0.path_queue@.drop_first());
                    lemma_wf_queue_irrelevant(g0, *grid);
                }
            }
        },
        Some(h) => {
            match grid.coord_of_handle(h) {
                None => {
                    actor.current_target = None;
                    actor.target_position = None;
                },
                Some(c) => {
                    let center = hex_to_world(&grid.mapper, c);
                    let tp: (i64, i64) = match actor.target_position {
                        Some(cached) => cached,
                        None => center,
                    };
                    let dx: i64 = tp.0 - actor.pos_x;
                    let dz: i64 = tp.1 - actor.pos_z;
                    proof {
                        assert(0 <= dx as int * dx as int <= 40_000_000_000_000_000
                            && 0 <= dz as int * dz as int <= 40_000_000_000_000_000
                            && 0 <= a0.arrival_epsilon as int * a0.arrival_epsilon as int
                            <= 10_000_000_000) by (nonlinear_arith)
                            requires
                                -200_000_000 <= dx as int <= 200_000_000,
                                -200_000_000 <= dz as int <= 200_000_000,
                                1 <= a0.arrival_epsilon as int <= 100_000,
                        ;
                    }
                    let d2: i64 = dx * dx + dz * dz;
                    proof {
                        assert(dist_sq(
                            a0.pos_x as int,
                            a0.pos_z as int,
                            tp.0 as int,
                            tp.1 as int,
                        ) == d2 as int) by (nonlinear_arith)
                            requires
                                dx as int == tp.0 as int - a0.pos_x as int,
                                dz as int == tp.1 as int - a0.pos_z as int,
                                d2 as int == dx as int * dx as int + dz as int * dz as int,
                        ;
                    }
                    let e2: i64 = actor.arrival_epsilon * actor.arrival_epsilon;
                    if d2 < e2 {
                        actor.pos_x = tp.0;
                        actor.pos_z = tp.1;
                        actor.current_target = None;
                        actor.target_position = None;
                    } else {
                        let v = calculate_velocity(
                            actor.pos_x,
                            actor.pos_z,
                            tp.0,
                            tp.1,
                            actor.move_speed,
                        );
                        proof {
                            lemma_axis_step(
                                dx as int,
                                d2 as int,
                                a0.move_speed as int,
                                dt_ms as int,
                            );
                            lemma_axis_step(
                                dz as int,
                                d2 as int,
                                a0.move_speed as int,
                                dt_ms as int,
                            );
                            assert(vstd::math::abs(v.0 as int * dt_ms as int)
                                <= 0x1000_0000_0000_0000 && vstd::math::abs(
                                v.1 as int * dt_ms as int,
                            ) <= 0x1000_0000_0000_0000) by (nonlinear_arith)
                                requires
                                    -200_000 <= v.0 as int <= 200_000,
                                    -200_000 <= v.1 as int <= 200_000,
                                    1 <= dt_ms as int <= 10_000,
                            ;
                        }
                        let sx = div_floor(v.0 * dt_ms, 1000);
                        let sz = div_floor(v.1 * dt_ms, 1000);
                        let nx = actor.pos_x + sx;
                        let nz = actor.pos_z + sz;
                        let ndx: i64 = tp.0 - nx;
                        let ndz: i64 = tp.1 - nz;
                        proof {
                            assert(0 <= ndx as int * ndx as int <= 50_000_000_000_000_000
                                && 0 <= ndz as int * ndz as int <= 50_000_000_000_000_000)
                                by (nonlinear_arith)
                                requires
                                    -210_000_000 <= ndx as int <= 210_000_000,
                                    -210_000_000 <= ndz as int <= 210_000_000,
                            ;
                        }
                        let nd2: i64 = ndx * ndx + ndz * ndz;
                        proof {
                            assert(dist_sq(nx as int, nz as int, tp.0 as int, tp.1 as int)
                                == nd2 as int) by (nonlinear_arith)
                                requires
                                    ndx as int == tp.0 as int - nx as int,
                                    ndz as int == tp.1 as int - nz as int,
                                    nd2 as int == ndx as int * ndx as int + ndz as int
                                        * ndz as int,
                            ;
                        }
                        if nd2 > d2 || nd2 < e2 {
                            actor.pos_x = tp.0;
                            actor.pos_z = tp.1;
                            actor.current_target = None;
                            actor.target_position = None;
                        } else {
                            actor.pos_x = nx;
                            actor.pos_z = nz;
                            actor.target_position = Some(tp);
                        }
                    }
                },
            }
        },
    }
}

/// Arrival snap: when the cached target lies nearer than the arrival
/// threshold, one tick puts the actor exactly onto the target and clears
/// the leg.
pub proof fn lemma_arrival_snap(
    a0: ActorState,
    g0: HexGridIndex,
    dt: int,
    a1: ActorState,
    g1: HexGridIndex,
    tx: int,
    tz: int,
)
    requires
        update_rel(a0, g0, dt, a1, g1),
        a0.current_target matches Some(h) && g0.handle_resolvable(h),
        a0.target_position matches Some(tp) && tp.0 == tx && tp.1 == tz,
        dist_sq(a0.pos_x as int, a0.pos_z as int, tx, tz) < a0.arrival_epsilon
            * a0.arrival_epsilon,
    ensures
        a1.pos_x == tx,
        a1.pos_z == tz,
        a1.current_target is None,
        a1.target_position is None,
{
}

/// Overshoot guard: while approaching a resolvable waypoint with a cached
/// target, a tick never ends farther from the target than it began; the
/// controller snaps onto the target instead of integrating past it.
pub proof fn lemma_no_overshoot(
    a0: ActorState,
    g0: HexGridIndex,
    dt: int,
    a1: ActorState,
    g1: HexGridIndex,
    tx: int,
    tz: int,
)
    requires
        update_rel(a0, g0, dt, a1, g1),
        a0.current_target matches Some(h) && g0.handle_resolvable(h),
        a0.target_position matches Some(tp) && tp.0 == tx && tp.1 == tz,
    ensures
        dist_sq(a1.pos_x as int, a1.pos_z as int, tx, tz) <= dist_sq(
            a0.pos_x as int,
            a0.pos_z as int,
            tx,
            tz,
        ),
{
    let dx = a0.pos_x as int - tx;
    let dz = a0.pos_z as int - tz;
    assert(dist_sq(a0.pos_x as int, a0.pos_z as int, tx, tz) == dx * dx + dz * dz);
    assert(dx * dx + dz * dz >= 0) by (nonlinear_arith);
    assert(dist_sq(tx, tz, tx, tz) == (tx - tx) * (tx - tx) + (tz - tz) * (tz - tz));
    assert((tx - tx) * (tx - tx) + (tz - tz) * (tz - tz) == 0) by (nonlinear_arith);
}

} // verus!
