//! Turning resolved input intents into grid and actor state changes:
//! camera-relative keyboard movement, and pointer picks that either toggle
//! a cell's blocked state or request a path to the picked cell.

use vstd::prelude::*;
use crate::coords::HexCoord;
use crate::grid::{HexGridIndex, contains_coord, toggle_rel};
use crate::mapper::{world_in_range, world_to_hex_spec, world_to_hex};
use crate::motion::{ActorState, MAX_POS, MAX_DT};
use crate::numeric::div_floor;
use crate::planner::{plan_rel, move_character_to_hex};

verus! {

/// One frame's directional intent, sampled from the keyboard.
#[derive(Clone, Copy, PartialEq, Eq, Structural, Debug)]
pub struct DirectionalIntent {
    pub up: bool,
    pub down: bool,
    pub left: bool,
    pub right: bool,
}

/// The planar projections of the camera's forward and right vectors, in
/// milliunits; each is expected to be roughly unit length.
#[derive(Clone, Copy, PartialEq, Eq, Structural, Debug)]
pub struct CameraBasis {
    pub forward_x: i64,
    pub forward_z: i64,
    pub right_x: i64,
    pub right_z: i64,
}

impl CameraBasis {
    /// Component magnitudes that keep the movement arithmetic in range.
    pub open spec fn wf(self) -> bool {
        &&& -2_000 <= self.forward_x <= 2_000
        &&& -2_000 <= self.forward_z <= 2_000
        &&& -2_000 <= self.right_x <= 2_000
        &&& -2_000 <= self.right_z <= 2_000
    }
}

/// The screen-space x axis of the intent: right minus left.
pub open spec fn screen_axis_x(keys: DirectionalIntent) -> int {
    (if keys.right {
        1int
    } else {
        0int
    }) - (if keys.left {
        1int
    } else {
        0int
    })
}

/// The screen-space y axis of the intent: up minus down.
pub open spec fn screen_axis_y(keys: DirectionalIntent) -> int {
    (if keys.up {
        1int
    } else {
        0int
    }) - (if keys.down {
        1int
    } else {
        0int
    })
}

/// One axis of the screen direction in milliunits: renormalized to 707 per
/// axis on a diagonal so that diagonal speed equals axis-aligned speed.
pub open spec fn dir_milli(v: int, other: int) -> int {
    if v != 0 && other != 0 {
        707 * v
    } else {
        1000 * v
    }
}

/// The x axis of the world-space displacement of one keyboard frame, in
/// milliunits: the screen direction taken through the camera basis, scaled
/// by speed and elapsed time.
pub open spec fn kb_delta_x(
    cam: CameraBasis,
    keys: DirectionalIntent,
    speed: int,
    dt: int,
) -> int {
    let sx = dir_milli(screen_axis_x(keys), screen_axis_y(keys));
    let sy = dir_milli(screen_axis_y(keys), screen_axis_x(keys));
    (cam.right_x * sx + cam.forward_x * sy) * speed * dt / 1_000_000_000
}

/// The z axis of the world-space displacement of one keyboard frame.
pub open spec fn kb_delta_z(
    cam: CameraBasis,
    keys: DirectionalIntent,
    speed: int,
    dt: int,
) -> int {
    let sx = dir_milli(screen_axis_x(keys), screen_axis_y(keys));
    let sy = dir_milli(screen_axis_y(keys), screen_axis_x(keys));
    (cam.right_z * sx + cam.forward_z * sy) * speed * dt / 1_000_000_000
}

/// How one keyboard frame relates the actor after it to the actor before
/// it. Path following wins over direct movement: a non-empty path queue
/// makes the frame a no-op, as does the absence of any directional intent.
/// Otherwise the actor advances by the camera-relative displacement unless
/// the destination cell is blocked or the destination leaves the world
/// bounds, and it faces the displacement when the move is large enough.
pub open spec fn keyboard_rel(
    a0: ActorState,
    g: HexGridIndex,
    cam: CameraBasis,
    keys: DirectionalIntent,
    dt: int,
    a1: ActorState,
) -> bool {
    &&& a1.move_speed == a0.move_speed
    &&& a1.arrival_epsilon == a0.arrival_epsilon
    &&& a1.current_target == a0.current_target
    &&& a1.target_position == a0.target_position
    &&& if g.path_queue@.len() > 0 {
        a1 == a0
    } else if screen_axis_x(keys) == 0 && screen_axis_y(keys) == 0 {
        a1 == a0
    } else {
        let dx = kb_delta_x(cam, keys, a0.move_speed as int, dt);
        let dz = kb_delta_z(cam, keys, a0.move_speed as int, dt);
        let cx = a0.pos_x + dx;
        let cz = a0.pos_z + dz;
        if g.is_blocked(world_to_hex_spec(g.mapper, cx, cz)) || cx > MAX_POS as int || cx
            < -(MAX_POS as int) || cz > MAX_POS as int || cz < -(MAX_POS as int) {
            a1 == a0
        } else {
            &&& a1.pos_x == cx
            &&& a1.pos_z == cz
            &&& if dx * dx + dz * dz > 10_000 {
                a1.heading_x == dx && a1.heading_z == dz
            } else {
                a1.heading_x == a0.heading_x && a1.heading_z == a0.heading_z
            }
        }
    }
}

/// Advances the actor by one frame of camera-relative keyboard movement,
/// as `keyboard_rel` describes. While the committed path queue is
/// non-empty, directional input is ignored entirely.
pub fn keyboard_move(
    actor: &mut ActorState,
    grid: &HexGridIndex,
    cam: CameraBasis,
    keys: DirectionalIntent,
    dt_ms: i64,
) -> (moved: bool)
    requires
        old(actor).wf(),
        grid.wf(),
        cam.wf(),
        1 <= dt_ms <= MAX_DT,
    ensures
        final(actor).wf(),
        keyboard_rel(*old(actor), *grid, cam, keys, dt_ms as int, *final(actor)),
        moved == (final(actor).pos_x != old(actor).pos_x || final(actor).pos_z != old(
            actor,
        ).pos_z),
{
    let ghost spd: int = old(actor).move_speed as int;
    if grid.path_queue.len() > 0 {
        return false;
    }
    let sx_axis: i64 = (if keys.right {
        1i64
    } else {
        0i64
    }) - (if keys.left {
        1i64
    } else {
        0i64
    });
    let sy_axis: i64 = (if keys.up {
        1i64
    } else {
        0i64
    }) - (if keys.down {
        1i64
    } else {
        0i64
    });
    if sx_axis == 0 && sy_axis == 0 {
        return false;
    }
    let diag = sx_axis != 0 && sy_axis != 0;
    let sxm: i64 = if diag {
        707 * sx_axis
    } else {
        1000 * sx_axis
    };
    let sym: i64 = if diag {
        707 * sy_axis
    } else {
        1000 * sy_axis
    };
    proof {
        assert(vstd::math::abs(cam.right_x as int * sxm as int) <= 2_000_000
            && vstd::math::abs(cam.forward_x as int * sym as int) <= 2_000_000
            && vstd::math::abs(cam.right_z as int * sxm as int) <= 2_000_000
            && vstd::math::abs(cam.forward_z as int * sym as int) <= 2_000_000)
            by (nonlinear_arith)
            requires
                -2_000 <= cam.right_x as int <= 2_000,
                -2_000 <= cam.forward_x as int <= 2_000,
                -2_000 <= cam.right_z as int <= 2_000,
                -2_000 <= cam.forward_z as int <= 2_000,
                -1_000 <= sxm as int <= 1_000,
                -1_000 <= sym as int <= 1_000,
        ;
    }
    let wdx: i64 = cam.right_x * sxm + cam.forward_x * sym;
    let wdz: i64 = cam.right_z * sxm + cam.forward_z * sym;
    proof {
        assert(-400_000_000_000 <= wdx as int * spd <= 400_000_000_000
            && -400_000_000_000 <= wdz as int * spd <= 400_000_000_000
            && -4_000_000_000_000_000 <= wdx as int * spd * (dt_ms as int)
            <= 4_000_000_000_000_000 && -4_000_000_000_000_000 <= wdz as int * spd * (
        dt_ms as int) <= 4_000_000_000_000_000) by (nonlinear_arith)
            requires
                -4_000_000 <= wdx as int <= 4_000_000,
                -4_000_000 <= wdz as int <= 4_000_000,
                1 <= spd <= 100_000,
                1 <= dt_ms as int <= 10_000,
        ;
    }
    let dx = div_floor(wdx * actor.move_speed * dt_ms, 1_000_000_000);
    let dz = div_floor(wdz * actor.move_speed * dt_ms, 1_000_000_000);
    proof {
        assert(-40_000_000 <= dx as int <= 40_000_000 && -40_000_000 <= dz as int
            <= 40_000_000) by (nonlinear_arith)
            requires
                dx as int * 1_000_000_000 <= wdx as int * spd * (
                dt_ms as int),
                wdx as int * spd * (dt_ms as int) < dx as int
                    * 1_000_000_000 + 1_000_000_000,
                dz as int * 1_000_000_000 <= wdz as int * spd * (
                dt_ms as int),
                wdz as int * spd * (dt_ms as int) < dz as int
                    * 1_000_000_000 + 1_000_000_000,
                -4_000_000_000_000_000 <= wdx as int * spd * (dt_ms as int)
                    <= 4_000_000_000_000_000,
                -4_000_000_000_000_000 <= wdz as int * spd * (dt_ms as int)
                    <= 4_000_000_000_000_000,
        ;
        assert(0 <= dx as int * dx as int && 0 <= dz as int * dz as int && dx as int
            * dx as int + dz as int * dz as int <= 0x4000_0000_0000_0000)
            by (nonlinear_arith)
            requires
                -40_000_000 <= dx as int <= 40_000_000,
                -40_000_000 <= dz as int <= 40_000_000,
        ;
    }
    let cx = actor.pos_x + dx;
    let cz = actor.pos_z + dz;
    if cx > MAX_POS || cx < -MAX_POS || cz > MAX_POS || cz < -MAX_POS {
        return false;
    }
    let hex = world_to_hex(&grid.mapper, cx, cz);
    if contains_coord(&grid.blocked, hex) {
        return false;
    }
    let moved_far = dx * dx + dz * dz > 10_000;
    actor.pos_x = cx;
    actor.pos_z = cz;
    if moved_far {
        actor.heading_x = dx;
        actor.heading_z = dz;
    }
    dx != 0 || dz != 0
}

/// A world-space ray in milliunits, as the input router resolves it from
/// a pointer position.
#[derive(Clone, Copy, PartialEq, Eq, Structural, Debug)]
pub struct WorldRay {
    pub origin_x: i64,
    pub origin_y: i64,
    pub origin_z: i64,
    pub dir_x: i64,
    pub dir_y: i64,
    pub dir_z: i64,
}

/// Whether a ray starting at height `oy` with vertical component `dy`
/// reaches the ground plane in the forward direction.
pub open spec fn ray_hits_ground(oy: int, dy: int) -> bool {
    (oy >= 0 && dy < 0) || (oy <= 0 && dy > 0)
}

/// Intersects the ray with the ground plane and returns the planar hit
/// point, or nothing when the ray runs parallel to the plane or away
/// from it.
pub fn ray_ground_point(ray: WorldRay) -> (r: Option<(i64, i64)>)
    requires
        -(MAX_POS as int) <= ray.origin_x <= MAX_POS as int,
        -(MAX_POS as int) <= ray.origin_y <= MAX_POS as int,
        -(MAX_POS as int) <= ray.origin_z <= MAX_POS as int,
        -10_000 <= ray.dir_x <= 10_000,
        -10_000 <= ray.dir_y <= 10_000,
        -10_000 <= ray.dir_z <= 10_000,
    ensures
        r is Some <==> ray_hits_ground(ray.origin_y as int, ray.dir_y as int),
        r matches Some(p) ==> {
            let t_num = if ray.dir_y < 0 {
                ray.origin_y as int
            } else {
                -(ray.origin_y as int)
            };
            let t_den = if ray.dir_y < 0 {
                -(ray.dir_y as int)
            } else {
                ray.dir_y as int
            };
            &&& p.0 == ray.origin_x + (ray.dir_x * t_num) / t_den
            &&& p.1 == ray.origin_z + (ray.dir_z * t_num) / t_den
        },
{
    let oy_mag: i64 = if ray.origin_y >= 0 {
        ray.origin_y
    } else {
        -ray.origin_y
    };
    proof {
        assert(vstd::math::abs(ray.dir_x as int * oy_mag as int) <= 1_000_000_000_000
            && vstd::math::abs(ray.dir_z as int * oy_mag as int) <= 1_000_000_000_000)
            by (nonlinear_arith)
            requires
                0 <= oy_mag as int <= 100_000_000,
                -10_000 <= ray.dir_x as int <= 10_000,
                -10_000 <= ray.dir_z as int <= 10_000,
        ;
    }
    if ray.dir_y < 0 && ray.origin_y >= 0 {
        let qx = div_floor(ray.dir_x * oy_mag, -ray.dir_y);
        let qz = div_floor(ray.dir_z * oy_mag, -ray.dir_y);
        proof {
            lemma_quot_bound(ray.dir_x as int * oy_mag as int, -(ray.dir_y as int), qx as int);
            lemma_quot_bound(ray.dir_z as int * oy_mag as int, -(ray.dir_y as int), qz as int);
        }
        Some((ray.origin_x + qx, ray.origin_z + qz))
    } else if ray.dir_y > 0 && ray.origin_y <= 0 {
        let qx = div_floor(ray.dir_x * oy_mag, ray.dir_y);
        let qz = div_floor(ray.dir_z * oy_mag, ray.dir_y);
        proof {
            lemma_quot_bound(ray.dir_x as int * oy_mag as int, ray.dir_y as int, qx as int);
            lemma_quot_bound(ray.dir_z as int * oy_mag as int, ray.dir_y as int, qz as int);
        }
        Some((ray.origin_x + qx, ray.origin_z + qz))
    } else {
        None
    }
}

/// A floor quotient of a bounded numerator over a positive denominator is
/// itself bounded by the numerator's magnitude, plus one below.
proof fn lemma_quot_bound(num: int, den: int, q: int)
    requires
        1 <= den,
        -1_000_000_000_000 <= num <= 1_000_000_000_000,
        q * den <= num < q * den + den,
    ensures
        -1_000_000_000_001 <= q <= 1_000_000_000_000,
{
    assert(-1_000_000_000_001 <= q <= 1_000_000_000_000) by (nonlinear_arith)
        requires
            1 <= den,
            -1_000_000_000_000 <= num <= 1_000_000_000_000,
            q * den <= num < q * den + den,
    ;
}

/// Which grid-edit interaction a pointer press performs; the scene
/// configuration selects one of the two.
#[derive(Clone, Copy, PartialEq, Eq, Structural, Debug)]
pub enum InteractionMode {
    /// A press toggles the blocked state of the picked cell.
    ToggleBlocked,
    /// A press requests a path from the actor's cell to the picked cell.
    RequestPath,
}

/// Per-interaction state: the last picked coordinate, kept so a repeated
/// press on the same cell is a no-op.
pub struct PickState {
    pub last: Option<HexCoord>,
}

/// How one pointer press relates the pick state and the grid after the
/// press to their values before it. A pick outside the populated cells is
/// ignored; a pick of the previously picked cell is a no-op; otherwise the
/// pick is remembered and, per mode, the cell's blocked state is toggled
/// or a path is planned from the actor's cell to the picked cell.
pub open spec fn pick_rel(
    mode: InteractionMode,
    s0: PickState,
    s1: PickState,
    g0: HexGridIndex,
    g1: HexGridIndex,
    actor_x: int,
    actor_z: int,
    px: int,
    pz: int,
    planned: Seq<u64>,
) -> bool {
    let hex = world_to_hex_spec(g0.mapper, px, pz);
    if !g0.valid_coord(hex) {
        s1.last == s0.last && g1 == g0 && planned.len() == 0
    } else if s0.last == Some(hex) {
        s1.last == s0.last && g1 == g0 && planned.len() == 0
    } else {
        &&& s1.last == Some(hex)
        &&& match mode {
            InteractionMode::ToggleBlocked => toggle_rel(g0, g1, hex) && planned.len() == 0,
            InteractionMode::RequestPath => plan_rel(
                g0,
                g1,
                world_to_hex_spec(g0.mapper, actor_x, actor_z),
                hex,
                planned,
            ),
        }
    }
}

/// Handles one pointer press already resolved to a ground-plane point, as
/// `pick_rel` describes; returns the handles of a newly planned path, if
/// the mode plans one.
pub fn handle_pick(
    mode: InteractionMode,
    state: &mut PickState,
    grid: &mut HexGridIndex,
    actor_x: i64,
    actor_z: i64,
    px: i64,
    pz: i64,
) -> (planned: Vec<u64>)
    requires
        old(grid).wf(),
        world_in_range(actor_x as int, actor_z as int),
        world_in_range(px as int, pz as int),
    ensures
        final(grid).wf(),
        pick_rel(
            mode,
            *old(state),
            *final(state),
            *old(grid),
            *final(grid),
            actor_x as int,
            actor_z as int,
            px as int,
            pz as int,
            planned@,
        ),
{
    let hex = world_to_hex(&grid.mapper, px, pz);
    match grid.occupant_of(hex) {
        None => Vec::new(),
        Some(_) => {
            let same = match state.last {
                Some(prev) => prev == hex,
                None => false,
            };
            if same {
                return Vec::new();
            }
            state.last = Some(hex);
            match mode {
                InteractionMode::ToggleBlocked => {
                    grid.toggle_blocked(hex);
                    Vec::new()
                },
                InteractionMode::RequestPath => {
                    move_character_to_hex(hex, actor_x, actor_z, grid)
                },
            }
        },
    }
}

} // verus!
