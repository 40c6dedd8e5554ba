use evershard::coords::{HexCoord, hex_distance};
use evershard::grid::build_grid;
use evershard::input::{
    handle_pick, keyboard_move, ray_ground_point, CameraBasis, DirectionalIntent,
    InteractionMode, PickState, WorldRay,
};
use evershard::mapper::{hex_to_world, world_to_hex, CoordinateMapper};
use evershard::motion::{calculate_velocity, update_movement, ActorState};
use evershard::numeric::{div_floor, isqrt, round_div};
use evershard::planner::{get_character_hex, move_character_to_hex, move_to_hex};

fn hc(q: i32, r: i32) -> HexCoord {
    HexCoord { q, r }
}

fn no_keys() -> DirectionalIntent {
    DirectionalIntent { up: false, down: false, left: false, right: false }
}

fn identity_camera() -> CameraBasis {
    CameraBasis { forward_x: 0, forward_z: -1000, right_x: 1000, right_z: 0 }
}

#[test]
fn coordinate_round_trip_radius_two() {
    let grid = build_grid(2, 1000, 0);
    assert_eq!(grid.occupants.len(), 19);
    for cell in &grid.occupants {
        let p = hex_to_world(&grid.mapper, cell.coord);
        assert_eq!(world_to_hex(&grid.mapper, p.0, p.1), cell.coord);
    }
}

#[test]
fn coordinate_round_trip_other_scales() {
    for scale in [10i64, 250, 1000, 9999] {
        let m = CoordinateMapper::new(scale);
        for c in [hc(0, 0), hc(3, -5), hc(-2000, 2000), hc(1999, 17)] {
            let p = hex_to_world(&m, c);
            assert_eq!(world_to_hex(&m, p.0, p.1), c);
        }
    }
}

#[test]
fn mapper_formulas() {
    let m = CoordinateMapper::new(1000);
    assert_eq!(m.sx, 1500);
    assert_eq!(m.sz, 866);
    assert_eq!(hex_to_world(&m, hc(1, 0)), (1500, 866));
    assert_eq!(hex_to_world(&m, hc(0, 1)), (0, 1732));
    assert_eq!(hex_to_world(&m, hc(-1, 2)), (-1500, 2598));
    assert_eq!(world_to_hex(&m, 0, 0), hc(0, 0));
    assert_eq!(world_to_hex(&m, 40, -30), hc(0, 0));
    assert_eq!(world_to_hex(&m, 1400, 433), hc(1, 0));
}

#[test]
fn hex_distance_formula() {
    assert_eq!(hex_distance(hc(0, 0), hc(1, 0)), 1);
    assert_eq!(hex_distance(hc(0, 0), hc(2, -1)), 2);
    assert_eq!(hex_distance(hc(-2, 2), hc(2, -2)), 4);
    assert_eq!(hex_distance(hc(1, -1), hc(1, -1)), 0);
}

#[test]
fn numeric_helpers() {
    assert_eq!(isqrt(0), 0);
    assert_eq!(isqrt(99), 9);
    assert_eq!(isqrt(100), 10);
    assert_eq!(isqrt(2_999_956), 1732);
    assert_eq!(div_floor(-7, 2), -4);
    assert_eq!(div_floor(7, 2), 3);
    assert_eq!(div_floor(-6, 2), -3);
    assert_eq!(round_div(5, 10), 1);
    assert_eq!(round_div(4, 10), 0);
    assert_eq!(round_div(-5, 10), 0);
    assert_eq!(round_div(-6, 10), -1);
}

#[test]
fn velocity_formula() {
    assert_eq!(calculate_velocity(0, 0, 3000, 4000, 5000), (3000, 4000));
    assert_eq!(calculate_velocity(0, 0, 5, 5, 5000), (0, 0));
    assert_eq!(calculate_velocity(3000, 4000, 0, 0, 5000), (-3000, -4000));
}

#[test]
fn same_cell_request_is_noop() {
    let mut grid = build_grid(2, 1000, 0);
    let first = move_to_hex(hc(0, 0), hc(1, 0), &mut grid);
    assert_eq!(first.len(), 1);
    let again = move_to_hex(hc(2, 0), hc(2, 0), &mut grid);
    assert!(again.is_empty());
    assert_eq!(grid.path_queue, first);
}

#[test]
fn one_step_path_and_arrival() {
    let mut grid = build_grid(2, 1000, 0);
    assert_eq!(grid.occupants.len(), 19);
    let handles = move_to_hex(hc(0, 0), hc(1, 0), &mut grid);
    assert_eq!(handles.len(), 1);
    assert_eq!(Some(handles[0]), grid.occupant_of(hc(1, 0)));
    assert_eq!(grid.path_queue, handles);

    let mut actor = ActorState::new(0, 0, 5000, 100);
    let mut ticks = 0u32;
    while ticks < 10 {
        update_movement(&mut actor, &mut grid, 100);
        ticks += 1;
        if actor.current_target.is_none() && grid.path_queue.is_empty() {
            break;
        }
    }
    assert!(ticks <= 10);
    assert!(actor.current_target.is_none());
    assert!(grid.path_queue.is_empty());
    assert_eq!((actor.pos_x, actor.pos_z), (1500, 866));
}

#[test]
fn shortest_paths_have_distance_length() {
    let mut grid = build_grid(3, 1000, 0);
    for goal in [hc(3, 0), hc(-3, 3), hc(0, -3), hc(2, 1)] {
        let handles = move_to_hex(hc(0, 0), goal, &mut grid);
        assert_eq!(handles.len() as u64, hex_distance(hc(0, 0), goal));
    }
}

#[test]
fn planner_detours_around_block() {
    let mut grid = build_grid(2, 1000, 0);
    grid.toggle_blocked(hc(1, 0));
    let blocked_handle = grid.occupant_of(hc(1, 0)).unwrap();
    let handles = move_to_hex(hc(0, 0), hc(2, 0), &mut grid);
    assert_eq!(handles.len(), 3);
    assert!(!handles.contains(&blocked_handle));
    assert_eq!(grid.path_queue, handles);
}

#[test]
fn blocked_goal_gives_empty_path_and_idle_actor() {
    let mut grid = build_grid(2, 1000, 0);
    grid.toggle_blocked(hc(1, 0));
    let handles = move_to_hex(hc(0, 0), hc(1, 0), &mut grid);
    assert!(handles.is_empty());
    assert!(grid.path_queue.is_empty());

    let mut actor = ActorState::new(0, 0, 5000, 100);
    update_movement(&mut actor, &mut grid, 100);
    assert!(actor.current_target.is_none());
    assert_eq!((actor.pos_x, actor.pos_z), (0, 0));
}

#[test]
fn ring_of_blocked_cells_separates_goal() {
    let mut grid = build_grid(2, 1000, 0);
    for c in [hc(1, 0), hc(0, 1), hc(-1, 1), hc(-1, 0), hc(0, -1), hc(1, -1)] {
        grid.toggle_blocked(c);
    }
    let handles = move_to_hex(hc(2, 0), hc(0, 0), &mut grid);
    assert!(handles.is_empty());
    assert!(grid.path_queue.is_empty());
}

#[test]
fn goal_outside_grid_gives_empty_path() {
    let mut grid = build_grid(2, 1000, 0);
    let handles = move_to_hex(hc(0, 0), hc(5, 5), &mut grid);
    assert!(handles.is_empty());
}

#[test]
fn toggle_twice_restores_walkable_state() {
    let mut grid = build_grid(2, 1000, 0);
    let cells_before = grid.occupants.len();
    assert!(grid.is_walkable(hc(1, 0)));
    grid.toggle_blocked(hc(1, 0));
    assert!(!grid.is_walkable(hc(1, 0)));
    assert_eq!(grid.occupants.len(), cells_before);
    grid.toggle_blocked(hc(1, 0));
    assert!(grid.is_walkable(hc(1, 0)));
    assert_eq!(grid.occupants.len(), cells_before);
    assert!(grid.blocked.is_empty());
}

#[test]
fn toggle_outside_grid_is_noop() {
    let mut grid = build_grid(2, 1000, 0);
    grid.toggle_blocked(hc(7, 7));
    assert!(grid.blocked.is_empty());
}

#[test]
fn blocking_a_path_cell_prunes_its_handle() {
    let mut grid = build_grid(2, 1000, 0);
    let handles = move_to_hex(hc(0, 0), hc(2, 0), &mut grid);
    assert_eq!(handles.len(), 2);
    let pruned = grid.occupant_of(hc(1, 0)).unwrap();
    assert_eq!(handles[0], pruned);
    grid.toggle_blocked(hc(1, 0));
    assert_eq!(grid.path_queue, vec![handles[1]]);
}

#[test]
fn arrival_snap_below_epsilon() {
    let mut grid = build_grid(2, 1000, 0);
    let h = grid.occupant_of(hc(0, 0)).unwrap();
    let mut actor = ActorState::new(30, 40, 5000, 100);
    actor.current_target = Some(h);
    update_movement(&mut actor, &mut grid, 100);
    assert_eq!((actor.pos_x, actor.pos_z), (0, 0));
    assert!(actor.current_target.is_none());
    assert!(actor.target_position.is_none());
}

#[test]
fn overshoot_guard_snaps_to_target() {
    let mut grid = build_grid(2, 1000, 0);
    let h = grid.occupant_of(hc(0, 0)).unwrap();
    let mut actor = ActorState::new(5010, 0, 5000, 100);
    actor.current_target = Some(h);
    // one second: the step would be 5000, ten short of the target
    update_movement(&mut actor, &mut grid, 1000);
    assert_eq!((actor.pos_x, actor.pos_z), (0, 0));
    assert!(actor.current_target.is_none());
}

#[test]
fn unresolvable_target_abandons_leg() {
    let mut grid = build_grid(2, 1000, 0);
    let mut actor = ActorState::new(700, -900, 5000, 100);
    actor.current_target = Some(9_999);
    update_movement(&mut actor, &mut grid, 100);
    assert!(actor.current_target.is_none());
    assert!(actor.target_position.is_none());
    assert_eq!((actor.pos_x, actor.pos_z), (700, -900));
}

#[test]
fn keyboard_ignored_while_path_active() {
    let mut grid = build_grid(2, 1000, 0);
    let handles = move_to_hex(hc(0, 0), hc(1, 0), &mut grid);
    assert!(!handles.is_empty());
    let mut actor = ActorState::new(0, 0, 5000, 100);
    let keys = DirectionalIntent { right: true, ..no_keys() };
    let moved = keyboard_move(&mut actor, &grid, identity_camera(), keys, 100);
    assert!(!moved);
    assert_eq!((actor.pos_x, actor.pos_z), (0, 0));
}

#[test]
fn keyboard_moves_when_idle() {
    let grid = build_grid(2, 1000, 0);
    let mut actor = ActorState::new(0, 0, 5000, 100);
    let keys = DirectionalIntent { right: true, ..no_keys() };
    let moved = keyboard_move(&mut actor, &grid, identity_camera(), keys, 100);
    assert!(moved);
    assert_eq!((actor.pos_x, actor.pos_z), (500, 0));
    assert_eq!((actor.heading_x, actor.heading_z), (500, 0));
}

#[test]
fn keyboard_diagonal_speed_matches_axis_speed() {
    let grid = build_grid(2, 1000, 0);
    let mut actor = ActorState::new(0, 0, 5000, 100);
    let keys = DirectionalIntent { right: true, up: true, ..no_keys() };
    keyboard_move(&mut actor, &grid, identity_camera(), keys, 100);
    // each axis carries 707/1000 of the full step of 500
    assert_eq!((actor.pos_x, actor.pos_z), (353, -354));
}

#[test]
fn keyboard_rejected_into_blocked_cell() {
    let mut grid = build_grid(2, 1000, 0);
    grid.toggle_blocked(hc(1, 0));
    let mut actor = ActorState::new(900, 433, 5000, 100);
    let keys = DirectionalIntent { right: true, ..no_keys() };
    let moved = keyboard_move(&mut actor, &grid, identity_camera(), keys, 100);
    assert!(!moved);
    assert_eq!((actor.pos_x, actor.pos_z), (900, 433));
}

#[test]
fn keyboard_without_input_is_noop() {
    let grid = build_grid(2, 1000, 0);
    let mut actor = ActorState::new(123, 456, 5000, 100);
    let moved = keyboard_move(&mut actor, &grid, identity_camera(), no_keys(), 100);
    assert!(!moved);
    assert_eq!((actor.pos_x, actor.pos_z), (123, 456));
}

#[test]
fn ray_hits_ground_plane() {
    let down = WorldRay {
        origin_x: 0,
        origin_y: 10_000_000,
        origin_z: 0,
        dir_x: 0,
        dir_y: -1000,
        dir_z: 0,
    };
    assert_eq!(ray_ground_point(down), Some((0, 0)));

    let oblique = WorldRay {
        origin_x: 0,
        origin_y: 1000,
        origin_z: 500,
        dir_x: 1000,
        dir_y: -1000,
        dir_z: 0,
    };
    assert_eq!(ray_ground_point(oblique), Some((1000, 500)));

    let up = WorldRay {
        origin_x: 0,
        origin_y: 1000,
        origin_z: 0,
        dir_x: 0,
        dir_y: 1000,
        dir_z: 0,
    };
    assert_eq!(ray_ground_point(up), None);
}

#[test]
fn pick_toggles_blocked_cell_once() {
    let mut grid = build_grid(2, 1000, 0);
    let mut state = PickState { last: None };
    let planned = handle_pick(
        InteractionMode::ToggleBlocked,
        &mut state,
        &mut grid,
        0,
        0,
        1500,
        866,
    );
    assert!(planned.is_empty());
    assert!(!grid.is_walkable(hc(1, 0)));
    // the same cell again: a no-op, the cell stays blocked
    handle_pick(InteractionMode::ToggleBlocked, &mut state, &mut grid, 0, 0, 1400, 900);
    assert!(!grid.is_walkable(hc(1, 0)));
}

#[test]
fn pick_requests_path_from_actor_cell() {
    let mut grid = build_grid(2, 1000, 0);
    let mut state = PickState { last: None };
    let planned = handle_pick(
        InteractionMode::RequestPath,
        &mut state,
        &mut grid,
        0,
        0,
        1500,
        866,
    );
    assert_eq!(planned.len(), 1);
    assert_eq!(grid.path_queue, planned);
    let again = handle_pick(
        InteractionMode::RequestPath,
        &mut state,
        &mut grid,
        0,
        0,
        1500,
        866,
    );
    assert!(again.is_empty());
    assert_eq!(grid.path_queue, planned);
}

#[test]
fn pick_outside_grid_is_ignored() {
    let mut grid = build_grid(2, 1000, 0);
    let mut state = PickState { last: None };
    let planned = handle_pick(
        InteractionMode::ToggleBlocked,
        &mut state,
        &mut grid,
        0,
        0,
        90_000_000,
        90_000_000,
    );
    assert!(planned.is_empty());
    assert!(grid.blocked.is_empty());
    assert!(state.last.is_none());
}

#[test]
fn grid_lookup_round_trip() {
    let grid = build_grid(2, 1000, 0);
    let h = grid.occupant_of(hc(0, 0)).unwrap();
    assert_eq!(grid.coord_of_handle(h), Some(hc(0, 0)));
    assert_eq!(grid.occupant_of(hc(5, 5)), None);
    assert_eq!(grid.coord_of_handle(77), None);
}

#[test]
fn grid_born_blocked_pattern() {
    let grid = build_grid(2, 1000, 5);
    assert_eq!(grid.occupants.len(), 19);
    assert_eq!(grid.blocked.len(), 3);
    for (i, cell) in grid.occupants.iter().enumerate() {
        let expect_blocked = i > 0 && i % 5 == 0;
        assert_eq!(!grid.is_walkable(cell.coord), expect_blocked);
        assert_eq!(cell.handle, i as u64);
    }
    assert_eq!(grid.occupants[0].coord, hc(0, 0));
}

#[test]
fn spiral_grid_contains_all_neighbors() {
    let grid = build_grid(1, 1000, 0);
    assert_eq!(grid.occupants.len(), 7);
    for c in [hc(1, 0), hc(0, 1), hc(-1, 1), hc(-1, 0), hc(0, -1), hc(1, -1)] {
        assert!(grid.occupant_of(c).is_some());
    }
}

#[test]
fn character_hex_follows_position() {
    let mut grid = build_grid(2, 1000, 0);
    assert_eq!(get_character_hex(0, 0, &grid), hc(0, 0));
    assert_eq!(get_character_hex(1400, 900, &grid), hc(1, 0));
    let handles = move_character_to_hex(hc(2, 0), 1400, 900, &mut grid);
    assert_eq!(handles.len(), 1);
    assert_eq!(Some(handles[0]), grid.occupant_of(hc(2, 0)));
}
