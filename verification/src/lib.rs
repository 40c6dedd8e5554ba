//! Spatial navigation for actors on a hexagonal grid embedded in a 3D world.
//!
//! The library models the world plane in fixed-point integer coordinates
//! (thousandths of a world unit, called milliunits throughout), so that every
//! geometric computation is exact and carries a proved contract. It offers:
//!
//! - axial hex coordinates with the cube distance and adjacency relation,
//! - a coordinate mapper between hex cells and world-plane positions,
//! - a grid index holding cell occupants, a blocked-cell set and the
//!   committed path queue,
//! - a shortest-path planner over the walkable cells,
//! - a per-frame movement controller that follows the committed path or a
//!   camera-relative directional intent, and
//! - pointer-pick handling that turns a world-space ray into a grid edit or
//!   a path request.

pub mod coords;
pub mod numeric;
pub mod mapper;
pub mod grid;
pub mod planner;
pub mod motion;
pub mod input;
