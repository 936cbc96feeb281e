//! Room streaming for a tile-based 2D world.
//!
//! The world is laid out on an integer grid of *steps*: a fixed-point
//! resolution of `STEPS_PER_UNIT` steps to one world unit, with
//! `PIXEL_SCALE` world units to one tile of a room descriptor. Every
//! position and size in this crate is a whole number of steps. A velocity
//! is a whole number of steps a tick, so that what the player covers in a
//! tick is exact.
//!
//! - `geometry`: points, sizes and rectangles of the grid.
//! - `scan`, `number`: bytes into lines, pieces and numbers.
//! - `descriptor`: a room's descriptor into its area and colliders.
//! - `player`: thrust, drift and friction.
//! - `collision`: the player out of rigid colliders.
//! - `rooms`: rooms from their directories; waking, sleeping, taking down.
//! - `coherence`: what is in the world, room by room.
//! - `interaction`: interactables and the names of entities.
//! - `state`: the phases of the game around all of these.
//! - `menu`: what the buttons of the menu do.

pub mod geometry;
pub mod scan;
pub mod number;
pub mod descriptor;
pub mod player;
pub mod collision;
pub mod rooms;
pub mod coherence;
pub mod interaction;
pub mod state;
pub mod menu;
