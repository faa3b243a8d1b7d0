//! PheroWar simulation core.
//!
//! A competitive ant-colony simulation: colonies of ants share a 2D grid,
//! gather food, lay pheromone trails, and fight, each colony driven by an
//! externally supplied "brain" consulted over a message protocol.
//!
//! All quantities are fixed-point integers so that every rule of the engine
//! can be stated and proved exactly:
//! - positions are measured in milli-cells (one cell = 1000 units),
//! - angles in milli-radians (a full turn is `TAU_MRAD` units),
//! - time in milliseconds,
//! - pheromone intensities in milli-units (the cap is `MAX_PHEROMONE_MILLI`).
//!
//! The brain transport itself (sockets, process sandboxing, wall-clock
//! measurement) lives outside the library; the library exposes a stepped
//! tick: it hands out each ant's think request and consumes the outcome,
//! so every decision taken on a brain's answer is verified here.

#![verifier::loop_isolation(false)]

pub mod ant;
pub mod api;
pub mod colony;
pub mod config;
pub mod editor;
pub mod fixmath;
pub mod map;
pub mod pheromone;
pub mod protocol;
pub mod raycast;
pub mod terrain;
pub mod rng;
pub mod ui_state;
pub mod sim;
pub mod timer;

use vstd::prelude::*;

verus! {

/// Scale factor of the fixed-point encoding: 1000 sub-units per unit.
pub const MILLI: i64 = 1000;

/// One grid cell, in milli-cells.
pub const CELL_MC: i64 = 1000;

/// Half a grid cell, in milli-cells.
pub const HALF_CELL_MC: i64 = 500;

/// A full turn (tau = 2 * pi), in milli-radians.
pub const TAU_MRAD: i64 = 6283;

/// Half a turn (pi), in milli-radians.
pub const HALF_TURN_MRAD: i64 = 3141;

/// A quarter turn (pi / 2), in milli-radians.
pub const QUARTER_TURN_MRAD: i64 = 1571;

/// An eighth of a turn (pi / 4), in milli-radians.
pub const EIGHTH_TURN_MRAD: i64 = 785;

/// Largest number of colonies a simulation supports.
pub const MAX_COLONIES: usize = 5;

/// Number of independent pheromone channels per colony.
pub const PHEROMONE_CHANNEL_COUNT: usize = 8;

/// Size of the opaque per-ant memory blob round-tripped to the brain.
pub const MEMORY_SIZE: usize = 32;

/// Pheromone cap per cell, in milli-units (255.0 units).
pub const MAX_PHEROMONE_MILLI: u32 = 255_000;

/// Decay floor, in milli-units (0.01 units): decayed samples below this snap to zero.
pub const PHEROMONE_FLOOR_MILLI: u32 = 10;

/// Decay-rate denominator: a rate of `DECAY_RATE_ONE` means "no decay".
pub const DECAY_RATE_ONE: u32 = 1000;

/// Interval between pheromone decay passes, in milliseconds.
pub const PHEROMONE_DECAY_INTERVAL_MS: u64 = 1000;

/// Full life budget of an ant, in milliseconds.
pub const MAX_LONGEVITY_MS: u32 = 300_000;

/// Longevity drained from an opponent by one landed hit, in milliseconds.
pub const ANT_ATTACK_DAMAGE_MS: u32 = 5_000;

/// Ant base speed, in milli-cells per second (4 cells per second).
pub const ANT_SPEED_MC_PER_S: i64 = 4_000;

/// Reach of an ant, in milli-cells: fights require opponents this close.
pub const ANT_LENGTH_MC: i64 = 1000;

/// Numerator of the speed multiplier applied while carrying food.
pub const SLOWNESS_WITH_FOOD_NUM: i64 = 9;

/// Denominator of the speed multiplier applied while carrying food.
pub const SLOWNESS_WITH_FOOD_DEN: i64 = 10;

/// Interval between brain consultations of one ant, in milliseconds.
pub const THINK_INTERVAL_MS: u64 = 375;

/// Half-angle of the perception cone, in milli-radians (pi / 4).
pub const SENSE_MAX_ANGLE_MRAD: i64 = 785;

/// Reach of the senses and of cached rays, in milli-cells (10 cells).
pub const SENSE_MAX_DISTANCE_MC: i64 = 10_000;

/// Number of random samples drawn into the perception cone per think.
pub const SENSE_NUM_SAMPLES: usize = 32;

/// Number of discrete ray directions cached per cell: floor(tau * 10), so
/// that adjacent rays at maximum range are at most one cell apart.
pub const ANGLE_COUNT: usize = 62;

/// Interval between ant spawns while food suffices, in milliseconds.
pub const ANT_SPAWN_INTERVAL_MS: u64 = 300;

/// Food debited from the colony for each spawned ant.
pub const ANT_SPAWN_FOOD_COST: u32 = 5;

/// Diameter of a colony nest, in milli-cells.
pub const COLONY_NEST_SIZE_MC: i64 = 8_000;

/// Wall-clock budget for one brain consultation, in nanoseconds (1.5 ms).
pub const MAX_ANT_PROCESSING_TIME_NANOS: u64 = 1_500_000;

/// Largest accepted protocol payload, in bytes.
pub const MAX_PAYLOAD_BYTES: usize = 256;

/// Food amount written to food tiles when a map is saved.
pub const DEFAULT_FOOD_AMOUNT: u32 = 50;

/// Width of a freshly created default map, in cells.
pub const DEFAULT_MAP_WIDTH: u32 = 360;

/// Height of a freshly created default map, in cells.
pub const DEFAULT_MAP_HEIGHT: u32 = 200;

/// Largest accepted map side length, in cells.
pub const MAX_MAP_DIM: u32 = 4096;

/// A world position, in milli-cells.
#[derive(Clone, Copy, Debug, PartialEq, Eq, Structural)]
pub struct Pos {
    pub x: i64,
    pub y: i64,
}

/// Whether a position lies inside a `w x h` cell grid.
pub open spec fn pos_in_map(p: Pos, w: int, h: int) -> bool {
    0 <= p.x < w * (MILLI as int) && 0 <= p.y < h * (MILLI as int)
}

} // verus!
