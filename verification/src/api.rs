//! The brain-facing message types and the output sanitizer.
//!
//! These are the logical shapes exchanged with a colony's brain. The host
//! side of the transport converts wire floats into these fixed-point
//! fields (mapping any non-numeric float to zero) before the engine ever
//! sees them; everything the engine then does with a brain's answer is
//! verified here. Distances use `-1` as the "nothing perceived" sentinel.

use vstd::prelude::*;
use vstd::array::ArrayAdditionalExecFns;
use crate::fixmath::norm_angle;
use crate::{PHEROMONE_CHANNEL_COUNT, MEMORY_SIZE, MAX_PHEROMONE_MILLI, TAU_MRAD};

verus! {

/// What an ant perceives on a think tick. Angle offsets are relative to
/// the ant's rotation (milli-radians); distances are in milli-cells with
/// `-1` meaning "unseen"; intensities are pheromone milli-units.
#[derive(Clone, Copy)]
pub struct AntInput {
    pub is_carrying_food: bool,
    pub is_on_colony: bool,
    pub is_on_food: bool,
    pub pheromone_senses: [(i64, u32); PHEROMONE_CHANNEL_COUNT],
    pub cell_sense: [u32; PHEROMONE_CHANNEL_COUNT],
    pub wall_sense: (i64, i64),
    pub food_sense: (i64, i64),
    pub colony_sense: (i64, i64),
    pub enemy_sense: (i64, i64),
    pub longevity: u32,
    pub is_fighting: bool,
}

/// What a brain answers: a turn and pheromone amounts, still unchecked.
#[derive(Clone, Copy)]
pub struct AntOutput {
    pub turn_angle: i64,
    pub pheromone_amounts: [i64; PHEROMONE_CHANNEL_COUNT],
    pub try_attack: bool,
}

/// One think request: the perception and the ant's opaque memory.
#[derive(Clone, Copy)]
pub struct AntRequest {
    pub input: AntInput,
    pub memory: [u8; MEMORY_SIZE],
}

/// One think response: the output and the memory to carry forward.
#[derive(Clone, Copy)]
pub struct AntResponse {
    pub output: AntOutput,
    pub memory: [u8; MEMORY_SIZE],
}

/// What a brain declares once at startup: one multiplicative decay rate
/// per pheromone channel, scaled by `DECAY_RATE_ONE`.
#[derive(Clone, Copy)]
pub struct PlayerSetup {
    pub decay_rates: [u32; PHEROMONE_CHANNEL_COUNT],
}

/// A pheromone amount clamped into `[0, MAX_PHEROMONE_MILLI]`.
pub open spec fn clamp_amount(v: int) -> int {
    if v < 0 {
        0
    } else if v > MAX_PHEROMONE_MILLI {
        MAX_PHEROMONE_MILLI as int
    } else {
        v
    }
}

/// An output the engine will accept as-is: a normalized turn and
/// in-range pheromone amounts.
pub open spec fn output_sanitized(o: AntOutput) -> bool {
    &&& 0 <= o.turn_angle < TAU_MRAD
    &&& forall|i: int| 0 <= i < PHEROMONE_CHANNEL_COUNT
            ==> 0 <= #[trigger] o.pheromone_amounts[i] <= MAX_PHEROMONE_MILLI
}

/// Sanitizes a brain's raw output: every pheromone amount is clamped into
/// `[0, MAX_PHEROMONE_MILLI]` and the turn angle is reduced modulo a full
/// turn. Sanitizing an already-sanitized output changes nothing.
pub fn sanitize_output(o: &AntOutput) -> (r: AntOutput)
    ensures
        output_sanitized(r),
        r.turn_angle == norm_angle(o.turn_angle as int),
        forall|i: int| 0 <= i < PHEROMONE_CHANNEL_COUNT
            ==> #[trigger] r.pheromone_amounts[i] == clamp_amount(o.pheromone_amounts[i] as int),
        r.try_attack == o.try_attack,
        output_sanitized(*o) ==> r == *o,
{
    let mut out = *o;
    out.turn_angle = crate::fixmath::normalize_angle(o.turn_angle);
    let mut i: usize = 0;
    while i < PHEROMONE_CHANNEL_COUNT
        invariant
            i <= PHEROMONE_CHANNEL_COUNT,
            out.turn_angle == norm_angle(o.turn_angle as int),
            0 <= out.turn_angle < TAU_MRAD,
            out.try_attack == o.try_attack,
            forall|j: int| 0 <= j < i
                ==> #[trigger] out.pheromone_amounts[j] == clamp_amount(o.pheromone_amounts[j] as int),
            forall|j: int| i <= j < PHEROMONE_CHANNEL_COUNT
                ==> #[trigger] out.pheromone_amounts[j] == o.pheromone_amounts[j],
        decreases PHEROMONE_CHANNEL_COUNT - i,
    {
        let v = out.pheromone_amounts[i];
        let clamped: i64 = if v < 0 {
            0
        } else if v > MAX_PHEROMONE_MILLI as i64 {
            MAX_PHEROMONE_MILLI as i64
        } else {
            v
        };
        out.pheromone_amounts.set(i, clamped);
        i = i + 1;
    }
    proof {
        if output_sanitized(*o) {
            assert(out.pheromone_amounts =~= o.pheromone_amounts);
        }
    }
    out
}

} // verus!
