//! One pheromone channel: a per-cell scalar field with capped laying and
//! multiplicative decay toward a hard zero floor.

use vstd::prelude::*;
use crate::{MAX_PHEROMONE_MILLI, PHEROMONE_FLOOR_MILLI, DECAY_RATE_ONE};

verus! {

/// What one decay pass does to a single sample: scale it by
/// `decay_rate / DECAY_RATE_ONE`, then snap anything below the floor to zero.
pub open spec fn decayed_sample(v: u32, decay_rate: u32) -> u32 {
    let scaled = ((v * decay_rate) / (DECAY_RATE_ONE as int)) as u32;
    if scaled < PHEROMONE_FLOOR_MILLI {
        0u32
    } else {
        scaled
    }
}

/// A `width x height` scalar field of pheromone intensities (milli-units),
/// stored row-major, together with the channel's decay rate
/// (`DECAY_RATE_ONE` means "keep everything").
pub struct PheromoneChannel {
    pub width: u32,
    pub height: u32,
    pub data: Vec<u32>,
    pub decay_rate: u32,
}

impl PheromoneChannel {
    /// Shape and range invariant: one sample per cell, every sample within
    /// `[0, MAX_PHEROMONE_MILLI]`, and a decay rate that never amplifies.
    pub open spec fn wf(self) -> bool {
        &&& self.data.len() == self.width * self.height
        &&& forall|i: int| 0 <= i < self.data.len() ==> self.data[i] <= MAX_PHEROMONE_MILLI
        &&& self.decay_rate <= DECAY_RATE_ONE
    }

    /// The sample at cell `(x, y)`.
    pub open spec fn sample(self, x: int, y: int) -> u32 {
        self.data[y * self.width + x]
    }

    /// Creates a zeroed channel; decay rates above `DECAY_RATE_ONE` are
    /// clamped so that decay can never raise a sample.
    pub fn new(width: u32, height: u32, decay_rate: u32) -> (r: PheromoneChannel)
        requires
            width * height <= usize::MAX,
        ensures
            r.wf(),
            r.width == width,
            r.height == height,
            r.decay_rate == if decay_rate <= DECAY_RATE_ONE { decay_rate } else { DECAY_RATE_ONE },
            forall|i: int| 0 <= i < r.data.len() ==> r.data[i] == 0,
    {
        let n: usize = (width as usize) * (height as usize);
        let mut data: Vec<u32> = Vec::new();
        let mut i: usize = 0;
        while i < n
            invariant
                i <= n,
                data.len() == i,
                forall|j: int| 0 <= j < i ==> data[j] == 0,
            decreases n - i,
        {
            data.push(0);
            i = i + 1;
        }
        let rate = if decay_rate <= DECAY_RATE_ONE { decay_rate } else { DECAY_RATE_ONE };
        PheromoneChannel { width, height, data, decay_rate: rate }
    }

    /// Adds `amount` to the sample at `(x, y)`, saturating at the cap.
    pub fn lay(&mut self, x: u32, y: u32, amount: u32)
        requires
            old(self).wf(),
            x < old(self).width,
            y < old(self).height,
        ensures
            final(self).wf(),
            final(self).width == old(self).width,
            final(self).height == old(self).height,
            final(self).decay_rate == old(self).decay_rate,
            final(self).data.len() == old(self).data.len(),
            final(self).sample(x as int, y as int) == if old(self).sample(x as int, y as int) + amount
                <= MAX_PHEROMONE_MILLI {
                old(self).sample(x as int, y as int) + amount
            } else {
                MAX_PHEROMONE_MILLI as int
            },
            forall|i: int|
                0 <= i < old(self).data.len() && i != y * old(self).width + x
                    ==> final(self).data[i] == old(self).data[i],
    {
        proof {
            lemma_cell_index_in_range(self.width as int, self.height as int, x as int, y as int);
        }
        let idx: usize = (y as usize) * (self.width as usize) + (x as usize);
        let cell = self.data[idx];
        let raised: u32 = if amount <= MAX_PHEROMONE_MILLI - cell {
            cell + amount
        } else {
            MAX_PHEROMONE_MILLI
        };
        self.data.set(idx, raised);
    }

    /// One decay pass over the whole field: every sample becomes
    /// `decayed_sample` of its old value, so afterwards each sample is
    /// either zero or at least the floor.
    pub fn decay(&mut self)
        requires
            old(self).wf(),
        ensures
            final(self).wf(),
            final(self).width == old(self).width,
            final(self).height == old(self).height,
            final(self).decay_rate == old(self).decay_rate,
            final(self).data.len() == old(self).data.len(),
            forall|i: int|
                0 <= i < old(self).data.len()
                    ==> final(self).data[i] == decayed_sample(old(self).data[i], old(self).decay_rate),
            forall|i: int|
                0 <= i < final(self).data.len()
                    ==> final(self).data[i] == 0 || final(self).data[i] >= PHEROMONE_FLOOR_MILLI,
    {
        let n = self.data.len();
        let ghost orig = self.data@;
        let ghost rate = self.decay_rate;
        let mut i: usize = 0;
        while i < n
            invariant
                i <= n,
                self.data.len() == n,
                self.width == old(self).width,
                self.height == old(self).height,
                self.decay_rate == rate,
                rate <= DECAY_RATE_ONE,
                forall|j: int| 0 <= j < n ==> orig[j] <= MAX_PHEROMONE_MILLI,
                forall|j: int| 0 <= j < i ==> self.data[j] == decayed_sample(orig[j], rate),
                forall|j: int| 0 <= j < i ==> self.data[j] <= MAX_PHEROMONE_MILLI,
                forall|j: int| i <= j < n ==> self.data[j] == orig[j],
            decreases n - i,
        {
            let v = self.data[i];
            assert(self.data[i as int] == orig[i as int] && orig[i as int] <= MAX_PHEROMONE_MILLI);
            assert(v * rate <= MAX_PHEROMONE_MILLI * DECAY_RATE_ONE) by (nonlinear_arith)
                requires
                    v <= MAX_PHEROMONE_MILLI,
                    rate <= DECAY_RATE_ONE,
            ;
            let scaled: u32 = ((v as u64 * self.decay_rate as u64) / DECAY_RATE_ONE as u64) as u32;
            let snapped: u32 = if scaled < PHEROMONE_FLOOR_MILLI { 0 } else { scaled };
            proof {
                lemma_decayed_sample_le(orig[i as int], rate);
            }
            assert(snapped == decayed_sample(orig[i as int], rate));
            self.data.set(i, snapped);
            i = i + 1;
        }
    }

    /// The sample at `(x, y)`, or zero outside the field.
    pub fn sample_at(&self, x: u32, y: u32) -> (r: u32)
        requires
            self.wf(),
        ensures
            x < self.width && y < self.height ==> r == self.sample(x as int, y as int),
            !(x < self.width && y < self.height) ==> r == 0,
            r <= MAX_PHEROMONE_MILLI,
    {
        if x < self.width && y < self.height {
            proof {
                lemma_cell_index_in_range(self.width as int, self.height as int, x as int, y as int);
            }
            let idx: usize = (y as usize) * (self.width as usize) + (x as usize);
            self.data[idx]
        } else {
            0
        }
    }
}

/// Decay never raises a sample: the scaled value is at most the original.
pub proof fn lemma_decayed_sample_le(v: u32, rate: u32)
    requires
        rate <= DECAY_RATE_ONE,
    ensures
        decayed_sample(v, rate) <= v,
{
    assert((v * rate) / (DECAY_RATE_ONE as int) <= v) by (nonlinear_arith)
        requires
            rate <= DECAY_RATE_ONE,
    ;
}

/// Distinct in-bounds cells have distinct row-major indices.
pub proof fn lemma_cell_index_injective(w: int, h: int, x1: int, y1: int, x2: int, y2: int) by (nonlinear_arith)
    requires
        0 <= x1 < w,
        0 <= y1 < h,
        0 <= x2 < w,
        0 <= y2 < h,
        !(x1 == x2 && y1 == y2),
    ensures
        y1 * w + x1 != y2 * w + x2,
{
}

/// Row-major index arithmetic: an in-bounds cell's flat index is in range.
pub proof fn lemma_cell_index_in_range(w: int, h: int, x: int, y: int) by (nonlinear_arith)
    requires
        0 <= x < w,
        0 <= y < h,
    ensures
        0 <= y * w + x < w * h,
{
}

} // verus!
