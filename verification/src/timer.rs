//! Count-up timer driving periodic events (thinks, pheromone decay).

use vstd::prelude::*;

verus! {

/// A timer that counts up from an initial phase and fires once its value
/// reaches `max_value`; `wrap` folds the value back below the period.
pub struct Timer {
    pub max_value: u64,
    pub value: u64,
}

impl Timer {
    /// Creates a timer with the given period and initial phase.
    pub fn new(max_value: u64, initial_value: u64) -> (r: Timer)
        ensures
            r.max_value == max_value,
            r.value == initial_value,
    {
        Timer { max_value, value: initial_value }
    }

    /// True once the timer has reached or passed its period.
    pub fn is_ready(&self) -> (r: bool)
        ensures
            r == (self.value >= self.max_value),
    {
        self.value >= self.max_value
    }

    /// Advances the timer by `dt`, saturating at the numeric ceiling.
    pub fn update(&mut self, dt: u64)
        ensures
            final(self).max_value == old(self).max_value,
            final(self).value == if old(self).value + dt <= u64::MAX {
                old(self).value + dt
            } else {
                u64::MAX as int
            },
    {
        if dt <= u64::MAX - self.value {
            self.value = self.value + dt;
        } else {
            self.value = u64::MAX;
        }
    }

    /// Folds the value back within the period, keeping the overshoot phase.
    pub fn wrap(&mut self)
        requires
            old(self).max_value > 0,
        ensures
            final(self).max_value == old(self).max_value,
            final(self).value == old(self).value % old(self).max_value,
            final(self).value < final(self).max_value,
    {
        self.value = self.value % self.max_value;
    }

    /// Forces the timer to fire on its next poll.
    pub fn force_ready(&mut self)
        ensures
            final(self).max_value == old(self).max_value,
            final(self).value == final(self).max_value,
    {
        self.value = self.max_value;
    }
}

} // verus!
