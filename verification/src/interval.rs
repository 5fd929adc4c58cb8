//! Closed intervals of fixed-point scalars.

use vstd::prelude::*;

verus! {

#[derive(Clone, Copy, Debug, PartialEq, Eq, Structural)]
pub struct Interval {
    pub min: i64,
    pub max: i64,
}

impl Interval {
    pub fn new(min: i64, max: i64) -> (r: Interval)
        ensures
            r == (Interval { min, max }),
    {
        Interval { min, max }
    }

    /// The smallest interval containing both operands.
    pub fn combined(&self, other: Interval) -> (r: Interval)
        ensures
            r.min == if self.min <= other.min {
                self.min
            } else {
                other.min
            },
            r.max == if self.max >= other.max {
                self.max
            } else {
                other.max
            },
    {
        Interval {
            min: if self.min <= other.min {
                self.min
            } else {
                other.min
            },
            max: if self.max >= other.max {
                self.max
            } else {
                other.max
            },
        }
    }

    /// Strict membership, used by the intersection protocol.
    pub fn surrounds(&self, x: i64) -> (r: bool)
        ensures
            r == (self.min < x && x < self.max),
    {
        self.min < x && x < self.max
    }

    /// Closed membership.
    pub fn contains(&self, x: i64) -> (r: bool)
        ensures
            r == (self.min <= x && x <= self.max),
    {
        self.min <= x && x <= self.max
    }

    pub fn clamp(&self, x: i64) -> (r: i64)
        requires
            self.min <= self.max,
        ensures
            r == if x < self.min {
                self.min
            } else if x > self.max {
                self.max
            } else {
                x
            },
    {
        if x < self.min {
            self.min
        } else if x > self.max {
            self.max
        } else {
            x
        }
    }

    /// Widen by half of `delta` on each side.
    pub fn expand(&self, delta: i64) -> (r: Interval)
        requires
            0 <= delta,
            i64::MIN <= self.min - delta,
            self.max + delta <= i64::MAX,
        ensures
            r.min == self.min - delta / 2,
            r.max == self.max + delta / 2,
    {
        let padding = delta / 2;
        Interval { min: self.min - padding, max: self.max + padding }
    }

    pub fn size(&self) -> (r: i64)
        requires
            i64::MIN <= self.max - self.min <= i64::MAX,
        ensures
            r == self.max - self.min,
    {
        self.max - self.min
    }
}

/// The default interval is empty: its bounds are crossed as far as the grid
/// allows, so combining it with any real interval returns the latter.
impl Default for Interval {
    fn default() -> (r: Interval)
        ensures
            r.min == i64::MAX,
            r.max == i64::MIN,
    {
        Interval { min: i64::MAX, max: i64::MIN }
    }
}

} // verus!
