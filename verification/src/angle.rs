//! Planar angles in fixed-point counts.

use vstd::prelude::*;

verus! {

/// Counts in a half turn. Thirds and quarters of it are whole counts.
pub const HALF_TURN: i32 = 1_800_000;

/// Counts in a quarter turn, the largest steering command in either sense.
pub const QUARTER_TURN: i32 = 900_000;

/// A signed planar angle of at most a half turn in either sense,
/// counter-clockwise positive.
#[derive(Clone, Copy, Debug, PartialEq, Eq, Structural)]
pub struct Angle {
    units: i32,
}

impl View for Angle {
    type V = int;

    closed spec fn view(&self) -> int {
        self.units as int
    }
}

impl Angle {
    #[verifier::type_invariant]
    spec fn in_range(self) -> bool {
        -HALF_TURN <= self.units <= HALF_TURN
    }

    /// The range that every angle handed to executable code lies in.
    pub open spec fn wf(self) -> bool {
        -HALF_TURN <= self@ <= HALF_TURN
    }

    /// The angle of `units` counts, where that is at most a half turn in
    /// either sense.
    pub fn new(units: i32) -> (a: Option<Angle>)
        ensures
            a is Some <==> -HALF_TURN <= units <= HALF_TURN,
            a matches Some(angle) ==> angle@ == units && angle.wf(),
    {
        if -HALF_TURN <= units && units <= HALF_TURN {
            Some(Angle { units })
        } else {
            None
        }
    }

    /// The angle of `units` counts, known to be in range.
    pub(crate) fn within(units: i32) -> (a: Angle)
        requires
            -HALF_TURN <= units <= HALF_TURN,
        ensures
            a@ == units,
            a.wf(),
    {
        Angle { units }
    }

    /// The angle in counts.
    pub fn units(&self) -> (u: i32)
        ensures
            u == self@,
            self.wf(),
    {
        proof {
            use_type_invariant(self);
        }
        self.units
    }
}

} // verus!
