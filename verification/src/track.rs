//! The track-follow estimator.
//!
//! The samples of the track are poses in the frame of the sensing spot: the
//! circle is centred at the origin and the robot looks along the x axis. The
//! estimator finds the stretch of track that the spot covers, marks where that
//! stretch enters and leaves the circle, and folds the angle between the two
//! marks into a steering correction of at most a quarter turn.

use vstd::prelude::*;
use crate::angle::{Angle, HALF_TURN, QUARTER_TURN};
use crate::fixed::{quot, sign_of};
use crate::geometry::{Crossing, Pose, Root, intersection, spec_intersection};

verus! {

/// How many samples the estimator looks at, unless told otherwise, before it
/// gives up finding one under the spot. Samples set wider apart than the spot
/// is across may all fall outside it.
pub const LOOKAHEAD: usize = 20;

/// The stretch of track under the spot.
#[derive(Clone, Copy, Debug, PartialEq, Eq, Structural)]
pub struct Engagement {
    /// Index of the first sample under the spot.
    pub index: usize,
    /// Index of the last sample of the unbroken run that starts at `index`.
    pub last: usize,
    /// Where the track enters the circle.
    pub entry: Crossing,
    /// Where the track leaves the circle.
    pub exit: Crossing,
}

/// Sample `i` lies strictly inside the circle.
pub open spec fn covered(samples: Seq<Pose>, radius: int, i: int) -> bool {
    samples[i].position.spec_inside(radius)
}

/// No sample that the search looks at lies inside the circle.
pub open spec fn none_covered(samples: Seq<Pose>, radius: int, lookahead: int) -> bool {
    forall|i: int| 0 <= i < samples.len() && i < lookahead ==> !covered(samples, radius, i)
}

/// `index` is the first covered sample and `last` ends the unbroken run of
/// covered samples that starts there.
pub open spec fn is_covered_run(samples: Seq<Pose>, radius: int, index: int, last: int) -> bool {
    &&& 0 <= index <= last < samples.len()
    &&& forall|i: int| 0 <= i < index ==> !covered(samples, radius, i)
    &&& forall|i: int| index <= i <= last ==> covered(samples, radius, i)
    &&& (last + 1 < samples.len() ==> !covered(samples, radius, last + 1))
}

/// Finds the stretch of track under the spot and its two crossings with the
/// circle.
///
/// There is none when the track has fewer than two samples, or when none of
/// the first `lookahead` samples lies strictly inside the circle. Otherwise
/// the stretch starts at the first such sample and runs on for as long as the
/// samples stay inside; the entry is the near crossing of the ray through its
/// first sample, the exit the far crossing of the ray through its last.
pub fn engage(samples: &Vec<Pose>, radius: u32, lookahead: usize) -> (found: Option<Engagement>)
    ensures
        found is None <==> samples.len() < 2 || none_covered(samples@, radius as int, lookahead as int),
        found matches Some(e) ==> {
            &&& e.index < lookahead
            &&& is_covered_run(samples@, radius as int, e.index as int, e.last as int)
            &&& e.entry.x == spec_intersection(samples[e.index as int], radius * radius, Root::Near).0
            &&& e.entry.y == spec_intersection(samples[e.index as int], radius * radius, Root::Near).1
            &&& e.exit.x == spec_intersection(samples[e.last as int], radius * radius, Root::Far).0
            &&& e.exit.y == spec_intersection(samples[e.last as int], radius * radius, Root::Far).1
        },
{
    let n: usize = samples.len();
    if n < 2 {
        return None;
    }
    let limit: usize = if lookahead < n { lookahead } else { n };
    let mut index: usize = 0;
    while index < limit
        invariant
            index <= limit,
            limit <= n,
            limit <= lookahead,
            n == samples.len(),
            forall|i: int| 0 <= i < index ==> !covered(samples@, radius as int, i),
        ensures
            index <= limit,
            forall|i: int| 0 <= i < index ==> !covered(samples@, radius as int, i),
            index < limit ==> covered(samples@, radius as int, index as int),
        decreases limit - index,
    {
        if samples[index].position.inside(radius) {
            break;
        }
        index = index + 1;
    }
    if index >= limit {
        return None;
    }
    let mut last: usize = index;
    while last + 1 < n
        invariant
            index <= last < n,
            n == samples.len(),
            forall|i: int| index <= i <= last ==> covered(samples@, radius as int, i),
        ensures
            index <= last < n,
            forall|i: int| index <= i <= last ==> covered(samples@, radius as int, i),
            last + 1 < n ==> !covered(samples@, radius as int, last + 1),
        decreases n - last,
    {
        if !samples[last + 1].position.inside(radius) {
            break;
        }
        last = last + 1;
    }
    assert(covered(samples@, radius as int, index as int));
    assert(covered(samples@, radius as int, last as int));
    assert(radius * radius <= 0xffff_ffff * 0xffff_ffff) by (nonlinear_arith)
        requires
            0 <= radius <= 0xffff_ffff,
    ;
    let r_squared: u64 = (radius as u64) * (radius as u64);
    let entry: Crossing = intersection(&samples[index], r_squared, Root::Near);
    let exit: Crossing = intersection(&samples[last], r_squared, Root::Far);
    Some(Engagement { index, last, entry, exit })
}

/// How far counter-clockwise the exit lies from the point of the circle
/// opposite the entry. A track that runs straight through the centre has no
/// bend; one that curves to the left has a positive bend.
pub open spec fn bend(entry: int, exit: int) -> int {
    let diff = exit - entry;
    diff - sign_of(diff) * HALF_TURN
}

/// The steering correction for a track that enters the circle at the angle
/// `entry` and leaves it at the angle `exit`.
pub open spec fn spec_correction(entry: int, exit: int) -> int {
    let diff = exit - entry;
    quot(sign_of(diff) * HALF_TURN - diff, 2)
}

/// Folds the angle between the two crossings into a steering correction: half
/// the bend of the track, turned against it, and so never more than a quarter
/// turn.
pub fn correction(entry: Angle, exit: Angle) -> (turn: Angle)
    ensures
        turn@ == spec_correction(entry@, exit@),
        -QUARTER_TURN <= turn@ <= QUARTER_TURN,
{
    let diff: i32 = exit.units() - entry.units();
    let folded: i32 = if diff < 0 {
        (-HALF_TURN - diff) / 2
    } else {
        (HALF_TURN - diff) / 2
    };
    Angle::within(folded)
}

/// A track that leaves the circle opposite to where it entered needs no
/// correction.
pub proof fn lemma_straight_track_needs_no_correction(entry: Angle, exit: Angle)
    requires
        entry.wf(),
        exit.wf(),
        bend(entry@, exit@) == 0,
    ensures
        spec_correction(entry@, exit@) == 0,
{
}

/// The correction is half the bend, turned against it: a track that bends to
/// the left is answered by a negative correction, one that bends to the right
/// by a positive one, and the correction is never more than a quarter turn.
pub proof fn lemma_correction_opposes_bend(entry: Angle, exit: Angle)
    requires
        entry.wf(),
        exit.wf(),
    ensures
        spec_correction(entry@, exit@) == -quot(bend(entry@, exit@), 2),
        bend(entry@, exit@) >= 2 ==> spec_correction(entry@, exit@) < 0,
        bend(entry@, exit@) <= -2 ==> spec_correction(entry@, exit@) > 0,
        -QUARTER_TURN <= spec_correction(entry@, exit@) <= QUARTER_TURN,
{
}

/// Mirroring a track in the robot's axis mirrors the correction, as long as
/// the two crossings are at different angles.
pub proof fn lemma_mirrored_track_mirrors_correction(entry: Angle, exit: Angle)
    requires
        entry.wf(),
        exit.wf(),
        entry@ != exit@,
    ensures
        spec_correction(-entry@, -exit@) == -spec_correction(entry@, exit@),
{
}

} // verus!
