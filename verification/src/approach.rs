//! The point-approach controller.
//!
//! The target is where the robot itself has to stand so that its sensing spot
//! sits on the goal, seen from the robot. Close to it the robot only turns on
//! the spot until its heading fits, and is then done; farther away it drives
//! toward the target, backing up to one that lies close behind.

use vstd::prelude::*;
use crate::angle::{Angle, HALF_TURN, QUARTER_TURN};
use crate::fixed::{UNIT, floor_sqrt, isqrt, magnitude, quot, sign_of, lemma_floor_sqrt_monotone,
    lemma_floor_sqrt_of_square, lemma_square_monotone};
use crate::geometry::Vec2;

verus! {

/// When the heading counts as fitting, once the robot is close.
#[derive(Clone, Copy, Debug, PartialEq, Eq, Structural)]
pub enum Deadband {
    /// The heading error is smaller than the exit angle, to either side.
    Symmetric,
    /// The heading error is smaller than the exit angle and points across the
    /// robot's axis toward the side on which the target lies.
    SignCrossing,
}

/// How distance and heading error make up the forward speed.
#[derive(Clone, Copy, Debug, PartialEq, Eq, Structural)]
pub enum SpeedBlend {
    /// The distance, weighted from twice down to once as the heading error
    /// grows from nothing to a half turn.
    HeadingWeighted,
    /// Half the distance.
    HalfDistance,
}

/// The thresholds and rules of the controller.
#[derive(Clone, Copy, Debug, PartialEq, Eq, Structural)]
pub struct ApproachConfig {
    /// The closing radius in thousandths of the spot's radius.
    pub closing_permille: u16,
    /// The rule by which the heading counts as fitting.
    pub deadband: Deadband,
    /// The heading error below which the heading counts as fitting.
    pub exit_angle: Angle,
    /// The rule for the forward speed.
    pub blend: SpeedBlend,
    /// How far behind the robot a target may lie and still be backed up to,
    /// in thousandths of the spot's radius.
    pub rear_reach_permille: u16,
    /// The steering angle beyond which a target counts as lying behind.
    pub rear_bearing: Angle,
    /// Whether the turn rate is divided by the distance ahead, in units, once
    /// that is more than one.
    pub damp_ahead: bool,
}

/// Where the robot has to go, seen from the robot.
#[derive(Clone, Copy, Debug, PartialEq, Eq, Structural)]
pub struct Target {
    /// The position of the target.
    pub offset: Vec2,
    /// The heading asked for at the target.
    pub heading: Angle,
    /// The direction in which the target lies: the angle of `offset`, which
    /// the caller takes with its arctangent.
    pub bearing: Angle,
}

/// One motion command: a forward speed, where `UNIT` is full speed ahead, and
/// a turn rate of at most a quarter turn, clockwise positive.
#[derive(Clone, Copy, Debug, PartialEq, Eq, Structural)]
pub struct Command {
    pub speed: i32,
    pub turn: i32,
}

impl ApproachConfig {
    /// The angles are in range and neither threshold is negative.
    pub open spec fn wf(self) -> bool {
        &&& self.exit_angle.wf()
        &&& self.rear_bearing.wf()
        &&& 0 <= self.exit_angle@
        &&& 0 <= self.rear_bearing@
    }
}

impl Default for ApproachConfig {
    /// The closing radius is the spot's radius, the heading has to cross the
    /// axis within a third of a right angle, the speed weighs the heading in,
    /// targets beyond three quarters of a right angle and less than half a
    /// radius behind are backed up to, and the turn rate is damped.
    fn default() -> (config: ApproachConfig)
        ensures
            config.closing_permille == 1000,
            config.deadband == Deadband::SignCrossing,
            config.exit_angle@ == 300_000,
            config.blend == SpeedBlend::HeadingWeighted,
            config.rear_reach_permille == 500,
            config.rear_bearing@ == 675_000,
            config.damp_ahead,
            config.wf(),
    {
        ApproachConfig {
            closing_permille: 1000,
            deadband: Deadband::SignCrossing,
            exit_angle: Angle::within(300_000),
            blend: SpeedBlend::HeadingWeighted,
            rear_reach_permille: 500,
            rear_bearing: Angle::within(675_000),
            damp_ahead: true,
        }
    }
}

/// The bearing lies in the octant of the offset, both ends of the octant
/// counted in: it has the sign of `y`, it is at most a quarter turn exactly
/// where `x` is positive, it is nearer to the robot's axis than to the
/// perpendicular exactly where `x` is the longer component, and on the axes
/// and the diagonals it is the exact angle. An offset of nothing has the
/// bearing zero.
pub open spec fn bearing_fits(offset: Vec2, bearing: int) -> bool {
    let x = offset.x as int;
    let y = offset.y as int;
    let m = magnitude(bearing);
    &&& (y > 0 ==> bearing >= 0)
    &&& (y < 0 ==> bearing <= 0)
    &&& (y == 0 && x >= 0 ==> bearing == 0)
    &&& (y == 0 && x < 0 ==> m == HALF_TURN)
    &&& (x == 0 && y != 0 ==> m == QUARTER_TURN)
    &&& (x > 0 ==> m <= QUARTER_TURN)
    &&& (x < 0 ==> m >= QUARTER_TURN)
    &&& (magnitude(y) < magnitude(x) ==> m <= 450_000 || m >= 1_350_000)
    &&& (magnitude(y) > magnitude(x) ==> 450_000 <= m <= 1_350_000)
    &&& (magnitude(y) == magnitude(x) && x != 0 ==> m == 450_000 || m == 1_350_000)
}

impl Target {
    /// Both angles are in range and the bearing lies in the octant of the
    /// offset.
    pub open spec fn wf(self) -> bool {
        &&& self.heading.wf()
        &&& self.bearing.wf()
        &&& bearing_fits(self.offset, self.bearing@)
    }

    /// Tells whether the bearing lies in the octant of the offset.
    pub fn is_consistent(&self) -> (fits: bool)
        ensures
            fits == bearing_fits(self.offset, self.bearing@),
    {
        let x: i64 = self.offset.x as i64;
        let y: i64 = self.offset.y as i64;
        let bearing: i32 = self.bearing.units();
        let m: i32 = if bearing < 0 { -bearing } else { bearing };
        let ax: i64 = if x < 0 { -x } else { x };
        let ay: i64 = if y < 0 { -y } else { y };
        let signs: bool = (y <= 0 || bearing >= 0) && (y >= 0 || bearing <= 0);
        let axes: bool = (!(y == 0 && x >= 0) || bearing == 0) && (!(y == 0 && x < 0) || m
            == HALF_TURN) && (!(x == 0 && y != 0) || m == QUARTER_TURN);
        let sides: bool = (x <= 0 || m <= QUARTER_TURN) && (x >= 0 || m >= QUARTER_TURN);
        let octants: bool = (ay >= ax || m <= 450_000 || m >= 1_350_000) && (ay <= ax || (450_000
            <= m && m <= 1_350_000)) && (!(ay == ax && x != 0) || m == 450_000 || m == 1_350_000);
        signs && axes && sides && octants
    }
}

/// The target lies strictly inside the closing radius.
pub open spec fn is_close(target: Target, radius: int, config: ApproachConfig) -> bool {
    let reach = radius * config.closing_permille;
    1_000_000 * target.offset.spec_norm_squared() < reach * reach
}

/// The heading fits: it lies in the exit deadband.
pub open spec fn is_aligned(target: Target, config: ApproachConfig) -> bool {
    let d = target.heading@;
    let limit = config.exit_angle@;
    match config.deadband {
        Deadband::Symmetric => magnitude(d) < limit,
        Deadband::SignCrossing => {
            ||| target.offset.y >= 0 && -limit < d < 0
            ||| target.offset.y < 0 && 0 <= d < limit
        },
    }
}

/// The turn rate while turning on the spot: a quarter turn against the
/// heading error.
pub open spec fn pivot_turn(target: Target) -> int {
    -sign_of(target.heading@) * QUARTER_TURN
}

/// The forward speed that distance and heading error call for, capped at
/// full speed.
pub open spec fn blended_speed(target: Target, config: ApproachConfig) -> int {
    let distance = floor_sqrt(target.offset.spec_norm_squared());
    let weight = 2 * HALF_TURN - magnitude(target.heading@);
    let raw = match config.blend {
        SpeedBlend::HeadingWeighted => weight * distance / (HALF_TURN as int),
        SpeedBlend::HalfDistance => distance / 2,
    };
    if raw < UNIT {
        raw
    } else {
        UNIT as int
    }
}

/// The target lies behind the robot and near enough to back up to.
pub open spec fn backs_up(target: Target, radius: int, config: ApproachConfig) -> bool {
    &&& 1000 * target.offset.x > -(radius * config.rear_reach_permille)
    &&& magnitude(target.bearing@) > config.rear_bearing@
}

/// The forward speed far from the target: negative when backing up to a
/// target behind.
pub open spec fn approach_speed(target: Target, radius: int, config: ApproachConfig) -> int {
    if backs_up(target, radius, config) {
        blended_speed(target, config) * sign_of(target.offset.x as int)
    } else {
        blended_speed(target, config)
    }
}

/// The steering angle far from the target: against the bearing, or, when
/// backing up, what is left of it to a half turn.
pub open spec fn steering(target: Target, radius: int, config: ApproachConfig) -> int {
    let dir = -target.bearing@;
    if backs_up(target, radius, config) {
        sign_of(dir) * HALF_TURN - dir
    } else {
        dir
    }
}

/// `a` held to a quarter turn in either sense.
pub open spec fn clamp_turn(a: int) -> int {
    if a < -QUARTER_TURN {
        -QUARTER_TURN as int
    } else if a > QUARTER_TURN {
        QUARTER_TURN as int
    } else {
        a
    }
}

/// The turn rate far from the target.
pub open spec fn approach_turn(target: Target, radius: int, config: ApproachConfig) -> int {
    let turn = clamp_turn(steering(target, radius, config));
    if config.damp_ahead && target.offset.x > UNIT {
        quot(turn * UNIT, target.offset.x as int)
    } else {
        turn
    }
}

/// The command for a target, as speed and turn rate, or nothing when the
/// robot has arrived.
pub open spec fn spec_goto(target: Target, radius: int, config: ApproachConfig) -> Option<(int, int)> {
    if is_close(target, radius, config) {
        if is_aligned(target, config) {
            None
        } else {
            Some((0, pivot_turn(target)))
        }
    } else {
        Some((approach_speed(target, radius, config), approach_turn(target, radius, config)))
    }
}

/// Decides the motion command for this cycle.
///
/// Inside the closing radius the robot is done when its heading fits, and
/// otherwise turns on the spot at the full rate against the heading error.
/// Outside it drives at the blended speed and steers against the bearing,
/// held to a quarter turn; a target close behind is backed up to instead.
pub fn goto(target: &Target, light_radius: u32, config: &ApproachConfig) -> (command: Option<Command>)
    ensures
        command is None <==> is_close(*target, light_radius as int, *config)
            && is_aligned(*target, *config),
        command matches Some(c) ==> {
            &&& spec_goto(*target, light_radius as int, *config)
                == Some((c.speed as int, c.turn as int))
            &&& -UNIT <= c.speed <= UNIT
            &&& -QUARTER_TURN <= c.turn <= QUARTER_TURN
        },
{
    let x: i32 = target.offset.x;
    let y: i32 = target.offset.y;
    let d: i32 = target.heading.units();
    let bearing: i32 = target.bearing.units();
    let limit: i32 = config.exit_angle.units();
    let far_back: i32 = config.rear_bearing.units();
    let l: u64 = target.offset.norm_squared();
    proof {
        lemma_reach_bound(light_radius as int, config.closing_permille as int);
        lemma_reach_bound(light_radius as int, config.rear_reach_permille as int);
    }
    let reach: u128 = (light_radius as u128) * (config.closing_permille as u128);
    proof {
        assert(reach * reach <= 0x1_0000_0000_0000 * 0x1_0000_0000_0000) by (nonlinear_arith)
            requires
                0 <= reach <= 0x1_0000_0000_0000,
        ;
    }
    if 1_000_000 * (l as u128) < reach * reach {
        let aligned: bool = match config.deadband {
            Deadband::Symmetric => (if d < 0 { -d } else { d }) < limit,
            Deadband::SignCrossing => {
                (y >= 0 && -limit < d && d < 0) || (y < 0 && 0 <= d && d < limit)
            },
        };
        if aligned {
            None
        } else {
            Some(Command { speed: 0, turn: if d < 0 { QUARTER_TURN } else { -QUARTER_TURN } })
        }
    } else {
        let distance: u64 = isqrt(l as u128);
        proof {
            if distance >= 0x1_0000_0000 {
                lemma_square_monotone(0x1_0000_0000, distance as int);
            }
        }
        let weight: u64 = (2 * HALF_TURN - (if d < 0 { -d } else { d })) as u64;
        let raw: u64 = match config.blend {
            SpeedBlend::HeadingWeighted => {
                proof {
                    assert(weight * distance <= 3_600_000 * 0x1_0000_0000) by (nonlinear_arith)
                        requires
                            0 <= weight <= 3_600_000,
                            0 <= distance <= 0x1_0000_0000,
                    ;
                }
                weight * distance / (HALF_TURN as u64)
            },
            SpeedBlend::HalfDistance => distance / 2,
        };
        let forward: i32 = if raw < UNIT as u64 { raw as i32 } else { UNIT };
        assert(forward == blended_speed(*target, *config));
        let dir: i32 = -bearing;
        let rear_reach: i64 = (light_radius as i64) * (config.rear_reach_permille as i64);
        let behind: bool = 1000 * (x as i64) > -rear_reach
            && (if dir < 0 { -dir } else { dir }) > far_back;
        assert(behind == backs_up(*target, light_radius as int, *config));
        let speed: i32 = if behind && x < 0 { -forward } else { forward };
        assert(speed == approach_speed(*target, light_radius as int, *config)) by {
            let sign: int = sign_of(x as int);
            assert(forward * sign == (if x < 0 { -forward } else { forward as int }))
                by (nonlinear_arith)
                requires
                    sign == (if x < 0 { -1int } else { 1int }),
            ;
        }
        let steer: i32 = if behind {
            (if dir < 0 { -HALF_TURN } else { HALF_TURN }) - dir
        } else {
            dir
        };
        let held: i32 = if steer < -QUARTER_TURN {
            -QUARTER_TURN
        } else if steer > QUARTER_TURN {
            QUARTER_TURN
        } else {
            steer
        };
        assert(steer == steering(*target, light_radius as int, *config));
        assert(held == clamp_turn(steer as int));
        let turn: i32 = if config.damp_ahead && x > UNIT {
            proof {
                lemma_damped_turn(held as int, x as int);
            }
            ((held as i64) * (UNIT as i64) / (x as i64)) as i32
        } else {
            held
        };
        assert(turn == approach_turn(*target, light_radius as int, *config));
        Some(Command { speed, turn })
    }
}

/// A radius scaled by thousandths fits in 48 bits.
proof fn lemma_reach_bound(radius: int, permille: int)
    requires
        0 <= radius <= 0xffff_ffff,
        0 <= permille <= 0xffff,
    ensures
        0 <= radius * permille <= 0x1_0000_0000_0000,
{
    assert(0 <= radius * permille <= 0x1_0000_0000_0000) by (nonlinear_arith)
        requires
            0 <= radius <= 0xffff_ffff,
            0 <= permille <= 0xffff,
    ;
}

/// Damping never makes a turn rate larger.
proof fn lemma_damped_turn(turn: int, ahead: int)
    requires
        ahead >= UNIT,
    ensures
        magnitude(quot(turn * UNIT, ahead)) <= magnitude(turn),
        turn >= 0 ==> quot(turn * UNIT, ahead) >= 0,
        turn <= 0 ==> quot(turn * UNIT, ahead) <= 0,
{
    let m: int = magnitude(turn);
    let q: int = (m * UNIT) / ahead;
    assert(m * UNIT <= m * ahead) by (nonlinear_arith)
        requires
            0 <= m,
            UNIT <= ahead,
    ;
    assert(0 <= q <= m) by (nonlinear_arith)
        requires
            q == (m * UNIT) / ahead,
            0 <= m * UNIT <= m * ahead,
            0 < ahead,
    ;
    if turn < 0 {
        assert(-(turn * UNIT) == m * UNIT) by (nonlinear_arith)
            requires
                m == -turn,
        ;
    }
}

/// The robot has arrived exactly when the target lies strictly inside the
/// closing radius and the heading lies in the exit deadband. The answer
/// depends on nothing but the target, the radius and the thresholds, so a
/// target inside both thresholds is never answered by a turn on the spot.
pub proof fn lemma_done_inside_both_thresholds(target: Target, radius: int, config: ApproachConfig)
    requires
        target.wf(),
        config.wf(),
    ensures
        spec_goto(target, radius, config) is None <==> is_close(target, radius, config)
            && is_aligned(target, config),
        is_close(target, radius, config) && !is_aligned(target, config) ==> spec_goto(
            target,
            radius,
            config,
        ) == Some((0int, pivot_turn(target))),
{
}

/// A target straight ahead, at least two units away and outside the closing
/// radius, is driven at with full speed and no turn, whatever heading is asked
/// for at the target.
pub proof fn lemma_far_ahead_is_full_speed_straight(
    target: Target,
    radius: int,
    config: ApproachConfig,
)
    requires
        target.wf(),
        config.wf(),
        target.offset.y == 0,
        target.offset.x >= 2 * UNIT,
        !is_close(target, radius, config),
    ensures
        spec_goto(target, radius, config) == Some((UNIT as int, 0int)),
{
    let x: int = target.offset.x as int;
    let l: int = target.offset.spec_norm_squared();
    assert(l == x * x) by (nonlinear_arith)
        requires
            l == x * x + target.offset.y * target.offset.y,
            target.offset.y == 0,
    ;
    lemma_floor_sqrt_of_square(x);
    let distance: int = floor_sqrt(l);
    let weight: int = 2 * HALF_TURN - magnitude(target.heading@);
    assert(weight * distance / (HALF_TURN as int) >= UNIT) by (nonlinear_arith)
        requires
            weight >= HALF_TURN,
            distance >= 2 * UNIT,
            HALF_TURN > 0,
            UNIT > 0,
    ;
    assert(quot(0 * UNIT, x) == 0) by (nonlinear_arith)
        requires
            x > 0,
    ;
}

/// A target behind the robot, outside the closing radius but within the rear
/// reach and with a bearing beyond the rear threshold, is backed up to: the
/// speed is the blended speed in reverse, and the robot steers by what is
/// left of the bearing to a half turn, held to a quarter turn. The speed is
/// negative unless it rounds to nothing, which the half-distance blend does
/// to a target less than two counts away.
pub proof fn lemma_target_behind_is_backed_up_to(
    target: Target,
    radius: int,
    config: ApproachConfig,
)
    requires
        target.wf(),
        config.wf(),
        target.offset.x < 0,
        backs_up(target, radius, config),
        !is_close(target, radius, config),
        config.blend == SpeedBlend::HalfDistance ==> target.offset.spec_norm_squared() >= 4,
    ensures
        spec_goto(target, radius, config) matches Some(c) && c.0 < 0 && c.0 == -blended_speed(
            target,
            config,
        ) && c.1 == clamp_turn(sign_of(-target.bearing@) * HALF_TURN + target.bearing@),
{
    let x: int = target.offset.x as int;
    let l: int = target.offset.spec_norm_squared();
    assert(l >= 1) by (nonlinear_arith)
        requires
            l == x * x + target.offset.y * target.offset.y,
            x <= -1,
    ;
    lemma_floor_sqrt_of_square(1);
    lemma_floor_sqrt_monotone(1, l);
    if l >= 4 {
        lemma_floor_sqrt_of_square(2);
        lemma_floor_sqrt_monotone(4, l);
    }
    let distance: int = floor_sqrt(l);
    let weight: int = 2 * HALF_TURN - magnitude(target.heading@);
    assert(weight * distance / (HALF_TURN as int) >= 1) by (nonlinear_arith)
        requires
            weight >= HALF_TURN,
            distance >= 1,
            HALF_TURN > 0,
    ;
    let forward: int = blended_speed(target, config);
    assert(forward >= 1);
    assert(forward * sign_of(x) == -forward) by (nonlinear_arith)
        requires
            sign_of(x) == -1,
    ;
}

} // verus!
