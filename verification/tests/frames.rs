use nalgebra::{Isometry2, Point2, Vector2};
use spot_guidance::angle::{Angle, HALF_TURN, QUARTER_TURN};
use spot_guidance::approach::{goto, ApproachConfig, Command, Deadband, Target};
use spot_guidance::fixed::UNIT;
use spot_guidance::geometry::{Crossing, Pose, Vec2};
use spot_guidance::track::{correction, engage, LOOKAHEAD};

fn counts(length: f64) -> i32 {
    (length * UNIT as f64).round() as i32
}

fn angle_counts(radians: f64) -> Angle {
    let units = (radians / std::f64::consts::PI * HALF_TURN as f64).round() as i32;
    Angle::new(units.clamp(-HALF_TURN, HALF_TURN)).unwrap()
}

fn angle_of(c: Crossing) -> Angle {
    angle_counts((c.y as f64).atan2(c.x as f64))
}

fn in_spot_frame(samples: &[Isometry2<f64>], robot: &Isometry2<f64>, radius: f64) -> Vec<Pose> {
    let local = (robot * Isometry2::new(Vector2::new(radius, 0.0), 0.0)).inverse();
    let mut out = Vec::new();
    for sample in samples {
        let seen = local * sample;
        let heading = seen.rotation.complex();
        out.push(Pose {
            position: Vec2 { x: counts(seen.translation.vector.x), y: counts(seen.translation.vector.y) },
            direction: Vec2 { x: counts(heading.re), y: counts(heading.im) },
        });
    }
    out
}

fn follow(samples: &[Isometry2<f64>], robot: &Isometry2<f64>, radius: f64) -> Option<(usize, i32)> {
    let seen = in_spot_frame(samples, robot, radius);
    let found = engage(&seen, counts(radius) as u32, LOOKAHEAD)?;
    Some((found.index, correction(angle_of(found.entry), angle_of(found.exit)).units()))
}

fn approach(goal: &Isometry2<f64>, radius: f64, config: &ApproachConfig) -> Option<Command> {
    let stand = goal * Isometry2::new(Vector2::new(-radius, 0.0), 0.0);
    let p = stand.translation.vector;
    let offset = Vec2 { x: counts(p.x), y: counts(p.y) };
    let target = Target {
        offset,
        heading: angle_counts(stand.rotation.angle()),
        bearing: angle_counts((offset.y as f64).atan2(offset.x as f64)),
    };
    assert!(target.is_consistent());
    goto(&target, counts(radius) as u32, config)
}

fn arc(side: f64) -> Vec<Isometry2<f64>> {
    let mut out = Vec::new();
    let mut k: u32 = 0;
    while k < 30 {
        let turned = 0.05 * k as f64;
        out.push(Isometry2::new(
            Vector2::new(turned.sin(), side * (1.0 - turned.cos())),
            side * turned,
        ));
        k += 1;
    }
    out
}

#[test]
fn straight_track_ahead_needs_no_correction() {
    let mut samples = Vec::new();
    let mut k: u32 = 0;
    while k < 16 {
        samples.push(Isometry2::new(Vector2::new(0.1 * k as f64 - 0.15, 0.0), 0.0));
        k += 1;
    }
    assert_eq!(follow(&samples, &Isometry2::identity(), 0.5), Some((2, 0)));
}

#[test]
fn straight_track_ahead_of_a_turned_robot_needs_no_correction() {
    let robot = Isometry2::new(Vector2::new(2.0, -1.0), 0.7);
    let mut samples = Vec::new();
    let mut k: u32 = 0;
    while k < 16 {
        let along = robot * Point2::new(0.1 * k as f64 - 0.15, 0.0);
        samples.push(Isometry2::new(along.coords, 0.7));
        k += 1;
    }
    let (index, turn) = follow(&samples, &robot, 0.5).unwrap();
    assert_eq!(index, 2);
    assert!(turn.abs() <= 2);
}

#[test]
fn track_curving_left_is_answered_by_a_negative_correction() {
    let (index, turn) = follow(&arc(1.0), &Isometry2::identity(), 0.5).unwrap();
    assert_eq!(index, 1);
    assert_eq!(turn, -264_721);
    assert!(-QUARTER_TURN <= turn && turn < 0);
}

#[test]
fn track_curving_right_is_answered_by_a_positive_correction() {
    let (index, turn) = follow(&arc(-1.0), &Isometry2::identity(), 0.5).unwrap();
    assert_eq!(index, 1);
    assert_eq!(turn, 264_721);
    assert!(0 < turn && turn <= QUARTER_TURN);
}

#[test]
fn track_away_from_the_spot_gives_no_signal() {
    let mut samples = Vec::new();
    let mut k: u32 = 0;
    while k < 30 {
        samples.push(Isometry2::new(Vector2::new(0.1 * k as f64, 0.6), 0.0));
        k += 1;
    }
    assert_eq!(follow(&samples, &Isometry2::identity(), 0.5), None);
}

#[test]
fn goal_under_the_spot_with_fitting_heading_is_reached() {
    let mut config = ApproachConfig::default();
    config.deadband = Deadband::Symmetric;
    let goal = Isometry2::new(Vector2::new(0.1, 0.0), 0.0);
    assert_eq!(approach(&goal, 0.1, &config), None);
    let goal = Isometry2::new(Vector2::new(0.12, 0.03), 0.3);
    assert_eq!(approach(&goal, 0.1, &config), None);
}

#[test]
fn goal_at_the_robot_itself_is_one_radius_behind_the_standing_point() {
    let config = ApproachConfig::default();
    let command = approach(&Isometry2::identity(), 0.1, &config).unwrap();
    assert_eq!(command.speed, 200_000);
    assert_eq!(command.turn.abs(), QUARTER_TURN);
}

#[test]
fn goal_far_ahead_is_driven_at_with_full_speed() {
    let config = ApproachConfig::default();
    let goal = Isometry2::new(Vector2::new(5.0, 0.0), 0.0);
    assert_eq!(approach(&goal, 0.5, &config), Some(Command { speed: UNIT, turn: 0 }));
}

#[test]
fn goal_close_behind_is_backed_up_to() {
    let mut config = ApproachConfig::default();
    config.rear_reach_permille = 1500;
    let goal = Isometry2::new(Vector2::new(-0.02, 0.01), 0.0);
    let command = approach(&goal, 0.1, &config).unwrap();
    assert_eq!(command, Command { speed: -240_830, turn: -47_636 });
}

#[test]
fn goal_beside_and_just_behind_the_standing_point_is_backed_up_to() {
    let config = ApproachConfig::default();
    let goal = Isometry2::new(Vector2::new(0.6, 2.0), 0.0);
    let command = approach(&goal, 1.0, &config).unwrap();
    assert_eq!(command, Command { speed: -UNIT, turn: -786_901 });
    let turn = command.turn as f64 / HALF_TURN as f64 * std::f64::consts::PI;
    assert!((turn + 1.3734).abs() <= 1e-3);
}
