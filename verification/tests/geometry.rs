use spot_guidance::geometry::{intersection, Crossing, Pose, Root, Vec2};

fn pose(x: i32, y: i32, dx: i32, dy: i32) -> Pose {
    Pose { position: Vec2 { x, y }, direction: Vec2 { x: dx, y: dy } }
}

fn off_circle(c: Crossing, radius: i128) -> i128 {
    let x = c.x as i128;
    let y = c.y as i128;
    x * x + y * y - radius * radius
}

#[test]
fn dot_and_norm_of_small_vectors() {
    let a = Vec2 { x: 3, y: -4 };
    let b = Vec2 { x: -2, y: 5 };
    assert_eq!(a.dot(&b), -26);
    assert_eq!(b.dot(&a), -26);
    assert_eq!(a.norm_squared(), 25);
    assert_eq!(Vec2 { x: 0, y: 0 }.norm_squared(), 0);
}

#[test]
fn dot_and_norm_of_extreme_vectors() {
    let a = Vec2 { x: i32::MIN, y: i32::MIN };
    assert_eq!(a.norm_squared(), 1u64 << 63);
    assert_eq!(a.dot(&a), 1i128 << 63);
    let b = Vec2 { x: i32::MAX, y: i32::MIN };
    assert_eq!(a.dot(&b), (i32::MIN as i128) * (i32::MAX as i128) + (1i128 << 62));
}

#[test]
fn inside_is_strict() {
    let p = Vec2 { x: 300_000, y: 400_000 };
    assert!(p.inside(500_001));
    assert!(!p.inside(500_000));
    assert!(!p.inside(499_999));
    assert!(!Vec2 { x: 0, y: 0 }.inside(0));
    assert!(Vec2 { x: 0, y: 0 }.inside(1));
}

#[test]
fn intersection_along_the_axis() {
    let p = pose(-400_000, 0, 1_000_000, 0);
    assert_eq!(intersection(&p, 250_000_000_000, Root::Near), Crossing { x: -500_000, y: 0 });
    assert_eq!(intersection(&p, 250_000_000_000, Root::Far), Crossing { x: 500_000, y: 0 });
}

#[test]
fn intersection_through_the_centre() {
    let p = pose(0, 0, 600_000, 800_000);
    assert_eq!(intersection(&p, 250_000_000_000, Root::Far), Crossing { x: 300_000, y: 400_000 });
    assert_eq!(intersection(&p, 250_000_000_000, Root::Near), Crossing { x: -300_000, y: -400_000 });
}

#[test]
fn intersection_of_an_oblique_ray() {
    let p = pose(100_000, 200_000, 707_107, 707_107);
    assert_eq!(intersection(&p, 250_000_000_000, Root::Far), Crossing { x: 299_999, y: 399_999 });
    assert_eq!(intersection(&p, 250_000_000_000, Root::Near), Crossing { x: -399_999, y: -299_999 });
}

#[test]
fn intersection_from_a_pose_on_the_circle() {
    let p = pose(300_000, 400_000, 0, 1_000_000);
    let near = intersection(&p, 250_000_000_000, Root::Near);
    let far = intersection(&p, 250_000_000_000, Root::Far);
    assert_eq!(far, Crossing { x: 300_000, y: 400_000 });
    assert_eq!(near, Crossing { x: 300_000, y: -400_000 });
    assert_ne!(near, far);
    assert_eq!(off_circle(near, 500_000), 0);
    assert_eq!(off_circle(far, 500_000), 0);
}

#[test]
fn intersection_of_a_tangent_ray_is_one_point() {
    let p = pose(500_000, 0, 0, 1_000_000);
    assert_eq!(intersection(&p, 250_000_000_000, Root::Near), Crossing { x: 500_000, y: 0 });
    assert_eq!(intersection(&p, 250_000_000_000, Root::Far), Crossing { x: 500_000, y: 0 });
}

#[test]
fn crossings_lie_on_the_circle_within_rounding() {
    let radius: i128 = 500_000;
    let slack: i128 = 3 * (2 * radius + 3);
    let mut step: i32 = 0;
    while step < 360 {
        let heading = (step as f64).to_radians();
        let dx = (heading.cos() * 1e6).round() as i32;
        let dy = (heading.sin() * 1e6).round() as i32;
        let mut x: i32 = -450_000;
        while x <= 450_000 {
            let p = pose(x, 150_000, dx, dy);
            let near = intersection(&p, (radius * radius) as u64, Root::Near);
            let far = intersection(&p, (radius * radius) as u64, Root::Far);
            assert!(off_circle(near, radius).abs() <= slack);
            assert!(off_circle(far, radius).abs() <= slack);
            assert_ne!(near, far);
            x += 90_000;
        }
        step += 7;
    }
}

#[test]
fn near_crossing_is_behind_and_far_crossing_ahead() {
    let p = pose(100_000, -200_000, 600_000, -800_000);
    let near = intersection(&p, 160_000_000_000, Root::Near);
    let far = intersection(&p, 160_000_000_000, Root::Far);
    let ahead = |c: Crossing| (c.x - 100_000) * 600_000 + (c.y + 200_000) * -800_000;
    assert!(ahead(near) < 0);
    assert!(ahead(far) > 0);
}

#[test]
fn intersection_takes_the_largest_inputs() {
    let p = pose(i32::MIN, i32::MIN, i32::MAX, i32::MIN);
    let near = intersection(&p, u64::MAX, Root::Near);
    let far = intersection(&p, u64::MAX, Root::Far);
    assert_ne!(near, far);
    let q = pose(i32::MAX, i32::MIN, i32::MIN, i32::MIN);
    let near = intersection(&q, 1u64 << 63, Root::Near);
    let far = intersection(&q, 1u64 << 63, Root::Far);
    assert_ne!(near, far);
}

#[test]
fn exit_from_a_pose_on_the_circle_heading_outward_is_the_pose() {
    let p = pose(300_000, 400_000, 600_000, 800_000);
    assert_eq!(intersection(&p, 250_000_000_000, Root::Far), Crossing { x: 300_000, y: 400_000 });
    assert_eq!(intersection(&p, 250_000_000_000, Root::Near), Crossing { x: -300_000, y: -400_000 });
}

#[test]
fn entry_from_a_pose_on_the_circle_heading_inward_is_the_pose() {
    let p = pose(300_000, 400_000, -600_000, -800_000);
    assert_eq!(intersection(&p, 250_000_000_000, Root::Near), Crossing { x: 300_000, y: 400_000 });
    assert_eq!(intersection(&p, 250_000_000_000, Root::Far), Crossing { x: -300_000, y: -400_000 });
}

#[test]
fn crossings_from_the_circle_are_the_pose_and_its_mirror_point() {
    let radius: i128 = 500_000;
    let longest: i128 = 2 * radius + 2;
    let slack: i128 = 6 * longest + 2 * (400_000 + 300_000) + 2 + 2 * longest * longest / 1_000_000 + 1;
    let mut step: i32 = 0;
    while step < 360 {
        let heading = (step as f64).to_radians();
        let dx = (heading.cos() * 1e6).round() as i32;
        let dy = (heading.sin() * 1e6).round() as i32;
        let p = pose(-400_000, 300_000, dx, dy);
        let outward = -400_000i64 * dx as i64 + 300_000i64 * dy as i64;
        let near = intersection(&p, (radius * radius) as u64, Root::Near);
        let far = intersection(&p, (radius * radius) as u64, Root::Far);
        let here = Crossing { x: -400_000, y: 300_000 };
        if outward > 0 {
            assert_eq!(far, here);
            assert_ne!(near, here);
        }
        if outward < 0 {
            assert_eq!(near, here);
            assert_ne!(far, here);
        }
        assert!(off_circle(near, radius).abs() <= slack);
        assert!(off_circle(far, radius).abs() <= slack);
        step += 11;
    }
}

#[test]
fn crossings_of_a_ray_that_all_but_touches_the_circle_fall_together() {
    let p = pose(300_000, 400_000, -799_999, 600_001);
    let near = intersection(&p, 250_000_000_000, Root::Near);
    let far = intersection(&p, 250_000_000_000, Root::Far);
    assert_eq!(near, Crossing { x: 300_000, y: 400_000 });
    assert_eq!(far, Crossing { x: 300_000, y: 400_000 });
}
