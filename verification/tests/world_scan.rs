use raytracer::distance::key_of_bits;
use raytracer::estimator::{ray_color, Bounce, Radiance};
use raytracer::interval::Interval;
use raytracer::world::{nearest_hit, Crossing, Hit};

fn key(t: f64) -> u64 {
    key_of_bits(t.to_bits())
}

/// The two distances at which a ray meets a sphere, if its line meets it.
fn sphere_crossing(origin: [f64; 3], direction: [f64; 3], center: [f64; 3], radius: f64) -> Option<Crossing> {
    let oc = [origin[0] - center[0], origin[1] - center[1], origin[2] - center[2]];
    let a = direction[0] * direction[0] + direction[1] * direction[1] + direction[2] * direction[2];
    let half_b = oc[0] * direction[0] + oc[1] * direction[1] + oc[2] * direction[2];
    let c = oc[0] * oc[0] + oc[1] * oc[1] + oc[2] * oc[2] - radius * radius;
    let discriminant = half_b * half_b - a * c;
    if discriminant < 0.0 {
        return None;
    }
    let root = discriminant.sqrt();
    Crossing::from_bits(((-half_b - root) / a).to_bits(), ((-half_b + root) / a).to_bits())
}

#[test]
fn interval_holds_its_lower_end_only() {
    let iv = Interval::new(5, 9);
    assert!(iv.contains(5));
    assert!(iv.contains(8));
    assert!(!iv.contains(9));
    assert!(!iv.contains(4));
    assert_eq!(iv.up_to(7), Interval::new(5, 7));
}

#[test]
fn pick_prefers_the_near_distance() {
    let c = Crossing::new(10, 20).unwrap();
    assert_eq!(c.pick(Interval::new(1, 100)), Some(10));
}

#[test]
fn pick_falls_back_to_the_far_distance() {
    let c = Crossing::new(10, 20).unwrap();
    assert_eq!(c.pick(Interval::new(11, 100)), Some(20));
    assert_eq!(c.pick(Interval::new(10, 100)), Some(10));
}

#[test]
fn pick_rejects_both_distances_outside() {
    let c = Crossing::new(10, 20).unwrap();
    assert_eq!(c.pick(Interval::new(21, 100)), None);
    assert_eq!(c.pick(Interval::new(11, 20)), None);
    assert_eq!(c.pick(Interval::new(0, 10)), None);
}

#[test]
fn empty_world_has_no_hit() {
    assert_eq!(nearest_hit(&Vec::new(), Interval::new(0, u64::MAX)), None);
}

#[test]
fn world_of_misses_has_no_hit() {
    let members = vec![None, Crossing::new(200, 300), None];
    assert_eq!(nearest_hit(&members, Interval::new(1, 100)), None);
}

#[test]
fn nearest_member_wins() {
    let members = vec![
        Crossing::new(10, 20),
        None,
        Crossing::new(3, 7),
        Crossing::new(1, 7),
    ];
    assert_eq!(
        nearest_hit(&members, Interval::new(2, 100)),
        Some(Hit { index: 2, key: 3 })
    );
}

#[test]
fn far_distance_of_one_member_can_beat_near_of_another() {
    let members = vec![Crossing::new(10, 20), Crossing::new(1, 7)];
    assert_eq!(
        nearest_hit(&members, Interval::new(2, 100)),
        Some(Hit { index: 1, key: 7 })
    );
}

#[test]
fn first_of_equal_distances_wins() {
    let members = vec![Crossing::new(5, 9), Crossing::new(5, 6)];
    assert_eq!(
        nearest_hit(&members, Interval::new(0, 100)),
        Some(Hit { index: 0, key: 5 })
    );
}

#[test]
fn nearest_hit_is_the_same_in_every_order() {
    let a = Crossing::new(40, 50);
    let b = Crossing::new(12, 30);
    let c = Crossing::new(3, 25);
    let d = None;
    let iv = Interval::new(4, 1000);
    let orders = [
        vec![a, b, c, d],
        vec![d, c, b, a],
        vec![b, a, d, c],
        vec![c, d, a, b],
        vec![b, c, a, d],
        vec![a, d, b, c],
    ];
    for members in orders.iter() {
        let hit = nearest_hit(members, iv).unwrap();
        assert_eq!(hit.key, 12);
        assert_eq!(members[hit.index], b);
    }
}

#[test]
fn ray_at_the_center_hits_at_distance_less_radius() {
    let origin = [0.0, 0.0, 3.0];
    let center = [0.0, 0.0, -1.0];
    let direction = [0.0, 0.0, -1.0];
    let crossing = sphere_crossing(origin, direction, center, 0.5).unwrap();
    let picked = crossing.pick(Interval::new(key(0.001), key(f64::INFINITY)));
    assert_eq!(picked, Some(key(3.5)));
    assert_eq!(crossing.far, key(4.5));
}

#[test]
fn ray_from_inside_hits_the_far_side() {
    let crossing = sphere_crossing([0.0, 0.0, -1.0], [0.0, 0.0, -1.0], [0.0, 0.0, -1.0], 0.5).unwrap();
    assert_eq!(crossing.near, key(-0.5));
    let picked = crossing.pick(Interval::new(key(0.001), key(f64::INFINITY)));
    assert_eq!(picked, Some(key(0.5)));
}

#[test]
fn nearest_of_spheres_in_a_row() {
    let origin = [0.0, 0.0, 0.0];
    let direction = [0.0, 0.0, -1.0];
    let centers = [-9.0, -3.0, -6.0, 4.0];
    let iv = Interval::new(key(0.001), key(f64::INFINITY));
    let members: Vec<Option<Crossing>> = centers
        .iter()
        .map(|z| sphere_crossing(origin, direction, [0.0, 0.0, *z], 1.0))
        .collect();
    assert_eq!(nearest_hit(&members, iv), Some(Hit { index: 1, key: key(2.0) }));
    let turned: Vec<Option<Crossing>> = members.iter().rev().cloned().collect();
    assert_eq!(nearest_hit(&turned, iv), Some(Hit { index: 2, key: key(2.0) }));
}

#[test]
fn ray_beside_the_sphere_has_no_crossing() {
    assert_eq!(sphere_crossing([0.0, 2.0, 0.0], [0.0, 0.0, -1.0], [0.0, 0.0, -1.0], 0.5), None);
}

/// The direction of the ray through the center of pixel (x, y) of a
/// `width` by `height` image, from a camera at the origin that looks down
/// the negative z axis at a viewport of height 2 at distance 1.
fn pixel_direction(x: usize, y: usize, width: usize, height: usize) -> [f64; 3] {
    let vp_height = 2.0;
    let vp_width = vp_height * (width as f64 / height as f64);
    let du = vp_width / width as f64;
    let dv = -vp_height / height as f64;
    let left = -vp_width / 2.0;
    let top = vp_height / 2.0;
    [left + du * (x as f64 + 0.5), top + dv * (y as f64 + 0.5), -1.0]
}

#[test]
fn single_sphere_is_hit_at_the_center_and_missed_at_a_corner() {
    let origin = [0.0, 0.0, 0.0];
    let center = [0.0, 0.0, -1.0];
    let iv = Interval::from_bits((0.001f64).to_bits(), f64::INFINITY.to_bits()).unwrap();

    let middle = pixel_direction(50, 25, 101, 51);
    let seen = vec![sphere_crossing(origin, middle, center, 0.5)];
    assert_eq!(nearest_hit(&seen, iv), Some(Hit { index: 0, key: key(0.5) }));
    let path = vec![Bounce::Scattered, Bounce::Miss];
    assert_eq!(ray_color(50, &path), Some(Radiance::Sky { bounces: 1 }));
    assert_ne!(ray_color(50, &path), Some(Radiance::Sky { bounces: 0 }));

    let corner = pixel_direction(0, 0, 101, 51);
    let seen = vec![sphere_crossing(origin, corner, center, 0.5)];
    assert_eq!(nearest_hit(&seen, iv), None);
    assert_eq!(ray_color(50, &vec![Bounce::Miss]), Some(Radiance::Sky { bounces: 0 }));
}

#[test]
fn crossing_wants_its_distances_in_order() {
    assert_eq!(Crossing::new(7, 3), None);
    let same = Crossing::new(4, 4).unwrap();
    assert_eq!((same.near, same.far), (4, 4));
    let plain = Crossing::new(3, 7).unwrap();
    assert_eq!((plain.near, plain.far), (3, 7));
}
