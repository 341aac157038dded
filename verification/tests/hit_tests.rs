use raytracer::hit::{nearest_hit, HitRecord, Roots};
use raytracer::ordinal::{ordinal, pattern};

fn roots(near: i64, far: i64) -> Option<Roots> {
    let made = Roots::new(near, far);
    assert!(made.is_some());
    made
}

fn hit_at(t: i64, object: usize) -> Option<HitRecord> {
    Some(HitRecord { t, object })
}

#[test]
fn crossings_out_of_order_are_refused() {
    assert!(Roots::new(5, 4).is_none());
    assert!(Roots::new(0, -1).is_none());
    assert!(Roots::new(i64::MAX, i64::MIN).is_none());
}

#[test]
fn crossings_in_order_are_taken() {
    assert!(Roots::new(4, 5).is_some());
    assert!(Roots::new(4, 4).is_some());
    assert!(Roots::new(i64::MIN, i64::MAX).is_some());
}

#[test]
fn the_nearer_crossing_is_the_hit() {
    let r = Roots::new(5, 9).unwrap();
    assert_eq!(r.hit(0, 100), Some(5));
    assert_eq!(r.hit(4, 6), Some(5));
}

#[test]
fn the_farther_crossing_is_the_hit_where_the_nearer_lies_outside() {
    let r = Roots::new(-3, 9).unwrap();
    assert_eq!(r.hit(0, 100), Some(9));
    assert_eq!(r.hit(-3, 100), Some(9));
    let r = Roots::new(5, 9).unwrap();
    assert_eq!(r.hit(5, 100), Some(9));
    assert_eq!(r.hit(7, 10), Some(9));
}

#[test]
fn no_crossing_inside_is_no_hit() {
    let r = Roots::new(5, 9).unwrap();
    assert_eq!(r.hit(9, 100), None);
    assert_eq!(r.hit(0, 5), None);
    assert_eq!(r.hit(6, 8), None);
    assert_eq!(r.hit(6, 9), None);
    assert_eq!(r.hit(20, 30), None);
    assert_eq!(r.hit(-30, -20), None);
}

#[test]
fn the_ends_of_the_interval_are_outside() {
    let r = Roots::new(5, 9).unwrap();
    assert_eq!(r.hit(5, 9), None);
    assert_eq!(r.hit(4, 9), Some(5));
    assert_eq!(r.hit(5, 10), Some(9));
}

#[test]
fn an_empty_interval_holds_no_hit() {
    let r = Roots::new(5, 9).unwrap();
    assert_eq!(r.hit(7, 7), None);
    assert_eq!(r.hit(5, 5), None);
    assert_eq!(r.hit(100, 0), None);
    assert_eq!(nearest_hit(&vec![Some(r)], 100, 0), None);
}

#[test]
fn a_surface_that_is_touched_is_hit_where_it_is_touched() {
    let r = Roots::new(6, 6).unwrap();
    assert_eq!(r.hit(0, 100), Some(6));
    assert_eq!(r.hit(6, 100), None);
}

#[test]
fn an_empty_scene_is_not_hit() {
    assert_eq!(nearest_hit(&Vec::new(), 0, 100), None);
}

#[test]
fn a_scene_that_the_ray_passes_by_is_not_hit() {
    assert_eq!(nearest_hit(&vec![None, None, None], 0, 100), None);
    assert_eq!(nearest_hit(&vec![roots(-9, -5), None, roots(100, 200)], 0, 100), None);
}

#[test]
fn the_nearest_object_is_hit() {
    let scene = vec![roots(50, 90), roots(30, 70), None, roots(-20, 40), roots(31, 32)];
    assert_eq!(nearest_hit(&scene, 0, 1000), hit_at(30, 1));
}

#[test]
fn the_nearest_object_is_hit_in_whatever_order_the_objects_stand() {
    let objects = [roots(50, 90), roots(30, 70), roots(-20, 40), None];
    let orders = [
        [0, 1, 2, 3], [0, 1, 3, 2], [0, 2, 1, 3], [0, 2, 3, 1], [0, 3, 1, 2], [0, 3, 2, 1],
        [1, 0, 2, 3], [1, 0, 3, 2], [1, 2, 0, 3], [1, 2, 3, 0], [1, 3, 0, 2], [1, 3, 2, 0],
        [2, 0, 1, 3], [2, 0, 3, 1], [2, 1, 0, 3], [2, 1, 3, 0], [2, 3, 0, 1], [2, 3, 1, 0],
        [3, 0, 1, 2], [3, 0, 2, 1], [3, 1, 0, 2], [3, 1, 2, 0], [3, 2, 0, 1], [3, 2, 1, 0],
    ];
    for order in orders {
        let scene: Vec<Option<Roots>> = order.iter().map(|&k| objects[k]).collect();
        let place = order.iter().position(|&k| k == 1).unwrap();
        assert_eq!(nearest_hit(&scene, 0, 1000), hit_at(30, place));
    }
}

#[test]
fn of_two_objects_at_one_distance_the_first_is_hit() {
    let scene = vec![roots(50, 90), roots(30, 70), roots(30, 35), roots(10, 30)];
    assert_eq!(nearest_hit(&scene, 20, 1000), hit_at(30, 1));
    let scene = vec![roots(30, 35), roots(30, 70)];
    assert_eq!(nearest_hit(&scene, 0, 1000), hit_at(30, 0));
}

#[test]
fn a_far_crossing_behind_a_nearer_hit_does_not_count() {
    // The ray starts inside the second object, whose far side lies
    // behind the first object.
    let scene = vec![roots(10, 20), roots(-5, 40)];
    assert_eq!(nearest_hit(&scene, 0, 1000), hit_at(10, 0));
    let scene = vec![roots(-5, 40), roots(10, 20)];
    assert_eq!(nearest_hit(&scene, 0, 1000), hit_at(10, 1));
}

#[test]
fn a_far_crossing_before_every_other_hit_counts() {
    let scene = vec![roots(10, 20), roots(-5, 4)];
    assert_eq!(nearest_hit(&scene, 0, 1000), hit_at(4, 1));
}

#[test]
fn the_scene_is_hit_only_inside_the_interval() {
    let scene = vec![roots(50, 90), roots(30, 70), roots(-20, 40)];
    assert_eq!(nearest_hit(&scene, 30, 1000), hit_at(40, 2));
    assert_eq!(nearest_hit(&scene, 40, 1000), hit_at(50, 0));
    assert_eq!(nearest_hit(&scene, 50, 1000), hit_at(70, 1));
    assert_eq!(nearest_hit(&scene, 90, 1000), None);
    assert_eq!(nearest_hit(&scene, 0, 30), None);
    assert_eq!(nearest_hit(&scene, 0, 31), hit_at(30, 1));
}

#[test]
fn the_whole_range_of_distances_is_taken() {
    let scene = vec![roots(i64::MIN + 1, i64::MAX - 1), roots(i64::MIN, i64::MAX)];
    assert_eq!(nearest_hit(&scene, i64::MIN, i64::MAX), hit_at(i64::MIN + 1, 0));
    assert_eq!(nearest_hit(&scene, 0, i64::MAX), hit_at(i64::MAX - 1, 0));
}

// The two crossings of the line `origin + t * direction` and the sphere
// about `center`, as ordinals, where the line meets the sphere.
fn sphere(origin: [f32; 3], direction: [f32; 3], center: [f32; 3], radius: f32) -> Option<Roots> {
    let dot = |a: [f32; 3], b: [f32; 3]| a[0] * b[0] + a[1] * b[1] + a[2] * b[2];
    let oc = [origin[0] - center[0], origin[1] - center[1], origin[2] - center[2]];
    let a = dot(direction, direction);
    let b = dot(oc, direction);
    let c = dot(oc, oc) - radius * radius;
    let discr = b * b - a * c;
    if discr > 0.0 {
        let near = ordinal(((-b - discr.sqrt()) / a).to_bits()).unwrap();
        let far = ordinal(((-b + discr.sqrt()) / a).to_bits()).unwrap();
        Roots::new(near, far)
    } else {
        None
    }
}

fn distance(hit: Option<HitRecord>) -> f32 {
    f32::from_bits(pattern(hit.unwrap().t).unwrap())
}

#[test]
fn a_ray_towards_a_sphere_hits_its_near_side() {
    let origin = [0.0, 0.0, 0.0];
    let direction = [0.0, 0.0, -1.0];
    let center = [0.0, 0.0, -1.0];
    let ball = sphere(origin, direction, center, 0.5);
    let lo = ordinal(0.001f32.to_bits()).unwrap();
    let hi = ordinal(f32::MAX.to_bits()).unwrap();
    let t = f32::from_bits(pattern(ball.unwrap().hit(lo, hi).unwrap()).unwrap());
    assert_eq!(t, 0.5);
    let hit = nearest_hit(&vec![ball], lo, hi);
    assert_eq!(hit.unwrap().object, 0);
    assert_eq!(distance(hit), 0.5);
    // The normal at the hit: from the centre to the point, by the radius.
    let p = [origin[0] + t * direction[0], origin[1] + t * direction[1], origin[2] + t * direction[2]];
    let normal = [(p[0] - center[0]) / 0.5, (p[1] - center[1]) / 0.5, (p[2] - center[2]) / 0.5];
    assert_eq!(normal, [0.0, 0.0, 1.0]);
}

#[test]
fn a_ray_from_inside_a_sphere_hits_its_far_side() {
    let ball = sphere([0.0, 0.0, -1.0], [0.0, 0.0, -1.0], [0.0, 0.0, -1.0], 0.5);
    let lo = ordinal(0.001f32.to_bits()).unwrap();
    let hi = ordinal(f32::MAX.to_bits()).unwrap();
    assert_eq!(distance(nearest_hit(&vec![ball], lo, hi)), 0.5);
}

#[test]
fn a_ray_away_from_a_sphere_misses_it() {
    let ball = sphere([0.0, 0.0, 0.0], [0.0, 0.0, 1.0], [0.0, 0.0, -1.0], 0.5);
    assert!(ball.is_some());
    let lo = ordinal(0.001f32.to_bits()).unwrap();
    let hi = ordinal(f32::MAX.to_bits()).unwrap();
    assert_eq!(nearest_hit(&vec![ball], lo, hi), None);
    let beside = sphere([0.0, 0.0, 0.0], [0.0, 1.0, 0.0], [0.0, 0.0, -1.0], 0.5);
    assert!(beside.is_none());
}

#[test]
fn a_ray_over_the_ground_hits_the_ball_before_the_ground() {
    let origin = [0.0, 0.0, 0.0];
    let ground = |direction| sphere(origin, direction, [0.0, -100.5, -1.0], 100.0);
    let ball = |direction| sphere(origin, direction, [0.0, 0.0, -1.0], 0.5);
    let lo = ordinal(0.001f32.to_bits()).unwrap();
    let hi = ordinal(f32::MAX.to_bits()).unwrap();
    let ahead = [0.0, 0.0, -1.0];
    for scene in [vec![ground(ahead), ball(ahead)], vec![ball(ahead), ground(ahead)]] {
        let hit = nearest_hit(&scene, lo, hi);
        assert_eq!(distance(hit), 0.5);
        assert!(scene[hit.unwrap().object].unwrap().hit(lo, hi) == Some(hit.unwrap().t));
    }
    let down = [0.0, -1.0, -1.0];
    let hit = nearest_hit(&vec![ball(down), ground(down)], lo, hi);
    assert_eq!(hit.unwrap().object, 1);
    assert!(distance(hit) > 0.5 && distance(hit) < 0.51);
    let up = [0.0, 1.0, -1.0];
    assert_eq!(nearest_hit(&vec![ball(up), ground(up)], lo, hi), None);
}
