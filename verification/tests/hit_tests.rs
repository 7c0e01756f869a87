use raytracer::hittables::{
    crossing, hit_record, hittable, hittable_list, hittable_obj, incidence,
};
use raytracer::materials::{lambertian, material, material_trait, metal};
use raytracer::maths::{interval, vec3};
use raytracer::objects::sphere;
use raytracer::scalar::scalar;

type V = (f64, f64, f64);

fn s(x: f64) -> scalar {
    scalar::from_bits(x.to_bits())
}

fn f(x: scalar) -> f64 {
    f64::from_bits(x.to_bits())
}

fn v(a: V) -> vec3 {
    vec3::new(s(a.0), s(a.1), s(a.2))
}

fn back(a: vec3) -> V {
    (f(a.x()), f(a.y()), f(a.z()))
}

fn sub(a: V, b: V) -> V {
    (a.0 - b.0, a.1 - b.1, a.2 - b.2)
}

fn dot(a: V, b: V) -> f64 {
    a.0 * b.0 + a.1 * b.1 + a.2 * b.2
}

fn at(origin: V, direction: V, t: f64) -> V {
    (origin.0 + direction.0 * t, origin.1 + direction.1 * t, origin.2 + direction.2 * t)
}

fn cross_at(origin: V, direction: V, center: V, radius: f64, t: f64) -> crossing {
    let p = at(origin, direction, t);
    let d = sub(p, center);
    let r = radius.recip();
    let n = (d.0 * r, d.1 * r, d.2 * r);
    crossing { t: s(t), p: v(p), outward_normal: v(n), alignment: s(dot(direction, n)) }
}

fn meet(origin: V, direction: V, center: V, radius: f64) -> incidence {
    let oc = sub(origin, center);
    let a = dot(direction, direction);
    let half_b = dot(oc, direction);
    let c = dot(oc, oc) - radius * radius;
    let discriminant = half_b * half_b - a * c;
    let sqrtd = discriminant.sqrt();
    let near = (-half_b - sqrtd) / a;
    let far = near + 2.0 * sqrtd / a;
    incidence {
        discriminant: s(discriminant),
        near: cross_at(origin, direction, center, radius, near),
        far: cross_at(origin, direction, center, radius, far),
    }
}

fn grey() -> material {
    material::lambertian(lambertian::new(v((0.5, 0.5, 0.5))))
}

fn gold() -> material {
    material::metal(metal::new(v((0.8, 0.6, 0.2))))
}

fn ball(center: V, radius: f64, mat: material) -> sphere {
    sphere::new(v(center), s(radius), mat)
}

fn far_range() -> interval {
    interval::new(s(0.001), s(f64::INFINITY))
}

const EYE: V = (0.0, 0.0, 0.0);
const AHEAD: V = (0.0, 0.0, -1.0);

#[test]
fn null_record_is_all_zero() {
    let rec = hit_record::null();
    assert_eq!(back(rec.p), (0.0, 0.0, 0.0));
    assert_eq!(back(rec.normal), (0.0, 0.0, 0.0));
    assert_eq!(f(rec.t), 0.0);
    assert!(!rec.front_face);
    assert_eq!(rec.mat, material::empty());
}

#[test]
fn face_normal_from_outside_is_kept() {
    let mut rec = hit_record::null();
    rec.t = s(4.0);
    rec.set_face_normal(s(-1.0), v((0.0, 0.0, 1.0)));
    assert!(rec.front_face);
    assert_eq!(back(rec.normal), (0.0, 0.0, 1.0));
    assert_eq!(f(rec.t), 4.0);
}

#[test]
fn face_normal_from_inside_is_flipped() {
    let mut rec = hit_record::null();
    rec.set_face_normal(s(0.75), v((0.0, 0.6, -0.8)));
    assert!(!rec.front_face);
    assert_eq!(back(rec.normal), (-0.0, -0.6, 0.8));
}

#[test]
fn face_normal_at_grazing_incidence_is_flipped() {
    let mut rec = hit_record::null();
    rec.set_face_normal(s(0.0), v((1.0, 0.0, 0.0)));
    assert!(!rec.front_face);
    assert_eq!(back(rec.normal), (-1.0, -0.0, -0.0));
    rec.set_face_normal(s(-0.0), v((1.0, 0.0, 0.0)));
    assert!(!rec.front_face);
    rec.set_face_normal(s(f64::NAN), v((1.0, 0.0, 0.0)));
    assert!(!rec.front_face);
    assert_eq!(back(rec.normal), (-1.0, -0.0, -0.0));
}

#[test]
fn sphere_hit_takes_the_near_root() {
    let b = ball((0.0, 0.0, -1.0), 0.5, grey());
    let found = meet(EYE, AHEAD, (0.0, 0.0, -1.0), 0.5);
    let mut rec = hit_record::null();
    assert!(b.hit(&far_range(), &found, &mut rec));
    assert_eq!(f(rec.t), 0.5);
    assert_eq!(back(rec.p), (0.0, 0.0, -0.5));
    assert_eq!(back(rec.normal), (0.0, 0.0, 1.0));
    assert!(rec.front_face);
    assert_eq!(rec.mat, grey());
}

#[test]
fn sphere_hit_from_inside_takes_the_far_root() {
    let b = ball((0.0, 0.0, 0.0), 2.0, gold());
    let found = meet(EYE, AHEAD, (0.0, 0.0, 0.0), 2.0);
    assert_eq!(f(found.near.t), -2.0);
    let mut rec = hit_record::null();
    assert!(b.hit(&far_range(), &found, &mut rec));
    assert_eq!(f(rec.t), 2.0);
    assert_eq!(back(rec.p), (0.0, 0.0, -2.0));
    assert!(!rec.front_face);
    assert_eq!(back(rec.normal), (-0.0, -0.0, 1.0));
    assert_eq!(rec.mat, gold());
}

#[test]
fn sphere_behind_the_ray_is_missed() {
    let b = ball((0.0, 0.0, 3.0), 0.5, grey());
    let found = meet(EYE, AHEAD, (0.0, 0.0, 3.0), 0.5);
    let before = hit_record::null();
    let mut rec = before;
    assert!(!b.hit(&far_range(), &found, &mut rec));
    assert_eq!(rec, before);
}

#[test]
fn sphere_off_the_line_is_missed() {
    let b = ball((0.0, 2.0, -1.0), 0.5, grey());
    let found = meet(EYE, AHEAD, (0.0, 2.0, -1.0), 0.5);
    assert!(f(found.discriminant) < 0.0);
    let mut rec = hit_record::null();
    rec.t = s(7.0);
    assert!(!b.hit(&far_range(), &found, &mut rec));
    assert_eq!(f(rec.t), 7.0);
}

#[test]
fn roots_on_the_bounds_are_out_of_range() {
    let b = ball((0.0, 0.0, -1.0), 0.5, grey());
    let found = meet(EYE, AHEAD, (0.0, 0.0, -1.0), 0.5);
    let mut rec = hit_record::null();
    assert!(!b.hit(&interval::new(s(0.5), s(1.5)), &found, &mut rec));
    assert!(b.hit(&interval::new(s(0.5), s(1.6)), &found, &mut rec));
    assert_eq!(f(rec.t), 1.5);
    assert!(b.hit(&interval::new(s(0.4), s(1.5)), &found, &mut rec));
    assert_eq!(f(rec.t), 0.5);
    assert!(!b.hit(&interval::new(s(0.6), s(1.4)), &found, &mut rec));
    assert!(!b.hit(&interval::empty(), &found, &mut rec));
}

#[test]
fn normals_oppose_the_ray() {
    let centers: Vec<V> =
        vec![(0.0, 0.0, -1.0), (0.2, 0.1, -1.0), (0.0, 0.0, 0.0), (0.3, -0.2, 0.4), (1.0, 0.0, -3.0)];
    let directions: Vec<V> =
        vec![AHEAD, (0.1, 0.05, -1.0), (0.3, -0.1, -0.9), (-0.2, 0.2, -1.0), (0.0, 1.0, 0.0)];
    let mut hits = 0;
    for &c in centers.iter() {
        for &d in directions.iter() {
            let b = ball(c, 0.7, grey());
            let mut rec = hit_record::null();
            if b.hit(&far_range(), &meet(EYE, d, c, 0.7), &mut rec) {
                hits += 1;
                assert!(dot(d, back(rec.normal)) <= 0.0);
                let outward = sub(back(rec.p), c);
                assert_eq!(rec.front_face, dot(d, outward) < 0.0);
            }
        }
    }
    assert!(hits >= 8);
}

#[test]
fn object_dispatches_to_its_sphere() {
    let b = ball((0.0, 0.0, -1.0), 0.5, gold());
    let found = meet(EYE, AHEAD, (0.0, 0.0, -1.0), 0.5);
    let mut direct = hit_record::null();
    let mut through = hit_record::null();
    assert!(b.hit(&far_range(), &found, &mut direct));
    assert!(hittable_obj::sphere(b).hit(&far_range(), &found, &mut through));
    assert_eq!(direct, through);
}

fn scene(balls: &Vec<(V, f64, material)>) -> hittable_list {
    let mut world = hittable_list::new();
    for &(c, r, m) in balls.iter() {
        world.add(hittable_obj::sphere(ball(c, r, m)));
    }
    world
}

fn meet_all(balls: &Vec<(V, f64, material)>, origin: V, direction: V) -> Vec<incidence> {
    balls.iter().map(|&(c, r, _)| meet(origin, direction, c, r)).collect()
}

#[test]
fn empty_scene_is_never_hit() {
    let world = hittable_list::new();
    assert_eq!(world.objects.len(), 0);
    let before = hit_record::null();
    let mut rec = before;
    assert!(!world.hit(&far_range(), &Vec::new(), &mut rec));
    assert_eq!(rec, before);
}

#[test]
fn scene_keeps_objects_in_order() {
    let balls = vec![((0.0, 0.0, -1.0), 0.5, grey()), ((0.0, 0.0, -3.0), 0.5, gold())];
    let world = scene(&balls);
    assert_eq!(world.objects.len(), 2);
    assert_eq!(world.objects[0], hittable_obj::sphere(ball((0.0, 0.0, -1.0), 0.5, grey())));
    assert_eq!(world.objects[1], hittable_obj::sphere(ball((0.0, 0.0, -3.0), 0.5, gold())));
}

#[test]
fn overlapping_spheres_give_the_nearer_hit() {
    let balls = vec![((0.0, 0.0, -1.2), 0.5, grey()), ((0.0, 0.0, -1.0), 0.5, gold())];
    let found = meet_all(&balls, EYE, AHEAD);
    let mut rec = hit_record::null();
    assert!(scene(&balls).hit(&far_range(), &found, &mut rec));
    assert_eq!(f(rec.t), 0.5);
    assert_eq!(rec.mat, gold());
    let mut alone = hit_record::null();
    assert!(ball((0.0, 0.0, -1.0), 0.5, gold()).hit(&far_range(), &found[1], &mut alone));
    assert_eq!(rec, alone);
}

#[test]
fn nearest_hit_does_not_depend_on_the_order() {
    let balls = vec![
        ((0.0, 0.0, -5.0), 1.0, grey()),
        ((0.0, 0.0, -2.0), 0.5, gold()),
        ((0.0, 0.0, -9.0), 2.0, grey()),
        ((0.0, 3.0, -2.0), 0.5, grey()),
    ];
    let orders: Vec<Vec<usize>> =
        vec![vec![0, 1, 2, 3], vec![3, 2, 1, 0], vec![1, 0, 3, 2], vec![2, 3, 0, 1]];
    for order in orders.iter() {
        let shuffled: Vec<(V, f64, material)> = order.iter().map(|&k| balls[k]).collect();
        let mut rec = hit_record::null();
        assert!(scene(&shuffled).hit(&far_range(), &meet_all(&shuffled, EYE, AHEAD), &mut rec));
        assert_eq!(f(rec.t), 1.5);
        assert_eq!(rec.mat, gold());
    }
}

#[test]
fn nearest_hit_is_the_least_of_the_single_hits() {
    let balls = vec![
        ((0.1, 0.0, -4.0), 1.0, grey()),
        ((-0.2, 0.1, -2.5), 0.6, gold()),
        ((0.0, -0.3, -7.0), 2.0, grey()),
        ((4.0, 0.0, -2.0), 0.5, gold()),
        ((0.0, 0.0, 0.0), 1.0, grey()),
    ];
    let directions: Vec<V> =
        vec![AHEAD, (0.05, 0.0, -1.0), (-0.1, 0.05, -1.0), (1.0, 0.0, -0.5), (0.0, 1.0, 0.0)];
    for &d in directions.iter() {
        let found = meet_all(&balls, EYE, d);
        let mut least: Option<hit_record> = None;
        for (k, &(c, r, m)) in balls.iter().enumerate() {
            let mut alone = hit_record::null();
            if ball(c, r, m).hit(&far_range(), &found[k], &mut alone) {
                let nearer = match least {
                    Some(l) => f(alone.t) < f(l.t),
                    None => true,
                };
                if nearer {
                    least = Some(alone);
                }
            }
        }
        let mut rec = hit_record::null();
        let hit = scene(&balls).hit(&far_range(), &found, &mut rec);
        assert_eq!(hit, least.is_some());
        if let Some(l) = least {
            assert_eq!(rec, l);
        }
    }
}

#[test]
fn equal_hits_keep_the_first_object() {
    let balls = vec![((0.0, 0.0, -1.0), 0.5, grey()), ((0.0, 0.0, -1.0), 0.5, gold())];
    let mut rec = hit_record::null();
    assert!(scene(&balls).hit(&far_range(), &meet_all(&balls, EYE, AHEAD), &mut rec));
    assert_eq!(rec.mat, grey());
}

#[test]
fn object_without_incidence_is_not_hit() {
    let balls = vec![((0.0, 0.0, -3.0), 0.5, grey()), ((0.0, 0.0, -1.0), 0.5, gold())];
    let world = scene(&balls);
    let mut found = meet_all(&balls, EYE, AHEAD);
    found.pop();
    let mut rec = hit_record::null();
    assert!(world.hit(&far_range(), &found, &mut rec));
    assert_eq!(f(rec.t), 2.5);
    assert_eq!(rec.mat, grey());
    let mut none = hit_record::null();
    assert!(!world.hit(&far_range(), &Vec::new(), &mut none));
}

#[test]
fn scene_hit_respects_the_interval() {
    let balls = vec![((0.0, 0.0, -1.0), 0.5, grey()), ((0.0, 0.0, -3.0), 0.5, gold())];
    let world = scene(&balls);
    let found = meet_all(&balls, EYE, AHEAD);
    let mut rec = hit_record::null();
    assert!(world.hit(&interval::new(s(1.6), s(10.0)), &found, &mut rec));
    assert_eq!(f(rec.t), 2.5);
    assert!(world.hit(&interval::new(s(1.0), s(10.0)), &found, &mut rec));
    assert_eq!(f(rec.t), 1.5);
    let before = rec;
    assert!(!world.hit(&interval::new(s(4.0), s(10.0)), &found, &mut rec));
    assert_eq!(rec, before);
}

#[test]
fn cloned_scene_is_the_same_scene() {
    let balls = vec![((0.0, 0.0, -1.0), 0.5, grey())];
    let world = scene(&balls);
    let copy = world.clone();
    assert_eq!(copy.objects, world.objects);
}

#[test]
fn sphere_without_radius_is_hit_with_no_normal() {
    let b = ball((0.0, 0.0, -1.0), 0.0, grey());
    let found = meet(EYE, AHEAD, (0.0, 0.0, -1.0), 0.0);
    assert_eq!(f(found.discriminant), 0.0);
    let mut rec = hit_record::null();
    assert!(b.hit(&far_range(), &found, &mut rec));
    assert_eq!(f(rec.t), 1.0);
    assert!(!rec.front_face);
    assert!(f(rec.normal.z()).is_nan());
}

#[test]
fn roots_that_are_no_numbers_are_not_turned_down() {
    let b = ball((0.0, 0.0, -1.0), 0.5, grey());
    let found = meet(EYE, (0.0, 0.0, 0.0), (0.0, 0.0, -1.0), 0.5);
    assert!(f(found.near.t).is_nan() || f(found.near.t).is_infinite());
    let mut rec = hit_record::null();
    let hit = b.hit(&far_range(), &found, &mut rec);
    let root = f(found.near.t);
    let second = f(found.far.t);
    let expected = !(f(found.discriminant) < 0.0)
        && (!(root <= 0.001 || root >= f64::INFINITY)
            || !(second <= 0.001 || second >= f64::INFINITY));
    assert_eq!(hit, expected);
}
