//! Hits: where a ray meets the scene.
//!
//! Finding the points at which a ray crosses a sphere is arithmetic: the
//! roots of a quadratic, the points at those roots, the normals there. It
//! reaches this module as an `incidence`. What is decided here is which root
//! counts, which way the normal is turned, and which of the scene's hits is
//! nearest.
#![allow(non_camel_case_types)]

use vstd::prelude::*;
use crate::materials::{lambertian, material, material_trait};
use crate::maths::{interval, point3, vec3};
use crate::objects::sphere;
use crate::scalar::scalar;

verus! {

/// One point at which a ray crosses a surface.
#[derive(Clone, Copy, Debug, PartialEq, Eq, Structural)]
pub struct crossing {
    /// The ray's parameter at the point.
    pub t: scalar,
    /// The point.
    pub p: point3,
    /// The unit normal that points out of the surface there.
    pub outward_normal: vec3,
    /// The dot product of the ray's direction and the outward normal.
    pub alignment: scalar,
}

/// How a ray lies to a sphere: the discriminant of their quadratic and the
/// crossings at its two roots, the smaller root first. Where the
/// discriminant is below zero the line misses the sphere and the crossings
/// mean nothing.
#[derive(Clone, Copy, Debug, PartialEq, Eq, Structural)]
pub struct incidence {
    pub discriminant: scalar,
    pub near: crossing,
    pub far: crossing,
}

/// What is known of a hit: the point, the unit normal turned against the
/// ray, the ray's parameter, whether the ray came from outside, and the
/// material of the surface.
#[derive(Clone, Copy, Debug, PartialEq, Eq, Structural)]
pub struct hit_record {
    pub p: point3,
    pub normal: vec3,
    pub t: scalar,
    pub front_face: bool,
    pub mat: material,
}

/// Whether a ray whose direction has the given dot product with the outward
/// normal strikes the surface from outside.
pub open spec fn from_outside(alignment: scalar) -> bool {
    alignment.less(scalar { bits: 0 })
}

/// The outward normal turned against the ray: kept for a ray from outside,
/// flipped otherwise.
pub open spec fn facing_normal(alignment: scalar, outward_normal: vec3) -> vec3 {
    if from_outside(alignment) {
        outward_normal
    } else {
        outward_normal.negation()
    }
}

/// A dot product turned as `facing_normal` turns the normal: kept where the
/// normal is kept, negated where the normal is flipped. Where negating a
/// vector negates its dot products, as it does in binary64 arithmetic up to
/// the sign of zero, this is the dot product of the ray's direction and the
/// turned normal.
pub open spec fn facing_alignment(alignment: scalar) -> scalar {
    if from_outside(alignment) {
        alignment
    } else {
        alignment.negation()
    }
}

/// The record of a hit at a crossing of a surface with material `mat`.
pub open spec fn record_at(c: crossing, mat: material) -> hit_record {
    hit_record {
        p: c.p,
        normal: facing_normal(c.alignment, c.outward_normal),
        t: c.t,
        front_face: from_outside(c.alignment),
        mat,
    }
}

/// Whether a root is turned down: it is at or below the lower bound, or at
/// or above the upper one.
pub open spec fn out_of_range(ray_t: interval, t: scalar) -> bool {
    t.less_eq(ray_t.min) || ray_t.max.less_eq(t)
}

/// For numbers, a root is in range exactly when it lies strictly inside the
/// interval.
pub proof fn lemma_in_range_is_surrounded(ray_t: interval, t: scalar)
    requires
        !ray_t.min.nan(),
        !ray_t.max.nan(),
        !t.nan(),
    ensures
        !out_of_range(ray_t, t) <==> ray_t.spec_surrounds(t),
{
}

impl hit_record {
    /// A record that stands for no hit: zeros, and a material that reflects
    /// nothing.
    pub fn null() -> (rec: hit_record)
        ensures
            rec == (hit_record {
                p: vec3::spec_zero(),
                normal: vec3::spec_zero(),
                t: scalar { bits: 0 },
                front_face: false,
                mat: material::spec_empty(),
            }),
    {
        hit_record {
            p: point3::from_scalar(scalar::zero()),
            normal: vec3::from_scalar(scalar::zero()),
            t: scalar::zero(),
            front_face: false,
            mat: material::lambertian(lambertian::empty()),
        }
    }

    /// Records the side from which the ray came and stores the normal turned
    /// against it. `alignment` is the dot product of the ray's direction and
    /// `outward_normal`.
    pub fn set_face_normal(&mut self, alignment: scalar, outward_normal: vec3)
        ensures
            final(self).front_face == from_outside(alignment),
            final(self).normal == facing_normal(alignment, outward_normal),
            final(self).p == old(self).p,
            final(self).t == old(self).t,
            final(self).mat == old(self).mat,
    {
        self.front_face = alignment.lt(scalar::zero());
        self.normal = if self.front_face {
            outward_normal
        } else {
            outward_normal.neg()
        };
    }
}

/// Turning leaves no positive dot product: for a dot product that is a
/// number, `facing_alignment` is a number and at most zero.
pub proof fn lemma_facing_alignment_not_positive(alignment: scalar)
    requires
        !alignment.nan(),
    ensures
        !facing_alignment(alignment).nan(),
        facing_alignment(alignment).value() <= 0,
{
}

/// The capability of being hit by a ray.
pub trait hittable {
    /// What arithmetic has found out about the ray and this object.
    type probe;

    /// The hit within `ray_t`, if there is one.
    spec fn spec_hit(&self, ray_t: &interval, found: &Self::probe) -> Option<hit_record>;

    /// Looks for a hit whose parameter lies strictly inside `ray_t`. Returns
    /// whether there is one; if so `rec` holds it, and is left alone
    /// otherwise.
    fn hit(&self, ray_t: &interval, found: &Self::probe, rec: &mut hit_record) -> (b: bool)
        ensures
            b == self.spec_hit(ray_t, found).is_some(),
            b ==> self.spec_hit(ray_t, found) == Some(*final(rec)),
            !b ==> *final(rec) == *old(rec),
    ;
}

/// The kinds of object that a scene can hold.
#[derive(Clone, Copy, Debug, PartialEq, Eq, Structural)]
pub enum hittable_obj {
    sphere(sphere),
}

impl hittable for hittable_obj {
    type probe = incidence;

    open spec fn spec_hit(&self, ray_t: &interval, found: &incidence) -> Option<hit_record> {
        match self {
            hittable_obj::sphere(x) => x.spec_hit(ray_t, found),
        }
    }

    fn hit(&self, ray_t: &interval, found: &incidence, rec: &mut hit_record) -> (b: bool) {
        match self {
            hittable_obj::sphere(x) => x.hit(ray_t, found, rec),
        }
    }
}

/// A scene: objects in the order in which they were added.
#[derive(Clone, Debug)]
pub struct hittable_list {
    pub objects: Vec<hittable_obj>,
}

/// The hit of object `i` within `ray_t`. An object for which nothing was
/// found is not hit.
#[verifier::opaque]
pub open spec fn object_hit(
    objects: Seq<hittable_obj>,
    found: Seq<incidence>,
    i: int,
    ray_t: interval,
) -> Option<hit_record> {
    if 0 <= i < objects.len() && i < found.len() {
        objects[i].spec_hit(&ray_t, &found[i])
    } else {
        None
    }
}

/// The hit that a scan of the first `n` objects ends with. Each object is
/// tried within the interval from `ray_t.min` to the parameter of the hit
/// found so far, or to `ray_t.max` while there is none; a new hit takes the
/// place of the old one.
pub open spec fn nearest_among(
    objects: Seq<hittable_obj>,
    found: Seq<incidence>,
    ray_t: interval,
    n: nat,
) -> Option<hit_record>
    decreases n,
{
    if n == 0 {
        None
    } else {
        let before = nearest_among(objects, found, ray_t, (n - 1) as nat);
        let upper = match before {
            Some(r) => r.t,
            None => ray_t.max,
        };
        match object_hit(objects, found, n - 1, interval { min: ray_t.min, max: upper }) {
            Some(r) => Some(r),
            None => before,
        }
    }
}

impl hittable_list {
    /// The scene without objects.
    pub fn new() -> (list: hittable_list)
        ensures
            list.objects@ == Seq::<hittable_obj>::empty(),
    {
        hittable_list { objects: Vec::new() }
    }

    /// Adds an object behind those that the scene holds.
    pub fn add(&mut self, obj: hittable_obj)
        ensures
            final(self).objects@ == old(self).objects@.push(obj),
    {
        self.objects.push(obj);
    }
}

impl hittable for hittable_list {
    /// One incidence for each object, in the scene's order.
    type probe = Vec<incidence>;

    open spec fn spec_hit(&self, ray_t: &interval, found: &Vec<incidence>) -> Option<hit_record> {
        nearest_among(self.objects@, found@, *ray_t, self.objects@.len())
    }

    fn hit(&self, ray_t: &interval, found: &Vec<incidence>, rec: &mut hit_record) -> (b: bool) {
        let mut temp_rec = hit_record::null();
        let mut hit_anything = false;
        let mut closest_so_far = ray_t.max();
        let mut i: usize = 0;
        while i < self.objects.len()
            invariant
                i <= self.objects@.len(),
                nearest_among(self.objects@, found@, *ray_t, i as nat) == if hit_anything {
                    Some(*rec)
                } else {
                    None
                },
                closest_so_far == if hit_anything {
                    rec.t
                } else {
                    ray_t.max
                },
                !hit_anything ==> *rec == *old(rec),
            decreases self.objects@.len() - i,
        {
            proof {
                reveal(object_hit);
            }
            if i < found.len() {
                let within = interval::new(ray_t.min(), closest_so_far);
                if self.objects[i].hit(&within, &found[i], &mut temp_rec) {
                    hit_anything = true;
                    closest_so_far = temp_rec.t;
                    *rec = temp_rec;
                }
            }
            i += 1;
        }
        hit_anything
    }
}

/// Whether the roots of an incidence that has any are numbers, the near
/// one not above the far one.
pub open spec fn ordered_roots(found: incidence) -> bool {
    found.discriminant.less(scalar { bits: 0 }) || found.near.t.less_eq(found.far.t)
}

/// The parameter of a hit on ordered roots is a number that the upper bound
/// does not exclude.
pub proof fn lemma_hit_in_range(
    objects: Seq<hittable_obj>,
    found: Seq<incidence>,
    i: int,
    ray_t: interval,
)
    requires
        0 <= i < objects.len(),
        i < found.len() ==> ordered_roots(found[i]),
    ensures
        object_hit(objects, found, i, ray_t) matches Some(r) ==> !r.t.nan() && (ray_t.max.nan()
            || r.t.less(ray_t.max)),
{
    reveal(object_hit);
}

/// Lowering the upper bound of the interval to a number `c` that the old
/// bound does not exclude keeps an object's hit where its parameter is below
/// `c`, and loses it otherwise.
pub proof fn lemma_hit_under_lower_bound(
    objects: Seq<hittable_obj>,
    found: Seq<incidence>,
    i: int,
    ray_t: interval,
    c: scalar,
)
    requires
        0 <= i < objects.len(),
        i < found.len() ==> ordered_roots(found[i]),
        !c.nan(),
        ray_t.max.nan() || c.less_eq(ray_t.max),
    ensures
        object_hit(objects, found, i, interval { min: ray_t.min, max: c }) == match object_hit(
            objects,
            found,
            i,
            ray_t,
        ) {
            Some(r) => if r.t.less(c) {
                Some(r)
            } else {
                None
            },
            None => None,
        },
{
    reveal(object_hit);
}

/// The scan returns the nearest hit: among the hits that each object alone
/// has within `ray_t`, the one with the least parameter, and none where no
/// object has one. Stated for incidences with ordered roots.
pub proof fn lemma_nearest_is_least(
    objects: Seq<hittable_obj>,
    found: Seq<incidence>,
    ray_t: interval,
    n: nat,
)
    requires
        n <= objects.len(),
        forall|i: int| 0 <= i < n && i < found.len() ==> ordered_roots(#[trigger] found[i]),
    ensures
        match nearest_among(objects, found, ray_t, n) {
            None => forall|i: int|
                0 <= i < n ==> (#[trigger] object_hit(objects, found, i, ray_t)).is_none(),
            Some(r) => {
                &&& !r.t.nan()
                &&& ray_t.max.nan() || r.t.less(ray_t.max)
                &&& exists|i: int|
                    0 <= i < n && #[trigger] object_hit(objects, found, i, ray_t) == Some(r)
                &&& forall|j: int|
                    0 <= j < n ==> (#[trigger] object_hit(objects, found, j, ray_t) matches Some(
                        other,
                    ) ==> r.t.less_eq(other.t))
            },
        },
    decreases n,
{
    if n > 0 {
        let last = n - 1;
        lemma_nearest_is_least(objects, found, ray_t, last as nat);
        lemma_hit_in_range(objects, found, last, ray_t);
        let before = nearest_among(objects, found, ray_t, last as nat);
        match before {
            Some(b) => {
                lemma_hit_under_lower_bound(objects, found, last, ray_t, b.t);
                let witness = choose|i: int|
                    0 <= i < last && #[trigger] object_hit(objects, found, i, ray_t) == Some(b);
                assert(object_hit(objects, found, witness, ray_t) == Some(b));
            },
            None => {
                assert(interval { min: ray_t.min, max: ray_t.max } == ray_t);
            },
        }
    }
}

/// Whether a record is the hit of `obj` at the crossing `c`: the point and
/// parameter of the crossing, the object's material, and the outward normal
/// turned against the ray.
pub open spec fn hit_at(rec: hit_record, obj: hittable_obj, c: crossing) -> bool {
    match obj {
        hittable_obj::sphere(s) => rec == record_at(c, s.mat),
    }
}

/// Every hit that a scan returns is the hit of one of the scene's objects at
/// one of the two crossings found for it, and so its normal is the outward
/// normal there, kept for a ray from outside and flipped otherwise.
pub proof fn lemma_every_hit_faces_ray(
    objects: Seq<hittable_obj>,
    found: Seq<incidence>,
    ray_t: interval,
    n: nat,
)
    requires
        n <= objects.len(),
    ensures
        nearest_among(objects, found, ray_t, n) matches Some(rec) ==> exists|i: int|
            0 <= i < n && i < found.len() && (hit_at(rec, objects[i], (#[trigger] found[i]).near)
                || hit_at(rec, objects[i], found[i].far)),
    decreases n,
{
    if n > 0 {
        let last = n - 1;
        lemma_every_hit_faces_ray(objects, found, ray_t, last as nat);
        let before = nearest_among(objects, found, ray_t, last as nat);
        let upper = match before {
            Some(r) => r.t,
            None => ray_t.max,
        };
        reveal(object_hit);
        match object_hit(objects, found, last, interval { min: ray_t.min, max: upper }) {
            Some(r) => {
                assert(hit_at(r, objects[last], found[last].near) || hit_at(
                    r,
                    objects[last],
                    found[last].far,
                ));
            },
            None => {
                if let Some(b) = before {
                    let witness = choose|i: int|
                        0 <= i < last && i < found.len() && (hit_at(
                            b,
                            objects[i],
                            (#[trigger] found[i]).near,
                        ) || hit_at(b, objects[i], found[i].far));
                    assert(hit_at(b, objects[witness], found[witness].near) || hit_at(
                        b,
                        objects[witness],
                        found[witness].far,
                    ));
                }
            },
        }
    }
}

} // verus!
