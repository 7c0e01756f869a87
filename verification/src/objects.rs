//! The sphere.
#![allow(non_camel_case_types)]

use vstd::prelude::*;
use crate::hittables::{hit_record, hittable, incidence, out_of_range, record_at};
use crate::materials::material;
use crate::maths::{interval, point3};
use crate::scalar::scalar;

verus! {

/// A sphere with the material of its surface.
#[derive(Clone, Copy, Debug, PartialEq, Eq, Structural)]
pub struct sphere {
    pub center: point3,
    pub radius: scalar,
    pub mat: material,
}

impl sphere {
    /// The sphere around `center` with the given radius and material.
    pub fn new(center: point3, radius: scalar, mat: material) -> (s: sphere)
        ensures
            s == (sphere { center, radius, mat }),
    {
        sphere { center, radius, mat }
    }
}

impl hittable for sphere {
    type probe = incidence;

    /// No hit where the discriminant is below zero. Otherwise the crossing
    /// at the smaller root if that root is in range, else the crossing at
    /// the larger root if that one is, else no hit. The record carries the
    /// sphere's material.
    open spec fn spec_hit(&self, ray_t: &interval, found: &incidence) -> Option<hit_record> {
        if found.discriminant.less(scalar { bits: 0 }) {
            None
        } else if !out_of_range(*ray_t, found.near.t) {
            Some(record_at(found.near, self.mat))
        } else if !out_of_range(*ray_t, found.far.t) {
            Some(record_at(found.far, self.mat))
        } else {
            None
        }
    }

    fn hit(&self, ray_t: &interval, found: &incidence, rec: &mut hit_record) -> (b: bool) {
        if found.discriminant.lt(scalar::zero()) {
            return false;
        }
        let mut at = found.near;
        if at.t.le(ray_t.min()) || at.t.ge(ray_t.max()) {
            at = found.far;
            if at.t.le(ray_t.min()) || at.t.ge(ray_t.max()) {
                return false;
            }
        }
        rec.t = at.t;
        rec.p = at.p;
        rec.set_face_normal(at.alignment, at.outward_normal);
        rec.mat = self.mat;
        true
    }
}

} // verus!
