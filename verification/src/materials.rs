//! Surface materials: what becomes of a ray that strikes a surface.
//!
//! A material answers with the ray that leaves the surface and the color by
//! which whatever that ray gathers is multiplied, or with nothing when the
//! surface swallows the ray. The direction in which light leaves is found by
//! arithmetic and reaches `scatter` as its `proposed` argument; what `scatter`
//! decides is whether that direction can be used.
#![allow(non_camel_case_types)]

use vstd::prelude::*;
use crate::hittables::hit_record;
use crate::maths::{color, ray, vec3};

verus! {

/// The capability of a surface to scatter.
pub trait material_trait: Sized {
    /// The attenuation and the scattered ray, or `None` where the ray is
    /// absorbed.
    spec fn spec_scatter(&self, rec: &hit_record, proposed: &vec3) -> Option<(color, ray)>;

    /// Scatters at the hit `rec`. `proposed` is the direction that the
    /// material's model proposes. Returns whether the ray goes on; if so,
    /// `attenuation` and `scattered` are set, and left alone otherwise.
    fn scatter(
        &self,
        rec: &hit_record,
        proposed: &vec3,
        attenuation: &mut color,
        scattered: &mut ray,
    ) -> (b: bool)
        ensures
            b == self.spec_scatter(rec, proposed).is_some(),
            b ==> self.spec_scatter(rec, proposed) == Some((*final(attenuation), *final(scattered))),
            !b ==> *final(attenuation) == *old(attenuation) && *final(scattered) == *old(
                scattered,
            ),
    ;

    /// The material that reflects no light.
    spec fn spec_empty() -> Self;

    fn empty() -> (m: Self)
        ensures
            m == Self::spec_empty(),
    ;
}

/// A matte surface. `proposed` is the surface normal plus a random unit
/// vector.
#[derive(Clone, Copy, Debug, PartialEq, Eq, Structural)]
pub struct lambertian {
    pub albedo: color,
}

/// A mirror. `proposed` is the incoming unit direction reflected about the
/// surface normal.
#[derive(Clone, Copy, Debug, PartialEq, Eq, Structural)]
pub struct metal {
    pub albedo: color,
}

/// The materials that a surface can have.
#[derive(Clone, Copy, Debug, PartialEq, Eq, Structural)]
pub enum material {
    lambertian(lambertian),
    metal(metal),
}

/// Black: no light in any channel.
pub open spec fn black() -> color {
    vec3::spec_zero()
}

impl lambertian {
    /// The matte material of the given color.
    pub fn new(albedo: color) -> (m: lambertian)
        ensures
            m.albedo == albedo,
    {
        lambertian { albedo }
    }
}

impl material_trait for lambertian {
    /// Always scatters, from the hit point, with the albedo as attenuation.
    /// The direction is `proposed`, unless that has all but vanished: then it
    /// is the normal.
    open spec fn spec_scatter(&self, rec: &hit_record, proposed: &vec3) -> Option<(color, ray)> {
        Some(
            (
                self.albedo,
                ray {
                    origin: rec.p,
                    direction: if proposed.spec_near_zero() {
                        rec.normal
                    } else {
                        *proposed
                    },
                },
            ),
        )
    }

    fn scatter(
        &self,
        rec: &hit_record,
        proposed: &vec3,
        attenuation: &mut color,
        scattered: &mut ray,
    ) -> (b: bool) {
        if proposed.near_zero() {
            *scattered = ray::new(rec.p, rec.normal);
        } else {
            *scattered = ray::new(rec.p, *proposed);
        }
        *attenuation = self.albedo;
        true
    }

    open spec fn spec_empty() -> lambertian {
        lambertian { albedo: black() }
    }

    fn empty() -> (m: lambertian) {
        lambertian { albedo: color::zero() }
    }
}

impl metal {
    /// The mirror of the given color.
    pub fn new(albedo: color) -> (m: metal)
        ensures
            m.albedo == albedo,
    {
        metal { albedo }
    }
}

impl material_trait for metal {
    /// Always scatters, from the hit point along `proposed`, with the albedo
    /// as attenuation.
    open spec fn spec_scatter(&self, rec: &hit_record, proposed: &vec3) -> Option<(color, ray)> {
        Some((self.albedo, ray { origin: rec.p, direction: *proposed }))
    }

    fn scatter(
        &self,
        rec: &hit_record,
        proposed: &vec3,
        attenuation: &mut color,
        scattered: &mut ray,
    ) -> (b: bool) {
        *scattered = ray::new(rec.p, *proposed);
        *attenuation = self.albedo;
        true
    }

    open spec fn spec_empty() -> metal {
        metal { albedo: black() }
    }

    fn empty() -> (m: metal) {
        metal { albedo: color::zero() }
    }
}

impl material_trait for material {
    /// What the material inside scatters.
    open spec fn spec_scatter(&self, rec: &hit_record, proposed: &vec3) -> Option<(color, ray)> {
        match self {
            material::lambertian(x) => x.spec_scatter(rec, proposed),
            material::metal(x) => x.spec_scatter(rec, proposed),
        }
    }

    fn scatter(
        &self,
        rec: &hit_record,
        proposed: &vec3,
        attenuation: &mut color,
        scattered: &mut ray,
    ) -> (b: bool) {
        match self {
            material::lambertian(x) => x.scatter(rec, proposed, attenuation, scattered),
            material::metal(x) => x.scatter(rec, proposed, attenuation, scattered),
        }
    }

    open spec fn spec_empty() -> material {
        material::lambertian(lambertian { albedo: black() })
    }

    fn empty() -> (m: material) {
        material::lambertian(lambertian::new(color::zero()))
    }
}

} // verus!
