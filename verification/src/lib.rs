//! The decisions of a recursive path tracer, verified.
//!
//! A path tracer alternates arithmetic on real numbers with decisions: which
//! root of a quadratic lies in range, which side of a surface a ray struck,
//! which of several hits is nearest, whether a path goes on, which byte a
//! brightness becomes. This library holds the decisions. Numbers reach it as
//! binary64 bit patterns (`scalar`); it orders, negates, clamps and converts
//! them exactly, and leaves sums, products, quotients and square roots to its
//! caller.
pub mod scalar;
pub mod maths;
pub mod materials;
pub mod hittables;
pub mod objects;
pub mod camera;
