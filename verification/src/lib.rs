//! The verified kernel of a path tracer: bounding-volume trees, lattice-noise
//! tables, the bounce budget of a light path, pixel packing and scene names.
//!
//! Real-valued quantities (distances along a ray, coordinates, times) enter the
//! library as `i64` ranks, which stand in the order of the reals they number:
//! see [`rank`]. The library compares ranks and never computes with them.
pub mod bvh;
pub mod closest;
pub mod config;
pub mod hit;
pub mod material;
pub mod rank;
pub mod rng;
pub mod screen;
pub mod shape;
pub mod tracer;
pub mod vec3;

pub use bvh::{Node, BVH};
pub use config::{Config, Scene};
pub use hit::{Beam, Corner, Hit, HitList, Hittable, Span, AABB};
pub use vec3::Axis;
