//! Verified core of a Monte Carlo ray tracer: bounding boxes over ordered
//! coordinate keys, construction and traversal of a bounding volume
//! hierarchy, the decisions of the path integrator and of the frame
//! accumulator, per-pixel sample bookkeeping and image byte packing.
pub mod bounds;
pub mod bvh;
pub mod counts;
pub mod image;
pub mod integrator;
pub mod render;
pub mod split;
pub mod traverse;
