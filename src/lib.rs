//! A sky-gradient renderer over exact arithmetic: vectors in homogeneous
//! integer form, rays colored by the vertical part of their unit direction,
//! a fixed camera plane, and an image generator in scan order.

pub mod vec3;
pub mod ray;
pub mod camera;
pub mod image;
pub mod sphere;
