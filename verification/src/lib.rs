//! A particle water simulation: the exact part of it.
//!
//! Nothing here rounds. Numbers are the bits of floating-point numbers, compared
//! and truncated exactly; what has to be computed with rounding comes from the
//! caller.

pub mod agreement;
pub mod bindings;
pub mod camera;
pub mod closed;
pub mod config;
pub mod crossings;
pub mod discipline;
pub mod gpu;
pub mod gpu_fluid;
pub mod gpu_params;
pub mod grid;
pub mod limits;
pub mod messages;
pub mod neighbors;
pub mod num;
pub mod numbering;
pub mod playback;
pub mod programs;
pub mod render;
pub mod repetition;
pub mod scan;
pub mod sim;
pub mod sim_gpu;
pub mod single;
pub mod sizes;
pub mod spray_gpu;
pub mod starts;
pub mod surface;
pub mod surface_gpu;
pub mod transfer;
pub mod uniforms;
pub mod wave;
