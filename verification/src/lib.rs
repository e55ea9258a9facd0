//! Real-ESRGAN (RRDBNet) image upscaling: the network graph, the checkpoint
//! checks, the device launch plan, the tiling and the image conversions.
//!
//! Pixel values are a type parameter `T`, and the arithmetic on them is an
//! [`arith::Arith`] that the program supplies, so what is stated here holds of
//! single precision on any machine: fused or not, vectorised or not.

pub mod agree;
pub mod arith;
pub mod bench;
pub mod binding;
pub mod cli;
pub mod codec;
pub mod conv;
pub mod conv3x3;
pub mod course;
pub mod device;
pub mod dispatch;
pub mod dump;
pub mod forward;
pub mod graph;
pub mod grid;
pub mod image;
pub mod intake;
pub mod launch;
pub mod layout;
pub mod load;
pub mod locality;
pub mod model;
mod parallel;
pub mod parts;
pub mod pictures;
pub mod plane;
pub mod profile;
pub mod program;
pub mod promises;
pub mod ram;
pub mod rehearsal;
pub mod resize;
pub mod seams;
pub mod selftest;
pub mod shape;
pub mod shuffle;
pub mod tallies;
pub mod taps;
pub mod text;
pub mod tile;
pub mod trace;
pub mod unrolled;
pub mod usage;
pub mod weights;
pub mod windows;
