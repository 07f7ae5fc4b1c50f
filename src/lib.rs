//! Four-lane 32-bit vector arithmetic in the style of GLSL's `vec4`.
//!
//! A float lane is held as its IEEE-754 binary32 bit pattern, so every
//! operation here is stated and proved over those bits.
pub mod binary32;
pub mod rounding;
pub mod sleef;
pub mod vector4;

pub use vector4::Vector4;


