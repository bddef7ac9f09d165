//! Verified core of a small game-development toolkit: a byte-layout packing
//! format for assets, an integer triangle rasterizer, and the decision logic of
//! the windowing and hot-reloading platform layer.

use vstd::prelude::*;

pub mod bytes;
pub mod clock;
pub mod pack;
pub mod picture;
pub mod sound;
pub mod raster;
pub mod debug;
pub mod platform;
pub mod reverb;

verus! {

} // verus!
