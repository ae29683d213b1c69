//! A software rendering pipeline on exact fixed-point arithmetic: colors,
//! a depth-tested framebuffer, a triangle rasterizer with a watertight
//! coverage rule, and procedural planet materials driven by noise samples.
//!
//! Every fractional quantity is an integer count of thousandths, so that
//! every result is exact and the same on every machine. What needs
//! floating point (the vertex transform, sampling the noise field, the
//! trigonometry of time) is left to the caller, who hands over integers.
//!
//! One draw call runs through the modules in this order: `pipeline::assemble`
//! groups transformed vertices into triangles, `pipeline::rasterize` turns
//! them into fragments (`raster`), the caller samples the signals of the
//! material at each fragment, and `pipeline::render` shades (`shaders`) and
//! commits under the depth test (`framebuffer`). The laws that make this
//! safe to run in any order are proved in `framebuffer` and `coverage`.

pub mod color;
pub mod framebuffer;
pub mod geometry;
pub mod raster;
pub mod coverage;
pub mod noise;
pub mod shaders;
pub mod pipeline;
pub mod skybox;
pub mod input;
pub mod obj;
