//! A software rasterizer core in integer arithmetic.
//!
//! Triangles arrive already projected, with every coordinate, depth and attribute
//! quantised to 16.16 fixed point. The crate culls them against the near plane, maps
//! them to the screen, and fills a colour and a depth buffer by scanning bounding
//! boxes with an exact edge-function test, perspective-correct depth and pluggable
//! shading. The frame is cut into disjoint row ranges so that workers can draw
//! without synchronising.
//!
//! * [`fixed`]: fixed-point arithmetic and small vectors.
//! * [`color`]: colours and their blending.
//! * [`geometry`]: vertices, the pipeline stages after projection, bounding boxes,
//!   the inside test and barycentric weights.
//! * [`texture`] and [`shading`]: textures and materials.
//! * [`target`]: the frame and its slices.
//! * [`line`] and [`raster`]: lines, filled triangles and point markers.
//! * [`renderer`]: the draw loop.
//! * [`quad`]: the quad that spans the view, and the proof that it fills the frame.
//! * [`command`], [`random`] and [`obj`]: what an application around the
//!   rasterizer needs besides: its command queue, random vertex colours, and the
//!   text rules of model files.

pub mod fixed;
pub mod color;
pub mod geometry;
pub mod target;
pub mod texture;
pub mod shading;
pub mod line;
pub mod raster;
pub mod renderer;
pub mod command;
pub mod random;
pub mod obj;
pub mod quad;
