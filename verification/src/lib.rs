//! Incremental, layer-based 2D scene compositor.
//!
//! A frame is described by a tree of paint objects: elements (boxes with
//! background, border and a one-shot content callback) grouped into layers
//! (stacking contexts, each optionally cached as an offscreen raster
//! surface).  The compositor walks that tree and produces an explicit list
//! of drawing commands for a 2D backend, reusing cached layer surfaces
//! where the layer's size is unchanged, shifting cached pixels on scroll,
//! and clearing only the regions marked invalid.

//! The scripting engine that drives frames sits behind the same roof in
//! `js_engine`, as a thin facade over the embedded Javascript context.

pub mod geom;
pub mod js_engine;
pub mod paint;
pub mod paint_object;
pub mod painter;
