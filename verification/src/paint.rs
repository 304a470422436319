//! The drawing model: surface targets, drawing commands, invalid-rect
//! sets, and the per-layer cache entry.
//!
//! The compositor does not talk to a drawing backend directly; it emits a
//! list of [`DrawCmd`] values.  An interpreter outside this crate replays
//! the list against a concrete 2D backend: each command mirrors one
//! canvas operation, and surfaces are named by the ids the compositor
//! hands out.

use vstd::prelude::*;
use crate::geom::{Matrix, Rect};

verus! {

/// Stable identity of a layer (stacking context) across frames.
pub type RenderLayerKey = u64;

/// Identity of an offscreen surface allocated by the compositor.
pub type SurfaceId = u64;

/// The surface a drawing command acts on: the final output surface, or
/// an offscreen surface named by its id.
#[derive(Clone, Copy, Debug, PartialEq, Eq, Structural)]
pub enum Target {
    Root,
    Surface(SurfaceId),
}

/// One drawing command.  Translation amounts are logical units; a
/// `DrawImage` offset is the exact rational `x_num / den`, `y_num / den`
/// in physical pixels, so a scaled scroll shift loses no precision.
///
/// A union clip is built by `RegionBegin`, one `RegionRect` per
/// rectangle, and `RegionClip`, which intersects the current clip with
/// the union of the collected rectangles.
#[derive(Clone, Copy, Debug, PartialEq, Eq, Structural)]
pub enum DrawCmd {
    /// Push the target's transform/clip state.
    Save(Target),
    /// Pop the target's transform/clip state.
    Restore(Target),
    /// Reset the target's transform to what it was at the last `Save`,
    /// keeping the clip.
    RestoreMatrix(Target),
    /// Translate by a logical offset.
    Translate(Target, i64, i64),
    /// Multiply the current transform by `num / den`.
    Scale(Target, u32, u32),
    /// Concatenate an affine transform.
    Concat(Target, Matrix),
    /// Intersect the clip with a rectangle.
    ClipRect(Target, Rect),
    /// Start collecting rectangles for a union clip.
    RegionBegin(Target),
    /// Add one rectangle to the union being collected.
    RegionRect(Target, Rect),
    /// Intersect the clip with the union collected since `RegionBegin`.
    RegionClip(Target),
    /// Intersect the clip with an element's border-box path.
    ClipPath(Target, u64),
    /// Clear the clipped region to transparent.
    Clear(Target),
    /// Allocate an offscreen surface of a physical pixel size.
    CreateSurface(SurfaceId, u64, u64),
    /// Release an offscreen surface.
    DropSurface(SurfaceId),
    /// Draw a surface's image at the physical offset
    /// `(x_num / den, y_num / den)`.
    DrawImage(Target, SurfaceId, i64, i64, u32),
    /// Draw a surface's image at the origin with linear sampling.
    DrawImageLinear(Target, SurfaceId),
    /// Draw an element's background.
    DrawBackground(Target, u64),
    /// Draw an element's border.
    DrawBorder(Target, u64),
    /// Run an element's one-shot content callback.
    RunCallback(Target, u64),
    /// Stroke the outline of a rectangle (repaint-area overlay).
    StrokeRect(Target, Rect),
    /// Stroke a hint box of a logical extent (layer/focus overlay).
    HintRect(Target, i32, i32),
    /// Flush pending drawing work so later reads observe it.
    Flush,
}

/// The set of rectangles that must be cleared and redrawn this frame.
/// An empty set means the whole previous content is still valid.
#[derive(Debug, PartialEq, Eq)]
pub struct InvalidRects {
    pub rects: Vec<Rect>,
}

impl View for InvalidRects {
    type V = Seq<Rect>;

    open spec fn view(&self) -> Seq<Rect> {
        self.rects@
    }
}

impl InvalidRects {
    /// An empty set: everything is valid.
    pub fn new() -> (r: InvalidRects)
        ensures
            r@ == Seq::<Rect>::empty(),
    {
        InvalidRects { rects: Vec::new() }
    }

    /// Marks one more rectangle as needing redraw.
    pub fn add(&mut self, rect: Rect)
        ensures
            final(self)@ == old(self)@.push(rect),
    {
        self.rects.push(rect);
    }

    /// Whether no region at all is marked for redraw.
    pub fn is_empty(&self) -> (r: bool)
        ensures
            r == (self@.len() == 0),
    {
        self.rects.len() == 0
    }

    /// An element-wise copy of the set.
    pub fn duplicate(&self) -> (r: InvalidRects)
        ensures
            r@ == self@,
    {
        let mut rects: Vec<Rect> = Vec::new();
        let mut i: usize = 0;
        while i < self.rects.len()
            invariant
                i <= self.rects.len(),
                rects@ == self.rects@.subrange(0, i as int),
            decreases self.rects.len() - i,
        {
            rects.push(self.rects[i]);
            i = i + 1;
        }
        proof {
            assert(rects@ =~= self.rects@);
        }
        InvalidRects { rects }
    }
}

/// Where a layer's pixels live: straight on the final output (the root
/// layer), or on an owned offscreen surface.
#[derive(Clone, Copy, Debug, PartialEq, Eq, Structural)]
pub enum DrawLayer {
    Root,
    Sublayer(SurfaceId),
}

/// The cache entry for one layer: the surface its pixels live on, the
/// physical size the surface was allocated at, the logical bounds the
/// pixels currently represent, and a snapshot of the transforms and the
/// invalidation set at the last composite.
#[derive(Debug, PartialEq, Eq)]
pub struct LayerState {
    pub layer: DrawLayer,
    pub surface_width: u64,
    pub surface_height: u64,
    pub surface_bounds: Rect,
    pub total_matrix: Matrix,
    pub matrix: Matrix,
    pub invalid_rects: InvalidRects,
}

/// Spec-level value of a [`LayerState`]: the same fields with the
/// invalidation set abstracted to a sequence.
pub ghost struct LayerStateV {
    pub layer: DrawLayer,
    pub surface_width: u64,
    pub surface_height: u64,
    pub surface_bounds: Rect,
    pub total_matrix: Matrix,
    pub matrix: Matrix,
    pub invalid_rects: Seq<Rect>,
}

impl View for LayerState {
    type V = LayerStateV;

    open spec fn view(&self) -> LayerStateV {
        LayerStateV {
            layer: self.layer,
            surface_width: self.surface_width,
            surface_height: self.surface_height,
            surface_bounds: self.surface_bounds,
            total_matrix: self.total_matrix,
            matrix: self.matrix,
            invalid_rects: self.invalid_rects@,
        }
    }
}

impl LayerStateV {
    /// Whether this entry owns an offscreen surface (rather than being
    /// the synthesized root state).
    pub open spec fn is_sublayer(self) -> bool {
        self.layer is Sublayer
    }

    /// The id of the owned offscreen surface.
    pub open spec fn surface_id(self) -> SurfaceId
        recommends
            self.is_sublayer(),
    {
        self.layer->Sublayer_0
    }
}

} // verus!
