//! The compositor: walks a layer tree, decides per layer whether to
//! reuse, shift or rebuild its cached surface, renders element subtrees,
//! and emits the commands that composite every layer into the output.

use vstd::prelude::*;
use std::collections::HashMap;
use crate::geom::{Matrix, Rect, ScaleFactor, spec_identity_matrix, spec_physical_extent,
    physical_extent};
use crate::paint::{DrawCmd, DrawLayer, InvalidRects, LayerState, LayerStateV, RenderLayerKey,
    SurfaceId, Target};
use crate::paint_object::{ElementPaintObject, LayerPaintObject, children_cmds, element_cmds,
    element_paint_cmds};

verus! {

/// Diagnostic overlay switches, passed in explicitly so the compositor
/// has no hidden global state.
#[derive(Clone, Copy, Debug, PartialEq, Eq, Structural)]
pub struct DebugOptions {
    /// Stroke the outline of the repaint region of each layer.
    pub show_repaint_area: bool,
    /// Stroke a box around each composited layer.
    pub show_layer_hint: bool,
    /// Stroke a box around the focused element.
    pub show_focus_hint: bool,
}

impl DebugOptions {
    /// All overlays off.
    pub fn none() -> (r: DebugOptions)
        ensures
            r == (DebugOptions {
                show_repaint_area: false,
                show_layer_hint: false,
                show_focus_hint: false,
            }),
    {
        DebugOptions { show_repaint_area: false, show_layer_hint: false, show_focus_hint: false }
    }
}

/// The per-frame configuration a compositing pass runs under.
pub ghost struct FrameCfg {
    pub scale: ScaleFactor,
    pub cache_enabled: bool,
    pub debug: DebugOptions,
}

/// The threaded state of a compositing pass: the next fresh surface id,
/// the entries taken from last frame's cache and not yet consumed, and
/// the entries stored for the next frame.
pub ghost struct FrameSt {
    pub next_id: SurfaceId,
    pub taken: Map<RenderLayerKey, LayerStateV>,
    pub cache: Map<RenderLayerKey, LayerStateV>,
}

/// Outcome of resolving a layer's surface: the updated pass state, the
/// resolved cache entry, and the commands emitted while resolving.
pub ghost struct Resolved {
    pub st: FrameSt,
    pub state: LayerStateV,
    pub cmds: Seq<DrawCmd>,
}

/// Outcome of drawing a layer subtree: the updated pass state and the
/// commands emitted.
pub ghost struct StepRes {
    pub st: FrameSt,
    pub cmds: Seq<DrawCmd>,
}

/// The cache map, seen at the spec level.
pub open spec fn lift_cache(m: Map<RenderLayerKey, LayerState>) -> Map<
    RenderLayerKey,
    LayerStateV,
> {
    m.map_values(|s: LayerState| s@)
}

/// Lifting the cache map commutes with insertion.
pub proof fn lemma_lift_insert(m: Map<RenderLayerKey, LayerState>, k: RenderLayerKey, v: LayerState)
    ensures
        lift_cache(m.insert(k, v)) == lift_cache(m).insert(k, v@),
{
    assert(lift_cache(m.insert(k, v)) =~= lift_cache(m).insert(k, v@));
}

/// Lifting the cache map commutes with removal.
pub proof fn lemma_lift_remove(m: Map<RenderLayerKey, LayerState>, k: RenderLayerKey)
    ensures
        lift_cache(m.remove(k)) == lift_cache(m).remove(k),
{
    assert(lift_cache(m.remove(k)) =~= lift_cache(m).remove(k));
}

/// Lifting the empty cache map gives the empty map.
pub proof fn lemma_lift_empty()
    ensures
        lift_cache(Map::<RenderLayerKey, LayerState>::empty()) == Map::<
            RenderLayerKey,
            LayerStateV,
        >::empty(),
{
    assert(lift_cache(Map::<RenderLayerKey, LayerState>::empty()) =~= Map::<
        RenderLayerKey,
        LayerStateV,
    >::empty());
}

/// The drawing target a resolved layer state stands for.
pub open spec fn target_of(state: LayerStateV) -> Target {
    match state.layer {
        DrawLayer::Root => Target::Root,
        DrawLayer::Sublayer(id) => Target::Surface(id),
    }
}

/// Resolving a layer with no usable cache entry: allocate a fresh
/// offscreen surface of the requested physical size, pre-scaled by the
/// device scale, with identity transforms and an empty invalidation set.
pub open spec fn spec_alloc_surface(
    st: FrameSt,
    layer: LayerPaintObject,
    sw: u64,
    sh: u64,
    scale: ScaleFactor,
) -> Resolved {
    let id = st.next_id;
    Resolved {
        st: FrameSt { next_id: (st.next_id + 1) as u64, ..st },
        state: LayerStateV {
            layer: DrawLayer::Sublayer(id),
            surface_width: sw,
            surface_height: sh,
            surface_bounds: layer.surface_bounds,
            total_matrix: spec_identity_matrix(),
            matrix: spec_identity_matrix(),
            invalid_rects: Seq::<Rect>::empty(),
        },
        cmds: seq![
            DrawCmd::CreateSurface(id, sw, sh),
            DrawCmd::Scale(Target::Surface(id), scale.num, scale.den),
        ],
    }
}

/// The commands shifting a cached surface's pixels by the physical
/// scroll delta `(-dx, -dy) * scale`: copy the image into a cleared
/// temporary surface at the shifted offset, then copy it back 1:1.
pub open spec fn spec_shift_cmds(
    src: SurfaceId,
    tmp: SurfaceId,
    sw: u64,
    sh: u64,
    dx: int,
    dy: int,
    scale: ScaleFactor,
) -> Seq<DrawCmd> {
    seq![
        DrawCmd::CreateSurface(tmp, sw, sh),
        DrawCmd::Save(Target::Surface(tmp)),
        DrawCmd::Clear(Target::Surface(tmp)),
        DrawCmd::DrawImage(
            Target::Surface(tmp),
            src,
            (-dx * scale.num) as i64,
            (-dy * scale.num) as i64,
            scale.den,
        ),
        DrawCmd::Restore(Target::Surface(tmp)),
        DrawCmd::Flush,
        DrawCmd::Save(Target::Surface(src)),
        DrawCmd::Clear(Target::Surface(src)),
        DrawCmd::Scale(Target::Surface(src), scale.den, scale.num),
        DrawCmd::DrawImage(Target::Surface(src), tmp, 0, 0, 1),
        DrawCmd::Restore(Target::Surface(src)),
        DrawCmd::Flush,
        DrawCmd::DropSurface(tmp),
    ]
}

/// Resolving a non-root layer's surface against the cache entries taken
/// from the last frame.
///
/// A hit whose physical size matches is reused: unchanged bounds reuse
/// the pixels verbatim; changed bounds shift them by the scroll delta
/// first.  A miss, a size mismatch, or a stale root-tagged entry
/// allocates a fresh surface (a mismatched surface is dropped, never
/// resized in place).  A consumed entry leaves the taken map either way.
pub open spec fn spec_get_graphic_layer(
    st: FrameSt,
    scale: ScaleFactor,
    layer: LayerPaintObject,
    sw: u64,
    sh: u64,
) -> Resolved {
    if st.taken.contains_key(layer.key) {
        let entry = st.taken[layer.key];
        let st1 = FrameSt { taken: st.taken.remove(layer.key), ..st };
        if entry.layer is Sublayer {
            if entry.surface_width != sw || entry.surface_height != sh {
                let fresh = spec_alloc_surface(st1, layer, sw, sh, scale);
                Resolved {
                    cmds: seq![DrawCmd::DropSurface(entry.surface_id())] + fresh.cmds,
                    ..fresh
                }
            } else {
                let dx = layer.surface_bounds.x - entry.surface_bounds.x;
                let dy = layer.surface_bounds.y - entry.surface_bounds.y;
                let moved = LayerStateV { surface_bounds: layer.surface_bounds, ..entry };
                if dx == 0 && dy == 0 {
                    Resolved { st: st1, state: moved, cmds: Seq::<DrawCmd>::empty() }
                } else {
                    Resolved {
                        st: FrameSt { next_id: (st1.next_id + 1) as u64, ..st1 },
                        state: moved,
                        cmds: spec_shift_cmds(entry.surface_id(), st1.next_id, sw, sh, dx, dy, scale),
                    }
                }
            }
        } else {
            spec_alloc_surface(st1, layer, sw, sh, scale)
        }
    } else {
        spec_alloc_surface(st, layer, sw, sh, scale)
    }
}

/// The synthesized state for the root layer: no offscreen surface,
/// drawing happens straight on the final output.  It is never cached.
pub open spec fn spec_root_state(layer: LayerPaintObject, sw: u64, sh: u64) -> LayerStateV {
    LayerStateV {
        layer: DrawLayer::Root,
        surface_width: sw,
        surface_height: sh,
        surface_bounds: layer.surface_bounds,
        total_matrix: spec_identity_matrix(),
        matrix: spec_identity_matrix(),
        invalid_rects: Seq::<Rect>::empty(),
    }
}

/// Stamps the incoming layer's transforms and invalidation set onto a
/// resolved state, as happens every frame whether or not the surface was
/// reused.
pub open spec fn spec_stamp(state: LayerStateV, layer: LayerPaintObject) -> LayerStateV {
    LayerStateV {
        total_matrix: layer.total_matrix,
        matrix: layer.matrix,
        invalid_rects: layer.invalid_rects@,
        ..state
    }
}

/// One `RegionRect` command per rectangle from index `i` on.
pub open spec fn region_rect_cmds(t: Target, rects: Vec<Rect>, i: int) -> Seq<DrawCmd>
    decreases rects.len() - i,
{
    if i < 0 || i >= rects.len() {
        Seq::<DrawCmd>::empty()
    } else {
        seq![DrawCmd::RegionRect(t, rects[i])] + region_rect_cmds(t, rects, i + 1)
    }
}

/// The partial-redraw clip: nothing when no region is invalid (the
/// previous content is reused verbatim), else clip to the union of the
/// invalid rectangles intersected with the layer box, and clear that
/// region to transparent.
pub open spec fn spec_clip_invalid_cmds(t: Target, layer: LayerPaintObject) -> Seq<DrawCmd> {
    if layer.invalid_rects@.len() == 0 {
        Seq::<DrawCmd>::empty()
    } else {
        seq![DrawCmd::RegionBegin(t)] + region_rect_cmds(t, layer.invalid_rects.rects, 0) + seq![
            DrawCmd::RegionClip(t),
            DrawCmd::ClipRect(t, Rect { x: 0, y: 0, width: layer.width, height: layer.height }),
            DrawCmd::Clear(t),
        ]
    }
}

/// The content phase of one layer: translate into surface-local space,
/// apply the partial-redraw clip and clear, draw the layer's elements in
/// order, restore, flush.
pub open spec fn spec_layer_content_cmds(cfg: FrameCfg, t: Target, layer: LayerPaintObject) -> Seq<
    DrawCmd,
> {
    seq![
        DrawCmd::Save(t),
        DrawCmd::Translate(
            t,
            (-(layer.surface_bounds.x as int)) as i64,
            (-(layer.surface_bounds.y as int)) as i64,
        ),
    ] + spec_clip_invalid_cmds(t, layer) + children_cmds(cfg.debug.show_focus_hint, t,
        layer.elements, 0) + seq![DrawCmd::Restore(t), DrawCmd::Flush]
}

/// One `StrokeRect` command per rectangle from index `i` on.
pub open spec fn stroke_rect_cmds(t: Target, rects: Seq<Rect>, i: int) -> Seq<DrawCmd>
    decreases rects.len() - i,
{
    if i < 0 || i >= rects.len() {
        Seq::<DrawCmd>::empty()
    } else {
        seq![DrawCmd::StrokeRect(t, rects[i])] + stroke_rect_cmds(t, rects, i + 1)
    }
}

/// Blitting a resolved layer into the output: nothing for the root
/// state (its content was drawn straight onto the output), else the
/// surface image drawn at the layer's bounds origin scaled back by the
/// inverse device scale, followed by the optional repaint-area and
/// layer-hint overlays.
pub open spec fn spec_submit_cmds(cfg: FrameCfg, lpo: LayerPaintObject, state: LayerStateV) -> Seq<
    DrawCmd,
> {
    match state.layer {
        DrawLayer::Root => Seq::<DrawCmd>::empty(),
        DrawLayer::Sublayer(id) => seq![
            DrawCmd::Save(Target::Root),
            DrawCmd::Translate(
                Target::Root,
                state.surface_bounds.x as i64,
                state.surface_bounds.y as i64,
            ),
            DrawCmd::Scale(Target::Root, cfg.scale.den, cfg.scale.num),
            DrawCmd::DrawImageLinear(Target::Root, id),
            DrawCmd::Restore(Target::Root),
        ] + (if cfg.debug.show_repaint_area {
            seq![
                DrawCmd::Save(Target::Root),
                DrawCmd::Scale(Target::Root, cfg.scale.num, cfg.scale.den),
            ] + (if state.invalid_rects.len() > 0 {
                stroke_rect_cmds(Target::Root, state.invalid_rects, 0)
            } else {
                Seq::<DrawCmd>::empty()
            }) + seq![DrawCmd::Restore(Target::Root)]
        } else {
            Seq::<DrawCmd>::empty()
        }) + (if cfg.debug.show_layer_hint {
            seq![DrawCmd::HintRect(Target::Root, lpo.width, lpo.height)]
        } else {
            Seq::<DrawCmd>::empty()
        }),
    }
}

/// The clip applied when compositing a layer into the output: its
/// explicit clip rectangle, or its layer box.
pub open spec fn spec_layer_clip(layer: LayerPaintObject) -> Rect {
    match layer.clip_rect {
        Some(r) => r,
        None => Rect { x: 0, y: 0, width: layer.width, height: layer.height },
    }
}

/// The composite phase of one layer: under the layer's cumulative
/// transform and clip, blit the layer's surface into the output, flush,
/// and reset the output transform.
pub open spec fn spec_composite_cmds(
    cfg: FrameCfg,
    layer: LayerPaintObject,
    state: LayerStateV,
) -> Seq<DrawCmd> {
    seq![
        DrawCmd::Save(Target::Root),
        DrawCmd::Concat(Target::Root, layer.total_matrix),
        DrawCmd::ClipRect(Target::Root, spec_layer_clip(layer)),
    ] + spec_submit_cmds(cfg, layer, state) + seq![
        DrawCmd::Flush,
        DrawCmd::RestoreMatrix(Target::Root),
    ]
}

/// How many fresh surface ids drawing one layer subtree can consume at
/// most: one per layer (a fresh allocation and a scroll-shift temporary
/// are mutually exclusive).
pub open spec fn spec_layer_budget(layer: LayerPaintObject) -> nat
    decreases layer, 1int,
{
    1 + spec_layers_budget(layer.layers, 0)
}

/// The id budget of the layers from index `i` on.
pub open spec fn spec_layers_budget(ls: Vec<LayerPaintObject>, i: int) -> nat
    decreases ls, ls.len() - i,
{
    if i < 0 || i >= ls.len() {
        0nat
    } else {
        spec_layer_budget(ls[i]) + spec_layers_budget(ls, i + 1)
    }
}

/// Resolving a layer's state: the root layer synthesizes a state that
/// draws straight on the output and emits nothing; any other layer goes
/// through the cache.
pub open spec fn spec_resolve(
    cfg: FrameCfg,
    st: FrameSt,
    layer: LayerPaintObject,
    is_root: bool,
    sw: u64,
    sh: u64,
) -> Resolved {
    if is_root {
        Resolved { st, state: spec_root_state(layer, sw, sh), cmds: Seq::<DrawCmd>::empty() }
    } else {
        spec_get_graphic_layer(st, cfg.scale, layer, sw, sh)
    }
}

/// Drawing one layer subtree.
///
/// An invisible layer (non-positive logical extent) contributes nothing
/// at all.  Otherwise: resolve the surface (root layers use the output
/// directly), stamp the frame's transforms and invalidation set, draw
/// the content phase into the resolved surface, composite it into the
/// output, store the state back into the cache (non-root, caching on) or
/// release its surface (caching off), then draw the nested layers in
/// order, and pop the output state saved by the composite phase.
pub open spec fn spec_draw_layer(
    cfg: FrameCfg,
    st: FrameSt,
    layer: LayerPaintObject,
    is_root: bool,
) -> StepRes
    decreases layer, 1int,
{
    if layer.surface_bounds.width <= 0 || layer.surface_bounds.height <= 0 {
        StepRes { st, cmds: Seq::<DrawCmd>::empty() }
    } else {
        let sw = spec_physical_extent(layer.surface_bounds.width as int, cfg.scale) as u64;
        let sh = spec_physical_extent(layer.surface_bounds.height as int, cfg.scale) as u64;
        let r = spec_resolve(cfg, st, layer, is_root, sw, sh);
        let state = spec_stamp(r.state, layer);
        let t = target_of(state);
        let content = spec_layer_content_cmds(cfg, t, layer);
        let composite = spec_composite_cmds(cfg, layer, state);
        let st2 = if cfg.cache_enabled && !is_root {
            FrameSt { cache: r.st.cache.insert(layer.key, state), ..r.st }
        } else {
            r.st
        };
        let drop_cmds = if !is_root && !cfg.cache_enabled {
            seq![DrawCmd::DropSurface(state.surface_id())]
        } else {
            Seq::<DrawCmd>::empty()
        };
        let kids = spec_draw_layers(cfg, st2, layer.layers, 0);
        StepRes {
            st: kids.st,
            cmds: r.cmds + content + composite + drop_cmds + kids.cmds + seq![
                DrawCmd::Restore(Target::Root),
            ],
        }
    }
}

/// Drawing the nested layers from index `i` on, threading the pass
/// state left to right.
pub open spec fn spec_draw_layers(
    cfg: FrameCfg,
    st: FrameSt,
    ls: Vec<LayerPaintObject>,
    i: int,
) -> StepRes
    decreases ls, ls.len() - i,
{
    if i < 0 || i >= ls.len() {
        StepRes { st, cmds: Seq::<DrawCmd>::empty() }
    } else {
        let r1 = spec_draw_layer(cfg, st, ls[i], false);
        let r2 = spec_draw_layers(cfg, r1.st, ls, i + 1);
        StepRes { st: r2.st, cmds: r1.cmds + r2.cmds }
    }
}

/// Drawing a layer consumes at most its id budget, and never rolls the
/// id counter back.
pub proof fn lemma_next_id_bound(cfg: FrameCfg, st: FrameSt, layer: LayerPaintObject, is_root: bool)
    requires
        st.next_id + spec_layer_budget(layer) <= u64::MAX,
    ensures
        st.next_id <= spec_draw_layer(cfg, st, layer, is_root).st.next_id,
        spec_draw_layer(cfg, st, layer, is_root).st.next_id <= st.next_id + spec_layer_budget(
            layer,
        ),
    decreases layer, 1int,
{
    if layer.surface_bounds.width <= 0 || layer.surface_bounds.height <= 0 {
    } else {
        let sw = spec_physical_extent(layer.surface_bounds.width as int, cfg.scale) as u64;
        let sh = spec_physical_extent(layer.surface_bounds.height as int, cfg.scale) as u64;
        let r = spec_resolve(cfg, st, layer, is_root, sw, sh);
        assert(st.next_id <= r.st.next_id <= st.next_id + 1);
        let state = spec_stamp(r.state, layer);
        let st2 = if cfg.cache_enabled && !is_root {
            FrameSt { cache: r.st.cache.insert(layer.key, state), ..r.st }
        } else {
            r.st
        };
        lemma_next_ids_bound(cfg, st2, layer.layers, 0);
    }
}

/// Drawing a run of layers consumes at most the sum of their budgets,
/// and never rolls the id counter back.
pub proof fn lemma_next_ids_bound(cfg: FrameCfg, st: FrameSt, ls: Vec<LayerPaintObject>, i: int)
    requires
        st.next_id + spec_layers_budget(ls, i) <= u64::MAX,
    ensures
        st.next_id <= spec_draw_layers(cfg, st, ls, i).st.next_id,
        spec_draw_layers(cfg, st, ls, i).st.next_id <= st.next_id + spec_layers_budget(ls, i),
    decreases ls, ls.len() - i,
{
    if i < 0 || i >= ls.len() {
    } else {
        lemma_next_id_bound(cfg, st, ls[i], false);
        let r1 = spec_draw_layer(cfg, st, ls[i], false);
        lemma_next_ids_bound(cfg, r1.st, ls, i + 1);
    }
}

/// Every surface id a cache map holds lies below `n`.
pub open spec fn ids_below(m: Map<RenderLayerKey, LayerStateV>, n: u64) -> bool {
    forall|k: RenderLayerKey| #[trigger]
        m.contains_key(k) ==> (m[k].layer is Sublayer ==> m[k].surface_id() < n)
}

/// A well-formed pass state: every surface id either cache map holds
/// was handed out before `next_id`, so fresh ids never collide with
/// cached surfaces.
pub open spec fn st_wf(st: FrameSt) -> bool {
    ids_below(st.taken, st.next_id) && ids_below(st.cache, st.next_id)
}

/// Resolving a layer keeps the pass state well formed, and the resolved
/// surface id was handed out before the new counter value.
pub proof fn lemma_get_graphic_layer_wf(
    st: FrameSt,
    scale: ScaleFactor,
    layer: LayerPaintObject,
    sw: u64,
    sh: u64,
)
    requires
        st_wf(st),
        st.next_id < u64::MAX,
    ensures
        ({
            let r = spec_get_graphic_layer(st, scale, layer, sw, sh);
            &&& st_wf(r.st)
            &&& r.state.layer is Sublayer
            &&& r.state.surface_id() < r.st.next_id
            &&& r.st.cache == st.cache
        }),
{
}

/// Drawing a layer keeps the pass state well formed.
pub proof fn lemma_draw_layer_wf(
    cfg: FrameCfg,
    st: FrameSt,
    layer: LayerPaintObject,
    is_root: bool,
)
    requires
        st_wf(st),
        st.next_id + spec_layer_budget(layer) <= u64::MAX,
    ensures
        st_wf(spec_draw_layer(cfg, st, layer, is_root).st),
    decreases layer, 1int,
{
    if layer.surface_bounds.width <= 0 || layer.surface_bounds.height <= 0 {
    } else {
        let sw = spec_physical_extent(layer.surface_bounds.width as int, cfg.scale) as u64;
        let sh = spec_physical_extent(layer.surface_bounds.height as int, cfg.scale) as u64;
        let r = spec_resolve(cfg, st, layer, is_root, sw, sh);
        if !is_root {
            lemma_get_graphic_layer_wf(st, cfg.scale, layer, sw, sh);
        }
        let state = spec_stamp(r.state, layer);
        let st2 = if cfg.cache_enabled && !is_root {
            FrameSt { cache: r.st.cache.insert(layer.key, state), ..r.st }
        } else {
            r.st
        };
        assert(st_wf(st2));
        lemma_next_ids_bound(cfg, st2, layer.layers, 0);
        lemma_draw_layers_wf(cfg, st2, layer.layers, 0);
    }
}

/// Drawing a run of layers keeps the pass state well formed.
pub proof fn lemma_draw_layers_wf(cfg: FrameCfg, st: FrameSt, ls: Vec<LayerPaintObject>, i: int)
    requires
        st_wf(st),
        st.next_id + spec_layers_budget(ls, i) <= u64::MAX,
    ensures
        st_wf(spec_draw_layers(cfg, st, ls, i).st),
    decreases ls, ls.len() - i,
{
    if i < 0 || i >= ls.len() {
    } else {
        lemma_draw_layer_wf(cfg, st, ls[i], false);
        lemma_next_id_bound(cfg, st, ls[i], false);
        let r1 = spec_draw_layer(cfg, st, ls[i], false);
        lemma_draw_layers_wf(cfg, r1.st, ls, i + 1);
    }
}

/// A layer whose key, physical size, and bounds are unchanged reuses
/// its cached surface verbatim: resolving emits no command at all — in
/// particular no allocation — the same surface identity is kept, and
/// the entry comes back unchanged.
pub proof fn lemma_idempotent_cache(
    st: FrameSt,
    scale: ScaleFactor,
    layer: LayerPaintObject,
    sw: u64,
    sh: u64,
)
    requires
        st.taken.contains_key(layer.key),
        st.taken[layer.key].layer is Sublayer,
        st.taken[layer.key].surface_width == sw,
        st.taken[layer.key].surface_height == sh,
        st.taken[layer.key].surface_bounds == layer.surface_bounds,
    ensures
        ({
            let r = spec_get_graphic_layer(st, scale, layer, sw, sh);
            &&& r.cmds == Seq::<DrawCmd>::empty()
            &&& r.state == st.taken[layer.key]
            &&& r.st.next_id == st.next_id
            &&& r.st.taken == st.taken.remove(layer.key)
            &&& r.st.cache == st.cache
        }),
{
}

/// A layer with no invalid region clears nothing: the whole previous
/// surface content is composited as-is.
pub proof fn lemma_no_invalid_no_clear(cfg: FrameCfg, t: Target, layer: LayerPaintObject)
    requires
        layer.invalid_rects@.len() == 0,
    ensures
        spec_clip_invalid_cmds(t, layer) == Seq::<DrawCmd>::empty(),
        !spec_layer_content_cmds(cfg, t, layer).contains(DrawCmd::Clear(t)),
{
    lemma_children_no_clear(cfg.debug.show_focus_hint, t, layer.elements, 0);
    let full = spec_layer_content_cmds(cfg, t, layer);
    assert(full =~= seq![
        DrawCmd::Save(t),
        DrawCmd::Translate(
            t,
            (-(layer.surface_bounds.x as int)) as i64,
            (-(layer.surface_bounds.y as int)) as i64,
        ),
    ] + children_cmds(cfg.debug.show_focus_hint, t, layer.elements, 0) + seq![
        DrawCmd::Restore(t),
        DrawCmd::Flush,
    ]);
    assert forall|i: int| 0 <= i < full.len() implies full[i] != DrawCmd::Clear(t) by {
        if 2 <= i < 2 + children_cmds(cfg.debug.show_focus_hint, t, layer.elements, 0).len() {
            assert(full[i] == children_cmds(cfg.debug.show_focus_hint, t, layer.elements, 0)[i
                - 2]);
        }
    }
    if full.contains(DrawCmd::Clear(t)) {
        let i = choose|i: int| 0 <= i < full.len() && full[i] == DrawCmd::Clear(t);
        assert(false);
    }
}

/// No element ever emits a `Clear`: clearing happens only in the
/// layer's own invalid-region pass.
pub proof fn lemma_element_no_clear(focus_hint: bool, t: Target, e: ElementPaintObject)
    ensures
        forall|i: int|
            0 <= i < element_cmds(focus_hint, t, e).len() ==> #[trigger] element_cmds(
                focus_hint,
                t,
                e,
            )[i] != DrawCmd::Clear(t),
    decreases e, 1int,
{
    if !e.need_paint && e.children.len() == 0 {
    } else {
        lemma_children_no_clear(focus_hint, t, e.children, 0);
    }
}

/// No child element emits a `Clear`.
pub proof fn lemma_children_no_clear(
    focus_hint: bool,
    t: Target,
    es: Vec<ElementPaintObject>,
    i: int,
)
    ensures
        forall|j: int|
            0 <= j < children_cmds(focus_hint, t, es, i).len() ==> #[trigger] children_cmds(
                focus_hint,
                t,
                es,
                i,
            )[j] != DrawCmd::Clear(t),
    decreases es, es.len() - i,
{
    if i < 0 || i >= es.len() {
    } else {
        lemma_element_no_clear(focus_hint, t, es[i]);
        lemma_children_no_clear(focus_hint, t, es, i + 1);
    }
}

/// A layer whose requested physical size changed gets a genuinely new
/// surface at the new size: the old surface is dropped, a fresh id is
/// allocated — never the old one — and nothing is resized in place.
pub proof fn lemma_size_change(
    st: FrameSt,
    scale: ScaleFactor,
    layer: LayerPaintObject,
    sw: u64,
    sh: u64,
)
    requires
        st_wf(st),
        st.next_id < u64::MAX,
        st.taken.contains_key(layer.key),
        st.taken[layer.key].layer is Sublayer,
        st.taken[layer.key].surface_width != sw || st.taken[layer.key].surface_height != sh,
    ensures
        ({
            let entry = st.taken[layer.key];
            let r = spec_get_graphic_layer(st, scale, layer, sw, sh);
            &&& r.state.layer == DrawLayer::Sublayer(st.next_id)
            &&& r.state.surface_id() != entry.surface_id()
            &&& r.state.surface_width == sw
            &&& r.state.surface_height == sh
            &&& r.cmds == seq![
                DrawCmd::DropSurface(entry.surface_id()),
                DrawCmd::CreateSurface(st.next_id, sw, sh),
                DrawCmd::Scale(Target::Surface(st.next_id), scale.num, scale.den),
            ]
            &&& r.st.next_id == st.next_id + 1
        }),
{
    let entry = st.taken[layer.key];
    let r = spec_get_graphic_layer(st, scale, layer, sw, sh);
    assert(entry.surface_id() < st.next_id);
    assert(r.cmds =~= seq![
        DrawCmd::DropSurface(entry.surface_id()),
        DrawCmd::CreateSurface(st.next_id, sw, sh),
        DrawCmd::Scale(Target::Surface(st.next_id), scale.num, scale.den),
    ]);
}

/// A layer whose size is unchanged but whose bounds origin moved by
/// `(dx, dy)` keeps its surface and has its pixels shifted by exactly
/// `(-dx, -dy)` scaled to physical pixels, before any invalid-region
/// redraw: content previously at `(x, y)` reappears at `(x-dx, y-dy)`.
pub proof fn lemma_scroll_shift(
    st: FrameSt,
    scale: ScaleFactor,
    layer: LayerPaintObject,
    sw: u64,
    sh: u64,
)
    requires
        st.next_id < u64::MAX,
        st.taken.contains_key(layer.key),
        st.taken[layer.key].layer is Sublayer,
        st.taken[layer.key].surface_width == sw,
        st.taken[layer.key].surface_height == sh,
        st.taken[layer.key].surface_bounds.x != layer.surface_bounds.x
            || st.taken[layer.key].surface_bounds.y != layer.surface_bounds.y,
    ensures
        ({
            let entry = st.taken[layer.key];
            let dx = layer.surface_bounds.x - entry.surface_bounds.x;
            let dy = layer.surface_bounds.y - entry.surface_bounds.y;
            let r = spec_get_graphic_layer(st, scale, layer, sw, sh);
            &&& r.state.layer == entry.layer
            &&& r.state.surface_bounds == layer.surface_bounds
            &&& r.cmds == spec_shift_cmds(entry.surface_id(), st.next_id, sw, sh, dx, dy, scale)
            &&& r.cmds[3] == DrawCmd::DrawImage(
                Target::Surface(st.next_id),
                entry.surface_id(),
                (-dx * scale.num) as i64,
                (-dy * scale.num) as i64,
                scale.den,
            )
            &&& r.st.next_id == st.next_id + 1
        }),
{
}

/// A layer whose key has no cache entry — as every layer after the
/// cache was dropped — is rebuilt from scratch on a fresh surface.
pub proof fn lemma_cache_miss_rebuilds(
    st: FrameSt,
    scale: ScaleFactor,
    layer: LayerPaintObject,
    sw: u64,
    sh: u64,
)
    requires
        st.next_id < u64::MAX,
        !st.taken.contains_key(layer.key),
    ensures
        ({
            let r = spec_get_graphic_layer(st, scale, layer, sw, sh);
            &&& r.state.layer == DrawLayer::Sublayer(st.next_id)
            &&& r.state.surface_width == sw
            &&& r.state.surface_height == sh
            &&& r.cmds == seq![
                DrawCmd::CreateSurface(st.next_id, sw, sh),
                DrawCmd::Scale(Target::Surface(st.next_id), scale.num, scale.den),
            ]
            &&& r.st.next_id == st.next_id + 1
        }),
{
}

/// Stacking order: for a layer with elements `[A, B]` and nested layers
/// `[L1, L2]`, the command list draws A, then B, into the layer's
/// surface, composites that surface, and only then emits L1's commands
/// followed by L2's — so each later part can occlude the earlier ones.
#[verifier::rlimit(100)]
#[verifier::spinoff_prover]
pub proof fn lemma_stacking_order(
    cfg: FrameCfg,
    st: FrameSt,
    layer: LayerPaintObject,
    is_root: bool,
)
    requires
        layer.surface_bounds.width > 0,
        layer.surface_bounds.height > 0,
        layer.elements@.len() == 2,
        layer.layers@.len() == 2,
    ensures
        ({
            let sw = spec_physical_extent(layer.surface_bounds.width as int, cfg.scale) as u64;
            let sh = spec_physical_extent(layer.surface_bounds.height as int, cfg.scale) as u64;
            let r = spec_resolve(cfg, st, layer, is_root, sw, sh);
            let state = spec_stamp(r.state, layer);
            let t = target_of(state);
            let st2 = if cfg.cache_enabled && !is_root {
                FrameSt { cache: r.st.cache.insert(layer.key, state), ..r.st }
            } else {
                r.st
            };
            let a = element_cmds(cfg.debug.show_focus_hint, t, layer.elements[0]);
            let b = element_cmds(cfg.debug.show_focus_hint, t, layer.elements[1]);
            let l1 = spec_draw_layer(cfg, st2, layer.layers[0], false);
            let l2 = spec_draw_layer(cfg, l1.st, layer.layers[1], false);
            let drop_cmds = if !is_root && !cfg.cache_enabled {
                seq![DrawCmd::DropSurface(state.surface_id())]
            } else {
                Seq::<DrawCmd>::empty()
            };
            &&& spec_draw_layer(cfg, st, layer, is_root).cmds == r.cmds
                + spec_layer_content_cmds(cfg, t, layer) + spec_composite_cmds(cfg, layer, state)
                + drop_cmds + (l1.cmds + l2.cmds) + seq![DrawCmd::Restore(Target::Root)]
            &&& spec_layer_content_cmds(cfg, t, layer) == seq![
                DrawCmd::Save(t),
                DrawCmd::Translate(
                    t,
                    (-(layer.surface_bounds.x as int)) as i64,
                    (-(layer.surface_bounds.y as int)) as i64,
                ),
            ] + spec_clip_invalid_cmds(t, layer) + (a + b) + seq![
                DrawCmd::Restore(t),
                DrawCmd::Flush,
            ]
        }),
{
    let fh = cfg.debug.show_focus_hint;
    let sw = spec_physical_extent(layer.surface_bounds.width as int, cfg.scale) as u64;
    let sh = spec_physical_extent(layer.surface_bounds.height as int, cfg.scale) as u64;
    let r = spec_resolve(cfg, st, layer, is_root, sw, sh);
    let state = spec_stamp(r.state, layer);
    let t = target_of(state);
    let st2 = if cfg.cache_enabled && !is_root {
        FrameSt { cache: r.st.cache.insert(layer.key, state), ..r.st }
    } else {
        r.st
    };
    let a = element_cmds(fh, t, layer.elements[0]);
    let b = element_cmds(fh, t, layer.elements[1]);
    assert(children_cmds(fh, t, layer.elements, 2) =~= Seq::<DrawCmd>::empty());
    assert(children_cmds(fh, t, layer.elements, 1) == b + children_cmds(fh, t, layer.elements, 2));
    assert(children_cmds(fh, t, layer.elements, 1) =~= b);
    assert(children_cmds(fh, t, layer.elements, 0) == a + children_cmds(fh, t, layer.elements, 1));
    let l1 = spec_draw_layer(cfg, st2, layer.layers[0], false);
    let l2 = spec_draw_layer(cfg, l1.st, layer.layers[1], false);
    let kids = spec_draw_layers(cfg, st2, layer.layers, 0);
    assert(spec_draw_layers(cfg, l2.st, layer.layers, 2).cmds =~= Seq::<DrawCmd>::empty());
    assert(spec_draw_layers(cfg, l1.st, layer.layers, 1).cmds == l2.cmds + spec_draw_layers(
        cfg,
        l2.st,
        layer.layers,
        2,
    ).cmds);
    assert(spec_draw_layers(cfg, l1.st, layer.layers, 1).cmds =~= l2.cmds);
    assert(kids.cmds == l1.cmds + spec_draw_layers(cfg, l1.st, layer.layers, 1).cmds);
}

/// The compositor.  It owns the persistent layer cache and the device
/// scale, and turns one layer tree per frame into a drawing command
/// list.
pub struct ElementPainter {
    /// Device scale factor.
    pub scale: ScaleFactor,
    /// Current viewport rectangle.
    pub viewport: Rect,
    /// Persistent cache: layer key to the state it was rendered under.
    pub layer_state_map: HashMap<RenderLayerKey, LayerState>,
    /// Whether resolved layer states are kept for the next frame.
    pub layer_cache_enabled: bool,
    /// The next offscreen surface id to hand out.
    pub next_surface_id: SurfaceId,
    /// Diagnostic overlay switches.
    pub debug: DebugOptions,
}

impl ElementPainter {
    /// The configuration this painter composites under.
    pub open spec fn cfg(self) -> FrameCfg {
        FrameCfg {
            scale: self.scale,
            cache_enabled: self.layer_cache_enabled,
            debug: self.debug,
        }
    }

    /// A well-formed painter has a well-formed scale factor.
    pub open spec fn wf(self) -> bool {
        self.scale.wf()
    }

    /// A fresh painter: scale 1, empty viewport, empty cache, caching
    /// disabled.
    pub fn new(debug: DebugOptions) -> (r: ElementPainter)
        ensures
            r.scale == (ScaleFactor { num: 1, den: 1 }),
            r.viewport == (Rect { x: 0, y: 0, width: 0, height: 0 }),
            lift_cache(r.layer_state_map@) == Map::<RenderLayerKey, LayerStateV>::empty(),
            !r.layer_cache_enabled,
            r.next_surface_id == 0,
            r.debug == debug,
            r.wf(),
    {
        let r = ElementPainter {
            scale: ScaleFactor::one(),
            viewport: Rect::new_empty(),
            layer_state_map: HashMap::new(),
            layer_cache_enabled: false,
            next_surface_id: 0,
            debug,
        };
        proof {
            lemma_lift_empty();
        }
        r
    }

    /// Sets the device scale factor and the viewport.
    pub fn update_viewport(&mut self, scale: ScaleFactor, viewport: Rect)
        requires
            scale.wf(),
        ensures
            final(self).scale == scale,
            final(self).viewport == viewport,
            final(self).layer_state_map == old(self).layer_state_map,
            final(self).layer_cache_enabled == old(self).layer_cache_enabled,
            final(self).next_surface_id == old(self).next_surface_id,
            final(self).debug == old(self).debug,
            final(self).wf(),
    {
        self.scale = scale;
        self.viewport = viewport;
    }

    /// Enables or disables layer caching.  Disabling drops every cache
    /// entry at once, so the next frame rebuilds every layer.
    pub fn set_layer_cache(&mut self, layer_cache_enabled: bool)
        ensures
            final(self).layer_cache_enabled == layer_cache_enabled,
            layer_cache_enabled ==> final(self).layer_state_map == old(self).layer_state_map,
            !layer_cache_enabled ==> lift_cache(final(self).layer_state_map@) == Map::<
                RenderLayerKey,
                LayerStateV,
            >::empty(),
            final(self).scale == old(self).scale,
            final(self).viewport == old(self).viewport,
            final(self).next_surface_id == old(self).next_surface_id,
            final(self).debug == old(self).debug,
    {
        self.layer_cache_enabled = layer_cache_enabled;
        if !layer_cache_enabled {
            self.layer_state_map.clear();
            proof {
                lemma_lift_empty();
            }
        }
    }

    /// Emits the commands painting one element's own box.
    fn draw_element_paint_object(
        &self,
        out: &mut Vec<DrawCmd>,
        t: Target,
        node: &ElementPaintObject,
    )
        ensures
            final(out)@ == old(out)@ + element_paint_cmds(self.debug.show_focus_hint, t, *node),
    {
        out.push(DrawCmd::Save(t));
        out.push(DrawCmd::DrawBackground(t, node.element_id));
        out.push(DrawCmd::DrawBorder(t, node.element_id));
        out.push(DrawCmd::Save(t));
        if node.width > 0 && node.height > 0 {
            let (border_top_width, _r, _b, border_left_width) = node.border_width;
            out.push(DrawCmd::Translate(t, border_left_width as i64, border_top_width as i64));
            if let Some(render_fn) = node.render_fn {
                out.push(DrawCmd::RunCallback(t, render_fn));
            }
        }
        out.push(DrawCmd::Restore(t));
        if self.debug.show_focus_hint && node.focused {
            out.push(DrawCmd::HintRect(t, node.width, node.height));
        }
        out.push(DrawCmd::Restore(t));
        proof {
            assert(out@ =~= old(out)@ + element_paint_cmds(self.debug.show_focus_hint, t, *node));
        }
    }

    /// Draws one element subtree: emits exactly the commands
    /// `element_cmds` describes for it.
    #[verifier::loop_isolation(false)]
    pub fn draw_element_object_recurse(
        &self,
        out: &mut Vec<DrawCmd>,
        t: Target,
        epo: &ElementPaintObject,
    )
        ensures
            final(out)@ == old(out)@ + element_cmds(self.debug.show_focus_hint, t, *epo),
        decreases *epo,
    {
        let ghost fh = self.debug.show_focus_hint;
        if !epo.need_paint && epo.children.len() == 0 {
            proof {
                assert(out@ =~= old(out)@ + element_cmds(fh, t, *epo));
            }
            return ;
        }
        out.push(DrawCmd::Save(t));
        out.push(DrawCmd::Translate(t, epo.coord.0 as i64, epo.coord.1 as i64));
        out.push(DrawCmd::ClipPath(t, epo.border_box_path));
        if epo.need_paint {
            self.draw_element_paint_object(out, t, epo);
        }
        let ghost mid = out@;
        proof {
            assert(mid =~= old(out)@ + seq![
                DrawCmd::Save(t),
                DrawCmd::Translate(t, epo.coord.0 as i64, epo.coord.1 as i64),
                DrawCmd::ClipPath(t, epo.border_box_path),
            ] + (if epo.need_paint {
                element_paint_cmds(fh, t, *epo)
            } else {
                Seq::<DrawCmd>::empty()
            }));
        }
        let mut i: usize = 0;
        while i < epo.children.len()
            invariant
                i <= epo.children.len(),
                out@ + children_cmds(fh, t, epo.children, i as int) == mid + children_cmds(
                    fh,
                    t,
                    epo.children,
                    0,
                ),
            decreases epo.children.len() - i,
        {
            let ghost before = out@;
            let child = &epo.children[i];
            self.draw_element_object_recurse(out, t, child);
            proof {
                let elem = element_cmds(fh, t, *child);
                assert(children_cmds(fh, t, epo.children, i as int) == elem + children_cmds(
                    fh,
                    t,
                    epo.children,
                    i as int + 1,
                ));
                assert(out@ + children_cmds(fh, t, epo.children, i as int + 1) =~= before
                    + children_cmds(fh, t, epo.children, i as int));
            }
            i = i + 1;
        }
        out.push(DrawCmd::Restore(t));
        proof {
            assert(children_cmds(fh, t, epo.children, epo.children.len() as int) =~= Seq::<
                DrawCmd,
            >::empty());
            assert(out@ =~= old(out)@ + element_cmds(fh, t, *epo));
        }
    }

    /// Allocates a fresh offscreen surface for a layer, pre-scaled by
    /// the device scale.
    fn alloc_surface(
        &mut self,
        out: &mut Vec<DrawCmd>,
        layer: &LayerPaintObject,
        surface_width: u64,
        surface_height: u64,
    ) -> (state: LayerState)
        requires
            old(self).wf(),
            old(self).next_surface_id < u64::MAX,
        ensures
            final(self).next_surface_id == old(self).next_surface_id + 1,
            state@ == (LayerStateV {
                layer: DrawLayer::Sublayer(old(self).next_surface_id),
                surface_width,
                surface_height,
                surface_bounds: layer.surface_bounds,
                total_matrix: spec_identity_matrix(),
                matrix: spec_identity_matrix(),
                invalid_rects: Seq::<Rect>::empty(),
            }),
            final(out)@ == old(out)@ + seq![
                DrawCmd::CreateSurface(old(self).next_surface_id, surface_width, surface_height),
                DrawCmd::Scale(
                    Target::Surface(old(self).next_surface_id),
                    old(self).scale.num,
                    old(self).scale.den,
                ),
            ],
            final(self).scale == old(self).scale,
            final(self).viewport == old(self).viewport,
            final(self).layer_state_map == old(self).layer_state_map,
            final(self).layer_cache_enabled == old(self).layer_cache_enabled,
            final(self).debug == old(self).debug,
    {
        let id = self.next_surface_id;
        self.next_surface_id = self.next_surface_id + 1;
        out.push(DrawCmd::CreateSurface(id, surface_width, surface_height));
        out.push(DrawCmd::Scale(Target::Surface(id), self.scale.num, self.scale.den));
        proof {
            assert(out@ =~= old(out)@ + seq![
                DrawCmd::CreateSurface(id, surface_width, surface_height),
                DrawCmd::Scale(Target::Surface(id), self.scale.num, self.scale.den),
            ]);
        }
        LayerState {
            layer: DrawLayer::Sublayer(id),
            surface_width,
            surface_height,
            surface_bounds: layer.surface_bounds,
            total_matrix: Matrix::identity(),
            matrix: Matrix::identity(),
            invalid_rects: InvalidRects::new(),
        }
    }

    /// Resolves the surface a non-root layer draws into: reuses the
    /// cache entry taken out of `layer_state_map` when the physical size
    /// matches (shifting its pixels by the scroll delta when the bounds
    /// origin moved), and rebuilds from scratch otherwise, exactly as
    /// `spec_get_graphic_layer` describes.
    fn get_graphic_layer(
        &mut self,
        out: &mut Vec<DrawCmd>,
        layer: &LayerPaintObject,
        layer_state_map: &mut HashMap<RenderLayerKey, LayerState>,
        surface_width: u64,
        surface_height: u64,
    ) -> (state: LayerState)
        requires
            old(self).wf(),
            old(self).next_surface_id < u64::MAX,
        ensures
            ({
                let r = spec_get_graphic_layer(
                    FrameSt {
                        next_id: old(self).next_surface_id,
                        taken: lift_cache(old(layer_state_map)@),
                        cache: lift_cache(old(self).layer_state_map@),
                    },
                    old(self).scale,
                    *layer,
                    surface_width,
                    surface_height,
                );
                &&& state@ == r.state
                &&& final(out)@ == old(out)@ + r.cmds
                &&& lift_cache(final(layer_state_map)@) == r.st.taken
                &&& final(self).next_surface_id == r.st.next_id
            }),
            final(self).scale == old(self).scale,
            final(self).viewport == old(self).viewport,
            final(self).layer_state_map == old(self).layer_state_map,
            final(self).layer_cache_enabled == old(self).layer_cache_enabled,
            final(self).debug == old(self).debug,
    {
        let removed = layer_state_map.remove(&layer.key);
        proof {
            lemma_lift_remove(old(layer_state_map)@, layer.key);
        }
        match removed {
            None => self.alloc_surface(out, layer, surface_width, surface_height),
            Some(ogl_state) => {
                match ogl_state.layer {
                    DrawLayer::Root => self.alloc_surface(out, layer, surface_width, surface_height),
                    DrawLayer::Sublayer(src_id) => {
                        if ogl_state.surface_width != surface_width || ogl_state.surface_height
                            != surface_height {
                            out.push(DrawCmd::DropSurface(src_id));
                            let state = self.alloc_surface(out, layer, surface_width, surface_height);
                            proof {
                                let r = spec_get_graphic_layer(
                                    FrameSt {
                                        next_id: old(self).next_surface_id,
                                        taken: lift_cache(old(layer_state_map)@),
                                        cache: lift_cache(old(self).layer_state_map@),
                                    },
                                    old(self).scale,
                                    *layer,
                                    surface_width,
                                    surface_height,
                                );
                                assert(out@ =~= old(out)@ + r.cmds);
                            }
                            state
                        } else {
                            let dx = (layer.surface_bounds.x as i64) - (ogl_state.surface_bounds.x
                                as i64);
                            let dy = (layer.surface_bounds.y as i64) - (ogl_state.surface_bounds.y
                                as i64);
                            if dx != 0 || dy != 0 {
                                let tmp = self.next_surface_id;
                                self.next_surface_id = self.next_surface_id + 1;
                                let num = self.scale.num as i64;
                                proof {
                                    assert(dx * num <= 0x1_0000_0000i64 * 0x10000i64 && dx * num
                                        >= -0x1_0000_0000i64 * 0x10000i64 && dy * num
                                        <= 0x1_0000_0000i64 * 0x10000i64 && dy * num
                                        >= -0x1_0000_0000i64 * 0x10000i64) by (nonlinear_arith)
                                        requires
                                            -0x1_0000_0000i64 <= dx <= 0x1_0000_0000i64,
                                            -0x1_0000_0000i64 <= dy <= 0x1_0000_0000i64,
                                            1 <= num <= 0x10000i64,
                                    ;
                                }
                                let ox = -(dx * num);
                                let oy = -(dy * num);
                                let tt = Target::Surface(tmp);
                                let ts = Target::Surface(src_id);
                                out.push(DrawCmd::CreateSurface(tmp, surface_width, surface_height));
                                out.push(DrawCmd::Save(tt));
                                out.push(DrawCmd::Clear(tt));
                                out.push(DrawCmd::DrawImage(tt, src_id, ox, oy, self.scale.den));
                                out.push(DrawCmd::Restore(tt));
                                out.push(DrawCmd::Flush);
                                out.push(DrawCmd::Save(ts));
                                out.push(DrawCmd::Clear(ts));
                                out.push(DrawCmd::Scale(ts, self.scale.den, self.scale.num));
                                out.push(DrawCmd::DrawImage(ts, tmp, 0, 0, 1));
                                out.push(DrawCmd::Restore(ts));
                                out.push(DrawCmd::Flush);
                                out.push(DrawCmd::DropSurface(tmp));
                                let state = LayerState {
                                    surface_bounds: layer.surface_bounds,
                                    ..ogl_state
                                };
                                proof {
                                    let sdx = layer.surface_bounds.x - ogl_state.surface_bounds.x;
                                    let sdy = layer.surface_bounds.y - ogl_state.surface_bounds.y;
                                    assert(sdx == dx as int && sdy == dy as int);
                                    assert(-sdx * self.scale.num == ox as int && -sdy
                                        * self.scale.num == oy as int) by (nonlinear_arith)
                                        requires
                                            sdx == dx as int,
                                            sdy == dy as int,
                                            num == self.scale.num as int,
                                            ox as int == -(dx as int * num as int),
                                            oy as int == -(dy as int * num as int),
                                    ;
                                    assert((-sdx * self.scale.num) as i64 == ox);
                                    assert((-sdy * self.scale.num) as i64 == oy);
                                    assert(out@ =~= old(out)@ + spec_shift_cmds(
                                        src_id,
                                        tmp,
                                        surface_width,
                                        surface_height,
                                        sdx,
                                        sdy,
                                        self.scale,
                                    ));
                                }
                                state
                            } else {
                                LayerState { surface_bounds: layer.surface_bounds, ..ogl_state }
                            }
                        }
                    }
                }
            }
        }
    }

    /// Emits the stroke of a hint box of the given logical extent.
    fn paint_hit_rect(out: &mut Vec<DrawCmd>, t: Target, width: i32, height: i32)
        ensures
            final(out)@ == old(out)@.push(DrawCmd::HintRect(t, width, height)),
    {
        out.push(DrawCmd::HintRect(t, width, height));
    }

    /// Blits a resolved layer into the output, exactly as
    /// `spec_submit_cmds` describes.
    #[verifier::loop_isolation(false)]
    fn submit_layer(&self, out: &mut Vec<DrawCmd>, lpo: &LayerPaintObject, state: &LayerState)
        ensures
            final(out)@ == old(out)@ + spec_submit_cmds(self.cfg(), *lpo, state@),
    {
        match state.layer {
            DrawLayer::Root => {
                proof {
                    assert(out@ =~= old(out)@ + spec_submit_cmds(self.cfg(), *lpo, state@));
                }
            },
            DrawLayer::Sublayer(id) => {
                out.push(DrawCmd::Save(Target::Root));
                out.push(DrawCmd::Translate(
                    Target::Root,
                    state.surface_bounds.x as i64,
                    state.surface_bounds.y as i64,
                ));
                out.push(DrawCmd::Scale(Target::Root, self.scale.den, self.scale.num));
                out.push(DrawCmd::DrawImageLinear(Target::Root, id));
                out.push(DrawCmd::Restore(Target::Root));
                if self.debug.show_repaint_area {
                    out.push(DrawCmd::Save(Target::Root));
                    out.push(DrawCmd::Scale(Target::Root, self.scale.num, self.scale.den));
                    if state.invalid_rects.rects.len() > 0 {
                        let ghost mid = out@;
                        let rects = &state.invalid_rects.rects;
                        let mut i: usize = 0;
                        while i < rects.len()
                            invariant
                                i <= rects.len(),
                                out@ + stroke_rect_cmds(Target::Root, rects@, i as int) == mid
                                    + stroke_rect_cmds(Target::Root, rects@, 0),
                            decreases rects.len() - i,
                        {
                            let ghost before = out@;
                            out.push(DrawCmd::StrokeRect(Target::Root, rects[i]));
                            proof {
                                assert(stroke_rect_cmds(Target::Root, rects@, i as int) == seq![
                                    DrawCmd::StrokeRect(Target::Root, rects@[i as int]),
                                ] + stroke_rect_cmds(Target::Root, rects@, i as int + 1));
                                assert(out@ + stroke_rect_cmds(Target::Root, rects@, i as int + 1)
                                    =~= before + stroke_rect_cmds(Target::Root, rects@, i as int));
                            }
                            i = i + 1;
                        }
                        proof {
                            assert(stroke_rect_cmds(Target::Root, rects@, rects@.len() as int) =~=
                                Seq::<DrawCmd>::empty());
                        }
                    }
                    out.push(DrawCmd::Restore(Target::Root));
                }
                if self.debug.show_layer_hint {
                    Self::paint_hit_rect(out, Target::Root, lpo.width, lpo.height);
                }
                proof {
                    assert(out@ =~= old(out)@ + spec_submit_cmds(self.cfg(), *lpo, state@));
                }
            },
        }
    }

    /// Draws the content phase of one layer: translate into
    /// surface-local space, apply the partial-redraw clip and clear,
    /// draw the elements in order, restore and flush.
    #[verifier::loop_isolation(false)]
    #[verifier::spinoff_prover]
    fn draw_layer_content(&self, out: &mut Vec<DrawCmd>, t: Target, layer: &LayerPaintObject)
        ensures
            final(out)@ == old(out)@ + spec_layer_content_cmds(self.cfg(), t, *layer),
    {
        let ghost cfg = self.cfg();
        out.push(DrawCmd::Save(t));
        out.push(DrawCmd::Translate(
            t,
            -(layer.surface_bounds.x as i64),
            -(layer.surface_bounds.y as i64),
        ));
        if !layer.invalid_rects.is_empty() {
            out.push(DrawCmd::RegionBegin(t));
            let ghost mid = out@;
            let rects = &layer.invalid_rects.rects;
            let mut i: usize = 0;
            while i < rects.len()
                invariant
                    i <= rects.len(),
                    out@ + region_rect_cmds(t, *rects, i as int) == mid + region_rect_cmds(
                        t,
                        *rects,
                        0,
                    ),
                decreases rects.len() - i,
            {
                let ghost before = out@;
                out.push(DrawCmd::RegionRect(t, rects[i]));
                proof {
                    assert(region_rect_cmds(t, *rects, i as int) == seq![
                        DrawCmd::RegionRect(t, rects[i as int]),
                    ] + region_rect_cmds(t, *rects, i as int + 1));
                    assert(out@ + region_rect_cmds(t, *rects, i as int + 1) =~= before
                        + region_rect_cmds(t, *rects, i as int));
                }
                i = i + 1;
            }
            proof {
                assert(region_rect_cmds(t, *rects, rects@.len() as int) =~= Seq::<
                    DrawCmd,
                >::empty());
            }
            out.push(DrawCmd::RegionClip(t));
            out.push(DrawCmd::ClipRect(t, Rect::from_xywh(0, 0, layer.width, layer.height)));
            out.push(DrawCmd::Clear(t));
        }
        proof {
            assert(out@ =~= old(out)@ + seq![
                DrawCmd::Save(t),
                DrawCmd::Translate(
                    t,
                    (-(layer.surface_bounds.x as int)) as i64,
                    (-(layer.surface_bounds.y as int)) as i64,
                ),
            ] + spec_clip_invalid_cmds(t, *layer));
        }
        let ghost elems_base = out@;
        let mut i: usize = 0;
        while i < layer.elements.len()
            invariant
                i <= layer.elements.len(),
                out@ + children_cmds(cfg.debug.show_focus_hint, t, layer.elements, i as int)
                    == elems_base + children_cmds(cfg.debug.show_focus_hint, t, layer.elements, 0),
            decreases layer.elements.len() - i,
        {
            let ghost before = out@;
            let e = &layer.elements[i];
            self.draw_element_object_recurse(out, t, e);
            proof {
                assert(children_cmds(cfg.debug.show_focus_hint, t, layer.elements, i as int)
                    == element_cmds(cfg.debug.show_focus_hint, t, *e) + children_cmds(
                    cfg.debug.show_focus_hint,
                    t,
                    layer.elements,
                    i as int + 1,
                ));
                assert(out@ + children_cmds(cfg.debug.show_focus_hint, t, layer.elements, i as int
                    + 1) =~= before + children_cmds(
                    cfg.debug.show_focus_hint,
                    t,
                    layer.elements,
                    i as int,
                ));
            }
            i = i + 1;
        }
        out.push(DrawCmd::Restore(t));
        out.push(DrawCmd::Flush);
        proof {
            assert(children_cmds(cfg.debug.show_focus_hint, t, layer.elements,
                layer.elements@.len() as int) =~= Seq::<DrawCmd>::empty());
            assert(out@ =~= old(out)@ + spec_layer_content_cmds(cfg, t, *layer));
        }
    }

    /// Composites one resolved layer into the output under the layer's
    /// cumulative transform and clip, then resets the output transform.
    #[verifier::spinoff_prover]
    fn composite_layer(&self, out: &mut Vec<DrawCmd>, layer: &LayerPaintObject, state: &LayerState)
        ensures
            final(out)@ == old(out)@ + spec_composite_cmds(self.cfg(), *layer, state@),
    {
        out.push(DrawCmd::Save(Target::Root));
        out.push(DrawCmd::Concat(Target::Root, layer.total_matrix));
        let clip = match &layer.clip_rect {
            Some(r) => *r,
            None => Rect::from_xywh(0, 0, layer.width, layer.height),
        };
        out.push(DrawCmd::ClipRect(Target::Root, clip));
        self.submit_layer(out, layer, state);
        out.push(DrawCmd::Flush);
        out.push(DrawCmd::RestoreMatrix(Target::Root));
        proof {
            assert(out@ =~= old(out)@ + spec_composite_cmds(self.cfg(), *layer, state@));
        }
    }

    /// Draws one layer subtree, emitting exactly the commands
    /// `spec_draw_layer` describes, consuming matching cache entries
    /// from `layer_state_map`, and storing resolved states into this
    /// painter's cache when caching is enabled.
    #[verifier::loop_isolation(false)]
    #[verifier::rlimit(100)]
    #[verifier::spinoff_prover]
    pub fn draw_layer(
        &mut self,
        out: &mut Vec<DrawCmd>,
        layer: &LayerPaintObject,
        layer_state_map: &mut HashMap<RenderLayerKey, LayerState>,
        is_root: bool,
    )
        requires
            old(self).wf(),
            old(self).next_surface_id + spec_layer_budget(*layer) <= u64::MAX,
        ensures
            ({
                let r = spec_draw_layer(
                    old(self).cfg(),
                    FrameSt {
                        next_id: old(self).next_surface_id,
                        taken: lift_cache(old(layer_state_map)@),
                        cache: lift_cache(old(self).layer_state_map@),
                    },
                    *layer,
                    is_root,
                );
                &&& final(out)@ == old(out)@ + r.cmds
                &&& lift_cache(final(layer_state_map)@) == r.st.taken
                &&& lift_cache(final(self).layer_state_map@) == r.st.cache
                &&& final(self).next_surface_id == r.st.next_id
            }),
            final(self).scale == old(self).scale,
            final(self).viewport == old(self).viewport,
            final(self).layer_cache_enabled == old(self).layer_cache_enabled,
            final(self).debug == old(self).debug,
        decreases *layer,
    {
        let ghost cfg = old(self).cfg();
        let ghost st0 = FrameSt {
            next_id: old(self).next_surface_id,
            taken: lift_cache(old(layer_state_map)@),
            cache: lift_cache(old(self).layer_state_map@),
        };
        if layer.surface_bounds.width <= 0 || layer.surface_bounds.height <= 0 {
            proof {
                assert(out@ =~= old(out)@ + spec_draw_layer(cfg, st0, *layer, is_root).cmds);
            }
            return ;
        }
        let surface_width = physical_extent(layer.surface_bounds.width, self.scale);
        let surface_height = physical_extent(layer.surface_bounds.height, self.scale);
        let mut graphic_layer = if is_root {
            LayerState {
                layer: DrawLayer::Root,
                surface_width,
                surface_height,
                surface_bounds: layer.surface_bounds,
                total_matrix: Matrix::identity(),
                matrix: Matrix::identity(),
                invalid_rects: InvalidRects::new(),
            }
        } else {
            self.get_graphic_layer(out, layer, layer_state_map, surface_width, surface_height)
        };
        let ghost r = spec_resolve(cfg, st0, *layer, is_root, surface_width, surface_height);
        proof {
            assert(graphic_layer@ == r.state);
            assert(st0.next_id <= r.st.next_id <= st0.next_id + 1);
        }
        graphic_layer.total_matrix = layer.total_matrix;
        graphic_layer.matrix = layer.matrix;
        graphic_layer.invalid_rects = layer.invalid_rects.duplicate();
        let ghost state = spec_stamp(r.state, *layer);
        proof {
            assert(graphic_layer@ == state);
        }
        let t = match graphic_layer.layer {
            DrawLayer::Root => Target::Root,
            DrawLayer::Sublayer(id) => Target::Surface(id),
        };
        proof {
            assert(t == target_of(state));
        }
        self.draw_layer_content(out, t, layer);
        self.composite_layer(out, layer, &graphic_layer);
        if self.layer_cache_enabled && !is_root {
            proof {
                lemma_lift_insert(self.layer_state_map@, layer.key, graphic_layer);
            }
            self.layer_state_map.insert(layer.key, graphic_layer);
        } else {
            if !is_root {
                proof {
                    assert(state.layer is Sublayer);
                }
                match graphic_layer.layer {
                    DrawLayer::Sublayer(id) => out.push(DrawCmd::DropSurface(id)),
                    DrawLayer::Root => {},
                }
            }
        }
        let ghost st2 = if cfg.cache_enabled && !is_root {
            FrameSt { cache: r.st.cache.insert(layer.key, state), ..r.st }
        } else {
            r.st
        };
        let ghost kids_base = out@;
        proof {
            assert(out@ =~= old(out)@ + r.cmds + spec_layer_content_cmds(cfg, t, *layer)
                + spec_composite_cmds(cfg, *layer, state) + (if !is_root && !cfg.cache_enabled {
                seq![DrawCmd::DropSurface(state.surface_id())]
            } else {
                Seq::<DrawCmd>::empty()
            }));
            assert(lift_cache(self.layer_state_map@) == st2.cache);
            assert(lift_cache(layer_state_map@) == st2.taken);
            assert(self.next_surface_id == st2.next_id);
            lemma_next_ids_bound(cfg, st2, layer.layers, 0);
        }
        // Nested layers, left to right.
        let mut j: usize = 0;
        while j < layer.layers.len()
            invariant
                j <= layer.layers.len(),
                self.wf(),
                self.scale == old(self).scale,
                self.viewport == old(self).viewport,
                self.layer_cache_enabled == old(self).layer_cache_enabled,
                self.debug == old(self).debug,
                ({
                    let cur = FrameSt {
                        next_id: self.next_surface_id,
                        taken: lift_cache(layer_state_map@),
                        cache: lift_cache(self.layer_state_map@),
                    };
                    let done = spec_draw_layers(cfg, st2, layer.layers, 0);
                    let rest = spec_draw_layers(cfg, cur, layer.layers, j as int);
                    &&& rest.st == done.st
                    &&& out@ + rest.cmds == kids_base + done.cmds
                    &&& cur.next_id + spec_layers_budget(layer.layers, j as int) <= u64::MAX
                }),
            decreases layer.layers.len() - j,
        {
            let ghost cur = FrameSt {
                next_id: self.next_surface_id,
                taken: lift_cache(layer_state_map@),
                cache: lift_cache(self.layer_state_map@),
            };
            let ghost before = out@;
            proof {
                assert(spec_layers_budget(layer.layers, j as int) == spec_layer_budget(
                    layer.layers[j as int],
                ) + spec_layers_budget(layer.layers, j as int + 1));
            }
            let l = &layer.layers[j];
            self.draw_layer(out, l, layer_state_map, false);
            proof {
                let r1 = spec_draw_layer(cfg, cur, *l, false);
                lemma_next_id_bound(cfg, cur, *l, false);
                assert(spec_draw_layers(cfg, cur, layer.layers, j as int) == (StepRes {
                    st: spec_draw_layers(cfg, r1.st, layer.layers, j as int + 1).st,
                    cmds: r1.cmds + spec_draw_layers(cfg, r1.st, layer.layers, j as int + 1).cmds,
                }));
                assert(out@ + spec_draw_layers(cfg, r1.st, layer.layers, j as int + 1).cmds =~=
                    before + spec_draw_layers(cfg, cur, layer.layers, j as int).cmds);
            }
            j = j + 1;
        }
        out.push(DrawCmd::Restore(Target::Root));
        proof {
            let full = spec_draw_layer(cfg, st0, *layer, is_root);
            assert(spec_draw_layers(
                cfg,
                FrameSt {
                    next_id: self.next_surface_id,
                    taken: lift_cache(layer_state_map@),
                    cache: lift_cache(self.layer_state_map@),
                },
                layer.layers,
                layer.layers@.len() as int,
            ).cmds =~= Seq::<DrawCmd>::empty());
            assert(out@ =~= old(out)@ + full.cmds);
        }
    }

    /// Draws one frame: takes last frame's cache entries out, draws the
    /// root layer tree against them, and keeps as the new cache exactly
    /// the entries the pass stored back.
    pub fn draw_root(&mut self, out: &mut Vec<DrawCmd>, root: &LayerPaintObject)
        requires
            old(self).wf(),
            old(self).next_surface_id + spec_layer_budget(*root) <= u64::MAX,
        ensures
            ({
                let r = spec_draw_layer(
                    old(self).cfg(),
                    FrameSt {
                        next_id: old(self).next_surface_id,
                        taken: lift_cache(old(self).layer_state_map@),
                        cache: Map::<RenderLayerKey, LayerStateV>::empty(),
                    },
                    *root,
                    true,
                );
                &&& final(out)@ == old(out)@ + r.cmds
                &&& lift_cache(final(self).layer_state_map@) == r.st.cache
                &&& final(self).next_surface_id == r.st.next_id
            }),
            final(self).scale == old(self).scale,
            final(self).viewport == old(self).viewport,
            final(self).layer_cache_enabled == old(self).layer_cache_enabled,
            final(self).debug == old(self).debug,
    {
        let mut taken: HashMap<RenderLayerKey, LayerState> = HashMap::new();
        core::mem::swap(&mut self.layer_state_map, &mut taken);
        proof {
            lemma_lift_empty();
        }
        self.draw_layer(out, root, &mut taken, true);
    }
}

} // verus!
