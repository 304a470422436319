use deft::geom::{Matrix, Rect, ScaleFactor, physical_extent};
use deft::paint::{DrawCmd, InvalidRects, Target};
use deft::paint_object::{ElementPaintObject, LayerPaintObject};
use deft::painter::{DebugOptions, ElementPainter};

fn simple_element(element_id: u64, render_fn: Option<u64>) -> ElementPaintObject {
    ElementPaintObject {
        element_id,
        coord: (5, 7),
        border_box_path: 100 + element_id,
        border_width: (1, 2, 3, 4),
        need_paint: true,
        render_fn,
        focused: false,
        width: 40,
        height: 30,
        children: Vec::new(),
    }
}

fn simple_layer(key: u64, elements: Vec<ElementPaintObject>, layers: Vec<LayerPaintObject>) -> LayerPaintObject {
    LayerPaintObject {
        key,
        surface_bounds: Rect { x: 0, y: 0, width: 100, height: 100 },
        width: 100,
        height: 100,
        clip_rect: None,
        total_matrix: Matrix::identity(),
        matrix: Matrix::identity(),
        invalid_rects: InvalidRects::new(),
        elements,
        layers,
    }
}

fn count_creates(cmds: &[DrawCmd]) -> usize {
    cmds.iter().filter(|c| matches!(c, DrawCmd::CreateSurface(..))).count()
}

fn created_ids(cmds: &[DrawCmd]) -> Vec<u64> {
    cmds.iter()
        .filter_map(|c| match c {
            DrawCmd::CreateSurface(id, _, _) => Some(*id),
            _ => None,
        })
        .collect()
}

fn run_callback_ids(cmds: &[DrawCmd]) -> Vec<u64> {
    cmds.iter()
        .filter_map(|c| match c {
            DrawCmd::RunCallback(_, id) => Some(*id),
            _ => None,
        })
        .collect()
}

#[test]
fn physical_extent_rounds_up() {
    assert_eq!(physical_extent(100, ScaleFactor::new(1, 1)), 100);
    assert_eq!(physical_extent(100, ScaleFactor::new(3, 2)), 150);
    assert_eq!(physical_extent(101, ScaleFactor::new(3, 2)), 152);
    assert_eq!(physical_extent(1, ScaleFactor::new(1, 3)), 1);
    assert_eq!(physical_extent(0, ScaleFactor::new(2, 1)), 0);
    assert_eq!(physical_extent(-5, ScaleFactor::new(2, 1)), 0);
}

#[test]
fn invalid_rects_basics() {
    let mut set = InvalidRects::new();
    assert!(set.is_empty());
    set.add(Rect::from_xywh(1, 2, 3, 4));
    assert!(!set.is_empty());
    let copy = set.duplicate();
    assert_eq!(copy, set);
    assert_eq!(copy.rects[0], Rect { x: 1, y: 2, width: 3, height: 4 });
}

#[test]
fn skipped_element_emits_nothing() {
    let painter = ElementPainter::new(DebugOptions::none());
    let mut epo = simple_element(1, None);
    epo.need_paint = false;
    let mut out: Vec<DrawCmd> = Vec::new();
    painter.draw_element_object_recurse(&mut out, Target::Root, &epo);
    assert!(out.is_empty());
}

#[test]
fn painted_element_pushes_balanced_state() {
    let painter = ElementPainter::new(DebugOptions::none());
    let epo = simple_element(1, Some(11));
    let mut out: Vec<DrawCmd> = Vec::new();
    painter.draw_element_object_recurse(&mut out, Target::Root, &epo);
    let saves = out.iter().filter(|c| matches!(c, DrawCmd::Save(_))).count();
    let restores = out.iter().filter(|c| matches!(c, DrawCmd::Restore(_))).count();
    assert_eq!(saves, restores);
    assert!(out.contains(&DrawCmd::DrawBackground(Target::Root, 1)));
    assert!(out.contains(&DrawCmd::DrawBorder(Target::Root, 1)));
    // content translated by (border-left, border-top)
    assert!(out.contains(&DrawCmd::Translate(Target::Root, 4, 1)));
}

#[test]
fn render_callback_runs_once() {
    let painter = ElementPainter::new(DebugOptions::none());
    let mut parent = simple_element(1, Some(11));
    parent.children.push(simple_element(2, Some(22)));
    parent.children.push(simple_element(3, None));
    let mut out: Vec<DrawCmd> = Vec::new();
    painter.draw_element_object_recurse(&mut out, Target::Root, &parent);
    assert_eq!(run_callback_ids(&out), vec![11, 22]);
}

#[test]
fn zero_extent_element_keeps_callback_unrun() {
    let painter = ElementPainter::new(DebugOptions::none());
    let mut epo = simple_element(1, Some(11));
    epo.width = 0;
    let mut out: Vec<DrawCmd> = Vec::new();
    painter.draw_element_object_recurse(&mut out, Target::Root, &epo);
    assert_eq!(run_callback_ids(&out), Vec::<u64>::new());
}

#[test]
fn invisible_layer_is_skipped() {
    let mut painter = ElementPainter::new(DebugOptions::none());
    let mut layer = simple_layer(1, vec![simple_element(1, Some(11))], Vec::new());
    layer.surface_bounds.width = 0;
    let mut out: Vec<DrawCmd> = Vec::new();
    painter.draw_root(&mut out, &layer);
    assert!(out.is_empty());
}

#[test]
fn stacking_order_is_elements_then_sublayers() {
    let mut painter = ElementPainter::new(DebugOptions::none());
    let a = simple_element(1, Some(11));
    let b = simple_element(2, Some(22));
    let mut l1 = simple_layer(101, vec![simple_element(3, Some(33))], Vec::new());
    let mut l2 = simple_layer(102, vec![simple_element(4, Some(44))], Vec::new());
    l1.surface_bounds = Rect { x: 0, y: 0, width: 10, height: 10 };
    l2.surface_bounds = Rect { x: 0, y: 0, width: 10, height: 10 };
    let root = simple_layer(1, vec![a, b], vec![l1, l2]);
    let mut out: Vec<DrawCmd> = Vec::new();
    painter.draw_root(&mut out, &root);
    // Draw order: A's content, B's content, then L1's, then L2's.
    assert_eq!(run_callback_ids(&out), vec![11, 22, 33, 44]);
    // Each nested layer is composited right after its own content.
    let pos_44 = out
        .iter()
        .position(|c| matches!(c, DrawCmd::RunCallback(_, 44)))
        .unwrap();
    let pos_blit_l1 = out
        .iter()
        .position(|c| matches!(c, DrawCmd::DrawImageLinear(Target::Root, _)))
        .unwrap();
    assert!(pos_blit_l1 < pos_44);
}

#[test]
fn unchanged_layer_reuses_surface() {
    let mut painter = ElementPainter::new(DebugOptions::none());
    painter.set_layer_cache(true);
    let sub = simple_layer(7, vec![simple_element(1, Some(11))], Vec::new());
    let root = simple_layer(1, Vec::new(), vec![sub]);

    let mut frame1: Vec<DrawCmd> = Vec::new();
    painter.draw_root(&mut frame1, &root);
    let ids1 = created_ids(&frame1);
    assert_eq!(ids1.len(), 1);

    let mut frame2: Vec<DrawCmd> = Vec::new();
    painter.draw_root(&mut frame2, &root);
    // No new surface, no shift, no clear: the cache is reused verbatim.
    assert_eq!(count_creates(&frame2), 0);
    assert!(!frame2.iter().any(|c| matches!(c, DrawCmd::Clear(_))));
    // The same surface identity is composited again.
    assert!(frame2.contains(&DrawCmd::DrawImageLinear(Target::Root, ids1[0])));
}

#[test]
fn size_change_allocates_new_surface() {
    let mut painter = ElementPainter::new(DebugOptions::none());
    painter.set_layer_cache(true);
    let sub = simple_layer(7, vec![simple_element(1, Some(11))], Vec::new());
    let root = simple_layer(1, Vec::new(), vec![sub]);

    let mut frame1: Vec<DrawCmd> = Vec::new();
    painter.draw_root(&mut frame1, &root);
    let old_id = created_ids(&frame1)[0];

    let mut grown = simple_layer(7, vec![simple_element(1, Some(11))], Vec::new());
    grown.surface_bounds.width = 200;
    let root2 = simple_layer(1, Vec::new(), vec![grown]);
    let mut frame2: Vec<DrawCmd> = Vec::new();
    painter.draw_root(&mut frame2, &root2);

    // The old surface is dropped and a genuinely new one allocated at
    // the new size; nothing is resized in place.
    assert!(frame2.contains(&DrawCmd::DropSurface(old_id)));
    let new_ids = created_ids(&frame2);
    assert_eq!(new_ids.len(), 1);
    assert_ne!(new_ids[0], old_id);
    assert!(frame2.contains(&DrawCmd::CreateSurface(new_ids[0], 200, 100)));
}

#[test]
fn scroll_shift_moves_cached_pixels() {
    // A cached 100 x 100 surface valid from origin (0, 0); next frame
    // the bounds origin moves to (10, 0) and the newly exposed strip
    // (90, 0, 10, 100) is invalid.  Expected: the cached content is
    // shifted left by 10 physical pixels, and only the invalid strip is
    // cleared and redrawn.
    let mut painter = ElementPainter::new(DebugOptions::none());
    painter.set_layer_cache(true);
    let sub = simple_layer(7, vec![simple_element(1, Some(11))], Vec::new());
    let root = simple_layer(1, Vec::new(), vec![sub]);
    let mut frame1: Vec<DrawCmd> = Vec::new();
    painter.draw_root(&mut frame1, &root);
    let src = created_ids(&frame1)[0];

    let mut scrolled = simple_layer(7, vec![simple_element(1, Some(11))], Vec::new());
    scrolled.surface_bounds = Rect { x: 10, y: 0, width: 100, height: 100 };
    scrolled.invalid_rects.add(Rect::from_xywh(90, 0, 10, 100));
    let root2 = simple_layer(1, Vec::new(), vec![scrolled]);
    let mut frame2: Vec<DrawCmd> = Vec::new();
    painter.draw_root(&mut frame2, &root2);

    // The shift goes through a same-size temporary surface.
    let tmp_ids = created_ids(&frame2);
    assert_eq!(tmp_ids.len(), 1);
    let tmp = tmp_ids[0];
    assert!(frame2.contains(&DrawCmd::CreateSurface(tmp, 100, 100)));
    // Cached pixels land 10 physical pixels to the left (scale 1).
    assert!(frame2.contains(&DrawCmd::DrawImage(Target::Surface(tmp), src, -10, 0, 1)));
    // They are copied back 1:1 and the temporary is released.
    assert!(frame2.contains(&DrawCmd::DrawImage(Target::Surface(src), tmp, 0, 0, 1)));
    assert!(frame2.contains(&DrawCmd::DropSurface(tmp)));
    // Only the exposed strip is cleared and redrawn.
    assert!(frame2.contains(&DrawCmd::RegionRect(
        Target::Surface(src),
        Rect { x: 90, y: 0, width: 10, height: 100 }
    )));
    assert!(frame2.contains(&DrawCmd::Clear(Target::Surface(src))));
}

#[test]
fn disabling_cache_drops_every_entry() {
    let mut painter = ElementPainter::new(DebugOptions::none());
    painter.set_layer_cache(true);
    let sub = simple_layer(7, vec![simple_element(1, Some(11))], Vec::new());
    let root = simple_layer(1, Vec::new(), vec![sub]);
    let mut frame1: Vec<DrawCmd> = Vec::new();
    painter.draw_root(&mut frame1, &root);
    assert_eq!(count_creates(&frame1), 1);

    // Toggling the cache off drops all entries at once: the very next
    // frame finds no hit for any previously cached key and rebuilds.
    painter.set_layer_cache(false);
    let mut frame2: Vec<DrawCmd> = Vec::new();
    painter.draw_root(&mut frame2, &root);
    assert_eq!(count_creates(&frame2), 1);
    assert_ne!(created_ids(&frame2)[0], created_ids(&frame1)[0]);
}

#[test]
fn update_viewport_sets_scale_and_viewport() {
    let mut painter = ElementPainter::new(DebugOptions::none());
    painter.update_viewport(ScaleFactor::new(2, 1), Rect::from_xywh(0, 0, 800, 600));
    assert_eq!(painter.scale, ScaleFactor { num: 2, den: 1 });
    assert_eq!(painter.viewport, Rect { x: 0, y: 0, width: 800, height: 600 });

    // Physical surface sizes now follow the new scale.
    let sub = simple_layer(7, Vec::new(), Vec::new());
    let root = simple_layer(1, Vec::new(), vec![sub]);
    let mut out: Vec<DrawCmd> = Vec::new();
    painter.draw_root(&mut out, &root);
    let id = created_ids(&out)[0];
    assert!(out.contains(&DrawCmd::CreateSurface(id, 200, 200)));
}

#[test]
fn region_clip_lists_every_invalid_rect() {
    let mut painter = ElementPainter::new(DebugOptions::none());
    let mut sub = simple_layer(7, vec![simple_element(1, Some(11))], Vec::new());
    sub.invalid_rects.add(Rect::from_xywh(0, 0, 10, 10));
    sub.invalid_rects.add(Rect::from_xywh(50, 50, 20, 20));
    let root = simple_layer(1, Vec::new(), vec![sub]);
    let mut out: Vec<DrawCmd> = Vec::new();
    painter.draw_root(&mut out, &root);

    let t = Target::Surface(created_ids(&out)[0]);
    let begin = out.iter().position(|c| *c == DrawCmd::RegionBegin(t)).unwrap();
    let r1 = out
        .iter()
        .position(|c| *c == DrawCmd::RegionRect(t, Rect { x: 0, y: 0, width: 10, height: 10 }))
        .unwrap();
    let r2 = out
        .iter()
        .position(|c| *c == DrawCmd::RegionRect(t, Rect { x: 50, y: 50, width: 20, height: 20 }))
        .unwrap();
    let apply = out.iter().position(|c| *c == DrawCmd::RegionClip(t)).unwrap();
    let clear = out.iter().position(|c| *c == DrawCmd::Clear(t)).unwrap();
    // The union clip is assembled from both rectangles, intersected with
    // the layer box, and only then is the clipped region cleared.
    assert!(begin < r1 && r1 < r2 && r2 < apply && apply < clear);
    assert!(out.contains(&DrawCmd::ClipRect(t, Rect { x: 0, y: 0, width: 100, height: 100 })));
}

#[test]
fn overlays_follow_debug_options() {
    let debug = DebugOptions { show_repaint_area: true, show_layer_hint: true, show_focus_hint: false };
    let mut painter = ElementPainter::new(debug);
    let mut sub = simple_layer(7, vec![simple_element(1, Some(11))], Vec::new());
    sub.invalid_rects.add(Rect::from_xywh(2, 3, 4, 5));
    let root = simple_layer(1, Vec::new(), vec![sub]);
    let mut out: Vec<DrawCmd> = Vec::new();
    painter.draw_root(&mut out, &root);
    // The repaint-area overlay strokes the invalid rectangle and the
    // layer hint strokes the layer box, both on the output surface.
    assert!(out.contains(&DrawCmd::StrokeRect(Target::Root, Rect { x: 2, y: 3, width: 4, height: 5 })));
    assert!(out.contains(&DrawCmd::HintRect(Target::Root, 100, 100)));
}

#[test]
fn focus_hint_draws_box_only_when_enabled() {
    let debug = DebugOptions { show_repaint_area: false, show_layer_hint: false, show_focus_hint: true };
    let painter = ElementPainter::new(debug);
    let mut epo = simple_element(1, Some(11));
    epo.focused = true;
    let mut out: Vec<DrawCmd> = Vec::new();
    painter.draw_element_object_recurse(&mut out, Target::Root, &epo);
    assert!(out.contains(&DrawCmd::HintRect(Target::Root, 40, 30)));

    let plain = ElementPainter::new(DebugOptions::none());
    let mut out2: Vec<DrawCmd> = Vec::new();
    plain.draw_element_object_recurse(&mut out2, Target::Root, &epo);
    assert!(!out2.contains(&DrawCmd::HintRect(Target::Root, 40, 30)));
}
