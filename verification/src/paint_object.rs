//! The paint-object tree handed to the compositor each frame, and the
//! specification of the commands the element renderer emits for it.

use vstd::prelude::*;
use crate::geom::{Matrix, Rect};
use crate::paint::{DrawCmd, InvalidRects, RenderLayerKey, Target};

verus! {

/// One visual element: a box with a background, a border, an optional
/// one-shot content callback, and child elements.  Content callbacks and
/// border-box paths are named by ids that the producer of the tree and
/// the interpreter of the command list agree on.
pub struct ElementPaintObject {
    /// Identity of the element, used to look up its background and
    /// border style when a command is replayed.
    pub element_id: u64,
    /// Local offset to translate by before drawing.
    pub coord: (i32, i32),
    /// Closed path clipping this element and its subtree.
    pub border_box_path: u64,
    /// Border thickness per side: top, right, bottom, left.
    pub border_width: (i32, i32, i32, i32),
    /// Whether this node itself has drawable content.
    pub need_paint: bool,
    /// The owned one-shot content callback, if any.
    pub render_fn: Option<u64>,
    /// Whether to draw a focus hint around this element.
    pub focused: bool,
    /// Content extent of the element.
    pub width: i32,
    /// Content extent of the element.
    pub height: i32,
    /// Child elements, in paint order.
    pub children: Vec<ElementPaintObject>,
}

/// One stacking context: bounds, transforms, invalidation set, the
/// elements drawn into its surface, and nested layers composited after
/// its own content.
pub struct LayerPaintObject {
    /// Stable identity across frames, keying the layer's cache entry.
    pub key: RenderLayerKey,
    /// The logical bounds the layer's surface must cover this frame.
    pub surface_bounds: Rect,
    /// Logical clip extent when compositing into the parent.
    pub width: i32,
    /// Logical clip extent when compositing into the parent.
    pub height: i32,
    /// Optional extra clip for the composited result; `(0, 0, width,
    /// height)` when absent.
    pub clip_rect: Option<Rect>,
    /// Cumulative transform from layer space to root space.
    pub total_matrix: Matrix,
    /// This layer's own transform contribution.
    pub matrix: Matrix,
    /// Surface-local regions that must be cleared and redrawn.
    pub invalid_rects: InvalidRects,
    /// Elements drawn directly into this layer's surface.
    pub elements: Vec<ElementPaintObject>,
    /// Nested stacking contexts, composited after this layer.
    pub layers: Vec<LayerPaintObject>,
}

/// Commands for the content phase of one painted element: background,
/// border, and (for an element of positive extent) the translated
/// one-shot content callback.
pub open spec fn element_content_cmds(t: Target, e: ElementPaintObject) -> Seq<DrawCmd> {
    if e.width > 0 && e.height > 0 {
        seq![
            DrawCmd::Translate(t, e.border_width.3 as i64, e.border_width.0 as i64),
        ] + if e.render_fn is Some {
            seq![DrawCmd::RunCallback(t, e.render_fn.unwrap())]
        } else {
            Seq::<DrawCmd>::empty()
        }
    } else {
        Seq::<DrawCmd>::empty()
    }
}

/// Commands painting one element's own box: background and border, then
/// the content callback inside its own save/restore pair, then the
/// focus hint when enabled.
pub open spec fn element_paint_cmds(focus_hint: bool, t: Target, e: ElementPaintObject) -> Seq<
    DrawCmd,
> {
    seq![
        DrawCmd::Save(t),
        DrawCmd::DrawBackground(t, e.element_id),
        DrawCmd::DrawBorder(t, e.element_id),
        DrawCmd::Save(t),
    ] + element_content_cmds(t, e) + seq![DrawCmd::Restore(t)] + if focus_hint && e.focused {
        seq![DrawCmd::HintRect(t, e.width, e.height)]
    } else {
        Seq::<DrawCmd>::empty()
    } + seq![DrawCmd::Restore(t)]
}

/// Commands for one element subtree: nothing at all for a skippable
/// element, else one save/restore pair around the translated, clipped
/// paint of the element and of its children in order.
pub open spec fn element_cmds(focus_hint: bool, t: Target, e: ElementPaintObject) -> Seq<DrawCmd>
    decreases e, 0int,
{
    if !e.need_paint && e.children.len() == 0 {
        Seq::<DrawCmd>::empty()
    } else {
        seq![
            DrawCmd::Save(t),
            DrawCmd::Translate(t, e.coord.0 as i64, e.coord.1 as i64),
            DrawCmd::ClipPath(t, e.border_box_path),
        ] + (if e.need_paint {
            element_paint_cmds(focus_hint, t, e)
        } else {
            Seq::<DrawCmd>::empty()
        }) + children_cmds(focus_hint, t, e.children, 0) + seq![DrawCmd::Restore(t)]
    }
}

/// Commands for the child elements from index `i` on, in order.
pub open spec fn children_cmds(
    focus_hint: bool,
    t: Target,
    es: Vec<ElementPaintObject>,
    i: int,
) -> Seq<DrawCmd>
    decreases es, es.len() - i,
{
    if i < 0 || i >= es.len() {
        Seq::<DrawCmd>::empty()
    } else {
        element_cmds(focus_hint, t, es[i]) + children_cmds(focus_hint, t, es, i + 1)
    }
}

/// The callbacks a traversal of one element subtree is expected to run:
/// the element's own, when it is painted with positive extent, then its
/// children's, in order.  A skippable element contributes nothing.
pub open spec fn element_expected_callbacks(e: ElementPaintObject) -> Seq<u64>
    decreases e, 0int,
{
    if !e.need_paint && e.children.len() == 0 {
        Seq::<u64>::empty()
    } else {
        (if e.need_paint && e.width > 0 && e.height > 0 && e.render_fn is Some {
            seq![e.render_fn.unwrap()]
        } else {
            Seq::<u64>::empty()
        }) + children_expected_callbacks(e.children, 0)
    }
}

/// The callbacks expected of the child elements from index `i` on.
pub open spec fn children_expected_callbacks(es: Vec<ElementPaintObject>, i: int) -> Seq<u64>
    decreases es, es.len() - i,
{
    if i < 0 || i >= es.len() {
        Seq::<u64>::empty()
    } else {
        element_expected_callbacks(es[i]) + children_expected_callbacks(es, i + 1)
    }
}

/// The ids of the `RunCallback` commands in a command list, in order.
pub open spec fn callback_ids(cmds: Seq<DrawCmd>) -> Seq<u64>
    decreases cmds.len(),
{
    if cmds.len() == 0 {
        Seq::<u64>::empty()
    } else {
        (match cmds[0] {
            DrawCmd::RunCallback(_t, id) => seq![id],
            _ => Seq::<u64>::empty(),
        }) + callback_ids(cmds.drop_first())
    }
}

/// How often `x` occurs in a sequence.
pub open spec fn occurrences(s: Seq<u64>, x: u64) -> nat
    decreases s.len(),
{
    if s.len() == 0 {
        0nat
    } else {
        (if s[0] == x {
            1nat
        } else {
            0nat
        }) + occurrences(s.drop_first(), x)
    }
}

/// The callback ids of a concatenation are the concatenated callback
/// ids.
pub proof fn lemma_callback_ids_concat(a: Seq<DrawCmd>, b: Seq<DrawCmd>)
    ensures
        callback_ids(a + b) == callback_ids(a) + callback_ids(b),
    decreases a.len(),
{
    if a.len() == 0 {
        assert(a + b =~= b);
        assert(callback_ids(a) + callback_ids(b) =~= callback_ids(b));
    } else {
        assert((a + b).drop_first() =~= a.drop_first() + b);
        lemma_callback_ids_concat(a.drop_first(), b);
        assert((a + b)[0] == a[0]);
        assert(callback_ids(a + b) =~= callback_ids(a) + callback_ids(b));
    }
}

/// A command list without `RunCallback` commands has no callback ids.
pub proof fn lemma_callback_ids_none(s: Seq<DrawCmd>)
    requires
        forall|i: int| 0 <= i < s.len() ==> !(#[trigger] s[i] is RunCallback),
    ensures
        callback_ids(s) == Seq::<u64>::empty(),
    decreases s.len(),
{
    if s.len() == 0 {
    } else {
        lemma_callback_ids_none(s.drop_first());
        assert(callback_ids(s) =~= Seq::<u64>::empty());
    }
}

/// The callbacks a painted element's own box runs: exactly its one-shot
/// callback when the element has positive extent and holds one.
pub proof fn lemma_paint_cmds_callbacks(focus_hint: bool, t: Target, e: ElementPaintObject)
    ensures
        callback_ids(element_paint_cmds(focus_hint, t, e)) == (if e.width > 0 && e.height > 0
            && e.render_fn is Some {
            seq![e.render_fn.unwrap()]
        } else {
            Seq::<u64>::empty()
        }),
{
    let own = element_paint_cmds(focus_hint, t, e);
    if e.width > 0 && e.height > 0 && e.render_fn is Some {
        let id = e.render_fn.unwrap();
        let want = seq![id];
        assert(own[5] == DrawCmd::RunCallback(t, id));
        lemma_callback_ids_split_single(own, t, id, 5);
    } else {
        lemma_callback_ids_none(own);
    }
}

/// A command list whose only `RunCallback` stands at index `k` has
/// exactly that callback id.
pub proof fn lemma_callback_ids_split_single(s: Seq<DrawCmd>, t: Target, id: u64, k: int)
    requires
        0 <= k < s.len(),
        s[k] == DrawCmd::RunCallback(t, id),
        forall|i: int| 0 <= i < s.len() && i != k ==> !(#[trigger] s[i] is RunCallback),
    ensures
        callback_ids(s) == seq![id],
    decreases s.len(),
{
    if k == 0 {
        lemma_callback_ids_none(s.drop_first());
        assert(callback_ids(s) =~= seq![id]);
    } else {
        lemma_callback_ids_split_single(s.drop_first(), t, id, k - 1);
        assert(callback_ids(s) =~= seq![id]);
    }
}

/// The `RunCallback` commands a traversal of one element subtree emits
/// are exactly the expected callbacks of the subtree, in traversal
/// order.
pub proof fn lemma_element_cmds_callbacks(focus_hint: bool, t: Target, e: ElementPaintObject)
    ensures
        callback_ids(element_cmds(focus_hint, t, e)) == element_expected_callbacks(e),
    decreases e, 1int,
{
    if !e.need_paint && e.children.len() == 0 {
        assert(callback_ids(element_cmds(focus_hint, t, e)) =~= element_expected_callbacks(e));
    } else {
        let head = seq![
            DrawCmd::Save(t),
            DrawCmd::Translate(t, e.coord.0 as i64, e.coord.1 as i64),
            DrawCmd::ClipPath(t, e.border_box_path),
        ];
        let own = if e.need_paint {
            element_paint_cmds(focus_hint, t, e)
        } else {
            Seq::<DrawCmd>::empty()
        };
        let kids = children_cmds(focus_hint, t, e.children, 0);
        let tail = seq![DrawCmd::Restore(t)];
        lemma_callback_ids_concat(head, own);
        lemma_callback_ids_concat(head + own, kids);
        lemma_callback_ids_concat(head + own + kids, tail);
        lemma_callback_ids_none(head);
        lemma_callback_ids_none(tail);
        if e.need_paint {
            lemma_paint_cmds_callbacks(focus_hint, t, e);
        } else {
            lemma_callback_ids_none(own);
        }
        lemma_children_cmds_callbacks(focus_hint, t, e.children, 0);
        assert(element_cmds(focus_hint, t, e) == head + own + kids + tail);
        assert(callback_ids(element_cmds(focus_hint, t, e)) =~= element_expected_callbacks(e));
    }
}

/// The `RunCallback` commands the children from index `i` on emit are
/// exactly their expected callbacks, in order.
pub proof fn lemma_children_cmds_callbacks(
    focus_hint: bool,
    t: Target,
    es: Vec<ElementPaintObject>,
    i: int,
)
    ensures
        callback_ids(children_cmds(focus_hint, t, es, i)) == children_expected_callbacks(es, i),
    decreases es, es.len() - i,
{
    if i < 0 || i >= es.len() {
        assert(callback_ids(children_cmds(focus_hint, t, es, i)) =~= children_expected_callbacks(
            es,
            i,
        ));
    } else {
        lemma_callback_ids_concat(
            element_cmds(focus_hint, t, es[i]),
            children_cmds(focus_hint, t, es, i + 1),
        );
        lemma_element_cmds_callbacks(focus_hint, t, es[i]);
        lemma_children_cmds_callbacks(focus_hint, t, es, i + 1);
    }
}

/// A value absent from a sequence occurs zero times in it.
pub proof fn lemma_occurrences_absent(s: Seq<u64>, x: u64)
    requires
        !s.contains(x),
    ensures
        occurrences(s, x) == 0,
    decreases s.len(),
{
    if s.len() == 0 {
    } else {
        assert(s[0] != x);
        assert forall|j: int| 0 <= j < s.drop_first().len() implies s.drop_first()[j] != x by {
            assert(s.drop_first()[j] == s[j + 1]);
        }
        assert(!s.drop_first().contains(x));
        lemma_occurrences_absent(s.drop_first(), x);
    }
}

/// In a duplicate-free sequence, a contained value occurs exactly once.
pub proof fn lemma_occurrences_once(s: Seq<u64>, x: u64)
    requires
        s.no_duplicates(),
        s.contains(x),
    ensures
        occurrences(s, x) == 1,
    decreases s.len(),
{
    if s[0] == x {
        assert forall|j: int| 0 <= j < s.drop_first().len() implies s.drop_first()[j] != x by {
            assert(s.drop_first()[j] == s[j + 1]);
        }
        assert(!s.drop_first().contains(x));
        lemma_occurrences_absent(s.drop_first(), x);
    } else {
        let k = choose|k: int| 0 <= k < s.len() && s[k] == x;
        assert(s.drop_first()[k - 1] == x);
        assert(s.drop_first().contains(x));
        assert(s.drop_first().no_duplicates());
        lemma_occurrences_once(s.drop_first(), x);
    }
}

/// An element with nothing to paint and no children is skipped
/// entirely: its traversal emits no command at all, so no drawing
/// happens and no transform/clip state is pushed for it.
pub proof fn lemma_skip_property(focus_hint: bool, t: Target, e: ElementPaintObject)
    requires
        !e.need_paint,
        e.children@.len() == 0,
    ensures
        element_cmds(focus_hint, t, e) == Seq::<DrawCmd>::empty(),
{
}

/// An element that is painted with positive extent runs its one-shot
/// content callback exactly once in the traversal of its subtree,
/// provided the tree assigns callbacks one-shot (no id appears twice).
pub proof fn lemma_render_callback_once(focus_hint: bool, t: Target, e: ElementPaintObject)
    requires
        e.need_paint,
        e.width > 0,
        e.height > 0,
        e.render_fn is Some,
        element_expected_callbacks(e).no_duplicates(),
    ensures
        occurrences(callback_ids(element_cmds(focus_hint, t, e)), e.render_fn.unwrap()) == 1,
{
    let id = e.render_fn.unwrap();
    lemma_element_cmds_callbacks(focus_hint, t, e);
    let expected = element_expected_callbacks(e);
    assert(expected == seq![id] + children_expected_callbacks(e.children, 0));
    assert(expected[0] == id);
    assert(expected.contains(id));
    lemma_occurrences_once(expected, id);
}

} // verus!
