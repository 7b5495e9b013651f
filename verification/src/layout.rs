//! The layout builder and its frozen snapshot.
//!
//! During a layout pass widgets push positioned, layered elements into a
//! [`LayoutConstructor`]. Freezing yields a [`Layout`]: the same elements
//! stably sorted by layer (ties keep push order), so consumers see strict
//! paint order without same-layer reordering.
//!
//! The constructor can also resolve the innermost active clip region of the
//! sequence built so far: a backward bracket-matching scan over
//! `StartClipping`/`EndClipping` markers.

use vstd::prelude::*;
use vstd::seq_lib::*;
use crate::font::Font;
use crate::geometry::{LogicalRect, LogicalSize, LogicalPosition};
use crate::id::{HasId, Id};
use crate::widget::{AnyHandle, Widget, WidgetState};

verus! {

/// A filled background / interactive region.
#[derive(Clone, Debug)]
pub struct Area {
    pub handle: AnyHandle,
    pub widget_state: WidgetState,
    pub rect: LogicalRect,
    pub ancestors: Vec<AnyHandle>,
    pub layer: u32,
    pub selected: bool,
}

/// A hit-test-only region.
#[derive(Clone, Debug)]
pub struct Collision {
    pub handle: AnyHandle,
    pub widget_state: WidgetState,
    pub rect: LogicalRect,
    pub ancestors: Vec<AnyHandle>,
    pub layer: u32,
}

/// A run of text.
#[derive(Clone, Debug)]
pub struct Text {
    pub handle: AnyHandle,
    pub widget_state: WidgetState,
    pub rect: LogicalRect,
    pub ancestors: Vec<AnyHandle>,
    pub font: Option<Font>,
    pub string: String,
    pub layer: u32,
    pub selected: bool,
}

/// A run of in-progress IME composition text.
#[derive(Clone, Debug)]
pub struct CompositionText {
    pub handle: AnyHandle,
    pub widget_state: WidgetState,
    pub rect: LogicalRect,
    pub ancestors: Vec<AnyHandle>,
    pub font: Option<Font>,
    pub string: String,
    pub targeted: bool,
    pub layer: u32,
}

/// A text cursor.
#[derive(Clone, Debug)]
pub struct Cursor {
    pub handle: AnyHandle,
    pub widget_state: WidgetState,
    pub rect: LogicalRect,
    pub ancestors: Vec<AnyHandle>,
    pub c: Option<char>,
    pub layer: u32,
}

/// A clip-region bracket.
#[derive(Clone, Debug)]
pub struct Clipping {
    pub handle: AnyHandle,
    pub rect: LogicalRect,
    pub ancestors: Vec<AnyHandle>,
    pub layer: u32,
}

/// One positioned, layered, draw-relevant record.
#[derive(Clone, Debug)]
pub enum LayoutElement {
    Area(Area),
    Collision(Collision),
    Text(Text),
    CompositionText(CompositionText),
    Cursor(Cursor),
    StartClipping(Clipping),
    EndClipping(Clipping),
}

/// Copies a chain of ancestor handles.
pub(crate) fn clone_handles(v: &Vec<AnyHandle>) -> (r: Vec<AnyHandle>)
    ensures
        r@ == v@,
{
    let mut r: Vec<AnyHandle> = Vec::new();
    let n = v.len();
    let mut i: usize = 0;
    while i < n
        invariant
            n == v@.len(),
            i <= n,
            r@ == v@.subrange(0, i as int),
        decreases n - i,
    {
        r.push(v[i]);
        proof {
            assert(r@ =~= v@.subrange(0, i + 1 as int));
        }
        i = i + 1;
    }
    proof {
        assert(r@ =~= v@);
    }
    r
}

impl LayoutElement {
    pub fn area<W: Widget>(
        widget: &W,
        widget_state: WidgetState,
        rect: LogicalRect,
        ancestors: &Vec<AnyHandle>,
        layer: u32,
        selected: bool,
    ) -> (r: Self)
        ensures
            r matches LayoutElement::Area(a) && a == (Area {
                handle: AnyHandle::make(widget.id_spec(), W::kind_spec()),
                widget_state,
                rect,
                ancestors: a.ancestors,
                layer,
                selected,
            }) && a.ancestors@ == ancestors@,
    {
        LayoutElement::Area(Area {
            handle: AnyHandle::new(widget),
            widget_state,
            rect,
            ancestors: clone_handles(ancestors),
            layer,
            selected,
        })
    }

    pub fn collision<W: Widget>(
        widget: &W,
        widget_state: WidgetState,
        rect: LogicalRect,
        ancestors: &Vec<AnyHandle>,
        layer: u32,
    ) -> (r: Self)
        ensures
            r matches LayoutElement::Collision(c) && c == (Collision {
                handle: AnyHandle::make(widget.id_spec(), W::kind_spec()),
                widget_state,
                rect,
                ancestors: c.ancestors,
                layer,
            }) && c.ancestors@ == ancestors@,
    {
        LayoutElement::Collision(Collision {
            handle: AnyHandle::new(widget),
            widget_state,
            rect,
            ancestors: clone_handles(ancestors),
            layer,
        })
    }

    pub fn text<W: Widget>(
        widget: &W,
        widget_state: WidgetState,
        rect: LogicalRect,
        ancestors: &Vec<AnyHandle>,
        font: Option<Font>,
        string: String,
        layer: u32,
        selected: bool,
    ) -> (r: Self)
        ensures
            r matches LayoutElement::Text(t) && t == (Text {
                handle: AnyHandle::make(widget.id_spec(), W::kind_spec()),
                widget_state,
                rect,
                ancestors: t.ancestors,
                font,
                string,
                layer,
                selected,
            }) && t.ancestors@ == ancestors@,
    {
        LayoutElement::Text(Text {
            handle: AnyHandle::new(widget),
            widget_state,
            rect,
            ancestors: clone_handles(ancestors),
            font,
            string,
            layer,
            selected,
        })
    }

    pub fn composition_text<W: Widget>(
        widget: &W,
        widget_state: WidgetState,
        rect: LogicalRect,
        ancestors: &Vec<AnyHandle>,
        font: Option<Font>,
        string: String,
        targeted: bool,
        layer: u32,
    ) -> (r: Self)
        ensures
            r matches LayoutElement::CompositionText(t) && t == (CompositionText {
                handle: AnyHandle::make(widget.id_spec(), W::kind_spec()),
                widget_state,
                rect,
                ancestors: t.ancestors,
                font,
                string,
                targeted,
                layer,
            }) && t.ancestors@ == ancestors@,
    {
        LayoutElement::CompositionText(CompositionText {
            handle: AnyHandle::new(widget),
            widget_state,
            rect,
            ancestors: clone_handles(ancestors),
            font,
            string,
            targeted,
            layer,
        })
    }

    pub fn cursor<W: Widget>(
        widget: &W,
        widget_state: WidgetState,
        rect: LogicalRect,
        ancestors: &Vec<AnyHandle>,
        c: Option<char>,
        layer: u32,
    ) -> (r: Self)
        ensures
            r matches LayoutElement::Cursor(u) && u == (Cursor {
                handle: AnyHandle::make(widget.id_spec(), W::kind_spec()),
                widget_state,
                rect,
                ancestors: u.ancestors,
                c,
                layer,
            }) && u.ancestors@ == ancestors@,
    {
        LayoutElement::Cursor(Cursor {
            handle: AnyHandle::new(widget),
            widget_state,
            rect,
            ancestors: clone_handles(ancestors),
            c,
            layer,
        })
    }

    pub fn start_clipping<W: Widget>(
        widget: &W,
        rect: LogicalRect,
        ancestors: &Vec<AnyHandle>,
        layer: u32,
    ) -> (r: Self)
        ensures
            r matches LayoutElement::StartClipping(c) && c == (Clipping {
                handle: AnyHandle::make(widget.id_spec(), W::kind_spec()),
                rect,
                ancestors: c.ancestors,
                layer,
            }) && c.ancestors@ == ancestors@,
    {
        LayoutElement::StartClipping(Clipping {
            handle: AnyHandle::new(widget),
            rect,
            ancestors: clone_handles(ancestors),
            layer,
        })
    }

    pub fn end_clipping<W: Widget>(
        widget: &W,
        rect: LogicalRect,
        ancestors: &Vec<AnyHandle>,
        layer: u32,
    ) -> (r: Self)
        ensures
            r matches LayoutElement::EndClipping(c) && c == (Clipping {
                handle: AnyHandle::make(widget.id_spec(), W::kind_spec()),
                rect,
                ancestors: c.ancestors,
                layer,
            }) && c.ancestors@ == ancestors@,
    {
        LayoutElement::EndClipping(Clipping {
            handle: AnyHandle::new(widget),
            rect,
            ancestors: clone_handles(ancestors),
            layer,
        })
    }

    /// The owner of the element.
    pub open spec fn handle_spec(self) -> AnyHandle {
        match self {
            LayoutElement::Area(a) => a.handle,
            LayoutElement::Collision(c) => c.handle,
            LayoutElement::Text(t) => t.handle,
            LayoutElement::CompositionText(t) => t.handle,
            LayoutElement::Cursor(c) => c.handle,
            LayoutElement::StartClipping(c) => c.handle,
            LayoutElement::EndClipping(c) => c.handle,
        }
    }

    pub fn handle(&self) -> (r: AnyHandle)
        ensures
            r == self.handle_spec(),
    {
        match self {
            LayoutElement::Area(a) => a.handle,
            LayoutElement::Collision(c) => c.handle,
            LayoutElement::Text(t) => t.handle,
            LayoutElement::CompositionText(t) => t.handle,
            LayoutElement::Cursor(c) => c.handle,
            LayoutElement::StartClipping(c) => c.handle,
            LayoutElement::EndClipping(c) => c.handle,
        }
    }

    pub open spec fn rect_spec(self) -> LogicalRect {
        match self {
            LayoutElement::Area(a) => a.rect,
            LayoutElement::Collision(c) => c.rect,
            LayoutElement::Text(t) => t.rect,
            LayoutElement::CompositionText(t) => t.rect,
            LayoutElement::Cursor(c) => c.rect,
            LayoutElement::StartClipping(c) => c.rect,
            LayoutElement::EndClipping(c) => c.rect,
        }
    }

    pub fn rect(&self) -> (r: &LogicalRect)
        ensures
            *r == self.rect_spec(),
    {
        match self {
            LayoutElement::Area(a) => &a.rect,
            LayoutElement::Collision(c) => &c.rect,
            LayoutElement::Text(t) => &t.rect,
            LayoutElement::CompositionText(t) => &t.rect,
            LayoutElement::Cursor(c) => &c.rect,
            LayoutElement::StartClipping(c) => &c.rect,
            LayoutElement::EndClipping(c) => &c.rect,
        }
    }

    pub open spec fn ancestors_spec(self) -> Seq<AnyHandle> {
        match self {
            LayoutElement::Area(a) => a.ancestors@,
            LayoutElement::Collision(c) => c.ancestors@,
            LayoutElement::Text(t) => t.ancestors@,
            LayoutElement::CompositionText(t) => t.ancestors@,
            LayoutElement::Cursor(c) => c.ancestors@,
            LayoutElement::StartClipping(c) => c.ancestors@,
            LayoutElement::EndClipping(c) => c.ancestors@,
        }
    }

    pub fn ancestors(&self) -> (r: &Vec<AnyHandle>)
        ensures
            r@ == self.ancestors_spec(),
    {
        match self {
            LayoutElement::Area(a) => &a.ancestors,
            LayoutElement::Collision(c) => &c.ancestors,
            LayoutElement::Text(t) => &t.ancestors,
            LayoutElement::CompositionText(t) => &t.ancestors,
            LayoutElement::Cursor(c) => &c.ancestors,
            LayoutElement::StartClipping(c) => &c.ancestors,
            LayoutElement::EndClipping(c) => &c.ancestors,
        }
    }

    pub open spec fn layer_spec(self) -> u32 {
        match self {
            LayoutElement::Area(a) => a.layer,
            LayoutElement::Collision(c) => c.layer,
            LayoutElement::Text(t) => t.layer,
            LayoutElement::CompositionText(t) => t.layer,
            LayoutElement::Cursor(c) => c.layer,
            LayoutElement::StartClipping(c) => c.layer,
            LayoutElement::EndClipping(c) => c.layer,
        }
    }

    pub fn layer(&self) -> (r: u32)
        ensures
            r == self.layer_spec(),
    {
        match self {
            LayoutElement::Area(a) => a.layer,
            LayoutElement::Collision(c) => c.layer,
            LayoutElement::Text(t) => t.layer,
            LayoutElement::CompositionText(t) => t.layer,
            LayoutElement::Cursor(c) => c.layer,
            LayoutElement::StartClipping(c) => c.layer,
            LayoutElement::EndClipping(c) => c.layer,
        }
    }

    pub fn as_area(&self) -> (r: Option<&Area>)
        ensures
            match r {
                Some(v) => *self matches LayoutElement::Area(a) && *v == a,
                None => !(*self matches LayoutElement::Area(_)),
            },
    {
        match self {
            LayoutElement::Area(v) => Some(v),
            _ => None,
        }
    }

    pub fn as_collision(&self) -> (r: Option<&Collision>)
        ensures
            match r {
                Some(v) => *self matches LayoutElement::Collision(c) && *v == c,
                None => !(*self matches LayoutElement::Collision(_)),
            },
    {
        match self {
            LayoutElement::Collision(v) => Some(v),
            _ => None,
        }
    }

    pub fn as_text(&self) -> (r: Option<&Text>)
        ensures
            match r {
                Some(v) => *self matches LayoutElement::Text(t) && *v == t,
                None => !(*self matches LayoutElement::Text(_)),
            },
    {
        match self {
            LayoutElement::Text(v) => Some(v),
            _ => None,
        }
    }

    pub fn as_composition_text(&self) -> (r: Option<&CompositionText>)
        ensures
            match r {
                Some(v) => *self matches LayoutElement::CompositionText(t) && *v == t,
                None => !(*self matches LayoutElement::CompositionText(_)),
            },
    {
        match self {
            LayoutElement::CompositionText(v) => Some(v),
            _ => None,
        }
    }

    pub fn as_cursor(&self) -> (r: Option<&Cursor>)
        ensures
            match r {
                Some(v) => *self matches LayoutElement::Cursor(c) && *v == c,
                None => !(*self matches LayoutElement::Cursor(_)),
            },
    {
        match self {
            LayoutElement::Cursor(v) => Some(v),
            _ => None,
        }
    }

    pub fn as_start_clipping(&self) -> (r: Option<&Clipping>)
        ensures
            match r {
                Some(v) => *self matches LayoutElement::StartClipping(c) && *v == c,
                None => !(*self matches LayoutElement::StartClipping(_)),
            },
    {
        match self {
            LayoutElement::StartClipping(v) => Some(v),
            _ => None,
        }
    }

    pub fn as_end_clipping(&self) -> (r: Option<&Clipping>)
        ensures
            match r {
                Some(v) => *self matches LayoutElement::EndClipping(c) && *v == c,
                None => !(*self matches LayoutElement::EndClipping(_)),
            },
    {
        match self {
            LayoutElement::EndClipping(v) => Some(v),
            _ => None,
        }
    }
}

/// The context a widget's `size` and `layout` run in: the rectangle it may
/// occupy, the ancestor chain from root to its parent, the active paint
/// layer, and whether an enclosing widget is selected.
#[derive(Clone, Debug)]
pub struct LayoutContext {
    pub rect: LogicalRect,
    pub ancestors: Vec<AnyHandle>,
    pub layer: u32,
    pub selected: bool,
}

impl LayoutContext {
    pub open spec fn wf(&self) -> bool {
        self.rect.wf()
    }

    /// The mathematical view of this context.
    pub open spec fn model(&self) -> LcModel {
        LcModel {
            rect: self.rect,
            ancestors: self.ancestors@,
            layer: self.layer,
            selected: self.selected,
        }
    }

    /// The root context: the full viewport, no ancestors, layer zero.
    pub fn root(viewport: LogicalSize) -> (r: Self)
        requires
            viewport.wf(),
        ensures
            r.rect == LogicalRect::from_position_size_spec(
                LogicalPosition { x: 0i64, y: 0i64 },
                viewport,
            ),
            r.ancestors@ == Seq::<AnyHandle>::empty(),
            r.layer == 0u32,
            r.selected == false,
            r.wf(),
    {
        LayoutContext {
            rect: LogicalRect::from_position_size(LogicalPosition::new(0, 0), viewport),
            ancestors: Vec::new(),
            layer: 0,
            selected: false,
        }
    }

    /// The context handed to a child, with the parent named by its untyped
    /// handle.
    pub fn next_with(&self, handle: AnyHandle, rect: LogicalRect, layer: u32, selected: bool) -> (r:
        Self)
        ensures
            r.rect == rect,
            r.ancestors@ == self.ancestors@.push(handle),
            r.layer == layer,
            r.selected == selected,
            rect.wf() ==> r.wf(),
    {
        let mut ancestors = clone_handles(&self.ancestors);
        ancestors.push(handle);
        LayoutContext { rect, ancestors, layer, selected }
    }

    /// The context handed to a child of `widget`: the ancestor chain grows
    /// by `widget`, the rest is replaced as given.
    pub fn next<W: Widget>(
        &self,
        widget: &W,
        rect: LogicalRect,
        layer: u32,
        selected: bool,
    ) -> (r: Self)
        ensures
            r.rect == rect,
            r.ancestors@ == self.ancestors@.push(
                AnyHandle::make(widget.id_spec(), W::kind_spec()),
            ),
            r.layer == layer,
            r.selected == selected,
            rect.wf() ==> r.wf(),
    {
        let mut ancestors = clone_handles(&self.ancestors);
        ancestors.push(AnyHandle::new(widget));
        LayoutContext { rect, ancestors, layer, selected }
    }
}

/// The mathematical view of a layout context.
pub struct LcModel {
    pub rect: LogicalRect,
    pub ancestors: Seq<AnyHandle>,
    pub layer: u32,
    pub selected: bool,
}

impl LcModel {
    /// The model handed to a child of the widget with handle `h`.
    pub open spec fn next(self, h: AnyHandle, rect: LogicalRect, layer: u32, selected: bool) -> LcModel {
        LcModel { rect, ancestors: self.ancestors.push(h), layer, selected }
    }
}

/// Which variant a layout element is.
#[derive(PartialEq, Eq, Structural)]
pub enum ElemKind {
    Area,
    Collision,
    Text,
    CompositionText,
    Cursor,
    StartClipping,
    EndClipping,
}

/// The mathematical view of one layout element: every field any variant
/// carries, with neutral values where a variant has no such field.
pub struct ElemModel {
    pub kind: ElemKind,
    pub owner: AnyHandle,
    pub state: WidgetState,
    pub rect: LogicalRect,
    pub ancestors: Seq<AnyHandle>,
    pub layer: u32,
    pub selected: bool,
    pub font: Option<Font>,
    pub string: Seq<char>,
    pub targeted: bool,
    pub c: Option<char>,
}

pub open spec fn elem_model(e: LayoutElement) -> ElemModel {
    match e {
        LayoutElement::Area(a) => ElemModel {
            kind: ElemKind::Area,
            owner: a.handle,
            state: a.widget_state,
            rect: a.rect,
            ancestors: a.ancestors@,
            layer: a.layer,
            selected: a.selected,
            font: None,
            string: Seq::empty(),
            targeted: false,
            c: None,
        },
        LayoutElement::Collision(v) => ElemModel {
            kind: ElemKind::Collision,
            owner: v.handle,
            state: v.widget_state,
            rect: v.rect,
            ancestors: v.ancestors@,
            layer: v.layer,
            selected: false,
            font: None,
            string: Seq::empty(),
            targeted: false,
            c: None,
        },
        LayoutElement::Text(t) => ElemModel {
            kind: ElemKind::Text,
            owner: t.handle,
            state: t.widget_state,
            rect: t.rect,
            ancestors: t.ancestors@,
            layer: t.layer,
            selected: t.selected,
            font: t.font,
            string: t.string@,
            targeted: false,
            c: None,
        },
        LayoutElement::CompositionText(t) => ElemModel {
            kind: ElemKind::CompositionText,
            owner: t.handle,
            state: t.widget_state,
            rect: t.rect,
            ancestors: t.ancestors@,
            layer: t.layer,
            selected: false,
            font: t.font,
            string: t.string@,
            targeted: t.targeted,
            c: None,
        },
        LayoutElement::Cursor(v) => ElemModel {
            kind: ElemKind::Cursor,
            owner: v.handle,
            state: v.widget_state,
            rect: v.rect,
            ancestors: v.ancestors@,
            layer: v.layer,
            selected: false,
            font: None,
            string: Seq::empty(),
            targeted: false,
            c: v.c,
        },
        LayoutElement::StartClipping(v) => ElemModel {
            kind: ElemKind::StartClipping,
            owner: v.handle,
            state: WidgetState::Idle,
            rect: v.rect,
            ancestors: v.ancestors@,
            layer: v.layer,
            selected: false,
            font: None,
            string: Seq::empty(),
            targeted: false,
            c: None,
        },
        LayoutElement::EndClipping(v) => ElemModel {
            kind: ElemKind::EndClipping,
            owner: v.handle,
            state: WidgetState::Idle,
            rect: v.rect,
            ancestors: v.ancestors@,
            layer: v.layer,
            selected: false,
            font: None,
            string: Seq::empty(),
            targeted: false,
            c: None,
        },
    }
}

/// The innermost active clip rectangle of `s`, scanning backward from the
/// end with `depth` unmatched `EndClipping` markers already seen.
pub open spec fn clip_scan(s: Seq<LayoutElement>, depth: int) -> Option<LogicalRect>
    decreases s.len(),
{
    if s.len() == 0 {
        None
    } else {
        match s.last() {
            LayoutElement::StartClipping(c) => {
                if depth == 0 {
                    Some(c.rect)
                } else {
                    clip_scan(s.drop_last(), depth - 1)
                }
            },
            LayoutElement::EndClipping(_) => clip_scan(s.drop_last(), depth + 1),
            _ => clip_scan(s.drop_last(), depth),
        }
    }
}

/// Accumulates positioned elements during one layout pass.
#[derive(Debug)]
pub struct LayoutConstructor {
    v: Vec<LayoutElement>,
}

impl View for LayoutConstructor {
    type V = Seq<LayoutElement>;

    closed spec fn view(&self) -> Seq<LayoutElement> {
        self.v@
    }
}

impl LayoutConstructor {
    pub fn new() -> (r: Self)
        ensures
            r@ == Seq::<LayoutElement>::empty(),
    {
        LayoutConstructor { v: Vec::new() }
    }

    pub fn push(&mut self, lc: &LayoutContext, element: LayoutElement)
        ensures
            final(self)@ == old(self)@.push(element),
    {
        let _ = lc;
        self.v.push(element);
    }

    pub fn append(&mut self, other: Self)
        ensures
            final(self)@ == old(self)@ + other@,
    {
        let mut other = other;
        self.v.append(&mut other.v);
    }

    pub fn len(&self) -> (r: usize)
        ensures
            r == self@.len(),
    {
        self.v.len()
    }

    pub fn get(&self, i: usize) -> (r: &LayoutElement)
        requires
            i < self@.len(),
        ensures
            *r == self@[i as int],
    {
        &self.v[i]
    }

    pub fn iter(&self) -> (r: &Vec<LayoutElement>)
        ensures
            r@ == self@,
    {
        &self.v
    }

    /// The elements in push order, for mutation in place.
    pub fn iter_mut(&mut self) -> (r: &mut Vec<LayoutElement>)
        ensures
            r@ == old(self)@,
            final(self)@ == final(r)@,
    {
        &mut self.v
    }

    /// The innermost clip region still open at the end of the sequence
    /// built so far: scanning backward, an `EndClipping` opens one level of
    /// already-closed nesting, a `StartClipping` either closes one or — at
    /// level zero — is the active clip.
    pub fn clipping(&self) -> (r: Option<LogicalRect>)
        ensures
            r == clip_scan(self@, 0),
    {
        let ghost full = self@;
        let total = self.v.len();
        let mut i = total;
        let mut end_count: usize = 0;
        proof {
            assert(self@.subrange(0, self@.len() as int) =~= self@);
        }
        while i > 0
            invariant
                total == self@.len(),
                i <= total,
                end_count + i <= total,
                clip_scan(full, 0) == clip_scan(self@.subrange(0, i as int), end_count as int),
                full == self@,
            decreases i,
        {
            i = i - 1;
            let ghost pre = self@.subrange(0, i + 1);
            proof {
                assert(pre.last() == self@[i as int]);
                assert(pre.drop_last() =~= self@.subrange(0, i as int));
            }
            match &self.v[i] {
                LayoutElement::StartClipping(c) => {
                    if end_count == 0 {
                        return Some(c.rect);
                    } else {
                        end_count = end_count - 1;
                    }
                },
                LayoutElement::EndClipping(_) => {
                    end_count = end_count + 1;
                },
                _ => {},
            }
        }
        proof {
            assert(self@.subrange(0, 0) =~= Seq::<LayoutElement>::empty());
        }
        None
    }
}

/// Whether `s` is ordered by non-decreasing layer.
pub open spec fn sorted_by_layer(s: Seq<LayoutElement>) -> bool {
    forall|i: int, j: int|
        0 <= i < j < s.len() ==> #[trigger] s[i].layer_spec() <= #[trigger] s[j].layer_spec()
}

/// Where a stable insertion of an element with layer `layer` goes: right
/// after the last element whose layer is at most `layer`.
pub open spec fn stable_insert_pos(s: Seq<LayoutElement>, layer: u32) -> int
    decreases s.len(),
{
    if s.len() == 0 {
        0
    } else if s.last().layer_spec() <= layer {
        s.len() as int
    } else {
        stable_insert_pos(s.drop_last(), layer)
    }
}

/// The stable sort of `s` by layer, built by stable insertion.
pub open spec fn stable_sort_spec(s: Seq<LayoutElement>) -> Seq<LayoutElement>
    decreases s.len(),
{
    if s.len() == 0 {
        Seq::empty()
    } else {
        let prev = stable_sort_spec(s.drop_last());
        prev.insert(stable_insert_pos(prev, s.last().layer_spec()), s.last())
    }
}

/// Matches elements on one layer.
pub open spec fn on_layer(layer: u32) -> spec_fn(LayoutElement) -> bool {
    |e: LayoutElement| e.layer_spec() == layer
}

pub proof fn lemma_stable_insert_pos_bounds(s: Seq<LayoutElement>, layer: u32)
    ensures
        0 <= stable_insert_pos(s, layer) <= s.len(),
        forall|j: int|
            stable_insert_pos(s, layer) <= j < s.len() ==> #[trigger] s[j].layer_spec() > layer,
        stable_insert_pos(s, layer) > 0 ==> s[stable_insert_pos(s, layer) - 1].layer_spec()
            <= layer,
    decreases s.len(),
{
    if s.len() > 0 && s.last().layer_spec() > layer {
        lemma_stable_insert_pos_bounds(s.drop_last(), layer);
        assert forall|j: int| stable_insert_pos(s, layer) <= j < s.len() implies #[trigger] s[j].layer_spec()
            > layer by {
            if j < s.len() - 1 {
                assert(s[j] == s.drop_last()[j]);
            }
        }
    }
}

/// Stable insertion keeps the sequence sorted.
pub proof fn lemma_stable_insert_sorted(s: Seq<LayoutElement>, e: LayoutElement)
    requires
        sorted_by_layer(s),
    ensures
        sorted_by_layer(s.insert(stable_insert_pos(s, e.layer_spec()), e)),
{
    let pos = stable_insert_pos(s, e.layer_spec());
    lemma_stable_insert_pos_bounds(s, e.layer_spec());
    let t = s.insert(pos, e);
    s.insert_ensures(pos, e);
    assert forall|i: int, j: int| 0 <= i < j < t.len() implies #[trigger] t[i].layer_spec()
        <= #[trigger] t[j].layer_spec() by {
        if i < pos {
            assert(t[i] == s[i]);
        } else if i > pos {
            assert(t[i] == s[i - 1]);
        }
        if j < pos {
            assert(t[j] == s[j]);
        } else if j > pos {
            assert(t[j] == s[j - 1]);
        }
        if i < pos && pos < j {
            assert(s[i].layer_spec() <= e.layer_spec() || i == pos - 1);
            if pos > 0 {
                assert(s[pos - 1].layer_spec() <= e.layer_spec());
                if i < pos - 1 {
                    assert(s[i].layer_spec() <= s[pos - 1].layer_spec());
                }
            }
            assert(s[j - 1].layer_spec() > e.layer_spec());
        } else if j == pos {
            if pos > 0 {
                assert(s[pos - 1].layer_spec() <= e.layer_spec());
                if i < pos - 1 {
                    assert(s[i].layer_spec() <= s[pos - 1].layer_spec());
                }
            }
        } else if i == pos {
            assert(s[j - 1].layer_spec() > e.layer_spec());
        }
    }
}

/// The stable sort is sorted by layer.
pub proof fn lemma_stable_sort_sorted(s: Seq<LayoutElement>)
    ensures
        sorted_by_layer(stable_sort_spec(s)),
    decreases s.len(),
{
    if s.len() > 0 {
        lemma_stable_sort_sorted(s.drop_last());
        lemma_stable_insert_sorted(stable_sort_spec(s.drop_last()), s.last());
    }
}

pub proof fn lemma_stable_sort_len(s: Seq<LayoutElement>)
    ensures
        stable_sort_spec(s).len() == s.len(),
    decreases s.len(),
{
    if s.len() > 0 {
        lemma_stable_sort_len(s.drop_last());
        let prev = stable_sort_spec(s.drop_last());
        lemma_stable_insert_pos_bounds(prev, s.last().layer_spec());
        prev.insert_ensures(stable_insert_pos(prev, s.last().layer_spec()), s.last());
    }
}

/// Inserting at the stable position leaves each layer's subsequence as it
/// was, with the new element appended to its own layer's subsequence.
proof fn lemma_stable_insert_filter(s: Seq<LayoutElement>, e: LayoutElement, layer: u32)
    ensures
        s.insert(stable_insert_pos(s, e.layer_spec()), e).filter(on_layer(layer)) == if e.layer_spec()
            == layer {
            s.filter(on_layer(layer)).push(e)
        } else {
            s.filter(on_layer(layer))
        },
{
    broadcast use vstd::seq_lib::group_filter_ensures;
    broadcast use vstd::prelude::Seq::lemma_filter_push;

    reveal(Seq::filter);
    let pos = stable_insert_pos(s, e.layer_spec());
    lemma_stable_insert_pos_bounds(s, e.layer_spec());
    let t = s.insert(pos, e);
    let front = s.subrange(0, pos);
    let back = s.subrange(pos, s.len() as int);
    assert(t =~= front + (seq![e] + back));
    assert(s =~= front + back);

    Seq::filter_distributes_over_add(front, seq![e] + back, on_layer(layer));
    Seq::filter_distributes_over_add(seq![e], back, on_layer(layer));
    Seq::filter_distributes_over_add(front, back, on_layer(layer));
    // every element at or past the insertion point has a layer strictly
    // above e's, so when layer == e.layer the back part contributes nothing
    if e.layer_spec() == layer {
        assert(back.filter(on_layer(layer)) =~= Seq::<LayoutElement>::empty()) by {
            assert forall|j: int| 0 <= j < back.len() implies !on_layer(layer)(back[j]) by {
                assert(back[j] == s[pos + j]);
            }
            back.lemma_all_neg_filter_empty(on_layer(layer));
        }
        assert(seq![e].filter(on_layer(layer)) =~= seq![e]) by {
            assert(seq![e].drop_last() =~= Seq::<LayoutElement>::empty());
        }
        assert(t.filter(on_layer(layer)) =~= s.filter(on_layer(layer)).push(e));
    } else {
        assert(seq![e].filter(on_layer(layer)) =~= Seq::<LayoutElement>::empty()) by {
            assert(seq![e].drop_last() =~= Seq::<LayoutElement>::empty());
        }
        assert(t.filter(on_layer(layer)) =~= s.filter(on_layer(layer)));
    }
}

/// Stability: on every layer, the stable sort keeps the elements of that
/// layer in their relative push order.
pub proof fn lemma_stable_sort_stable(s: Seq<LayoutElement>, layer: u32)
    ensures
        stable_sort_spec(s).filter(on_layer(layer)) == s.filter(on_layer(layer)),
    decreases s.len(),
{
    broadcast use vstd::seq_lib::group_filter_ensures;
    broadcast use vstd::prelude::Seq::lemma_filter_push;

    reveal(Seq::filter);
    if s.len() > 0 {
        lemma_stable_sort_stable(s.drop_last(), layer);
        lemma_stable_insert_filter(stable_sort_spec(s.drop_last()), s.last(), layer);
        if s.last().layer_spec() == layer {
            assert(s.filter(on_layer(layer)) == s.drop_last().filter(on_layer(layer)).push(
                s.last(),
            ));
        } else {
            assert(s.filter(on_layer(layer)) == s.drop_last().filter(on_layer(layer)));
        }
    }
}

/// The models of a sequence of elements.
pub open spec fn models_of(s: Seq<LayoutElement>) -> Seq<ElemModel> {
    s.map_values(|e: LayoutElement| elem_model(e))
}

/// Matches element models on one layer.
pub open spec fn on_model_layer(layer: u32) -> spec_fn(ElemModel) -> bool {
    |m: ElemModel| m.layer == layer
}

/// Filtering by layer and abstracting to models commute: an element is on
/// a layer exactly when its model is.
pub proof fn lemma_filter_map_layer(s: Seq<LayoutElement>, layer: u32)
    ensures
        models_of(s.filter(on_layer(layer))) == models_of(s).filter(on_model_layer(layer)),
    decreases s.len(),
{
    broadcast use vstd::seq_lib::group_filter_ensures;
    broadcast use vstd::prelude::Seq::lemma_filter_push;

    reveal(Seq::filter);
    if s.len() > 0 {
        lemma_filter_map_layer(s.drop_last(), layer);
        let rest = s.drop_last();
        let last = s.last();
        assert(s =~= rest.push(last));
        assert(models_of(s) =~= models_of(rest).push(elem_model(last)));
        assert(models_of(s).drop_last() =~= models_of(rest));
        assert(models_of(s).last() == elem_model(last));
        if on_layer(layer)(last) {
            assert(s.filter(on_layer(layer)) == rest.filter(on_layer(layer)).push(last));
            assert(models_of(s.filter(on_layer(layer))) =~= models_of(
                rest.filter(on_layer(layer)),
            ).push(elem_model(last)));
            assert(models_of(s).filter(on_model_layer(layer)) == models_of(s).drop_last().filter(
                on_model_layer(layer),
            ).push(elem_model(last)));
        } else {
            assert(s.filter(on_layer(layer)) == rest.filter(on_layer(layer)));
            assert(models_of(s.filter(on_layer(layer))) == models_of(rest.filter(on_layer(layer))));
            assert(models_of(s).filter(on_model_layer(layer)) == models_of(s).drop_last().filter(
                on_model_layer(layer),
            ));
        }
    } else {
        assert(models_of(s) =~= Seq::<ElemModel>::empty());
        assert(s.filter(on_layer(layer)) =~= s);
    }
}

/// The frozen, immutable, layer-ordered snapshot of one layout pass.
#[derive(Debug)]
pub struct Layout {
    v: Vec<LayoutElement>,
}

impl View for Layout {
    type V = Seq<LayoutElement>;

    closed spec fn view(&self) -> Seq<LayoutElement> {
        self.v@
    }
}

impl Layout {
    pub fn empty() -> (r: Self)
        ensures
            r@ == Seq::<LayoutElement>::empty(),
    {
        Layout { v: Vec::new() }
    }

    /// Freezes the constructed sequence: a stable sort by layer. Ties keep
    /// their push order, so same-layer elements stack exactly as pushed.
    pub fn new(c: LayoutConstructor) -> (r: Self)
        ensures
            r@ == stable_sort_spec(c@),
            sorted_by_layer(r@),
            forall|layer: u32| #[trigger] r@.filter(on_layer(layer)) == c@.filter(on_layer(layer)),
            r@.len() == c@.len(),
    {
        let ghost src = c@;
        let mut c = c;
        let mut out: Vec<LayoutElement> = Vec::new();
        proof {
            assert(c.v@ =~= src.subrange(src.len() - c.v@.len(), src.len() as int));
            assert(src.subrange(0, 0) =~= Seq::<LayoutElement>::empty());
        }
        while c.v.len() > 0
            invariant
                c.v@.len() <= src.len(),
                c.v@ =~= src.subrange(src.len() - c.v@.len(), src.len() as int),
                out@ == stable_sort_spec(src.subrange(0, src.len() - c.v@.len())),
                sorted_by_layer(out@),
            decreases c.v@.len(),
        {
            let ghost done = src.len() - c.v@.len();
            let ghost prev = out@;
            let ghost pre_v = c.v@;
            let e = c.v.remove(0);
            proof {
                assert(pre_v[0] == src.subrange(done, src.len() as int)[0]);
                assert(e == src[done]);
                assert(c.v@ =~= src.subrange(done + 1, src.len() as int));
            }
            // scan back over the strictly-higher layers to the stable spot
            let layer = e.layer();
            let mut pos = out.len();
            while pos > 0 && out[pos - 1].layer() > layer
                invariant
                    pos <= out@.len(),
                    forall|j: int|
                        pos <= j < out@.len() ==> #[trigger] out@[j].layer_spec() > layer,
                    out@ == prev,
                    sorted_by_layer(out@),
                decreases pos,
            {
                pos = pos - 1;
            }
            proof {
                lemma_stable_insert_pos_bounds(prev, layer);
                assert(stable_insert_pos(prev, layer) == pos as int) by {
                    let sp = stable_insert_pos(prev, layer);
                    if sp < pos {
                        assert(prev[pos - 1].layer_spec() <= layer);
                        assert(prev[pos - 1].layer_spec() > layer);
                    }
                    if sp > pos {
                        assert(prev[sp - 1].layer_spec() <= layer);
                        assert(prev[sp - 1].layer_spec() > layer);
                    }
                }
            }
            out.insert(pos, e);
            proof {
                lemma_stable_insert_sorted(prev, e);
                let now = src.subrange(0, done + 1);
                assert(now.drop_last() =~= src.subrange(0, done));
                assert(now.last() == src[done]);
                assert(out@ == stable_sort_spec(now));
            }
        }
        proof {
            assert(src.subrange(0, src.len() as int) =~= src);
            lemma_stable_sort_sorted(src);
            lemma_stable_sort_len(src);
            assert forall|layer: u32| #[trigger] stable_sort_spec(src).filter(on_layer(layer))
                == src.filter(on_layer(layer)) by {
                lemma_stable_sort_stable(src, layer);
            }
        }
        Layout { v: out }
    }

    pub fn iter(&self) -> (r: &Vec<LayoutElement>)
        ensures
            r@ == self@,
    {
        &self.v
    }

    pub fn get(&self, i: usize) -> (r: &LayoutElement)
        requires
            i < self@.len(),
        ensures
            *r == self@[i as int],
    {
        &self.v[i]
    }

    pub fn is_empty(&self) -> (r: bool)
        ensures
            r == (self@.len() == 0),
    {
        self.v.is_empty()
    }

    pub fn len(&self) -> (r: usize)
        ensures
            r == self@.len(),
    {
        self.v.len()
    }
}

} // verus!
