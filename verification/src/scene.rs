//! The frame orchestrator.
//!
//! A [`Scene`] owns the widget tree and the frame-scoped shared state
//! ([`Context`]). Each frame runs in two phases: `input` drains the
//! deferred-mutation queue and dispatches one input event through the tree;
//! `layout` drains the queue again, walks the tree to build a fresh
//! snapshot, and replaces the one the context holds. Widgets therefore
//! always read the *previous* frame's layout while reacting to input, and
//! structural mutation never happens while a walk borrows the tree.

use vstd::prelude::*;
use std::sync::Arc;
use crate::apply::{ApplyCommand, ApplyFuncs, ApplyEntry};
use crate::event::{Event, Events, first_set_focus};
use crate::font::Font;
use crate::geometry::{LogicalSize};
use crate::id::{HasId, Id};
use crate::input::{ButtonState, Input};
use crate::layout::{Layout, LayoutConstructor, LayoutContext, LayoutElement, elem_model, on_layer, on_model_layer, sorted_by_layer};
use crate::node::{dispatch_spec, drain_queue, node_apply, node_handle, node_input, node_layout, node_layout_spec, node_model, node_wf, WidgetNode};
use crate::widget::{AnyHandle, Handle, HasChildren, Widget};

verus! {

/// Frame-scoped shared state: the viewport, the previous frame's layout
/// snapshot, the current focus, the previous input, and the default font.
#[derive(Debug)]
pub struct Context {
    pub viewport: LogicalSize,
    pub layout: Arc<Layout>,
    pub default_font: Option<Font>,
    pub prev_input: Option<Input>,
    pub focus: Option<AnyHandle>,
}

impl Context {
    pub closed spec fn focus_spec(&self) -> Option<AnyHandle> {
        self.focus
    }

    pub open spec fn wf(&self) -> bool {
        self.viewport.wf()
    }

    /// The indices of the snapshot elements owned by `widget`, in order.
    pub fn find_layout<W: HasId>(&self, widget: &W) -> (r: Vec<usize>)
        ensures
            forall|k: int|
                0 <= k < r@.len() ==> #[trigger] r@[k] < self.layout@.len()
                    && self.layout@[r@[k] as int].handle_spec().id_spec() == widget.id_spec(),
            forall|k1: int, k2: int| 0 <= k1 < k2 < r@.len() ==> r@[k1] < r@[k2],
            forall|i: int|
                0 <= i < self.layout@.len()
                    && (#[trigger] self.layout@[i].handle_spec()).id_spec() == widget.id_spec()
                    ==> exists|k: int| 0 <= k < r@.len() && r@[k] == i,
    {
        let id = widget.id();
        let n = self.layout.len();
        let mut r: Vec<usize> = Vec::new();
        let mut i: usize = 0;
        #[verifier::loop_isolation(false)]
        while i < n
            invariant
                i <= n,
                n == self.layout@.len(),
                id == widget.id_spec(),
                forall|k: int|
                    0 <= k < r@.len() ==> #[trigger] r@[k] < i
                        && self.layout@[r@[k] as int].handle_spec().id_spec() == id,
                forall|k1: int, k2: int| 0 <= k1 < k2 < r@.len() ==> r@[k1] < r@[k2],
                forall|j: int|
                    0 <= j < i && (#[trigger] self.layout@[j].handle_spec()).id_spec() == id
                        ==> exists|k: int| 0 <= k < r@.len() && r@[k] == j,
            decreases n - i,
        {
            let ghost pre = r@;
            if self.layout.get(i).handle().id() == id {
                r.push(i);
            }
            proof {
                assert forall|j: int|
                    0 <= j < i + 1 && (#[trigger] self.layout@[j].handle_spec()).id_spec()
                        == id implies exists|k: int| 0 <= k < r@.len() && r@[k] == j by {
                    if j < i {
                        let k = choose|k: int| 0 <= k < pre.len() && pre[k] == j;
                        assert(r@[k] == j);
                    } else {
                        assert(r@[r@.len() - 1] == j);
                    }
                }
            }
            i = i + 1;
        }
        r
    }

    /// Whether `widget` holds the focus.
    pub fn has_focus<T: Widget>(&self, widget: &T) -> (r: bool)
        ensures
            r == (self.focus_spec() matches Some(h) && h.id_spec() == widget.id_spec()),
    {
        match &self.focus {
            Some(h) => h.id() == widget.id(),
            None => false,
        }
    }
}

/// The orchestrator: the widget tree, its context, the pending input of the
/// previous frame, and the deferred-mutation queue.
pub struct Scene {
    ctx: Context,
    root: WidgetNode,
    prev_input: Option<Input>,
    apply_funcs: ApplyFuncs,
}

impl Scene {
    pub closed spec fn ctx_spec(&self) -> Context {
        self.ctx
    }

    pub closed spec fn root_spec(&self) -> WidgetNode {
        self.root
    }

    pub closed spec fn queue_spec(&self) -> Seq<ApplyEntry> {
        self.apply_funcs@
    }

    pub closed spec fn prev_input_spec(&self) -> Option<Input> {
        self.prev_input
    }

    pub open spec fn wf(&self) -> bool {
        &&& self.ctx_spec().wf()
        &&& node_wf(self.root_spec())
        &&& self.apply_funcs_wf()
    }

    pub closed spec fn apply_funcs_wf(&self) -> bool {
        self.apply_funcs.wf()
    }

    /// Builds a scene around a root widget: an empty layout, no focus, a
    /// default viewport, nothing queued. Returns the scene and the untyped
    /// handle of the root.
    pub fn new(root: WidgetNode) -> (r: (Scene, AnyHandle))
        requires
            node_wf(root),
        ensures
            r.0.wf(),
            r.0.root_spec() == root,
            r.0.ctx_spec().focus_spec() is None,
            r.0.ctx_spec().layout@ == Seq::<LayoutElement>::empty(),
            r.0.ctx_spec().prev_input is None,
            r.0.prev_input_spec() is None,
            r.0.queue_spec() == Seq::<ApplyEntry>::empty(),
            r.1 == node_handle(root),
    {
        let handle = crate::node::node_any_handle(&root);
        let scene = Scene {
            ctx: Context {
                viewport: LogicalSize::new(1024, 768),
                layout: Arc::new(Layout::empty()),
                default_font: None,
                prev_input: None,
                focus: None,
            },
            root,
            prev_input: None,
            apply_funcs: ApplyFuncs::new(),
        };
        (scene, handle)
    }

    /// The widget currently holding focus, if any (renderers draw carets
    /// from this).
    pub fn focus(&self) -> (r: Option<AnyHandle>)
        ensures
            r == self.ctx_spec().focus_spec(),
    {
        self.ctx.focus
    }

    pub fn set_viewport(&mut self, size: LogicalSize)
        requires
            old(self).wf(),
            size.wf(),
        ensures
            final(self).wf(),
            final(self).ctx_spec().viewport == size,
            final(self).root_spec() == old(self).root_spec(),
            final(self).queue_spec() == old(self).queue_spec(),
    {
        self.ctx.viewport = size;
    }

    pub fn default_font(&self) -> (r: Option<&Font>)
        ensures
            r is Some <==> self.ctx_spec().default_font is Some,
            r matches Some(f) ==> self.ctx_spec().default_font == Some(*f),
    {
        self.ctx.default_font.as_ref()
    }

    pub fn set_default_font(&mut self, font: Option<Font>)
        requires
            old(self).wf(),
        ensures
            final(self).wf(),
            final(self).ctx_spec().default_font == font,
            final(self).root_spec() == old(self).root_spec(),
    {
        self.ctx.default_font = font;
    }

    /// One input dispatch: drains the apply queue into the tree (queued
    /// commands reach their targets in queue order), rotates the previous
    /// input into the context, and walks the drained tree with `input`:
    /// the final tree and the appended events are exactly what the
    /// dispatch model says. On a pointer-button press, if the dispatch
    /// produced a focus request, focus moves to the first requester;
    /// otherwise — and on every other kind of input — focus is unchanged.
    pub fn input(&mut self, input: Input, events: &mut Events)
        requires
            old(self).wf(),
        ensures
            final(self).wf(),
            final(self).queue_spec() == Seq::<ApplyEntry>::empty(),
            ({
                let drained = drain_queue(
                    node_model(old(self).root_spec()),
                    old(self).queue_spec(),
                ).0;
                let d = dispatch_spec(
                    drained,
                    Context {
                        viewport: old(self).ctx_spec().viewport,
                        layout: old(self).ctx_spec().layout,
                        default_font: old(self).ctx_spec().default_font,
                        prev_input: old(self).prev_input_spec(),
                        focus: old(self).ctx_spec().focus,
                    },
                    input,
                    old(events)@,
                );
                &&& node_model(final(self).root_spec()) == d.0
                &&& final(events)@ == d.1
            }),
            final(self).ctx_spec().prev_input == old(self).prev_input_spec(),
            final(self).prev_input_spec() == Some(input),
            final(events)@.len() >= old(events)@.len(),
            final(events)@.subrange(0, old(events)@.len() as int) == old(events)@,
            final(self).ctx_spec().focus_spec() == (if input.is_press_spec() {
                match first_set_focus(
                    final(events)@.subrange(
                        old(events)@.len() as int,
                        final(events)@.len() as int,
                    ),
                ) {
                    Some(h) => Some(h),
                    None => old(self).ctx_spec().focus_spec(),
                }
            } else {
                old(self).ctx_spec().focus_spec()
            }),
            final(self).ctx_spec().viewport == old(self).ctx_spec().viewport,
            final(self).ctx_spec().layout == old(self).ctx_spec().layout,
    {
        if !self.apply_funcs.is_empty() {
            node_apply(&mut self.root, &mut self.apply_funcs);
        } else {
            proof {
                assert(drain_queue(node_model(self.root), self.apply_funcs@).0 == node_model(
                    self.root,
                ));
            }
        }
        self.apply_funcs.clear();
        self.ctx.prev_input = self.prev_input.take();
        proof {
            assert(self.ctx == Context {
                viewport: old(self).ctx_spec().viewport,
                layout: old(self).ctx_spec().layout,
                default_font: old(self).ctx_spec().default_font,
                prev_input: old(self).prev_input_spec(),
                focus: old(self).ctx_spec().focus,
            });
        }
        let dispatch_start = events.len();
        let _ = node_input(&mut self.root, &self.ctx, &input, events);
        let is_press = match &input {
            Input::MouseInput(m) => m.button_state == ButtonState::Pressed,
            _ => false,
        };
        if is_press {
            match Self::find_focus_from(events, dispatch_start) {
                Some(h) => {
                    self.ctx.focus = Some(h);
                },
                None => {},
            }
        }
        self.prev_input = Some(input);
    }

    /// The producer of the first focus-request event at or past `start`.
    fn find_focus_from(events: &Events, start: usize) -> (r: Option<AnyHandle>)
        requires
            start <= events@.len(),
        ensures
            r == first_set_focus(events@.subrange(start as int, events@.len() as int)),
    {
        let n = events.len();
        let mut i: usize = start;
        while i < n
            invariant
                start <= i <= n,
                n == events@.len(),
                first_set_focus(events@.subrange(start as int, n as int)) == first_set_focus(
                    events@.subrange(i as int, n as int),
                ),
            decreases n - i,
        {
            let ghost tail = events@.subrange(i as int, n as int);
            proof {
                assert(tail.first() == events@[i as int]);
                assert(tail.drop_first() =~= events@.subrange(i + 1, n as int));
            }
            let e = events.get(i);
            if e.is_set_focus() {
                return Some(e.handle());
            }
            i = i + 1;
        }
        proof {
            assert(events@.subrange(n as int, n as int) =~= Seq::<Event>::empty());
        }
        None
    }

    /// Queues a deferred mutation for the widget `handle` points at. It
    /// runs at the start of the next `input` or `layout` call.
    pub fn apply<T: Widget>(&mut self, handle: &Handle<T>, cmd: ApplyCommand)
        requires
            old(self).wf(),
            cmd.wf(),
        ensures
            final(self).wf(),
            final(self).queue_spec() == old(self).queue_spec().push(
                ApplyEntry {
                    handle: AnyHandle::make(handle.id_spec(), T::kind_spec()),
                    cmd: Some(cmd),
                },
            ),
            final(self).root_spec() == old(self).root_spec(),
            final(self).ctx_spec() == old(self).ctx_spec(),
    {
        self.apply_funcs.push(handle, cmd);
    }

    /// One layout pass: drains the apply queue into the tree (queued
    /// commands reach their targets in queue order, each exactly once,
    /// unresolved ones are dropped), walks the drained tree from a root
    /// context covering the whole viewport, freezes the result into a
    /// stably layer-sorted snapshot, stores it in the context and returns
    /// it.
    pub fn layout(&mut self) -> (r: Arc<Layout>)
        requires
            old(self).wf(),
        ensures
            final(self).wf(),
            final(self).queue_spec() == Seq::<ApplyEntry>::empty(),
            node_model(final(self).root_spec()) == drain_queue(
                node_model(old(self).root_spec()),
                old(self).queue_spec(),
            ).0,
            old(self).queue_spec().len() == 0 ==> final(self).root_spec() == old(self).root_spec(),
            r == final(self).ctx_spec().layout,
            sorted_by_layer(r@),
            forall|layer: u32| #![trigger on_model_layer(layer)]
                crate::layout::models_of(r@).filter(on_model_layer(layer)) == node_layout_spec(
                    final(self).root_spec(),
                    crate::layout::LcModel {
                        rect: crate::geometry::LogicalRect {
                            left: 0i64,
                            top: 0i64,
                            right: final(self).ctx_spec().viewport.width,
                            bottom: final(self).ctx_spec().viewport.height,
                        },
                        ancestors: Seq::empty(),
                        layer: 0u32,
                        selected: false,
                    },
                ).filter(on_model_layer(layer)),
            final(self).ctx_spec().viewport == old(self).ctx_spec().viewport,
    {
        if !self.apply_funcs.is_empty() {
            node_apply(&mut self.root, &mut self.apply_funcs);
        } else {
            proof {
                assert(drain_queue(node_model(self.root), self.apply_funcs@).0 == node_model(
                    self.root,
                ));
            }
        }
        self.apply_funcs.clear();
        let mut c = LayoutConstructor::new();
        let lc = LayoutContext::root(self.ctx.viewport);
        node_layout(&self.root, &lc, &mut c);
        let ghost built = c@;
        proof {
            assert(crate::layout::models_of(built) =~= Seq::<crate::layout::ElemModel>::empty()
                + crate::layout::models_of(built));
        }
        let frozen = Layout::new(c);
        proof {
            assert forall|layer: u32| #![trigger on_model_layer(layer)]
                crate::layout::models_of(frozen@).filter(on_model_layer(layer))
                == crate::layout::models_of(built).filter(on_model_layer(layer)) by {
                crate::layout::lemma_filter_map_layer(frozen@, layer);
                crate::layout::lemma_filter_map_layer(built, layer);
                assert(frozen@.filter(on_layer(layer)) == built.filter(on_layer(layer)));
            }
        }
        self.ctx.layout = Arc::new(frozen);
        self.ctx.layout.clone()
    }

    /// Queues appending `child` to the container `parent` points at, and
    /// returns the child's untyped handle at once: the handle is valid as a
    /// value even before the mutation runs.
    pub fn push_child<T: Widget + HasChildren>(
        &mut self,
        parent: &Handle<T>,
        child: WidgetNode,
    ) -> (h: AnyHandle)
        requires
            old(self).wf(),
            node_wf(child),
        ensures
            final(self).wf(),
            h == node_handle(child),
            final(self).queue_spec().len() == old(self).queue_spec().len() + 1,
            final(self).queue_spec().subrange(0, old(self).queue_spec().len() as int) == old(self).queue_spec(),
            final(self).queue_spec().last().handle == AnyHandle::make(
                parent.id_spec(),
                T::kind_spec(),
            ),
            final(self).queue_spec().last().cmd matches Some(c) && c matches
                ApplyCommand::PushChild(b) && *b == child,
            final(self).root_spec() == old(self).root_spec(),
    {
        let h = crate::node::node_any_handle(&child);
        self.apply_funcs.push(parent, ApplyCommand::PushChild(Box::new(child)));
        proof {
            assert(self.queue_spec().subrange(0, old(self).queue_spec().len() as int) =~= old(self).queue_spec());
        }
        h
    }

    /// Queues removing the child `child` points at from the container
    /// `parent` points at.
    pub fn erase_child<T: Widget + HasChildren, U: Widget>(
        &mut self,
        parent: &Handle<T>,
        child: Handle<U>,
    )
        requires
            old(self).wf(),
        ensures
            final(self).wf(),
            final(self).queue_spec() == old(self).queue_spec().push(
                ApplyEntry {
                    handle: AnyHandle::make(parent.id_spec(), T::kind_spec()),
                    cmd: Some(ApplyCommand::EraseChild(child.id_spec())),
                },
            ),
            final(self).root_spec() == old(self).root_spec(),
    {
        let id = child.id();
        self.apply_funcs.push(parent, ApplyCommand::EraseChild(id));
    }
}

} // verus!
