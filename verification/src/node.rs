//! The concrete widget tree.
//!
//! Heterogeneous children are held as values of one closed node type,
//! [`WidgetNode`]; dispatch is a match over the variants. The recursive
//! walks over the tree — measuring, input dispatch, the deferred-mutation
//! drain, and layout — live here, together with the recursive spec
//! functions that describe them.

use vstd::prelude::*;
use crate::apply::{ApplyCommand, ApplyEntry, ApplyFuncs, unconsumed};
use crate::button::Button;
use crate::containers::abs::Abs;
use crate::containers::column::Column;
use crate::containers::max_size::MaxSize;
use crate::containers::row::Row;
use crate::empty::Empty;
use crate::event::{Event, Events};
use crate::geometry::{
    clamp_extent, clamp_extent_spec, rect_clamp, rect_clamp_spec, COORD_MAX, LogicalPosition,
    LogicalRect, LogicalSize,
};
use crate::id::{HasId, Id};
use crate::input::Input;
use crate::label::Label;
use crate::layout::{elem_model, ElemModel, LayoutConstructor, LayoutContext, LcModel};
use crate::scene::Context;
use crate::sizing::{
    axis_wf, extent_at, flex_share, flex_share_spec, measure_axis, measure_spec, offset_at,
    AxisItem,
};
use crate::widget::{
    AnyHandle, ControlFlow, SizeType, SizeTypes, Widget, WidgetKind,
};

verus! {

/// One node of the widget tree.
#[derive(Debug)]
pub enum WidgetNode {
    Empty(Empty),
    Label(Label),
    Button(Button),
    Row(Row),
    Column(Column),
    MaxSize(MaxSize),
    Abs(Abs),
}

// ---------------------------------------------------------------- identity

pub open spec fn node_id(n: WidgetNode) -> Id {
    match n {
        WidgetNode::Empty(w) => w.id_spec(),
        WidgetNode::Label(w) => w.id_spec(),
        WidgetNode::Button(w) => w.id_spec(),
        WidgetNode::Row(w) => w.id_spec(),
        WidgetNode::Column(w) => w.id_spec(),
        WidgetNode::MaxSize(w) => w.id_spec(),
        WidgetNode::Abs(w) => w.id_spec(),
    }
}

pub open spec fn node_kind(n: WidgetNode) -> WidgetKind {
    match n {
        WidgetNode::Empty(_) => WidgetKind::Empty,
        WidgetNode::Label(_) => WidgetKind::Label,
        WidgetNode::Button(_) => WidgetKind::Button,
        WidgetNode::Row(_) => WidgetKind::Row,
        WidgetNode::Column(_) => WidgetKind::Column,
        WidgetNode::MaxSize(_) => WidgetKind::MaxSize,
        WidgetNode::Abs(_) => WidgetKind::Abs,
    }
}

/// The untyped handle a node answers to.
pub open spec fn node_handle(n: WidgetNode) -> AnyHandle {
    AnyHandle::make(node_id(n), node_kind(n))
}

pub fn node_any_handle(n: &WidgetNode) -> (h: AnyHandle)
    ensures
        h == node_handle(*n),
{
    match n {
        WidgetNode::Empty(w) => AnyHandle::new(w),
        WidgetNode::Label(w) => AnyHandle::new(w),
        WidgetNode::Button(w) => AnyHandle::new(w),
        WidgetNode::Row(w) => AnyHandle::new(w),
        WidgetNode::Column(w) => AnyHandle::new(w),
        WidgetNode::MaxSize(w) => AnyHandle::new(w),
        WidgetNode::Abs(w) => AnyHandle::new(w),
    }
}

pub fn node_get_id(n: &WidgetNode) -> (r: Id)
    ensures
        r == node_id(*n),
{
    match n {
        WidgetNode::Empty(w) => w.id(),
        WidgetNode::Label(w) => w.id(),
        WidgetNode::Button(w) => w.id(),
        WidgetNode::Row(w) => w.id(),
        WidgetNode::Column(w) => w.id(),
        WidgetNode::MaxSize(w) => w.id(),
        WidgetNode::Abs(w) => w.id(),
    }
}

// ------------------------------------------------------------ well-formed

/// The first `k` children are all well-formed.
pub open spec fn children_wf(s: Seq<WidgetNode>, k: int) -> bool
    decreases s, k,
{
    if k <= 0 || k > s.len() {
        true
    } else {
        children_wf(s, k - 1) && node_wf(s[k - 1])
    }
}

pub open spec fn node_wf(n: WidgetNode) -> bool
    decreases n, 1int,
{
    match n {
        WidgetNode::Empty(_) => true,
        WidgetNode::Label(w) => w.metrics.wf(),
        WidgetNode::Button(w) => {
            &&& w.metrics.wf()
            &&& 0 <= w.style.padding.left <= COORD_MAX
            &&& 0 <= w.style.padding.top <= COORD_MAX
            &&& 0 <= w.style.padding.right <= COORD_MAX
            &&& 0 <= w.style.padding.bottom <= COORD_MAX
        },
        WidgetNode::Row(r) => {
            &&& 0 <= r.space <= COORD_MAX
            &&& children_wf(r.children@, r.children@.len() as int)
        },
        WidgetNode::Column(c) => {
            &&& 0 <= c.space <= COORD_MAX
            &&& (c.max_height matches Some(v) ==> 0 <= v <= COORD_MAX)
            &&& children_wf(c.children@, c.children@.len() as int)
        },
        WidgetNode::MaxSize(w) => {
            &&& (w.max_width matches Some(v) ==> 0 <= v <= COORD_MAX)
            &&& (w.max_height matches Some(v) ==> 0 <= v <= COORD_MAX)
            &&& node_wf(*w.child)
        },
        WidgetNode::Abs(w) => w.position.wf() && node_wf(*w.child),
    }
}

/// `children_wf` says exactly that each of the first `k` children is
/// well-formed.
pub proof fn lemma_children_wf_all(s: Seq<WidgetNode>, k: int)
    requires
        k <= s.len(),
    ensures
        children_wf(s, k) <==> (forall|i: int| 0 <= i < k ==> node_wf(#[trigger] s[i])),
    decreases k,
{
    if k > 0 {
        lemma_children_wf_all(s, k - 1);
    }
}

pub proof fn lemma_children_wf_push(s: Seq<WidgetNode>, c: WidgetNode)
    requires
        children_wf(s, s.len() as int),
        node_wf(c),
    ensures
        children_wf(s.push(c), s.len() as int + 1),
{
    lemma_children_wf_all(s, s.len() as int);
    lemma_children_wf_all(s.push(c), s.len() as int + 1);
    assert forall|i: int| 0 <= i < s.len() as int + 1 implies node_wf(#[trigger] s.push(c)[i]) by {
        if i < s.len() {
            assert(s.push(c)[i] == s[i]);
        }
    }
}

// ------------------------------------------------------------------ height

pub open spec fn children_height(s: Seq<WidgetNode>, k: int) -> nat
    decreases s, k,
{
    if k <= 0 || k > s.len() {
        0
    } else {
        let rest = children_height(s, k - 1);
        let h = node_height(s[k - 1]);
        if rest >= h {
            rest
        } else {
            h
        }
    }
}

/// How deep the subtree under a node goes.
pub open spec fn node_height(n: WidgetNode) -> nat
    decreases n, 1int,
{
    match n {
        WidgetNode::Empty(_) => 0,
        WidgetNode::Label(_) => 0,
        WidgetNode::Button(_) => 0,
        WidgetNode::Row(r) => 1 + children_height(r.children@, r.children@.len() as int),
        WidgetNode::Column(c) => 1 + children_height(c.children@, c.children@.len() as int),
        WidgetNode::MaxSize(w) => 1 + node_height(*w.child),
        WidgetNode::Abs(w) => 1 + node_height(*w.child),
    }
}

pub proof fn lemma_children_height(s: Seq<WidgetNode>, k: int, i: int)
    requires
        0 <= i < k <= s.len(),
    ensures
        node_height(s[i]) <= children_height(s, k),
    decreases k,
{
    if i < k - 1 {
        lemma_children_height(s, k - 1, i);
    }
}

// ----------------------------------------------------------------- erase

/// The sequence with the first node of identity `id` removed, if any.
pub open spec fn erase_first(s: Seq<WidgetNode>, id: Id) -> Seq<WidgetNode>
    decreases s.len(),
{
    if s.len() == 0 {
        s
    } else if node_id(s.first()) == id {
        s.drop_first()
    } else {
        seq![s.first()] + erase_first(s.drop_first(), id)
    }
}

pub proof fn lemma_erase_first_wf(s: Seq<WidgetNode>, id: Id)
    requires
        forall|i: int| 0 <= i < s.len() ==> node_wf(#[trigger] s[i]),
    ensures
        erase_first(s, id).len() <= s.len(),
        forall|i: int| 0 <= i < erase_first(s, id).len() ==> node_wf(#[trigger] erase_first(s, id)[i]),
    decreases s.len(),
{
    if s.len() > 0 {
        if node_id(s.first()) == id {
        } else {
            assert(forall|i: int|
                0 <= i < s.drop_first().len() ==> node_wf(#[trigger] s.drop_first()[i]));
            lemma_erase_first_wf(s.drop_first(), id);
        }
    }
}

/// When the first match sits at index `idx`, erasing is removing it.
pub proof fn lemma_erase_first_at(s: Seq<WidgetNode>, id: Id, idx: int)
    requires
        0 <= idx < s.len(),
        node_id(s[idx]) == id,
        forall|j: int| 0 <= j < idx ==> node_id(#[trigger] s[j]) != id,
    ensures
        erase_first(s, id) == s.remove(idx),
    decreases s.len(),
{
    if idx == 0 {
        assert(erase_first(s, id) =~= s.remove(0));
    } else {
        lemma_erase_first_at(s.drop_first(), id, idx - 1);
        assert(erase_first(s, id) =~= s.remove(idx)) by {
            assert(erase_first(s, id) == seq![s.first()] + s.drop_first().remove(idx - 1));
        }
    }
}

/// When nothing matches, erasing changes nothing.
pub proof fn lemma_erase_first_none(s: Seq<WidgetNode>, id: Id)
    requires
        forall|j: int| 0 <= j < s.len() ==> node_id(#[trigger] s[j]) != id,
    ensures
        erase_first(s, id) == s,
    decreases s.len(),
{
    if s.len() > 0 {
        lemma_erase_first_none(s.drop_first(), id);
        assert(erase_first(s, id) =~= s);
    }
}

/// Removes the first child with identity `id`, if any.
#[verifier::loop_isolation(false)]
pub(crate) fn erase_child_exec(children: &mut Vec<WidgetNode>, id: Id)
    requires
        children_wf(old(children)@, old(children)@.len() as int),
    ensures
        final(children)@ == erase_first(old(children)@, id),
        children_wf(final(children)@, final(children)@.len() as int),
{
    proof {
        lemma_children_wf_all(old(children)@, old(children)@.len() as int);
    }
    let n = children.len();
    let mut i: usize = 0;
    while i < n
        invariant
            i <= n,
            n == children@.len(),
            children@ == old(children)@,
            forall|j: int| 0 <= j < i ==> node_id(#[trigger] children@[j]) != id,
        decreases n - i,
    {
        if node_get_id(&children[i]) == id {
            proof {
                lemma_erase_first_at(children@, id, i as int);
            }
            children.remove(i);
            proof {
                lemma_erase_first_wf(old(children)@, id);
                lemma_children_wf_all(children@, children@.len() as int);
            }
            return ;
        }
        i = i + 1;
    }
    proof {
        lemma_erase_first_none(children@, id);
        lemma_children_wf_all(children@, children@.len() as int);
    }
}

// ------------------------------------------------------------ tree model

/// The mathematical view of a widget tree: leaves by value, containers by
/// their plain fields with the children as a sequence of models. Two trees
/// with the same model are observably the same.
pub enum NodeModel {
    Empty(Empty),
    Label(Label),
    Button(Button),
    Row(Id, i64, Seq<NodeModel>),
    Column(Id, i64, Option<i64>, Seq<NodeModel>),
    MaxSize(Id, Option<i64>, Option<i64>, Seq<NodeModel>),
    Abs(Id, LogicalPosition, Seq<NodeModel>),
}

pub open spec fn children_models(s: Seq<WidgetNode>, k: int) -> Seq<NodeModel>
    decreases s, k,
{
    if k <= 0 || k > s.len() {
        Seq::empty()
    } else {
        children_models(s, k - 1).push(node_model(s[k - 1]))
    }
}

/// The model of a tree.
pub open spec fn node_model(n: WidgetNode) -> NodeModel
    decreases n, 1int,
{
    match n {
        WidgetNode::Empty(w) => NodeModel::Empty(w),
        WidgetNode::Label(w) => NodeModel::Label(w),
        WidgetNode::Button(w) => NodeModel::Button(w),
        WidgetNode::Row(r) => NodeModel::Row(
            r.id,
            r.space,
            children_models(r.children@, r.children@.len() as int),
        ),
        WidgetNode::Column(c) => NodeModel::Column(
            c.id,
            c.space,
            c.max_height,
            children_models(c.children@, c.children@.len() as int),
        ),
        WidgetNode::MaxSize(w) => NodeModel::MaxSize(
            w.id,
            w.max_width,
            w.max_height,
            seq![node_model(*w.child)],
        ),
        WidgetNode::Abs(w) => NodeModel::Abs(w.id, w.position, seq![node_model(*w.child)]),
    }
}

pub open spec fn model_id(m: NodeModel) -> Id {
    match m {
        NodeModel::Empty(w) => w.id,
        NodeModel::Label(w) => w.id,
        NodeModel::Button(w) => w.id,
        NodeModel::Row(id, _, _) => id,
        NodeModel::Column(id, _, _, _) => id,
        NodeModel::MaxSize(id, _, _, _) => id,
        NodeModel::Abs(id, _, _) => id,
    }
}

pub open spec fn model_kind(m: NodeModel) -> WidgetKind {
    match m {
        NodeModel::Empty(_) => WidgetKind::Empty,
        NodeModel::Label(_) => WidgetKind::Label,
        NodeModel::Button(_) => WidgetKind::Button,
        NodeModel::Row(_, _, _) => WidgetKind::Row,
        NodeModel::Column(_, _, _, _) => WidgetKind::Column,
        NodeModel::MaxSize(_, _, _, _) => WidgetKind::MaxSize,
        NodeModel::Abs(_, _, _) => WidgetKind::Abs,
    }
}

/// The model sequence with the first node of identity `id` removed.
pub open spec fn erase_first_model(cs: Seq<NodeModel>, id: Id) -> Seq<NodeModel>
    decreases cs.len(),
{
    if cs.len() == 0 {
        cs
    } else if model_id(cs.first()) == id {
        cs.drop_first()
    } else {
        seq![cs.first()] + erase_first_model(cs.drop_first(), id)
    }
}

/// What one deferred command does to a node's own state, at model level.
pub open spec fn model_apply_cmd(m: NodeModel, cmd: ApplyCommand) -> NodeModel {
    match m {
        NodeModel::Empty(_) => m,
        NodeModel::Label(w) => NodeModel::Label(<Label as Widget>::model_apply(w, cmd)),
        NodeModel::Button(w) => NodeModel::Button(<Button as Widget>::model_apply(w, cmd)),
        NodeModel::Row(id, space, cs) => match cmd {
            ApplyCommand::PushChild(b) => NodeModel::Row(id, space, cs.push(node_model(*b))),
            ApplyCommand::EraseChild(eid) => NodeModel::Row(id, space, erase_first_model(cs, eid)),
            ApplyCommand::SetSpace(s) => NodeModel::Row(id, s, cs),
            _ => m,
        },
        NodeModel::Column(id, space, mh, cs) => match cmd {
            ApplyCommand::PushChild(b) => NodeModel::Column(
                id,
                space,
                mh,
                cs.push(node_model(*b)),
            ),
            ApplyCommand::EraseChild(eid) => NodeModel::Column(
                id,
                space,
                mh,
                erase_first_model(cs, eid),
            ),
            ApplyCommand::SetSpace(s) => NodeModel::Column(id, s, mh, cs),
            ApplyCommand::SetMaxHeight(h) => NodeModel::Column(id, space, h, cs),
            _ => m,
        },
        NodeModel::MaxSize(id, mw, mh, cs) => match cmd {
            ApplyCommand::SetMaxSize(a, b) => NodeModel::MaxSize(id, a, b, cs),
            _ => m,
        },
        NodeModel::Abs(id, p, cs) => match cmd {
            ApplyCommand::SetPosition(q) => NodeModel::Abs(id, q, cs),
            _ => m,
        },
    }
}

/// Routes one command to the first node (in depth-first order) whose
/// identity and kind match the target, applies it there, and reports
/// whether a target was found. Descent stops at the applied node.
pub open spec fn apply_one(m: NodeModel, id: Id, kind: WidgetKind, cmd: ApplyCommand) -> (
    NodeModel,
    bool,
)
    decreases m, 1int,
{
    if model_id(m) == id && model_kind(m) == kind {
        (model_apply_cmd(m, cmd), true)
    } else {
        match m {
            NodeModel::Empty(_) => (m, false),
            NodeModel::Label(_) => (m, false),
            NodeModel::Button(_) => (m, false),
            NodeModel::Row(rid, space, cs) => {
                let r = apply_children(cs, id, kind, cmd);
                (NodeModel::Row(rid, space, r.0), r.1)
            },
            NodeModel::Column(cid, space, mh, cs) => {
                let r = apply_children(cs, id, kind, cmd);
                (NodeModel::Column(cid, space, mh, r.0), r.1)
            },
            NodeModel::MaxSize(wid, mw, mh, cs) => {
                let r = apply_children(cs, id, kind, cmd);
                (NodeModel::MaxSize(wid, mw, mh, r.0), r.1)
            },
            NodeModel::Abs(aid, p, cs) => {
                let r = apply_children(cs, id, kind, cmd);
                (NodeModel::Abs(aid, p, r.0), r.1)
            },
        }
    }
}

pub open spec fn apply_children(cs: Seq<NodeModel>, id: Id, kind: WidgetKind, cmd: ApplyCommand) -> (
    Seq<NodeModel>,
    bool,
)
    decreases cs, 0int,
{
    if cs.len() == 0 {
        (cs, false)
    } else {
        let h = apply_one(cs.first(), id, kind, cmd);
        if h.1 {
            (seq![h.0] + cs.drop_first(), true)
        } else {
            let t = apply_children(cs.drop_first(), id, kind, cmd);
            (seq![cs.first()] + t.0, t.1)
        }
    }
}

/// One queue entry's effect: a still-pending command goes to its target (if
/// the tree holds one); a consumed entry does nothing.
pub open spec fn apply_entry_spec(m: NodeModel, e: ApplyEntry) -> (NodeModel, bool) {
    match e.cmd {
        Some(c) => apply_one(m, e.handle.id_spec(), e.handle.kind_spec(), c),
        None => (m, false),
    }
}

/// The whole drain: queue entries are delivered in order, each exactly
/// once; an entry whose target was found ends consumed, one whose target
/// never resolves is left for the caller to drop.
pub open spec fn drain_queue(m: NodeModel, q: Seq<ApplyEntry>) -> (
    NodeModel,
    Seq<ApplyEntry>,
)
    decreases q.len(),
{
    if q.len() == 0 {
        (m, q)
    } else {
        let e = q.first();
        let h = apply_entry_spec(m, e);
        let rest = drain_queue(h.0, q.drop_first());
        let e2 = if h.1 {
            ApplyEntry { handle: e.handle, cmd: None }
        } else {
            e
        };
        (rest.0, seq![e2] + rest.1)
    }
}

/// The structural shape of a tree: identities, kinds and arity — what
/// input dispatch must leave alone (structural changes go through the
/// apply queue, never happen in place during a walk).
pub struct NodeSkeleton {
    pub id: Id,
    pub kind: WidgetKind,
    pub children: Seq<NodeSkeleton>,
}

pub open spec fn children_skeletons(s: Seq<WidgetNode>, k: int) -> Seq<NodeSkeleton>
    decreases s, 0int, k,
{
    if k <= 0 || k > s.len() {
        Seq::empty()
    } else {
        children_skeletons(s, k - 1).push(node_skeleton(s[k - 1]))
    }
}

/// The shape of a tree.
pub open spec fn node_skeleton(n: WidgetNode) -> NodeSkeleton
    decreases n, 1int, 0int,
{
    match n {
        WidgetNode::Empty(w) => NodeSkeleton {
            id: w.id,
            kind: WidgetKind::Empty,
            children: Seq::empty(),
        },
        WidgetNode::Label(w) => NodeSkeleton {
            id: w.id,
            kind: WidgetKind::Label,
            children: Seq::empty(),
        },
        WidgetNode::Button(w) => NodeSkeleton {
            id: w.id,
            kind: WidgetKind::Button,
            children: Seq::empty(),
        },
        WidgetNode::Row(r) => NodeSkeleton {
            id: r.id,
            kind: WidgetKind::Row,
            children: children_skeletons(r.children@, r.children@.len() as int),
        },
        WidgetNode::Column(c) => NodeSkeleton {
            id: c.id,
            kind: WidgetKind::Column,
            children: children_skeletons(c.children@, c.children@.len() as int),
        },
        WidgetNode::MaxSize(w) => NodeSkeleton {
            id: w.id,
            kind: WidgetKind::MaxSize,
            children: seq![node_skeleton(*w.child)],
        },
        WidgetNode::Abs(w) => NodeSkeleton {
            id: w.id,
            kind: WidgetKind::Abs,
            children: seq![node_skeleton(*w.child)],
        },
    }
}

pub proof fn lemma_children_skeletons_index(s: Seq<WidgetNode>, k: int, i: int)
    requires
        0 <= i < k <= s.len(),
    ensures
        children_skeletons(s, k).len() == k,
        children_skeletons(s, k)[i] == node_skeleton(s[i]),
    decreases k,
{
    lemma_children_skeletons_len(s, k);
    if i < k - 1 {
        lemma_children_skeletons_index(s, k - 1, i);
    } else {
        lemma_children_skeletons_len(s, k - 1);
    }
}

pub proof fn lemma_children_skeletons_len(s: Seq<WidgetNode>, k: int)
    requires
        k <= s.len(),
    ensures
        children_skeletons(s, k).len() == (if k <= 0 {
            0
        } else {
            k
        }),
    decreases k,
{
    if k > 0 {
        lemma_children_skeletons_len(s, k - 1);
    }
}

/// What one input dispatch makes of a tree, at model level: each widget
/// reacts in depth-first order (the widgets' own `input_spec`s say how),
/// events are appended along the way, and a `Break` stops the iteration
/// over the remaining siblings at every level above.
pub open spec fn dispatch_spec(m: NodeModel, ctx: Context, input: Input, events: Seq<Event>) -> (
    NodeModel,
    Seq<Event>,
    ControlFlow,
)
    decreases m, 1int,
{
    match m {
        NodeModel::Empty(w) => (m, events, ControlFlow::Continue),
        NodeModel::Label(w) => (m, events, ControlFlow::Continue),
        NodeModel::Button(w) => {
            let r = w.input_spec(ctx, input, events);
            (NodeModel::Button(r.0), r.1, ControlFlow::Continue)
        },
        NodeModel::Row(id, space, cs) => {
            let r = dispatch_children_spec(cs, ctx, input, events);
            (NodeModel::Row(id, space, r.0), r.1, r.2)
        },
        NodeModel::Column(id, space, mh, cs) => {
            let r = dispatch_children_spec(cs, ctx, input, events);
            (NodeModel::Column(id, space, mh, r.0), r.1, r.2)
        },
        NodeModel::MaxSize(id, mw, mh, cs) => {
            let r = dispatch_children_spec(cs, ctx, input, events);
            (NodeModel::MaxSize(id, mw, mh, r.0), r.1, r.2)
        },
        NodeModel::Abs(id, p, cs) => {
            let r = dispatch_children_spec(cs, ctx, input, events);
            (NodeModel::Abs(id, p, r.0), r.1, r.2)
        },
    }
}

pub open spec fn dispatch_children_spec(
    cs: Seq<NodeModel>,
    ctx: Context,
    input: Input,
    events: Seq<Event>,
) -> (Seq<NodeModel>, Seq<Event>, ControlFlow)
    decreases cs, 0int,
{
    if cs.len() == 0 {
        (cs, events, ControlFlow::Continue)
    } else {
        let h = dispatch_spec(cs.first(), ctx, input, events);
        if h.2 == ControlFlow::Break {
            (seq![h.0] + cs.drop_first(), h.1, ControlFlow::Break)
        } else {
            let t = dispatch_children_spec(cs.drop_first(), ctx, input, h.1);
            (seq![h.0] + t.0, t.1, t.2)
        }
    }
}

/// Dispatch through an untried prefix that all continued.
proof fn lemma_dispatch_children_skip(
    cs: Seq<NodeModel>,
    ctx: Context,
    input: Input,
    events: Seq<Event>,
    done: Seq<NodeModel>,
    mid: Seq<Event>,
    i: int,
)
    requires
        0 <= i <= cs.len(),
        done.len() == i,
        ({
            let t = dispatch_children_spec(cs.subrange(0, i), ctx, input, events);
            t.0 == done && t.1 == mid && t.2 == ControlFlow::Continue
        }),
    ensures
        dispatch_children_spec(cs, ctx, input, events) == ({
            let t = dispatch_children_spec(cs.subrange(i, cs.len() as int), ctx, input, mid);
            (done + t.0, t.1, t.2)
        }),
    decreases i,
{
    if i == 0 {
        assert(cs.subrange(0, 0) =~= Seq::<NodeModel>::empty());
        assert(done =~= Seq::<NodeModel>::empty());
        assert(cs.subrange(0, cs.len() as int) =~= cs);
        let t = dispatch_children_spec(cs, ctx, input, mid);
        assert(done + t.0 =~= t.0);
    } else {
        let pre = cs.subrange(0, i);
        let h = dispatch_spec(cs[0], ctx, input, events);
        assert(pre.first() == cs[0]);
        assert(pre.drop_first() =~= cs.subrange(1, i));
        assert(h.2 == ControlFlow::Continue) by {
            if h.2 == ControlFlow::Break {
                assert(dispatch_children_spec(pre, ctx, input, events).2 == ControlFlow::Break);
            }
        }
        let t1 = dispatch_children_spec(cs.subrange(1, i), ctx, input, h.1);
        assert(dispatch_children_spec(pre, ctx, input, events) == (
            seq![h.0] + t1.0,
            t1.1,
            t1.2,
        ));
        assert(done == seq![h.0] + t1.0);
        assert(done.first() == h.0);
        assert(done.drop_first() =~= t1.0);
        let csd = cs.drop_first();
        assert(csd.subrange(0, i - 1) =~= cs.subrange(1, i));
        lemma_dispatch_children_skip(csd, ctx, input, h.1, done.drop_first(), mid, i - 1);
        assert(csd.subrange(i - 1, csd.len() as int) =~= cs.subrange(i, cs.len() as int));
        let t = dispatch_children_spec(cs.subrange(i, cs.len() as int), ctx, input, mid);
        assert(dispatch_children_spec(cs, ctx, input, events) == (
            seq![h.0] + (done.drop_first() + t.0),
            t.1,
            t.2,
        ));
        assert(seq![h.0] + (done.drop_first() + t.0) =~= done + t.0);
    }
}

// ------------------------------------------------------------- size types

/// Folds the children's sizing policies: `Flexible` dominates per axis.
pub open spec fn types_fold(s: Seq<WidgetNode>, k: int) -> SizeTypes
    decreases s, k,
{
    if k <= 0 || k > s.len() {
        SizeTypes { width: SizeType::Fix, height: SizeType::Fix }
    } else {
        let prev = types_fold(s, k - 1);
        let t = node_size_types_spec(s[k - 1]);
        SizeTypes {
            width: if t.width == SizeType::Flexible {
                SizeType::Flexible
            } else {
                prev.width
            },
            height: if t.height == SizeType::Flexible {
                SizeType::Flexible
            } else {
                prev.height
            },
        }
    }
}

pub open spec fn node_size_types_spec(n: WidgetNode) -> SizeTypes
    decreases n, 1int,
{
    match n {
        WidgetNode::Empty(w) => w.size_types_spec(),
        WidgetNode::Label(w) => w.size_types_spec(),
        WidgetNode::Button(w) => w.size_types_spec(),
        WidgetNode::Row(r) => types_fold(r.children@, r.children@.len() as int),
        WidgetNode::Column(c) => types_fold(c.children@, c.children@.len() as int),
        WidgetNode::MaxSize(w) => node_size_types_spec(*w.child),
        WidgetNode::Abs(w) => w.size_types_spec(),
    }
}

pub fn node_size_types(n: &WidgetNode) -> (t: SizeTypes)
    ensures
        t == node_size_types_spec(*n),
    decreases *n, 1int,
{
    match n {
        WidgetNode::Empty(w) => w.size_types(),
        WidgetNode::Label(w) => w.size_types(),
        WidgetNode::Button(w) => w.size_types(),
        WidgetNode::Row(r) => children_size_types(&r.children),
        WidgetNode::Column(c) => children_size_types(&c.children),
        WidgetNode::MaxSize(w) => {
            proof {
                assert(decreases_to!(*n => *w.child));
            }
            node_size_types(&w.child)
        },
        WidgetNode::Abs(w) => w.size_types(),
    }
}

#[verifier::loop_isolation(false)]
pub(crate) fn children_size_types(children: &Vec<WidgetNode>) -> (t: SizeTypes)
    ensures
        t == types_fold(children@, children@.len() as int),
    decreases children@, 0int,
{
    let n = children.len();
    let mut t = SizeTypes::fix();
    let mut i: usize = 0;
    while i < n
        invariant
            i <= n,
            n == children@.len(),
            t == types_fold(children@, i as int),
        decreases n - i,
    {
        proof {
            assert(decreases_to!(children@ => children@[i as int]));
        }
        let ct = node_size_types(&children[i]);
        t = SizeTypes::new(
            if matches!(ct.width, SizeType::Flexible) {
                SizeType::Flexible
            } else {
                t.width
            },
            if matches!(ct.height, SizeType::Flexible) {
                SizeType::Flexible
            } else {
                t.height
            },
        );
        i = i + 1;
    }
    t
}

// ------------------------------------------------------------------- size

/// The available extent of a span, clamped into `[0, COORD_MAX]`.
pub open spec fn avail_extent(a: int, b: int) -> int {
    clamp_extent_spec(b - a)
}

/// The main-axis entries a row negotiates over: each child's width policy
/// and measured width.
pub open spec fn row_items(s: Seq<WidgetNode>, rect: LogicalRect, k: int) -> Seq<AxisItem>
    decreases s, 0int, k,
{
    if k <= 0 || k > s.len() {
        Seq::empty()
    } else {
        row_items(s, rect, k - 1).push(
            AxisItem {
                policy: node_size_types_spec(s[k - 1]).width,
                extent: node_size_spec(s[k - 1], rect).width,
            },
        )
    }
}

/// The main-axis entries a column negotiates over: each child's height
/// policy and measured height, clamped to the column's limit.
pub open spec fn col_items(s: Seq<WidgetNode>, rect: LogicalRect, mh: Option<i64>, k: int) -> Seq<
    AxisItem,
>
    decreases s, 0int, k,
{
    if k <= 0 || k > s.len() {
        Seq::empty()
    } else {
        let h = node_size_spec(s[k - 1], rect).height;
        col_items(s, rect, mh, k - 1).push(
            AxisItem {
                policy: node_size_types_spec(s[k - 1]).height,
                extent: (match mh {
                    Some(m) => if h <= m {
                        h as int
                    } else {
                        m as int
                    },
                    None => h as int,
                }) as i64,
            },
        )
    }
}

/// The widest measured child width among the first `k` children.
pub open spec fn col_cross(s: Seq<WidgetNode>, rect: LogicalRect, k: int) -> int
    decreases s, 0int, k,
{
    if k <= 0 || k > s.len() {
        0
    } else {
        let rest = col_cross(s, rect, k - 1);
        let w = node_size_spec(s[k - 1], rect).width as int;
        if rest >= w {
            rest
        } else {
            w
        }
    }
}

/// `row_items` has one entry per child, in order.
pub proof fn lemma_row_items_index(s: Seq<WidgetNode>, rect: LogicalRect, k: int, i: int)
    requires
        0 <= i < k <= s.len(),
    ensures
        row_items(s, rect, k).len() == k,
        row_items(s, rect, k)[i] == (AxisItem {
            policy: node_size_types_spec(s[i]).width,
            extent: node_size_spec(s[i], rect).width,
        }),
    decreases k,
{
    if i < k - 1 {
        lemma_row_items_index(s, rect, k - 1, i);
    } else if k >= 1 {
        if k - 1 >= 1 {
            lemma_row_items_index(s, rect, k - 1, k - 2);
        } else {
        }
    }
    if k >= 1 && row_items(s, rect, k - 1).len() != k - 1 {
        lemma_row_items_len(s, rect, k - 1);
    }
}

pub proof fn lemma_row_items_len(s: Seq<WidgetNode>, rect: LogicalRect, k: int)
    requires
        k <= s.len(),
    ensures
        row_items(s, rect, k).len() == (if k <= 0 {
            0
        } else {
            k
        }),
    decreases k,
{
    if k > 0 {
        lemma_row_items_len(s, rect, k - 1);
    }
}

pub proof fn lemma_col_items_len(s: Seq<WidgetNode>, rect: LogicalRect, mh: Option<i64>, k: int)
    requires
        k <= s.len(),
    ensures
        col_items(s, rect, mh, k).len() == (if k <= 0 {
            0
        } else {
            k
        }),
    decreases k,
{
    if k > 0 {
        lemma_col_items_len(s, rect, mh, k - 1);
    }
}

/// `col_items` has one entry per child, in order.
pub proof fn lemma_col_items_index(
    s: Seq<WidgetNode>,
    rect: LogicalRect,
    mh: Option<i64>,
    k: int,
    i: int,
)
    requires
        0 <= i < k <= s.len(),
    ensures
        col_items(s, rect, mh, k).len() == k,
        col_items(s, rect, mh, k)[i] == (AxisItem {
            policy: node_size_types_spec(s[i]).height,
            extent: (match mh {
                Some(m) => if node_size_spec(s[i], rect).height <= m {
                    node_size_spec(s[i], rect).height as int
                } else {
                    m as int
                },
                None => node_size_spec(s[i], rect).height as int,
            }) as i64,
        }),
    decreases k,
{
    lemma_col_items_len(s, rect, mh, k);
    if i < k - 1 {
        lemma_col_items_index(s, rect, mh, k - 1, i);
    } else {
        lemma_col_items_len(s, rect, mh, k - 1);
    }
}

pub open spec fn row_size_spec(r: Row, rect: LogicalRect) -> LogicalSize
    decreases r.children@, 1int, 0int,
{
    LogicalSize {
        width: measure_spec(
            row_items(r.children@, rect, r.children@.len() as int),
            r.space as int,
            avail_extent(rect.left as int, rect.right as int),
        ) as i64,
        height: clamp_extent_spec(rect.bottom - rect.top) as i64,
    }
}

pub open spec fn col_size_spec(c: Column, rect: LogicalRect) -> LogicalSize
    decreases c.children@, 1int, 0int,
{
    LogicalSize {
        width: clamp_extent_spec(col_cross(c.children@, rect, c.children@.len() as int)) as i64,
        height: measure_spec(
            col_items(c.children@, rect, c.max_height, c.children@.len() as int),
            c.space as int,
            avail_extent(rect.top as int, rect.bottom as int),
        ) as i64,
    }
}

pub open spec fn max_size_size_spec(w: MaxSize, rect: LogicalRect) -> LogicalSize
    decreases *w.child, 3int, 0int,
{
    let s = node_size_spec(*w.child, rect);
    LogicalSize {
        width: (match w.max_width {
            Some(m) => if s.width <= m {
                s.width as int
            } else {
                m as int
            },
            None => s.width as int,
        }) as i64,
        height: (match w.max_height {
            Some(m) => if s.height <= m {
                s.height as int
            } else {
                m as int
            },
            None => s.height as int,
        }) as i64,
    }
}

/// What a node measures inside `rect`.
pub open spec fn node_size_spec(n: WidgetNode, rect: LogicalRect) -> LogicalSize
    decreases n, 2int, 0int,
{
    match n {
        WidgetNode::Empty(w) => w.size_spec(rect),
        WidgetNode::Label(w) => w.size_spec(rect),
        WidgetNode::Button(w) => w.size_spec(rect),
        WidgetNode::Row(r) => row_size_spec(r, rect),
        WidgetNode::Column(c) => col_size_spec(c, rect),
        WidgetNode::MaxSize(w) => max_size_size_spec(w, rect),
        WidgetNode::Abs(_) => LogicalSize { width: 0i64, height: 0i64 },
    }
}

pub fn node_size(n: &WidgetNode, lc: &LayoutContext) -> (s: LogicalSize)
    requires
        node_wf(*n),
        lc.wf(),
    ensures
        s == node_size_spec(*n, lc.rect),
        s.wf(),
    decreases *n, 1int,
{
    match n {
        WidgetNode::Empty(w) => w.size(lc),
        WidgetNode::Label(w) => w.size(lc),
        WidgetNode::Button(w) => w.size(lc),
        WidgetNode::Row(r) => {
            proof {
                assert(decreases_to!(*n => r.children@));
            }
            row_size(r, lc)
        },
        WidgetNode::Column(c) => {
            proof {
                assert(decreases_to!(*n => c.children@));
            }
            col_size(c, lc)
        },
        WidgetNode::MaxSize(w) => {
            proof {
                assert(decreases_to!(*n => *w.child));
            }
            max_size_size(w, lc)
        },
        WidgetNode::Abs(_) => LogicalSize::zero(),
    }
}

/// Builds the row's axis entries by measuring each child.
#[verifier::loop_isolation(false)]
pub(crate) fn row_axis_items(children: &Vec<WidgetNode>, lc: &LayoutContext) -> (items: Vec<AxisItem>)
    requires
        children_wf(children@, children@.len() as int),
        lc.wf(),
    ensures
        items@ == row_items(children@, lc.rect, children@.len() as int),
        axis_wf(items@),
        items@.len() == children@.len(),
    decreases children@, 2int,
{
    proof {
        lemma_children_wf_all(children@, children@.len() as int);
    }
    let n = children.len();
    let mut items: Vec<AxisItem> = Vec::new();
    let mut i: usize = 0;
    while i < n
        invariant
            i <= n,
            n == children@.len(),
            items@ == row_items(children@, lc.rect, i as int),
            items@.len() == i,
            axis_wf(items@),
        decreases n - i,
    {
        proof {
            assert(decreases_to!(children@ => children@[i as int]));
        }
        let t = node_size_types(&children[i]);
        let sz = node_size(&children[i], lc);
        items.push(AxisItem { policy: t.width, extent: sz.width });
        proof {
            assert forall|j: int| 0 <= j < items@.len() implies crate::geometry::extent_ok(
                #[trigger] items@[j].extent as int,
            ) by {
                if j < items@.len() - 1 {
                    assert(items@[j] == items@.subrange(0, items@.len() - 1)[j]);
                }
            }
        }
        i = i + 1;
    }
    items
}

/// Builds the column's axis entries by measuring each child.
#[verifier::loop_isolation(false)]
pub(crate) fn col_axis_items(
    children: &Vec<WidgetNode>,
    lc: &LayoutContext,
    max_height: Option<i64>,
) -> (items: Vec<AxisItem>)
    requires
        children_wf(children@, children@.len() as int),
        lc.wf(),
        max_height matches Some(v) ==> 0 <= v <= COORD_MAX,
    ensures
        items@ == col_items(children@, lc.rect, max_height, children@.len() as int),
        axis_wf(items@),
        items@.len() == children@.len(),
    decreases children@, 2int,
{
    proof {
        lemma_children_wf_all(children@, children@.len() as int);
    }
    let n = children.len();
    let mut items: Vec<AxisItem> = Vec::new();
    let mut i: usize = 0;
    while i < n
        invariant
            i <= n,
            n == children@.len(),
            items@ == col_items(children@, lc.rect, max_height, i as int),
            items@.len() == i,
            axis_wf(items@),
        decreases n - i,
    {
        proof {
            assert(decreases_to!(children@ => children@[i as int]));
        }
        let t = node_size_types(&children[i]);
        let sz = node_size(&children[i], lc);
        let h = match max_height {
            Some(m) => if sz.height <= m {
                sz.height
            } else {
                m
            },
            None => sz.height,
        };
        items.push(AxisItem { policy: t.height, extent: h });
        proof {
            assert forall|j: int| 0 <= j < items@.len() implies crate::geometry::extent_ok(
                #[trigger] items@[j].extent as int,
            ) by {
                if j < items@.len() - 1 {
                    assert(items@[j] == items@.subrange(0, items@.len() - 1)[j]);
                }
            }
        }
        i = i + 1;
    }
    items
}

pub(crate) fn row_size(r: &Row, lc: &LayoutContext) -> (s: LogicalSize)
    requires
        r.wf(),
        lc.wf(),
    ensures
        s == row_size_spec(*r, lc.rect),
        s.wf(),
    decreases r.children@, 3int,
{
    let items = row_axis_items(&r.children, lc);
    let avail = clamp_extent(lc.rect.right - lc.rect.left);
    let w = measure_axis(&items, r.space, avail);
    let h = clamp_extent(lc.rect.bottom - lc.rect.top);
    LogicalSize::new(w, h)
}

pub(crate) fn col_size(c: &Column, lc: &LayoutContext) -> (s: LogicalSize)
    requires
        c.wf(),
        lc.wf(),
    ensures
        s == col_size_spec(*c, lc.rect),
        s.wf(),
    decreases c.children@, 3int,
{
    let items = col_axis_items(&c.children, lc, c.max_height);
    let avail = clamp_extent(lc.rect.bottom - lc.rect.top);
    let h = measure_axis(&items, c.space, avail);
    let w = col_cross_exec(&c.children, lc);
    LogicalSize::new(w, h)
}

/// The widest measured child width.
#[verifier::loop_isolation(false)]
pub(crate) fn col_cross_exec(children: &Vec<WidgetNode>, lc: &LayoutContext) -> (w: i64)
    requires
        children_wf(children@, children@.len() as int),
        lc.wf(),
    ensures
        w == clamp_extent_spec(col_cross(children@, lc.rect, children@.len() as int)),
        crate::geometry::extent_ok(w as int),
    decreases children@, 2int,
{
    proof {
        lemma_children_wf_all(children@, children@.len() as int);
    }
    let n = children.len();
    let mut w: i64 = 0;
    let mut i: usize = 0;
    while i < n
        invariant
            i <= n,
            n == children@.len(),
            w == col_cross(children@, lc.rect, i as int),
            0 <= w <= COORD_MAX,
        decreases n - i,
    {
        proof {
            assert(decreases_to!(children@ => children@[i as int]));
        }
        let sz = node_size(&children[i], lc);
        if sz.width > w {
            w = sz.width;
        }
        i = i + 1;
    }
    w
}

pub(crate) fn max_size_size(w: &MaxSize, lc: &LayoutContext) -> (s: LogicalSize)
    requires
        w.wf(),
        lc.wf(),
    ensures
        s == max_size_size_spec(*w, lc.rect),
        s.wf(),
    decreases *w.child, 2int,
{
    let cs = node_size(&w.child, lc);
    let width = match w.max_width {
        Some(m) => if cs.width <= m {
            cs.width
        } else {
            m
        },
        None => cs.width,
    };
    let height = match w.max_height {
        Some(m) => if cs.height <= m {
            cs.height
        } else {
            m
        },
        None => cs.height,
    };
    LogicalSize::new(width, height)
}

// ------------------------------------------------------------------ input

/// Three-step prefix chaining for the append-only event batches.
proof fn lemma_prefix_chain(a: Seq<Event>, b: Seq<Event>, c: Seq<Event>)
    requires
        b.len() >= a.len(),
        b.subrange(0, a.len() as int) == a,
        c.len() >= b.len(),
        c.subrange(0, b.len() as int) == b,
    ensures
        c.len() >= a.len(),
        c.subrange(0, a.len() as int) == a,
{
    assert(c.subrange(0, a.len() as int) =~= b.subrange(0, a.len() as int));
}

/// Dispatches one input event to a node and its subtree.
pub fn node_input(n: &mut WidgetNode, ctx: &Context, input: &Input, events: &mut Events) -> (flow:
    ControlFlow)
    requires
        node_wf(*old(n)),
    ensures
        node_wf(*final(n)),
        node_id(*final(n)) == node_id(*old(n)),
        node_kind(*final(n)) == node_kind(*old(n)),
        node_skeleton(*final(n)) == node_skeleton(*old(n)),
        final(events)@.len() >= old(events)@.len(),
        final(events)@.subrange(0, old(events)@.len() as int) == old(events)@,
        (node_model(*final(n)), final(events)@, flow) == dispatch_spec(
            node_model(*old(n)),
            *ctx,
            *input,
            old(events)@,
        ),
    decreases *n, 1int,
{
    match n {
        WidgetNode::Empty(w) => w.input(ctx, input, events),
        WidgetNode::Label(w) => w.input(ctx, input, events),
        WidgetNode::Button(w) => w.input(ctx, input, events),
        WidgetNode::Row(r) => {
            let ghost c0 = r.children@;
            let flow = children_input(&mut r.children, ctx, input, events);
            proof {
                let len = c0.len() as int;
                assert forall|j: int|
                    0 <= j < len implies children_skeletons(r.children@, len)[j]
                    == children_skeletons(c0, len)[j] by {
                    lemma_children_skeletons_index(r.children@, len, j);
                    lemma_children_skeletons_index(c0, len, j);
                }
                lemma_children_skeletons_len(r.children@, len);
                lemma_children_skeletons_len(c0, len);
                assert(children_skeletons(r.children@, len) =~= children_skeletons(c0, len));
            }
            flow
        },
        WidgetNode::Column(c) => {
            let ghost c0 = c.children@;
            let flow = children_input(&mut c.children, ctx, input, events);
            proof {
                let len = c0.len() as int;
                assert forall|j: int|
                    0 <= j < len implies children_skeletons(c.children@, len)[j]
                    == children_skeletons(c0, len)[j] by {
                    lemma_children_skeletons_index(c.children@, len, j);
                    lemma_children_skeletons_index(c0, len, j);
                }
                lemma_children_skeletons_len(c.children@, len);
                lemma_children_skeletons_len(c0, len);
                assert(children_skeletons(c.children@, len) =~= children_skeletons(c0, len));
            }
            flow
        },
        WidgetNode::MaxSize(w) => {
            let ghost cm = node_model(*w.child);
            let ghost e0 = (*events)@;
            proof {
                assert(decreases_to!(*old(n) => *(*old(n))->MaxSize_0.child));
            }
            let flow = node_input(&mut *w.child, ctx, input, events);
            proof {
                let h = dispatch_spec(cm, *ctx, *input, e0);
                assert(seq![cm].first() == cm);
                assert(seq![cm].drop_first() =~= Seq::<NodeModel>::empty());
                if h.2 == ControlFlow::Break {
                    assert(seq![h.0] + seq![cm].drop_first() =~= seq![node_model(*w.child)]);
                } else {
                    assert(dispatch_children_spec(Seq::<NodeModel>::empty(), *ctx, *input, h.1)
                        == (Seq::<NodeModel>::empty(), h.1, ControlFlow::Continue));
                    assert(seq![h.0] + Seq::<NodeModel>::empty() =~= seq![node_model(*w.child)]);
                }
            }
            flow
        },
        WidgetNode::Abs(w) => {
            let ghost cm = node_model(*w.child);
            let ghost e0 = (*events)@;
            proof {
                assert(decreases_to!(*old(n) => *(*old(n))->Abs_0.child));
            }
            let flow = node_input(&mut *w.child, ctx, input, events);
            proof {
                let h = dispatch_spec(cm, *ctx, *input, e0);
                assert(seq![cm].first() == cm);
                assert(seq![cm].drop_first() =~= Seq::<NodeModel>::empty());
                if h.2 == ControlFlow::Break {
                    assert(seq![h.0] + seq![cm].drop_first() =~= seq![node_model(*w.child)]);
                } else {
                    assert(dispatch_children_spec(Seq::<NodeModel>::empty(), *ctx, *input, h.1)
                        == (Seq::<NodeModel>::empty(), h.1, ControlFlow::Continue));
                    assert(seq![h.0] + Seq::<NodeModel>::empty() =~= seq![node_model(*w.child)]);
                }
            }
            flow
        },
    }
}

/// Dispatches one input event to each child in order, stopping at the
/// first that returns `Break`.
#[verifier::loop_isolation(false)]
pub(crate) fn children_input(
    children: &mut Vec<WidgetNode>,
    ctx: &Context,
    input: &Input,
    events: &mut Events,
) -> (flow: ControlFlow)
    requires
        children_wf(old(children)@, old(children)@.len() as int),
    ensures
        final(children)@.len() == old(children)@.len(),
        children_wf(final(children)@, final(children)@.len() as int),
        forall|j: int|
            0 <= j < old(children)@.len() ==> node_skeleton(#[trigger] final(children)@[j])
                == node_skeleton(old(children)@[j]),
        final(events)@.len() >= old(events)@.len(),
        final(events)@.subrange(0, old(events)@.len() as int) == old(events)@,
        ({
            let r = dispatch_children_spec(
                children_models(old(children)@, old(children)@.len() as int),
                *ctx,
                *input,
                old(events)@,
            );
            &&& children_models(final(children)@, final(children)@.len() as int) == r.0
            &&& final(events)@ == r.1
            &&& flow == r.2
        }),
    decreases children@, 0int,
{
    let ghost s0 = old(children)@;
    let ghost e0 = old(events)@;
    let ghost ms0 = children_models(s0, s0.len() as int);
    proof {
        lemma_children_wf_all(s0, s0.len() as int);
        lemma_children_models_len(s0, s0.len() as int);
        assert(ms0.subrange(0, 0) =~= Seq::<NodeModel>::empty());
    }
    let n = children.len();
    let mut i: usize = 0;
    while i < n
        invariant
            i <= n,
            n == s0.len(),
            children@.len() == n,
            forall|j: int| i <= j < n ==> children@[j] == s0[j],
            forall|j: int| 0 <= j < i ==> node_wf(#[trigger] children@[j]),
            forall|j: int|
                0 <= j < i ==> node_skeleton(#[trigger] children@[j]) == node_skeleton(s0[j]),
            events@.len() >= e0.len(),
            events@.subrange(0, e0.len() as int) == e0,
            dispatch_children_spec(ms0.subrange(0, i as int), *ctx, *input, e0) == (
                children_models(children@, i as int),
                events@,
                ControlFlow::Continue,
            ),
        decreases n - i,
    {
        let ghost e_pre = events@;
        let ghost v_pre = children@;
        let ghost done = children_models(children@, i as int);
        let mut c = children.remove(i);
        proof {
            assert(c == s0[i as int]);
            assert(decreases_to!(s0 => s0[i as int]));
            lemma_children_models_index(s0, s0.len() as int, i as int);
            lemma_children_models_len(v_pre, i as int);
        }
        let flow = node_input(&mut c, ctx, input, events);
        children.insert(i, c);
        proof {
            assert(children@ =~= v_pre.update(i as int, children@[i as int]));
            assert forall|j: int| i + 1 <= j < n implies children@[j] == s0[j] by {}
            lemma_prefix_chain(e0, e_pre, events@);
            lemma_children_models_prefix(children@, v_pre, i as int);
            assert(children_models(children@, i as int) == done);
            let h = dispatch_spec(ms0[i as int], *ctx, *input, e_pre);
            assert(h == (node_model(children@[i as int]), events@, flow));
            let single = ms0.subrange(i as int, i + 1);
            assert(single.first() == ms0[i as int]);
            assert(single.drop_first() =~= Seq::<NodeModel>::empty());
            assert(ms0.subrange(0, i + 1).subrange(0, i as int) =~= ms0.subrange(0, i as int));
            assert(ms0.subrange(0, i + 1).subrange(i as int, i + 1) =~= single);
            lemma_dispatch_children_skip(
                ms0.subrange(0, i + 1),
                *ctx,
                *input,
                e0,
                done,
                e_pre,
                i as int,
            );
            assert(dispatch_children_spec(single, *ctx, *input, e_pre) == (
                if h.2 == ControlFlow::Break {
                    (seq![h.0] + Seq::<NodeModel>::empty(), h.1, ControlFlow::Break)
                } else {
                    let t = dispatch_children_spec(Seq::<NodeModel>::empty(), *ctx, *input, h.1);
                    (seq![h.0] + t.0, t.1, t.2)
                }
            ));
        }
        if matches!(flow, ControlFlow::Break) {
            proof {
                lemma_children_wf_all(children@, children@.len() as int);
                assert forall|j: int| 0 <= j < n implies node_wf(#[trigger] children@[j]) by {
                    if j > i {
                        assert(children@[j] == s0[j]);
                    }
                }
                // the whole fold breaks here: the processed prefix all
                // continued, this child broke, the rest stay untouched
                let h = dispatch_spec(ms0[i as int], *ctx, *input, e_pre);
                assert(dispatch_children_spec(ms0.subrange(0, i + 1), *ctx, *input, e0) == (
                    done + (seq![h.0] + Seq::<NodeModel>::empty()),
                    h.1,
                    ControlFlow::Break,
                ));
                lemma_dispatch_children_skip(
                    ms0,
                    *ctx,
                    *input,
                    e0,
                    done,
                    e_pre,
                    i as int,
                );
                let suffix = ms0.subrange(i as int, s0.len() as int);
                assert(suffix.first() == ms0[i as int]);
                assert(suffix.drop_first() =~= ms0.subrange(i + 1, s0.len() as int));
                assert(dispatch_children_spec(ms0, *ctx, *input, e0) == (
                    done + (seq![h.0] + ms0.subrange(i + 1, s0.len() as int)),
                    h.1,
                    ControlFlow::Break,
                ));
                assert forall|j: int|
                    0 <= j < n implies children_models(children@, n as int)[j] == (done + (
                seq![h.0] + ms0.subrange(i + 1, s0.len() as int)))[j] by {
                    lemma_children_models_index(children@, n as int, j);
                    lemma_children_models_index(s0, n as int, j);
                    if j < i {
                        lemma_children_models_index(children@, i as int, j);
                    }
                }
                lemma_children_models_len(children@, n as int);
                assert(children_models(children@, n as int) =~= done + (seq![h.0]
                    + ms0.subrange(i + 1, s0.len() as int)));
            }
            return ControlFlow::Break;
        }
        proof {
            // extend the processed prefix by one child that continued
            let h = dispatch_spec(ms0[i as int], *ctx, *input, e_pre);
            assert(dispatch_children_spec(
                ms0.subrange(i as int, i + 1),
                *ctx,
                *input,
                e_pre,
            ) == (seq![h.0] + Seq::<NodeModel>::empty(), h.1, ControlFlow::Continue));
            assert(dispatch_children_spec(ms0.subrange(0, i + 1), *ctx, *input, e0) == (
                done + (seq![h.0] + Seq::<NodeModel>::empty()),
                h.1,
                ControlFlow::Continue,
            ));
            assert forall|j: int|
                0 <= j < i + 1 implies children_models(children@, i + 1)[j] == (done + (
            seq![h.0] + Seq::<NodeModel>::empty()))[j] by {
                lemma_children_models_index(children@, i + 1, j);
                if j < i {
                    lemma_children_models_index(children@, i as int, j);
                }
            }
            lemma_children_models_len(children@, i + 1);
            assert(children_models(children@, i + 1) =~= done + (seq![h.0]
                + Seq::<NodeModel>::empty()));
        }
        i = i + 1;
    }
    proof {
        lemma_children_wf_all(children@, children@.len() as int);
        assert(ms0.subrange(0, n as int) =~= ms0);
    }
    ControlFlow::Continue
}

// ------------------------------------------------------------------ apply

/// A node's model carries the node's identity and kind.
proof fn lemma_model_id_kind(n: WidgetNode)
    ensures
        model_id(node_model(n)) == node_id(n),
        model_kind(node_model(n)) == node_kind(n),
{
}

pub proof fn lemma_children_models_len(s: Seq<WidgetNode>, k: int)
    requires
        k <= s.len(),
    ensures
        children_models(s, k).len() == (if k <= 0 {
            0
        } else {
            k
        }),
    decreases k,
{
    if k > 0 {
        lemma_children_models_len(s, k - 1);
    }
}

/// Each entry of `children_models` is the model of the child there.
pub proof fn lemma_children_models_index(s: Seq<WidgetNode>, k: int, i: int)
    requires
        0 <= i < k <= s.len(),
    ensures
        children_models(s, k).len() == k,
        children_models(s, k)[i] == node_model(s[i]),
    decreases k,
{
    lemma_children_models_len(s, k);
    if i < k - 1 {
        lemma_children_models_index(s, k - 1, i);
    } else {
        lemma_children_models_len(s, k - 1);
    }
}

/// `children_models` sees only the first `k` children.
proof fn lemma_children_models_prefix(s: Seq<WidgetNode>, t: Seq<WidgetNode>, k: int)
    requires
        0 <= k <= s.len(),
        k <= t.len(),
        forall|i: int| 0 <= i < k ==> s[i] == t[i],
    ensures
        children_models(s, k) == children_models(t, k),
    decreases k,
{
    if k > 0 {
        lemma_children_models_prefix(s, t, k - 1);
    }
}

/// `children_models` unfolds from the front as well.
proof fn lemma_children_models_front(s: Seq<WidgetNode>, k: int)
    requires
        0 < k <= s.len(),
    ensures
        children_models(s, k) == seq![node_model(s[0])] + children_models(s.drop_first(), k - 1),
    decreases k,
{
    if k == 1 {
        assert(children_models(s, 0) =~= Seq::<NodeModel>::empty());
        assert(children_models(s.drop_first(), 0) =~= Seq::<NodeModel>::empty());
        assert(children_models(s, 1) == children_models(s, 0).push(node_model(s[0])));
        assert(children_models(s, 1) =~= seq![node_model(s[0])] + children_models(
            s.drop_first(),
            0,
        ));
    } else {
        lemma_children_models_front(s, k - 1);
        assert(s.drop_first()[k - 2] == s[k - 1]);
        assert(children_models(s, k) == children_models(s, k - 1).push(node_model(s[k - 1])));
        assert(children_models(s.drop_first(), k - 1) == children_models(
            s.drop_first(),
            k - 2,
        ).push(node_model(s.drop_first()[k - 2])));
        assert(children_models(s, k) =~= seq![node_model(s[0])] + children_models(
            s.drop_first(),
            k - 1,
        ));
    }
}

/// Erasing the first identity match commutes with taking models.
proof fn lemma_erase_models_commute(s: Seq<WidgetNode>, id: Id)
    ensures
        children_models(erase_first(s, id), erase_first(s, id).len() as int) == erase_first_model(
            children_models(s, s.len() as int),
            id,
        ),
    decreases s.len(),
{
    let ms = children_models(s, s.len() as int);
    lemma_children_models_len(s, s.len() as int);
    if s.len() == 0 {
        assert(children_models(erase_first(s, id), 0) =~= Seq::<NodeModel>::empty());
        assert(erase_first_model(ms, id) =~= Seq::<NodeModel>::empty());
    } else {
        lemma_children_models_front(s, s.len() as int);
        lemma_model_id_kind(s.first());
        assert(ms.first() == node_model(s[0]));
        if node_id(s.first()) == id {
            assert(erase_first(s, id) == s.drop_first());
            assert(erase_first_model(ms, id) == ms.drop_first());
            assert(ms.drop_first() =~= children_models(
                s.drop_first(),
                s.drop_first().len() as int,
            ));
            lemma_children_models_prefix(
                erase_first(s, id),
                s.drop_first(),
                erase_first(s, id).len() as int,
            );
        } else {
            lemma_erase_models_commute(s.drop_first(), id);
            let er = erase_first(s.drop_first(), id);
            assert(erase_first(s, id) == seq![s.first()] + er);
            let whole = seq![s.first()] + er;
            assert(erase_first_model(ms, id) == seq![ms.first()] + erase_first_model(
                ms.drop_first(),
                id,
            ));
            assert(ms.drop_first() =~= children_models(
                s.drop_first(),
                s.drop_first().len() as int,
            ));
            if whole.len() > 0 {
                lemma_children_models_front(whole, whole.len() as int);
                assert(whole.drop_first() =~= er);
                assert(whole[0] == s.first());
                lemma_children_models_prefix(whole.drop_first(), er, er.len() as int);
            }
            assert(children_models(whole, whole.len() as int) =~= seq![node_model(s.first())]
                + children_models(er, er.len() as int));
        }
    }
}

/// A command that finds no target leaves the model as it was.
proof fn lemma_apply_one_miss(m: NodeModel, id: Id, kind: WidgetKind, cmd: ApplyCommand)
    requires
        !apply_one(m, id, kind, cmd).1,
    ensures
        apply_one(m, id, kind, cmd).0 == m,
    decreases m, 1int,
{
    if model_id(m) == id && model_kind(m) == kind {
    } else {
        match m {
            NodeModel::Empty(_) => {},
            NodeModel::Label(_) => {},
            NodeModel::Button(_) => {},
            NodeModel::Row(rid, space, cs) => {
                lemma_apply_children_miss(cs, id, kind, cmd);
            },
            NodeModel::Column(cid, space, mh, cs) => {
                lemma_apply_children_miss(cs, id, kind, cmd);
            },
            NodeModel::MaxSize(wid, mw, mh, cs) => {
                lemma_apply_children_miss(cs, id, kind, cmd);
            },
            NodeModel::Abs(aid, p, cs) => {
                lemma_apply_children_miss(cs, id, kind, cmd);
            },
        }
    }
}

proof fn lemma_apply_children_miss(cs: Seq<NodeModel>, id: Id, kind: WidgetKind, cmd: ApplyCommand)
    requires
        !apply_children(cs, id, kind, cmd).1,
    ensures
        apply_children(cs, id, kind, cmd).0 == cs,
    decreases cs, 0int,
{
    if cs.len() == 0 {
        assert(apply_children(cs, id, kind, cmd).0 =~= cs);
    } else {
        let h = apply_one(cs.first(), id, kind, cmd);
        if h.1 {
        } else {
            lemma_apply_one_miss(cs.first(), id, kind, cmd);
            lemma_apply_children_miss(cs.drop_first(), id, kind, cmd);
            assert(seq![cs.first()] + apply_children(cs.drop_first(), id, kind, cmd).0 =~= cs);
        }
    }
}

/// Searching an untried prefix first changes nothing about the outcome.
proof fn lemma_apply_children_skip(
    ms: Seq<NodeModel>,
    id: Id,
    kind: WidgetKind,
    cmd: ApplyCommand,
    i: int,
)
    requires
        0 <= i <= ms.len(),
        forall|j: int| 0 <= j < i ==> !apply_one(#[trigger] ms[j], id, kind, cmd).1,
    ensures
        apply_children(ms, id, kind, cmd).0 == ms.subrange(0, i) + apply_children(
            ms.subrange(i, ms.len() as int),
            id,
            kind,
            cmd,
        ).0,
        apply_children(ms, id, kind, cmd).1 == apply_children(
            ms.subrange(i, ms.len() as int),
            id,
            kind,
            cmd,
        ).1,
    decreases i,
{
    if i == 0 {
        assert(ms.subrange(0, ms.len() as int) =~= ms);
        assert(ms.subrange(0, 0) + apply_children(ms.subrange(0, ms.len() as int), id, kind, cmd).0
            =~= apply_children(ms, id, kind, cmd).0);
    } else {
        lemma_apply_one_miss(ms.first(), id, kind, cmd);
        assert(forall|j: int|
            0 <= j < i - 1 ==> ms.drop_first()[j] == ms[j + 1]);
        lemma_apply_children_skip(ms.drop_first(), id, kind, cmd, i - 1);
        assert(ms.drop_first().subrange(i - 1, ms.drop_first().len() as int) =~= ms.subrange(
            i,
            ms.len() as int,
        ));
        assert(ms.drop_first().subrange(0, i - 1) =~= ms.subrange(1, i));
        assert(apply_children(ms, id, kind, cmd).0 == seq![ms.first()] + apply_children(
            ms.drop_first(),
            id,
            kind,
            cmd,
        ).0);
        assert(seq![ms.first()] + (ms.subrange(1, i) + apply_children(
            ms.subrange(i, ms.len() as int),
            id,
            kind,
            cmd,
        ).0) =~= ms.subrange(0, i) + apply_children(ms.subrange(i, ms.len() as int), id, kind, cmd).0);
    }
}

pub fn node_get_kind(n: &WidgetNode) -> (r: WidgetKind)
    ensures
        r == node_kind(*n),
{
    match n {
        WidgetNode::Empty(_) => WidgetKind::Empty,
        WidgetNode::Label(_) => WidgetKind::Label,
        WidgetNode::Button(_) => WidgetKind::Button,
        WidgetNode::Row(_) => WidgetKind::Row,
        WidgetNode::Column(_) => WidgetKind::Column,
        WidgetNode::MaxSize(_) => WidgetKind::MaxSize,
        WidgetNode::Abs(_) => WidgetKind::Abs,
    }
}

/// Delivers one command to the first node of the subtree whose identity
/// and kind match `target`; returns the command back when no node does.
fn apply_entry(n: &mut WidgetNode, target: AnyHandle, cmd: ApplyCommand) -> (back: Option<
    ApplyCommand,
>)
    requires
        node_wf(*old(n)),
        cmd.wf(),
    ensures
        node_wf(*final(n)),
        node_id(*final(n)) == node_id(*old(n)),
        node_kind(*final(n)) == node_kind(*old(n)),
        ({
            let r = apply_one(node_model(*old(n)), target.id_spec(), target.kind_spec(), cmd);
            &&& node_model(*final(n)) == r.0
            &&& (back is None) == r.1
            &&& (back matches Some(c) ==> c == cmd)
        }),
    decreases node_height(*n), 0int,
{
    let ghost m0 = node_model(*n);
    let ghost n0 = *n;
    let ghost gcmd = cmd;
    let id = node_get_id(n);
    let kind = node_get_kind(n);
    proof {
        lemma_model_id_kind(*n);
    }
    if id == target.id() && kind == target.type_id() {
        match n {
            WidgetNode::Empty(w) => {
                w.apply_command(cmd);
            },
            WidgetNode::Label(w) => {
                w.apply_command(cmd);
            },
            WidgetNode::Button(w) => {
                w.apply_command(cmd);
            },
            WidgetNode::Row(r) => {
                let ghost c0 = r.children@;
                let ghost rm0 = children_models(c0, c0.len() as int);
                r.apply_command(cmd);
                proof {
                    match gcmd {
                        ApplyCommand::PushChild(b) => {
                            assert(r.children@ == c0.push(*b));
                            lemma_children_models_prefix(c0.push(*b), c0, c0.len() as int);
                            assert(children_models(r.children@, r.children@.len() as int)
                                =~= rm0.push(node_model(*b)));
                        },
                        ApplyCommand::EraseChild(eid) => {
                            assert(r.children@ == erase_first(c0, eid));
                            lemma_erase_models_commute(c0, eid);
                        },
                        _ => {
                            assert(r.children@ == c0);
                        },
                    }
                }
            },
            WidgetNode::Column(c) => {
                let ghost c0 = c.children@;
                let ghost cm0 = children_models(c0, c0.len() as int);
                c.apply_command(cmd);
                proof {
                    match gcmd {
                        ApplyCommand::PushChild(b) => {
                            assert(c.children@ == c0.push(*b));
                            lemma_children_models_prefix(c0.push(*b), c0, c0.len() as int);
                            assert(children_models(c.children@, c.children@.len() as int)
                                =~= cm0.push(node_model(*b)));
                        },
                        ApplyCommand::EraseChild(eid) => {
                            assert(c.children@ == erase_first(c0, eid));
                            lemma_erase_models_commute(c0, eid);
                        },
                        _ => {
                            assert(c.children@ == c0);
                        },
                    }
                }
            },
            WidgetNode::MaxSize(w) => {
                w.apply_command(cmd);
            },
            WidgetNode::Abs(w) => {
                w.apply_command(cmd);
            },
        }
        None
    } else {
        match n {
            WidgetNode::Empty(_) => Some(cmd),
            WidgetNode::Label(_) => Some(cmd),
            WidgetNode::Button(_) => Some(cmd),
            WidgetNode::Row(r) => {
                proof {
                    assert(node_height(n0) == 1 + children_height(
                        r.children@,
                        r.children@.len() as int,
                    ));
                }
                apply_to_children(&mut r.children, target, cmd)
            },
            WidgetNode::Column(c) => {
                proof {
                    assert(node_height(n0) == 1 + children_height(
                        c.children@,
                        c.children@.len() as int,
                    ));
                }
                apply_to_children(&mut c.children, target, cmd)
            },
            WidgetNode::MaxSize(w) => {
                let ghost cm = node_model(*w.child);
                proof {
                    assert(node_height(n0) == 1 + node_height(*w.child));
                }
                let back = apply_entry(&mut *w.child, target, cmd);
                proof {
                    let h = apply_one(cm, target.id_spec(), target.kind_spec(), gcmd);
                    if back is None {
                        assert(seq![h.0] + seq![cm].drop_first() =~= seq![node_model(
                            *w.child,
                        )]);
                    } else {
                        lemma_apply_one_miss(cm, target.id_spec(), target.kind_spec(), gcmd);
                        assert(apply_children(
                            Seq::<NodeModel>::empty(),
                            target.id_spec(),
                            target.kind_spec(),
                            gcmd,
                        ).0 =~= Seq::<NodeModel>::empty());
                        assert(seq![cm].drop_first() =~= Seq::<NodeModel>::empty());
                        assert(seq![seq![cm].first()] + apply_children(
                            seq![cm].drop_first(),
                            target.id_spec(),
                            target.kind_spec(),
                            gcmd,
                        ).0 =~= seq![node_model(*w.child)]);
                    }
                }
                back
            },
            WidgetNode::Abs(w) => {
                let ghost cm = node_model(*w.child);
                proof {
                    assert(node_height(n0) == 1 + node_height(*w.child));
                }
                let back = apply_entry(&mut *w.child, target, cmd);
                proof {
                    let h = apply_one(cm, target.id_spec(), target.kind_spec(), gcmd);
                    if back is None {
                        assert(seq![h.0] + seq![cm].drop_first() =~= seq![node_model(
                            *w.child,
                        )]);
                    } else {
                        lemma_apply_one_miss(cm, target.id_spec(), target.kind_spec(), gcmd);
                        assert(seq![cm].drop_first() =~= Seq::<NodeModel>::empty());
                        assert(apply_children(
                            Seq::<NodeModel>::empty(),
                            target.id_spec(),
                            target.kind_spec(),
                            gcmd,
                        ).0 =~= Seq::<NodeModel>::empty());
                        assert(seq![seq![cm].first()] + apply_children(
                            seq![cm].drop_first(),
                            target.id_spec(),
                            target.kind_spec(),
                            gcmd,
                        ).0 =~= seq![node_model(*w.child)]);
                    }
                }
                back
            },
        }
    }
}

/// Tries each child in order until one subtree accepts the command.
#[verifier::loop_isolation(false)]
fn apply_to_children(
    children: &mut Vec<WidgetNode>,
    target: AnyHandle,
    cmd: ApplyCommand,
) -> (back: Option<ApplyCommand>)
    requires
        children_wf(old(children)@, old(children)@.len() as int),
        cmd.wf(),
    ensures
        final(children)@.len() == old(children)@.len(),
        children_wf(final(children)@, final(children)@.len() as int),
        ({
            let r = apply_children(
                children_models(old(children)@, old(children)@.len() as int),
                target.id_spec(),
                target.kind_spec(),
                cmd,
            );
            &&& children_models(final(children)@, final(children)@.len() as int) == r.0
            &&& (back is None) == r.1
            &&& (back matches Some(c) ==> c == cmd)
        }),
    decreases children_height(children@, children@.len() as int), 1int,
{
    let ghost s0 = old(children)@;
    let ghost ms0 = children_models(s0, s0.len() as int);
    let ghost tid = target.id_spec();
    let ghost tkind = target.kind_spec();
    proof {
        lemma_children_wf_all(s0, s0.len() as int);
        lemma_children_models_len(s0, s0.len() as int);
    }
    let n = children.len();
    let mut i: usize = 0;
    let mut carried = cmd;
    while i < n
        invariant
            i <= n,
            n == s0.len(),
            children@.len() == n,
            carried == cmd,
            forall|j: int| i <= j < n ==> children@[j] == s0[j],
            forall|j: int| 0 <= j < i ==> node_wf(#[trigger] children@[j]),
            forall|j: int|
                0 <= j < i ==> node_model(#[trigger] children@[j]) == node_model(s0[j]),
            forall|j: int| 0 <= j < i ==> !apply_one(node_model(#[trigger] s0[j]), tid, tkind, cmd).1,
        decreases n - i,
    {
        proof {
            lemma_children_height(s0, s0.len() as int, i as int);
            lemma_children_models_index(s0, s0.len() as int, i as int);
        }
        let ghost child0 = children@[i as int];
        let back = apply_entry(&mut children[i], target, carried);
        match back {
            None => {
                proof {
                    assert forall|j: int|
                        0 <= j < i implies !apply_one(#[trigger] ms0[j], tid, tkind, cmd).1 by {
                        lemma_children_models_index(s0, s0.len() as int, j);
                    }
                    lemma_apply_children_skip(ms0, tid, tkind, cmd, i as int);
                    let suffix = ms0.subrange(i as int, ms0.len() as int);
                    assert(suffix.first() == ms0[i as int]);
                    assert(ms0[i as int] == node_model(s0[i as int]));
                    assert(suffix.drop_first() =~= ms0.subrange(i + 1, ms0.len() as int));
                    let h = apply_one(node_model(s0[i as int]), tid, tkind, cmd);
                    assert(apply_children(suffix, tid, tkind, cmd) == (
                        seq![h.0] + suffix.drop_first(),
                        true,
                    ));
                    assert forall|j: int|
                        0 <= j < n implies children_models(children@, n as int)[j]
                        == (ms0.subrange(0, i as int) + apply_children(suffix, tid, tkind, cmd).0)[j] by {
                        lemma_children_models_index(children@, n as int, j);
                        lemma_children_models_index(s0, n as int, j);
                    }
                    lemma_children_models_len(children@, n as int);
                    assert(children_models(children@, n as int) =~= apply_children(
                        ms0,
                        tid,
                        tkind,
                        cmd,
                    ).0);
                    lemma_children_wf_all(children@, n as int);
                }
                return None;
            },
            Some(c) => {
                proof {
                    assert(child0 == s0[i as int]);
                    lemma_apply_one_miss(node_model(s0[i as int]), tid, tkind, cmd);
                }
                carried = c;
            },
        }
        i = i + 1;
    }
    proof {
        assert forall|j: int|
            0 <= j < n implies !apply_one(#[trigger] ms0[j], tid, tkind, cmd).1 by {
            lemma_children_models_index(s0, s0.len() as int, j);
        }
        lemma_apply_children_skip(ms0, tid, tkind, cmd, n as int);
        assert(ms0.subrange(n as int, n as int) =~= Seq::<NodeModel>::empty());
        assert(apply_children(Seq::<NodeModel>::empty(), tid, tkind, cmd).0
            =~= Seq::<NodeModel>::empty());
        assert forall|j: int|
            0 <= j < n implies children_models(children@, n as int)[j] == ms0[j] by {
            lemma_children_models_index(children@, n as int, j);
            lemma_children_models_index(s0, n as int, j);
        }
        lemma_children_models_len(children@, n as int);
        assert(children_models(children@, n as int) =~= ms0.subrange(0, n as int)
            + apply_children(ms0.subrange(n as int, n as int), tid, tkind, cmd).0);
        assert(children_models(children@, n as int) =~= apply_children(ms0, tid, tkind, cmd).0);
        lemma_children_wf_all(children@, n as int);
    }
    Some(carried)
}

/// Drains the queue into the subtree rooted at `n`: entries are delivered
/// in queue order, each to the first node matching its target, each
/// consumed exactly once when its target resolves. Entries whose target
/// never resolves stay pending, for the caller to drop when the walk
/// ends; a command queued for a child pushed by an earlier entry of the
/// same drain is still honored.
#[verifier::loop_isolation(false)]
pub fn node_apply(n: &mut WidgetNode, funcs: &mut ApplyFuncs)
    requires
        node_wf(*old(n)),
        old(funcs).wf(),
    ensures
        node_wf(*final(n)),
        node_id(*final(n)) == node_id(*old(n)),
        node_kind(*final(n)) == node_kind(*old(n)),
        final(funcs).wf(),
        final(funcs)@.len() == old(funcs)@.len(),
        (node_model(*final(n)), final(funcs)@) == drain_queue(node_model(*old(n)), old(funcs)@),
        unconsumed(old(funcs)@) == 0 ==> *final(n) == *old(n) && final(funcs)@ == old(funcs)@,
{
    let ghost m0 = node_model(*n);
    let ghost q0 = funcs@;
    let total = funcs.len();
    proof {
        assert(q0.subrange(0, total as int) =~= q0);
        assert(funcs@.subrange(0, 0) + drain_queue(m0, q0.subrange(0, total as int)).1
            =~= drain_queue(m0, q0).1);
    }
    let mut k: usize = 0;
    while k < total
        invariant
            k <= total,
            total == q0.len(),
            funcs@.len() == total,
            funcs@.subrange(k as int, total as int) == q0.subrange(k as int, total as int),
            node_wf(*n),
            node_id(*n) == node_id(*old(n)),
            node_kind(*n) == node_kind(*old(n)),
            funcs.wf(),
            drain_queue(m0, q0) == ({
                let rest = drain_queue(node_model(*n), q0.subrange(k as int, total as int));
                (rest.0, funcs@.subrange(0, k as int) + rest.1)
            }),
            unconsumed(q0) == 0 ==> *n == *old(n) && funcs@ == q0,
        decreases total - k,
    {
        let ghost pre_q = funcs@;
        let ghost pre_m = node_model(*n);
        let ghost qsuf = q0.subrange(k as int, total as int);
        proof {
            assert(qsuf.first() == q0[k as int]);
            assert(qsuf.drop_first() =~= q0.subrange(k + 1, total as int));
            assert(funcs@[k as int] == q0[k as int]);
        }
        let target = funcs.handle_at(k);
        let taken = funcs.take_at(k);
        match taken {
            Some(cmd) => {
                let back = apply_entry(n, target, cmd);
                match back {
                    Some(c) => {
                        funcs.restore_at(k, c);
                        proof {
                            assert(funcs@ =~= pre_q);
                        }
                    },
                    None => {},
                }
            },
            None => {
                proof {
                    assert(funcs@ =~= pre_q);
                }
            },
        }
        proof {
            let e = q0[k as int];
            let h = apply_entry_spec(pre_m, e);
            assert(node_model(*n) == h.0);
            let e2 = if h.1 {
                ApplyEntry { handle: e.handle, cmd: None }
            } else {
                e
            };
            assert(funcs@[k as int] == e2);
            assert(drain_queue(pre_m, qsuf) == {
                let rest = drain_queue(h.0, qsuf.drop_first());
                (rest.0, seq![e2] + rest.1)
            });
            assert(funcs@.subrange(0, k + 1) =~= pre_q.subrange(0, k as int).push(e2));
            assert(pre_q.subrange(0, k as int) == funcs@.subrange(0, k as int));
            assert(funcs@.subrange(k + 1, total as int) =~= q0.subrange(k + 1, total as int));
            assert(funcs@.subrange(0, k as int).push(e2) + drain_queue(
                node_model(*n),
                q0.subrange(k + 1, total as int),
            ).1 =~= funcs@.subrange(0, k as int) + (seq![e2] + drain_queue(
                node_model(*n),
                q0.subrange(k + 1, total as int),
            ).1));
            if unconsumed(q0) == 0 {
                crate::apply::lemma_unconsumed_zero(q0, k as int);
                assert(funcs@ =~= q0);
            }
        }
        k = k + 1;
    }
    proof {
        assert(q0.subrange(total as int, total as int) =~= Seq::<ApplyEntry>::empty());
        assert(funcs@.subrange(0, total as int) =~= funcs@);
        assert(funcs@.subrange(0, total as int) + Seq::<ApplyEntry>::empty() =~= funcs@);
    }
}

// ----------------------------------------------------------------- layout

/// The rectangle a row allots to its `i`-th child: the cursor offset along
/// the main axis, the negotiated extent, and the child's own height (or
/// the row's height for a height-flexible child); saturated into the
/// coordinate range.
pub open spec fn row_child_rect(r: Row, rect: LogicalRect, i: int) -> LogicalRect {
    let items = row_items(r.children@, rect, r.children@.len() as int);
    let total = measure_spec(
        items,
        r.space as int,
        avail_extent(rect.left as int, rect.right as int),
    );
    let off = offset_at(items, r.space as int, total, COORD_MAX as int, i);
    let ext = extent_at(items, r.space as int, total, COORD_MAX as int, i);
    let cross = if node_size_types_spec(r.children@[i]).height == SizeType::Fix {
        node_size_spec(r.children@[i], rect).height as int
    } else {
        clamp_extent_spec(rect.bottom - rect.top)
    };
    rect_clamp_spec(rect.left + off, rect.top as int, rect.left + off + ext, rect.top + cross)
}

pub open spec fn row_child_lc(r: Row, m: LcModel, i: int) -> LcModel {
    LcModel {
        rect: row_child_rect(r, m.rect, i),
        ancestors: m.ancestors.push(AnyHandle::make(r.id_spec(), WidgetKind::Row)),
        layer: m.layer,
        selected: m.selected,
    }
}

pub open spec fn row_elems(r: Row, m: LcModel, k: int) -> Seq<ElemModel>
    decreases r.children@, k,
{
    if k <= 0 || k > r.children@.len() {
        Seq::empty()
    } else {
        row_elems(r, m, k - 1) + node_layout_spec(r.children@[k - 1], row_child_lc(r, m, k - 1))
    }
}

/// Everything a row pushes during layout: each child's elements, in child
/// order, each laid out in its allotted rectangle.
pub open spec fn row_layout_spec(r: Row, m: LcModel) -> Seq<ElemModel> {
    row_elems(r, m, r.children@.len() as int)
}

/// The rectangle a column allots to its `i`-th child (axes swapped from
/// the row case; the cross extent is the child's own width, or the
/// column's width for a width-flexible child).
pub open spec fn col_child_rect(c: Column, rect: LogicalRect, i: int) -> LogicalRect {
    let items = col_items(c.children@, rect, c.max_height, c.children@.len() as int);
    let cap = (match c.max_height {
        Some(m) => m as int,
        None => COORD_MAX as int,
    });
    let total = measure_spec(
        items,
        c.space as int,
        avail_extent(rect.top as int, rect.bottom as int),
    );
    let off = offset_at(items, c.space as int, total, cap, i);
    let ext = extent_at(items, c.space as int, total, cap, i);
    let cross = if node_size_types_spec(c.children@[i]).width == SizeType::Fix {
        node_size_spec(c.children@[i], rect).width as int
    } else {
        clamp_extent_spec(col_cross(c.children@, rect, c.children@.len() as int))
    };
    rect_clamp_spec(rect.left as int, rect.top + off, rect.left + cross, rect.top + off + ext)
}

pub open spec fn col_child_lc(c: Column, m: LcModel, i: int) -> LcModel {
    LcModel {
        rect: col_child_rect(c, m.rect, i),
        ancestors: m.ancestors.push(AnyHandle::make(c.id_spec(), WidgetKind::Column)),
        layer: m.layer,
        selected: m.selected,
    }
}

pub open spec fn col_elems(c: Column, m: LcModel, k: int) -> Seq<ElemModel>
    decreases c.children@, k,
{
    if k <= 0 || k > c.children@.len() {
        Seq::empty()
    } else {
        col_elems(c, m, k - 1) + node_layout_spec(c.children@[k - 1], col_child_lc(c, m, k - 1))
    }
}

/// Everything a column pushes during layout.
pub open spec fn col_layout_spec(c: Column, m: LcModel) -> Seq<ElemModel> {
    col_elems(c, m, c.children@.len() as int)
}

/// The context a size-limiting wrapper hands its child: the incoming
/// corner, extended by the clamped child size.
pub open spec fn max_size_child_lc(w: MaxSize, m: LcModel) -> LcModel {
    let s = max_size_size_spec(w, m.rect);
    LcModel {
        rect: rect_clamp_spec(
            m.rect.left as int,
            m.rect.top as int,
            m.rect.left + s.width,
            m.rect.top + s.height,
        ),
        ancestors: m.ancestors.push(AnyHandle::make(w.id_spec(), WidgetKind::MaxSize)),
        layer: m.layer,
        selected: m.selected,
    }
}

pub open spec fn max_size_layout_spec(w: MaxSize, m: LcModel) -> Seq<ElemModel> {
    node_layout_spec(*w.child, max_size_child_lc(w, m))
}

/// The context an absolute-position wrapper hands its child: from the
/// stored position to the incoming rectangle's far corner.
pub open spec fn abs_child_lc(w: Abs, m: LcModel) -> LcModel {
    LcModel {
        rect: LogicalRect {
            left: w.position.x,
            top: w.position.y,
            right: m.rect.right,
            bottom: m.rect.bottom,
        },
        ancestors: m.ancestors.push(AnyHandle::make(w.id_spec(), WidgetKind::Abs)),
        layer: m.layer,
        selected: m.selected,
    }
}

pub open spec fn abs_layout_spec(w: Abs, m: LcModel) -> Seq<ElemModel> {
    node_layout_spec(*w.child, abs_child_lc(w, m))
}

/// The elements a node pushes during one layout pass.
pub open spec fn node_layout_spec(n: WidgetNode, m: LcModel) -> Seq<ElemModel>
    decreases n, 1int,
{
    match n {
        WidgetNode::Empty(w) => Seq::empty(),
        WidgetNode::Label(w) => w.layout_spec(m),
        WidgetNode::Button(w) => w.layout_spec(m),
        WidgetNode::Row(r) => row_elems(r, m, r.children@.len() as int),
        WidgetNode::Column(c) => col_elems(c, m, c.children@.len() as int),
        WidgetNode::MaxSize(w) => node_layout_spec(*w.child, max_size_child_lc(w, m)),
        WidgetNode::Abs(w) => node_layout_spec(*w.child, abs_child_lc(w, m)),
    }
}

/// The row-level face of the resize-invariance guarantee: when the row's
/// main-axis budget covers its fixed children and the reserved spacing, a
/// fixed-width child is allotted exactly its measured width — the
/// container's own extent moves only the flexible children.
pub proof fn lemma_row_fix_child_takes_measured_width(r: Row, rect: LogicalRect, i: int)
    requires
        0 <= r.space <= COORD_MAX,
        0 <= i < r.children@.len(),
        node_size_types_spec(r.children@[i]).width == SizeType::Fix,
        axis_wf(row_items(r.children@, rect, r.children@.len() as int)),
        crate::sizing::reserved(
            row_items(r.children@, rect, r.children@.len() as int),
            r.space as int,
        ) <= measure_spec(
            row_items(r.children@, rect, r.children@.len() as int),
            r.space as int,
            avail_extent(rect.left as int, rect.right as int),
        ),
    ensures
        extent_at(
            row_items(r.children@, rect, r.children@.len() as int),
            r.space as int,
            measure_spec(
                row_items(r.children@, rect, r.children@.len() as int),
                r.space as int,
                avail_extent(rect.left as int, rect.right as int),
            ),
            COORD_MAX as int,
            i,
        ) == node_size_spec(r.children@[i], rect).width as int,
{
    let n = r.children@.len() as int;
    let items = row_items(r.children@, rect, n);
    let total = measure_spec(items, r.space as int, avail_extent(rect.left as int, rect.right as int));
    lemma_row_items_index(r.children@, rect, n, i);
    crate::sizing::lemma_fix_extent_resize_invariant(
        items,
        r.space as int,
        COORD_MAX as int,
        i,
        total,
        total,
    );
}

/// Walks a node during layout, pushing exactly `node_layout_spec`.
pub fn node_layout(n: &WidgetNode, lc: &LayoutContext, result: &mut LayoutConstructor)
    requires
        node_wf(*n),
        lc.wf(),
    ensures
        crate::layout::models_of(final(result)@) == crate::layout::models_of(old(result)@)
            + node_layout_spec(*n, lc.model()),
    decreases *n, 3int,
{
    match n {
        WidgetNode::Empty(w) => w.layout(lc, result),
        WidgetNode::Label(w) => w.layout(lc, result),
        WidgetNode::Button(w) => w.layout(lc, result),
        WidgetNode::Row(r) => {
            proof {
                assert(decreases_to!(*n => r.children@));
            }
            row_layout_walk(r, lc, result)
        },
        WidgetNode::Column(c) => {
            proof {
                assert(decreases_to!(*n => c.children@));
            }
            col_layout_walk(c, lc, result)
        },
        WidgetNode::MaxSize(w) => {
            proof {
                assert(decreases_to!(*n => *w.child));
            }
            max_size_layout_walk(w, lc, result)
        },
        WidgetNode::Abs(w) => {
            proof {
                assert(decreases_to!(*n => *w.child));
            }
            abs_layout_walk(w, lc, result)
        },
    }
}

#[verifier::loop_isolation(false)]
pub(crate) fn row_layout_walk(r: &Row, lc: &LayoutContext, result: &mut LayoutConstructor)
    requires
        r.wf(),
        lc.wf(),
    ensures
        crate::layout::models_of(final(result)@) == crate::layout::models_of(old(result)@)
            + row_layout_spec(*r, lc.model()),
    decreases r.children@, 4int,
{
    let ghost pre = crate::layout::models_of((*result)@);
    let ghost m = lc.model();
    let items = row_axis_items(&r.children, lc);
    let avail = clamp_extent(lc.rect.right - lc.rect.left);
    let total = measure_axis(&items, r.space, avail);
    let share = flex_share(&items, r.space, total, COORD_MAX);
    let n = r.children.len();
    let mut rel: i64 = 0;
    let mut i: usize = 0;
    proof {
        assert(crate::layout::models_of(result@) =~= pre + row_elems(*r, m, 0));
    }
    while i < n
        invariant
            i <= n,
            n == r.children@.len(),
            crate::layout::models_of(result@) == pre + row_elems(*r, m, i as int),
            rel == offset_at(items@, r.space as int, total as int, COORD_MAX as int, i as int),
            0 <= rel <= total,
        decreases n - i,
    {
        proof {
            assert(decreases_to!(r.children@ => r.children@[i as int]));
            lemma_children_wf_all(r.children@, n as int);
            lemma_row_items_index(r.children@, lc.rect, n as int, i as int);
            crate::sizing::lemma_extent_nonneg(
                items@,
                r.space as int,
                total as int,
                COORD_MAX as int,
                i as int,
            );
            crate::sizing::lemma_offset_bounds(
                items@,
                r.space as int,
                total as int,
                COORD_MAX as int,
                i as int,
            );
        }
        let child = &r.children[i];
        let t = node_size_types(child);
        let csize = node_size(child, lc);
        let ext: i64 = if matches!(t.width, SizeType::Flexible) {
            share
        } else {
            let rem = total - rel;
            if csize.width <= rem {
                csize.width
            } else {
                rem
            }
        };
        let cross: i64 = if matches!(t.height, SizeType::Fix) {
            csize.height
        } else {
            clamp_extent(lc.rect.bottom - lc.rect.top)
        };
        let crect = rect_clamp(
            lc.rect.left + rel,
            lc.rect.top,
            lc.rect.left + rel + ext,
            lc.rect.top + cross,
        );
        proof {
            assert(crect == row_child_rect(*r, lc.rect, i as int));
        }
        let clc = lc.next_with(AnyHandle::from_parts(r.id(), WidgetKind::Row), crect, lc.layer, lc.selected);
        node_layout(child, &clc, result);
        proof {
            assert(clc.model() == row_child_lc(*r, m, i as int));
            assert(crate::layout::models_of(result@) =~= pre + row_elems(*r, m, i + 1)) by {
                assert(row_elems(*r, m, i + 1) == row_elems(*r, m, i as int) + node_layout_spec(
                    r.children@[i as int],
                    row_child_lc(*r, m, i as int),
                ));
                assert((pre + row_elems(*r, m, i as int)) + node_layout_spec(
                    r.children@[i as int],
                    row_child_lc(*r, m, i as int),
                ) =~= pre + row_elems(*r, m, i + 1));
            }
        }
        let step = rel + ext + r.space;
        rel = if step > total {
            total
        } else {
            step
        };
        i = i + 1;
    }
}

#[verifier::loop_isolation(false)]
pub(crate) fn col_layout_walk(c: &Column, lc: &LayoutContext, result: &mut LayoutConstructor)
    requires
        c.wf(),
        lc.wf(),
    ensures
        crate::layout::models_of(final(result)@) == crate::layout::models_of(old(result)@)
            + col_layout_spec(*c, lc.model()),
    decreases c.children@, 4int,
{
    let ghost pre = crate::layout::models_of((*result)@);
    let ghost m = lc.model();
    let items = col_axis_items(&c.children, lc, c.max_height);
    let avail = clamp_extent(lc.rect.bottom - lc.rect.top);
    let total = measure_axis(&items, c.space, avail);
    let cap = match c.max_height {
        Some(v) => v,
        None => COORD_MAX,
    };
    let share = flex_share(&items, c.space, total, cap);
    let cross_all = col_cross_exec(&c.children, lc);
    let n = c.children.len();
    let mut rel: i64 = 0;
    let mut i: usize = 0;
    proof {
        assert(crate::layout::models_of(result@) =~= pre + col_elems(*c, m, 0));
    }
    while i < n
        invariant
            i <= n,
            n == c.children@.len(),
            crate::layout::models_of(result@) == pre + col_elems(*c, m, i as int),
            rel == offset_at(
                items@,
                c.space as int,
                total as int,
                (match c.max_height {
                    Some(v) => v as int,
                    None => COORD_MAX as int,
                }),
                i as int,
            ),
            0 <= rel <= total,
        decreases n - i,
    {
        let ghost capg = (match c.max_height {
            Some(v) => v as int,
            None => COORD_MAX as int,
        });
        proof {
            assert(decreases_to!(c.children@ => c.children@[i as int]));
            lemma_children_wf_all(c.children@, n as int);
            lemma_col_items_index(c.children@, lc.rect, c.max_height, n as int, i as int);
            crate::sizing::lemma_extent_nonneg(
                items@,
                c.space as int,
                total as int,
                capg,
                i as int,
            );
            crate::sizing::lemma_offset_bounds(items@, c.space as int, total as int, capg, i as int);
        }
        let child = &c.children[i];
        let t = node_size_types(child);
        let csize = node_size(child, lc);
        let ext: i64 = if matches!(t.height, SizeType::Flexible) {
            share
        } else {
            let clamped = match c.max_height {
                Some(mh) => if csize.height <= mh {
                    csize.height
                } else {
                    mh
                },
                None => csize.height,
            };
            let rem = total - rel;
            if clamped <= rem {
                clamped
            } else {
                rem
            }
        };
        let cross: i64 = if matches!(t.width, SizeType::Fix) {
            csize.width
        } else {
            cross_all
        };
        let crect = rect_clamp(
            lc.rect.left,
            lc.rect.top + rel,
            lc.rect.left + cross,
            lc.rect.top + rel + ext,
        );
        proof {
            assert(crect == col_child_rect(*c, lc.rect, i as int));
        }
        let clc = lc.next_with(AnyHandle::from_parts(c.id(), WidgetKind::Column), crect, lc.layer, lc.selected);
        node_layout(child, &clc, result);
        proof {
            assert(clc.model() == col_child_lc(*c, m, i as int));
            assert(crate::layout::models_of(result@) =~= pre + col_elems(*c, m, i + 1)) by {
                assert(col_elems(*c, m, i + 1) == col_elems(*c, m, i as int) + node_layout_spec(
                    c.children@[i as int],
                    col_child_lc(*c, m, i as int),
                ));
                assert((pre + col_elems(*c, m, i as int)) + node_layout_spec(
                    c.children@[i as int],
                    col_child_lc(*c, m, i as int),
                ) =~= pre + col_elems(*c, m, i + 1));
            }
        }
        let step = rel + ext + c.space;
        rel = if step > total {
            total
        } else {
            step
        };
        i = i + 1;
    }
}

pub(crate) fn max_size_layout_walk(w: &MaxSize, lc: &LayoutContext, result: &mut LayoutConstructor)
    requires
        w.wf(),
        lc.wf(),
    ensures
        crate::layout::models_of(final(result)@) == crate::layout::models_of(old(result)@)
            + max_size_layout_spec(*w, lc.model()),
    decreases *w.child, 4int,
{
    let size = max_size_size(w, lc);
    let crect = rect_clamp(
        lc.rect.left,
        lc.rect.top,
        lc.rect.left + size.width,
        lc.rect.top + size.height,
    );
    let clc = lc.next_with(
        AnyHandle::from_parts(w.id(), WidgetKind::MaxSize),
        crect,
        lc.layer,
        lc.selected,
    );
    proof {
        assert(clc.model() == max_size_child_lc(*w, lc.model()));
    }
    node_layout(&w.child, &clc, result);
}

pub(crate) fn abs_layout_walk(w: &Abs, lc: &LayoutContext, result: &mut LayoutConstructor)
    requires
        w.wf(),
        lc.wf(),
    ensures
        crate::layout::models_of(final(result)@) == crate::layout::models_of(old(result)@)
            + abs_layout_spec(*w, lc.model()),
    decreases *w.child, 4int,
{
    let crect = LogicalRect::from_positions(
        LogicalPosition { x: w.position.x, y: w.position.y },
        lc.rect.right_bottom(),
    );
    let clc = lc.next_with(
        AnyHandle::from_parts(w.id(), WidgetKind::Abs),
        crect,
        lc.layer,
        lc.selected,
    );
    proof {
        assert(clc.model() == abs_child_lc(*w, lc.model()));
    }
    node_layout(&w.child, &clc, result);
}

} // verus!
