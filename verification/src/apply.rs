//! The deferred-mutation queue.
//!
//! Structural or stateful changes to widgets are never made while a tree
//! walk is on the stack. Instead the embedding enqueues `(target handle,
//! command)` pairs; the scene drains the queue at the start of the next
//! `input` or `layout` call. Commands for one target run in the order they
//! were enqueued, each exactly once; entries whose target never resolves
//! are dropped when the walk ends.

use vstd::prelude::*;
use crate::geometry::{COORD_MAX, LogicalPosition, LogicalSize};
use crate::id::{HasId, Id};
use crate::node::WidgetNode;
use crate::widget::{AnyHandle, Handle, Widget, WidgetKind};

verus! {

/// One deferred mutation, as a plain command value.
pub enum ApplyCommand {
    /// Append a child to a container.
    PushChild(Box<WidgetNode>),
    /// Remove the first child with this identity from a container.
    EraseChild(Id),
    /// Replace the text of a text-bearing widget.
    SetText(String),
    /// Replace the measured extents of a text-bearing widget.
    SetMetrics(LogicalSize),
    /// Replace the inter-child spacing of a container.
    SetSpace(i64),
    /// Replace a column's per-child height limit.
    SetMaxHeight(Option<i64>),
    /// Replace a size-limiting wrapper's caps.
    SetMaxSize(Option<i64>, Option<i64>),
    /// Replace an absolute-position wrapper's position.
    SetPosition(LogicalPosition),
}

impl ApplyCommand {
    pub open spec fn wf(&self) -> bool {
        match *self {
            ApplyCommand::PushChild(n) => crate::node::node_wf(*n),
            ApplyCommand::EraseChild(_) => true,
            ApplyCommand::SetText(_) => true,
            ApplyCommand::SetMetrics(s) => s.wf(),
            ApplyCommand::SetSpace(s) => 0 <= s <= COORD_MAX,
            ApplyCommand::SetMaxHeight(h) => h matches Some(v) ==> 0 <= v <= COORD_MAX,
            ApplyCommand::SetMaxSize(w, h) => (w matches Some(v) ==> 0 <= v <= COORD_MAX) && (
            h matches Some(v) ==> 0 <= v <= COORD_MAX),
            ApplyCommand::SetPosition(p) => p.wf(),
        }
    }
}

/// One queue entry: the target and the command, which is taken (set to
/// `None`) when it runs.
pub struct ApplyEntry {
    pub handle: AnyHandle,
    pub cmd: Option<ApplyCommand>,
}

/// How many entries still hold a command.
pub open spec fn unconsumed(q: Seq<ApplyEntry>) -> int
    decreases q.len(),
{
    if q.len() == 0 {
        0
    } else {
        unconsumed(q.drop_last()) + if q.last().cmd is Some {
            1int
        } else {
            0int
        }
    }
}

/// Whether the entry still holds a command for the given target.
pub open spec fn entry_matches(e: ApplyEntry, id: Id, kind: WidgetKind) -> bool {
    e.cmd is Some && e.handle.id_spec() == id && e.handle.kind_spec() == kind
}

/// The commands still queued for one target, in queue order.
pub open spec fn pending_for(q: Seq<ApplyEntry>, id: Id, kind: WidgetKind) -> Seq<ApplyCommand> {
    q.filter(|e: ApplyEntry| entry_matches(e, id, kind)).map_values(
        |e: ApplyEntry| e.cmd->Some_0,
    )
}

/// A queue with no unconsumed entries holds no command at all.
pub proof fn lemma_unconsumed_zero(q: Seq<ApplyEntry>, i: int)
    requires
        unconsumed(q) == 0,
        0 <= i < q.len(),
    ensures
        q[i].cmd is None,
    decreases q.len(),
{
    lemma_unconsumed_nonneg(q.drop_last());
    if i < q.len() - 1 {
        lemma_unconsumed_zero(q.drop_last(), i);
        assert(q.drop_last()[i] == q[i]);
    }
}

/// There are never negatively many unconsumed entries.
pub proof fn lemma_unconsumed_nonneg(q: Seq<ApplyEntry>)
    ensures
        unconsumed(q) >= 0,
    decreases q.len(),
{
    if q.len() > 0 {
        lemma_unconsumed_nonneg(q.drop_last());
    }
}

/// Appending one entry appends its command to its own target's pending
/// list and leaves every other target's list alone.
pub proof fn lemma_pending_push(q: Seq<ApplyEntry>, e: ApplyEntry, id: Id, kind: WidgetKind)
    ensures
        pending_for(q.push(e), id, kind) == if entry_matches(e, id, kind) {
            pending_for(q, id, kind).push(e.cmd->Some_0)
        } else {
            pending_for(q, id, kind)
        },
{
    broadcast use vstd::prelude::Seq::lemma_filter_push;

    reveal(Seq::filter);
    let pm = |x: ApplyEntry| entry_matches(x, id, kind);
    let ex = |x: ApplyEntry| x.cmd->Some_0;
    assert(q.push(e).drop_last() =~= q);
    assert(q.push(e).last() == e);
    if pm(e) {
        assert(q.push(e).filter(pm) == q.filter(pm).push(e));
        assert(q.filter(pm).push(e).map_values(ex) =~= q.filter(pm).map_values(ex).push(ex(e)));
    } else {
        assert(q.push(e).filter(pm) == q.filter(pm));
    }
}

/// The widget state after the commands have run in order.
pub open spec fn fold_cmds<T: Widget>(m: T::Model, cmds: Seq<ApplyCommand>) -> T::Model
    decreases cmds.len(),
{
    if cmds.len() == 0 {
        m
    } else {
        fold_cmds::<T>(T::model_apply(m, cmds.first()), cmds.drop_first())
    }
}

/// Folding over one more command applies it last.
pub proof fn lemma_fold_cmds_push<T: Widget>(m: T::Model, cmds: Seq<ApplyCommand>, c: ApplyCommand)
    ensures
        fold_cmds::<T>(m, cmds.push(c)) == T::model_apply(fold_cmds::<T>(m, cmds), c),
    decreases cmds.len(),
{
    if cmds.len() == 0 {
        assert(cmds.push(c).first() == c);
        assert(cmds.push(c).drop_first() =~= Seq::<ApplyCommand>::empty());
        assert(fold_cmds::<T>(m, cmds.push(c)) == fold_cmds::<T>(T::model_apply(m, c), Seq::empty()));
    } else {
        assert(cmds.push(c).drop_first() =~= cmds.drop_first().push(c));
        assert(cmds.push(c).first() == cmds.first());
        lemma_fold_cmds_push::<T>(T::model_apply(m, cmds.first()), cmds.drop_first(), c);
    }
}

/// Replacing one entry changes the unconsumed count by the difference the
/// two entries make.
pub proof fn lemma_unconsumed_update(q: Seq<ApplyEntry>, k: int, e: ApplyEntry)
    requires
        0 <= k < q.len(),
    ensures
        unconsumed(q.update(k, e)) == unconsumed(q) - (if q[k].cmd is Some {
            1int
        } else {
            0int
        }) + (if e.cmd is Some {
            1int
        } else {
            0int
        }),
    decreases q.len(),
{
    let q2 = q.update(k, e);
    if k == q.len() - 1 {
        assert(q2.drop_last() =~= q.drop_last());
        assert(q2.last() == e);
    } else {
        assert(q2.drop_last() =~= q.drop_last().update(k, e));
        assert(q2.last() == q.last());
        lemma_unconsumed_update(q.drop_last(), k, e);
    }
}

/// The deferred-mutation queue: FIFO per target.
pub struct ApplyFuncs {
    entries: Vec<ApplyEntry>,
}

impl View for ApplyFuncs {
    type V = Seq<ApplyEntry>;

    closed spec fn view(&self) -> Seq<ApplyEntry> {
        self.entries@
    }
}

impl ApplyFuncs {
    /// Every queued command is well-formed.
    pub open spec fn wf(&self) -> bool {
        forall|i: int|
            0 <= i < self@.len() && #[trigger] self@[i].cmd is Some ==> self@[i].cmd->Some_0.wf()
    }

    pub fn new() -> (r: Self)
        ensures
            r@ == Seq::<ApplyEntry>::empty(),
            r.wf(),
    {
        ApplyFuncs { entries: Vec::new() }
    }

    pub fn is_empty(&self) -> (r: bool)
        ensures
            r == (self@.len() == 0),
    {
        self.entries.is_empty()
    }

    pub fn len(&self) -> (r: usize)
        ensures
            r == self@.len(),
    {
        self.entries.len()
    }

    /// The target of the entry at `k`.
    pub fn handle_at(&self, k: usize) -> (r: AnyHandle)
        requires
            k < self@.len(),
        ensures
            r == self@[k as int].handle,
    {
        self.entries[k].handle
    }

    /// Takes the command out of the entry at `k`, leaving it consumed.
    pub(crate) fn take_at(&mut self, k: usize) -> (r: Option<ApplyCommand>)
        requires
            k < old(self)@.len(),
            old(self).wf(),
        ensures
            r == old(self)@[k as int].cmd,
            final(self)@ == old(self)@.update(
                k as int,
                ApplyEntry { handle: old(self)@[k as int].handle, cmd: None },
            ),
            final(self).wf(),
            r matches Some(c) ==> c.wf(),
    {
        let e = self.entries.remove(k);
        self.entries.insert(k, ApplyEntry { handle: e.handle, cmd: None });
        proof {
            assert(self@ =~= old(self)@.update(
                k as int,
                ApplyEntry { handle: old(self)@[k as int].handle, cmd: None },
            ));
            assert forall|i: int|
                0 <= i < self@.len() && #[trigger] self@[i].cmd is Some implies self@[i].cmd->Some_0.wf() by {
                assert(self@[i] == old(self)@[i]);
            }
        }
        e.cmd
    }

    /// Puts a command back into the consumed entry at `k` (its target was
    /// not found, so the entry stays pending).
    pub(crate) fn restore_at(&mut self, k: usize, cmd: ApplyCommand)
        requires
            k < old(self)@.len(),
            old(self)@[k as int].cmd is None,
            old(self).wf(),
            cmd.wf(),
        ensures
            final(self)@ == old(self)@.update(
                k as int,
                ApplyEntry { handle: old(self)@[k as int].handle, cmd: Some(cmd) },
            ),
            final(self).wf(),
    {
        let e = self.entries.remove(k);
        self.entries.insert(k, ApplyEntry { handle: e.handle, cmd: Some(cmd) });
        proof {
            assert(self@ =~= old(self)@.update(
                k as int,
                ApplyEntry { handle: old(self)@[k as int].handle, cmd: Some(cmd) },
            ));
            assert forall|i: int|
                0 <= i < self@.len() && #[trigger] self@[i].cmd is Some implies self@[i].cmd->Some_0.wf() by {
                if i != k {
                    assert(self@[i] == old(self)@[i]);
                }
            }
        }
    }

    pub fn clear(&mut self)
        ensures
            final(self)@ == Seq::<ApplyEntry>::empty(),
            final(self).wf(),
    {
        self.entries.clear();
    }

    /// Enqueues `cmd` for the widget `handle` points at.
    pub fn push<T: Widget>(&mut self, handle: &Handle<T>, cmd: ApplyCommand)
        requires
            old(self).wf(),
            cmd.wf(),
        ensures
            final(self)@ == old(self)@.push(
                ApplyEntry {
                    handle: AnyHandle::make(handle.id_spec(), T::kind_spec()),
                    cmd: Some(cmd),
                },
            ),
            final(self).wf(),
    {
        let h = AnyHandle::from(*handle);
        self.entries.push(ApplyEntry { handle: h, cmd: Some(cmd) });
        proof {
            assert forall|i: int|
                0 <= i < self@.len() && #[trigger] self@[i].cmd is Some implies self@[i].cmd->Some_0.wf() by {
                if i < self@.len() - 1 {
                    assert(self@[i] == old(self)@[i]);
                }
            }
        }
    }

    /// Runs every command still queued for `widget`, in queue order, each
    /// exactly once, and marks those entries consumed. Entries for other
    /// targets are untouched. When nothing is queued for `widget`, neither
    /// the widget nor the queue changes.
    #[verifier::loop_isolation(false)]
    pub fn apply<T: Widget>(&mut self, widget: &mut T)
        requires
            old(self).wf(),
            old(widget).wf(),
        ensures
            final(self).wf(),
            final(self)@.len() == old(self)@.len(),
            forall|i: int|
                #![trigger final(self)@[i]]
                0 <= i < old(self)@.len() ==> final(self)@[i] == (if entry_matches(
                    old(self)@[i],
                    old(widget).id_spec(),
                    T::kind_spec(),
                ) {
                    ApplyEntry { handle: old(self)@[i].handle, cmd: None }
                } else {
                    old(self)@[i]
                }),
            final(widget).model() == fold_cmds::<T>(
                old(widget).model(),
                pending_for(old(self)@, old(widget).id_spec(), T::kind_spec()),
            ),
            final(widget).wf(),
            final(widget).id_spec() == old(widget).id_spec(),
            unconsumed(final(self)@) == unconsumed(old(self)@) - pending_for(
                old(self)@,
                old(widget).id_spec(),
                T::kind_spec(),
            ).len(),
            pending_for(old(self)@, old(widget).id_spec(), T::kind_spec()).len() == 0 ==> *final(widget) == *old(widget) && final(self)@ == old(self)@,
    {
        let ghost q0 = self@;
        let ghost w0 = old(widget).model();
        let ghost id = old(widget).id_spec();
        let ghost kind = T::kind_spec();
        let wid = widget.id();
        let wkind = T::kind();
        let n = self.entries.len();
        let mut k: usize = 0;
        proof {
            broadcast use vstd::seq_lib::group_filter_ensures;
        }
        while k < n
            invariant
                k <= n,
                self@.len() == n,
                self.wf(),
                forall|i: int|
                    #![trigger self@[i]]
                    0 <= i < k ==> self@[i] == (if entry_matches(q0[i], id, kind) {
                        ApplyEntry { handle: q0[i].handle, cmd: None }
                    } else {
                        q0[i]
                    }),
                forall|i: int| #![trigger self@[i]] k <= i < n ==> self@[i] == q0[i],
                widget.model() == fold_cmds::<T>(
                    w0,
                    pending_for(q0.subrange(0, k as int), id, kind),
                ),
                widget.wf(),
                widget.id_spec() == id,
                unconsumed(self@) == unconsumed(q0) - pending_for(
                    q0.subrange(0, k as int),
                    id,
                    kind,
                ).len(),
                pending_for(q0.subrange(0, k as int), id, kind).len() == 0 ==> *widget == *old(widget) && self@ == q0,
            decreases n - k,
        {
            let ghost prefix = q0.subrange(0, k as int);
            let ghost prefix1 = q0.subrange(0, k + 1);
            proof {
                assert(prefix1.drop_last() =~= prefix);
                assert(prefix.push(q0[k as int]) =~= prefix1);
            }
            let e_matches = {
                let e = &self.entries[k];
                e.cmd.is_some() && e.handle.id() == wid && e.handle.type_id() == wkind
            };
            if e_matches {
                let ghost qk = self@;
                let e = self.entries.remove(k);
                let cmd = if let Some(c) = e.cmd {
                    c
                } else {
                    unreached()
                };
                self.entries.insert(k, ApplyEntry { handle: e.handle, cmd: None });
                proof {
                    assert(self@ =~= qk.update(
                        k as int,
                        ApplyEntry { handle: q0[k as int].handle, cmd: None },
                    ));
                    lemma_unconsumed_update(
                        qk,
                        k as int,
                        ApplyEntry { handle: q0[k as int].handle, cmd: None },
                    );
                    lemma_pending_push(prefix, q0[k as int], id, kind);
                    lemma_fold_cmds_push::<T>(w0, pending_for(prefix, id, kind), cmd);
                }
                widget.apply_command(cmd);
            } else {
                proof {
                    lemma_pending_push(prefix, q0[k as int], id, kind);
                }
            }
            k = k + 1;
        }
        proof {
            assert(q0.subrange(0, n as int) =~= q0);
            if pending_for(q0, id, kind).len() == 0 {
                assert(self@ =~= q0);
            }
        }
    }
}

} // verus!
