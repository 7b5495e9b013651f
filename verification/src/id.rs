//! Stable identity tokens for widgets.
//!
//! An [`Id`] is an opaque token, assigned once when a widget is constructed
//! and never reused. Tokens are drawn from an explicit [`IdGen`] allocator
//! rather than hidden global state, so the uniqueness guarantee is part of
//! the allocator's contract: `IdGen::fresh` returns a value that no earlier
//! call on the same allocator ever returned.

use vstd::prelude::*;

verus! {

/// An opaque widget identity token. Equality is the sole identity test.
#[derive(Clone, Copy, PartialEq, Eq, Structural, Hash, Debug)]
pub struct Id(u64);

impl Id {
    /// The raw token value (spec-level view).
    pub closed spec fn val(self) -> u64 {
        self.0
    }

    /// Draws the next token from `gen`.
    ///
    /// The token differs from every token the same allocator issued before.
    pub fn new(gen: &mut IdGen) -> (r: Id)
        requires
            old(gen).wf(),
            old(gen).can_issue(),
        ensures
            final(gen).wf(),
            final(gen).counter() == old(gen).counter() + 1,
            !old(gen).issued().contains(r.val()),
            final(gen).issued() == old(gen).issued().insert(r.val()),
    {
        gen.fresh()
    }
}

/// Allocator of process-unique identity tokens.
///
/// The counter is monotone; every issued token is strictly below `next`,
/// so a fresh token can never collide with an issued one.
pub struct IdGen {
    next: u64,
    issued: Ghost<Set<u64>>,
}

impl IdGen {
    /// The set of tokens this allocator has issued so far.
    pub closed spec fn issued(self) -> Set<u64> {
        self.issued@
    }

    /// The value the next token will take.
    pub closed spec fn counter(self) -> u64 {
        self.next
    }

    /// Whether another token can still be drawn (the counter has headroom).
    pub open spec fn can_issue(self) -> bool {
        self.counter() < u64::MAX
    }

    pub closed spec fn wf(self) -> bool {
        forall|v: u64| self.issued@.contains(v) ==> v < self.next
    }

    pub fn new() -> (r: IdGen)
        ensures
            r.wf(),
            r.counter() == 1u64,
            r.issued() == Set::<u64>::empty(),
    {
        IdGen { next: 1, issued: Ghost(Set::empty()) }
    }

    /// Issues a token that no earlier call on this allocator returned.
    pub fn fresh(&mut self) -> (r: Id)
        requires
            old(self).wf(),
            old(self).can_issue(),
        ensures
            final(self).wf(),
            final(self).counter() == old(self).counter() + 1,
            !old(self).issued().contains(r.val()),
            final(self).issued() == old(self).issued().insert(r.val()),
    {
        let v = self.next;
        self.next = self.next + 1;
        proof {
            self.issued@ = self.issued@.insert(v);
        }
        Id(v)
    }
}

/// No two tokens issued by one allocator are the same: once a token is in
/// the issued set, a later `fresh` cannot return it again.
pub proof fn lemma_ids_unique(pre: IdGen, post: IdGen, a: Id, b: Id)
    requires
        pre.wf(),
        pre.issued().contains(a.val()),
        !pre.issued().contains(b.val()),
        post.issued() == pre.issued().insert(b.val()),
    ensures
        a != b,
        post.issued().contains(a.val()),
        post.issued().contains(b.val()),
{
}

/// Anything that carries a widget identity.
pub trait HasId {
    spec fn id_spec(&self) -> Id;

    fn id(&self) -> (r: Id)
        ensures
            r == self.id_spec(),
    ;
}

impl HasId for Id {
    open spec fn id_spec(&self) -> Id {
        *self
    }

    fn id(&self) -> (r: Id)
        ensures
            r == self.id_spec(),
    {
        *self
    }
}

} // verus!
