//! Stable widget identities.
//!
//! An [`Identity`] names a widget instance across tree rebuilds. It is
//! either derived from a logical name chosen by the application, so that
//! the same name always addresses the same widget slot, or issued by an
//! [`IdGen`], whose counter guarantees that every issued token is distinct
//! from all earlier ones.

use vstd::prelude::*;

verus! {

/// A stable token addressing a widget instance.
///
/// Equality is the only operation identities support: two `Named`
/// identities are the same exactly when their names are, and two `Unique`
/// identities exactly when they came from the same [`IdGen`] draw.
#[derive(Clone, PartialEq, Eq, Debug)]
pub enum Identity {
    /// An automatically issued token; the payload is an [`IdGen`] counter value.
    Unique(u64),
    /// A token derived from an application-chosen name.
    Named(String),
}

/// Equality on identities, as contracts state it.
pub open spec fn spec_id_eq(a: Identity, b: Identity) -> bool {
    match (a, b) {
        (Identity::Unique(x), Identity::Unique(y)) => x == y,
        (Identity::Named(x), Identity::Named(y)) => x@ == y@,
        _ => false,
    }
}

impl Identity {
    /// Builds the identity that a given logical name always maps to.
    pub fn from_name(name: String) -> (r: Identity)
        ensures
            r == Identity::Named(name),
    {
        Identity::Named(name)
    }

    /// An identical copy of this identity.
    pub fn duplicate(&self) -> (r: Identity)
        ensures
            r == *self,
    {
        match self {
            Identity::Unique(n) => Identity::Unique(*n),
            Identity::Named(s) => Identity::Named(s.clone()),
        }
    }

    /// Whether two identities address the same widget slot.
    pub fn same(&self, other: &Identity) -> (b: bool)
        ensures
            b == spec_id_eq(*self, *other),
    {
        match (self, other) {
            (Identity::Unique(x), Identity::Unique(y)) => *x == *y,
            (Identity::Named(x), Identity::Named(y)) => *x == *y,
            _ => false,
        }
    }
}

/// Issues process-unique identity tokens from a strictly increasing counter.
#[derive(Clone, PartialEq, Eq, Structural, Debug)]
pub struct IdGen {
    /// The counter value the next issued identity will carry.
    pub next: u64,
}

impl IdGen {
    /// A generator that has issued nothing yet.
    pub fn new() -> (g: IdGen)
        ensures
            g.next == 0,
    {
        IdGen { next: 0 }
    }

    /// Issues a fresh identity, distinct from every identity this
    /// generator has issued before (those carry counters below `next`).
    pub fn fresh(&mut self) -> (r: Identity)
        requires
            old(self).next < u64::MAX,
        ensures
            r == Identity::Unique(old(self).next),
            final(self).next == old(self).next + 1,
    {
        let n = self.next;
        self.next = self.next + 1;
        Identity::Unique(n)
    }
}

/// Identities issued at different counter values never collide, so all
/// draws from one generator are pairwise distinct.
pub proof fn lemma_fresh_identities_distinct(a: u64, b: u64)
    requires
        a != b,
    ensures
        !spec_id_eq(Identity::Unique(a), Identity::Unique(b)),
{
}

} // verus!
