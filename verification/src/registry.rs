//! The per-user lock registry: each distinct user identifier owns one
//! handle, created on first request and shared by every later request
//! for the same identifier.
//!
//! A handle here is an index into the registry's table; the exclusive
//! lock that the handle designates lives with the caller, which keeps
//! one lock per handle. The registry grows for the life of the
//! process and never evicts.

use vstd::prelude::*;

verus! {

/// The table of user identifiers that have been issued a handle; the
/// handle of a user is its index.
pub struct UserLockRegistry {
    users: Vec<u64>,
}

impl UserLockRegistry {
    /// The issued handles, as the sequence of their users.
    pub closed spec fn spec_users(self) -> Seq<u64> {
        self.users@
    }

    /// No user holds two handles.
    pub open spec fn wf(self) -> bool {
        forall|i: int, j: int|
            0 <= i < j < self.spec_users().len() ==> self.spec_users()[i] != self.spec_users()[j]
    }

    /// An empty registry.
    pub fn new() -> (r: UserLockRegistry)
        ensures
            r.wf(),
            r.spec_users().len() == 0,
    {
        UserLockRegistry { users: Vec::new() }
    }

    /// How many handles have been issued.
    pub fn len(&self) -> (r: usize)
        ensures
            r == self.spec_users().len(),
    {
        self.users.len()
    }

    /// Returns the handle of `user`, issuing a fresh one on the first
    /// request: an existing handle is returned unchanged, and a new
    /// user is appended, so handles, once issued, never move.
    pub fn handle_for(&mut self, user: u64) -> (h: usize)
        requires
            old(self).spec_users().len() < usize::MAX,
        ensures
            old(self).wf() ==> final(self).wf(),
            h < final(self).spec_users().len(),
            final(self).spec_users()[h as int] == user,
            old(self).spec_users().contains(user) ==> final(self).spec_users() == old(
                self,
            ).spec_users(),
            !old(self).spec_users().contains(user) ==> final(self).spec_users() == old(
                self,
            ).spec_users().push(user) && h == old(self).spec_users().len(),
    {
        let n = self.users.len();
        for i in 0..n
            invariant
                *self == *old(self),
                n == self.users.len(),
                forall|k: int| 0 <= k < i ==> self.users@[k] != user,
        {
            if self.users[i] == user {
                return i;
            }
        }
        assert(!self.users@.contains(user));
        self.users.push(user);
        n
    }
}

/// Law: a handle determines its user and a user determines its handle —
/// in a well-formed registry two handles for the same user coincide, so
/// every caller locking a given user contends on the same lock.
pub proof fn lemma_handle_unique(reg: UserLockRegistry, h1: int, h2: int)
    requires
        reg.wf(),
        0 <= h1 < reg.spec_users().len(),
        0 <= h2 < reg.spec_users().len(),
        reg.spec_users()[h1] == reg.spec_users()[h2],
    ensures
        h1 == h2,
{
}

} // verus!
