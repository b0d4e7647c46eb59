//! The payouts queue: one value holding the credential cache, the
//! payout-method cache and the per-user lock registry.
//!
//! The queue is the sequential heart of the subsystem; the shell
//! around it guards the caches behind read/write locks and performs
//! the network exchanges, handing their parsed results back in as
//! plain values.

use vstd::prelude::*;
use crate::catalog::{except_us, iso_table, refreshed_catalog, spec_catalog, CatalogCache, CATALOG_TTL_SECONDS};
use crate::credential::{Credential, CredentialCache};
use crate::registry::UserLockRegistry;
use crate::types::{method_models, product_models, PayoutMethod, Product};

verus! {

/// The state behind the payout routes: both caches and the registry.
pub struct PayoutsQueue {
    pub credential: CredentialCache,
    pub payout_options: CatalogCache,
    pub payouts_locks: UserLockRegistry,
}

impl Default for PayoutsQueue {
    /// The default queue is the fresh one.
    fn default() -> (r: PayoutsQueue)
        ensures
            r.credential.spec_cached() is None,
            r.payout_options.spec_cached() is None,
            r.payouts_locks.wf(),
            r.payouts_locks.spec_users().len() == 0,
    {
        PayoutsQueue::new()
    }
}

impl PayoutsQueue {
    /// A fresh queue: nothing cached, no lock handles issued.
    pub fn new() -> (r: PayoutsQueue)
        ensures
            r.credential.spec_cached() is None,
            r.payout_options.spec_cached() is None,
            r.payouts_locks.wf(),
            r.payouts_locks.spec_users().len() == 0,
    {
        PayoutsQueue {
            credential: CredentialCache::new(),
            payout_options: CatalogCache::new(),
            payouts_locks: UserLockRegistry::new(),
        }
    }

    /// Returns the cached credential exactly when it is valid at
    /// `now`; `None` tells the caller to run the refresh exchange and
    /// store its result.
    pub fn get_valid_credential(&self, now: i64) -> (r: Option<Credential>)
        ensures
            r is Some <==> self.credential.spec_valid(now),
            self.credential.spec_valid(now) ==> r == Some(
                self.credential.spec_cached()->Some_0),
    {
        self.credential.get_valid(now)
    }

    /// Stores the parsed fields of a fresh token response.
    pub fn store_refreshed_credential(
        &mut self,
        access_token: String,
        token_type: String,
        expires_in: i64,
        now: i64,
    ) -> (r: Credential)
        requires
            0 <= expires_in,
            now + expires_in <= i64::MAX,
        ensures
            final(self).credential.spec_cached() == Some(r),
            r.access_token == access_token,
            r.token_type == token_type,
            r.expires_at == now + expires_in,
            final(self).credential.spec_valid(now),
            final(self).payout_options == old(self).payout_options,
            final(self).payouts_locks == old(self).payouts_locks,
    {
        self.credential.store_refreshed(access_token, token_type, expires_in, now)
    }

    /// Returns the cached catalog exactly when it is still fresh at
    /// `now`; `None` tells the caller to fetch the product list and
    /// refresh.
    pub fn get_payout_methods(&self, now: i64) -> (r: Option<Vec<PayoutMethod>>)
        ensures
            r is Some <==> self.payout_options.spec_valid(now),
            self.payout_options.spec_valid(now) ==> method_models(r->Some_0@)
                == self.payout_options.spec_cached()->Some_0.0,
    {
        self.payout_options.get_valid(now)
    }

    /// Refreshes the catalog from a fetched product snapshot: builds
    /// the ranked list, replaces the cache wholesale with it and the
    /// six-hour expiry, and returns it.
    pub fn refresh_payout_methods(&mut self, products: &Vec<Product>, now: i64) -> (r: Vec<
        PayoutMethod,
    >)
        requires
            now + CATALOG_TTL_SECONDS <= i64::MAX,
        ensures
            method_models(r@) == spec_catalog(
                product_models(products@),
                except_us(iso_table()),
            ),
            final(self).payout_options.spec_cached() == Some(
                (method_models(r@), (now + CATALOG_TTL_SECONDS) as i64),
            ),
            final(self).payout_options.spec_valid(now),
            final(self).credential == old(self).credential,
            final(self).payouts_locks == old(self).payouts_locks,
    {
        let methods = refreshed_catalog(products);
        let copy = crate::types::clone_method_vec(&methods);
        self.payout_options.store(methods, now);
        copy
    }

    /// Returns the lock handle of one user, issuing it on first use;
    /// every caller mutating the same user receives the same handle.
    pub fn lock_user_payouts(&mut self, user_id: u64) -> (h: usize)
        requires
            old(self).payouts_locks.spec_users().len() < usize::MAX,
        ensures
            old(self).payouts_locks.wf() ==> final(self).payouts_locks.wf(),
            h < final(self).payouts_locks.spec_users().len(),
            final(self).payouts_locks.spec_users()[h as int] == user_id,
            old(self).payouts_locks.spec_users().contains(user_id)
                ==> final(self).payouts_locks.spec_users()
                == old(self).payouts_locks.spec_users(),
            !old(self).payouts_locks.spec_users().contains(user_id)
                ==> final(self).payouts_locks.spec_users()
                == old(self).payouts_locks.spec_users().push(user_id)
                && h == old(self).payouts_locks.spec_users().len(),
            final(self).credential == old(self).credential,
            final(self).payout_options == old(self).payout_options,
    {
        self.payouts_locks.handle_for(user_id)
    }
}

} // verus!
