//! The shared jar: one cookie store behind a mutex, held for the whole of
//! each operation.

use crate::engine::{jar_of, lock_jar, lock_poisoned, new_lock, text_of, CookieRecord};
use crate::jar::{
    all_named, cookie_header, distinct_keys, stored_entry, HeaderOutcome, find_by_name, ingest, new_jar, remove_by_name,
    IngestReport, JarError,
};
use cookie_store::CookieStore;
use reqwest::header::HeaderValue;
use reqwest::Url;
use std::sync::{Mutex, MutexGuard};
use vstd::prelude::*;

verus! {

/// What the jar does when an earlier holder of its lock panicked.
#[derive(Clone, Copy, Debug, PartialEq, Eq, Structural)]
pub enum LockPolicy {
    /// Go on with the store as the panicking holder left it.
    Recover,
    /// Fail the operation with `JarError::Poisoned`.
    FailFast,
}

/// Whether an operation may go on, given the jar's policy and whether its
/// lock was found poisoned: only a poisoned lock under `FailFast` stops it.
pub fn lock_decision(policy: LockPolicy, poisoned: bool) -> (r: Result<(), JarError>)
    ensures
        r is Err <==> poisoned && policy == LockPolicy::FailFast,
        r is Err ==> r == Err::<(), JarError>(JarError::Poisoned),
{
    if poisoned && policy == LockPolicy::FailFast {
        Err(JarError::Poisoned)
    } else {
        Ok(())
    }
}

/// A cookie jar that many threads may share.
pub struct ReqwestCookieStore {
    jar: Mutex<CookieStore>,
    policy: LockPolicy,
}

impl ReqwestCookieStore {
    /// The policy the jar follows on a poisoned lock.
    pub closed spec fn lock_policy(&self) -> LockPolicy {
        self.policy
    }

    /// An empty jar with the given policy on a poisoned lock.
    pub fn new(policy: LockPolicy) -> (r: Self)
        ensures
            r.lock_policy() == policy,
    {
        ReqwestCookieStore { jar: new_lock(new_jar()), policy }
    }

    pub fn policy(&self) -> (r: LockPolicy)
        ensures
            r == self.lock_policy(),
    {
        self.policy
    }

    /// The mutex that every operation of the jar locks.
    pub closed spec fn mutex(&self) -> Mutex<CookieStore> {
        self.jar
    }

    /// The mutex that holds the store, the one every operation locks.
    pub fn get_jar(&self) -> (r: &Mutex<CookieStore>)
        ensures
            *r == self.mutex(),
    {
        &self.jar
    }

    /// Whether a holder of the lock has panicked. Under `Recover` the jar goes
    /// on regardless; this is how a caller learns of it.
    pub fn is_poisoned(&self) -> bool {
        lock_poisoned(&self.jar)
    }

    fn acquire(&self) -> (r: Result<MutexGuard<'_, CookieStore>, JarError>)
        ensures
            self.lock_policy() == LockPolicy::Recover ==> r is Ok,
            r is Err ==> r->Err_0 == JarError::Poisoned,
    {
        let (guard, poisoned) = lock_jar(&self.jar);
        match lock_decision(self.policy, poisoned) {
            Ok(()) => Ok(guard),
            Err(e) => Err(e),
        }
    }

    /// Records the `Set-Cookie` headers of a response from `url`, all under one
    /// hold of the lock; see `ingest`.
    pub fn set_cookies(&self, headers: &Vec<HeaderValue>, url: &Url) -> (r: Result<
        IngestReport,
        JarError,
    >)
        ensures
            self.lock_policy() == LockPolicy::Recover ==> !(r matches Err(JarError::Poisoned)),
            r is Ok ==> r->Ok_0.outcomes.len() == headers.len(),
            r is Ok ==> forall|j: int|
                0 <= j < headers.len() && #[trigger] r->Ok_0.outcomes@[j] != HeaderOutcome::Rejected
                    ==> stored_entry(headers@[j], *url) is Some,
            self.lock_policy() == LockPolicy::Recover && (forall|j: int|
                0 <= j < headers.len() ==> #[trigger] text_of(headers@[j]) is Some) ==> r is Ok,
            r matches Err(e) ==> (e == JarError::Poisoned || (e matches JarError::NotText {
                index,
            } && index < headers.len() && text_of(headers@[index as int]) is None && forall|j: int|
                0 <= j < index ==> #[trigger] text_of(headers@[j]) is Some)),
    {
        let mut guard = match self.acquire() {
            Ok(g) => g,
            Err(e) => {
                return Err(e);
            },
        };
        ingest(jar_of(&mut guard), headers, url)
    }

    /// The `Cookie` header for a request to `url`, or none when no stored
    /// cookie applies.
    pub fn cookies(&self, url: &Url) -> (r: Result<Option<HeaderValue>, JarError>)
        ensures
            self.lock_policy() == LockPolicy::Recover ==> !(r matches Err(JarError::Poisoned)),
            r matches Err(e) ==> (e == JarError::Poisoned || e == JarError::InvalidHeader),
            r matches Ok(Some(h)) ==> (text_of(h) matches Some(t) ==> t.len() > 0),
    {
        let mut guard = match self.acquire() {
            Ok(g) => g,
            Err(e) => {
                return Err(e);
            },
        };
        cookie_header(jar_of(&mut guard), url)
    }

    /// The unexpired cookies named `name`, copied out of the jar.
    pub fn get_cookie(&self, name: &str) -> (r: Result<Vec<CookieRecord>, JarError>)
        ensures
            self.lock_policy() == LockPolicy::Recover ==> r is Ok,
            r matches Ok(v) ==> all_named(v@, name@) && distinct_keys(v@),
            r is Err ==> r->Err_0 == JarError::Poisoned,
    {
        let mut guard = match self.acquire() {
            Ok(g) => g,
            Err(e) => {
                return Err(e);
            },
        };
        Ok(find_by_name(jar_of(&mut guard), name))
    }

    /// Removes the unexpired cookies named `name`, and returns those removed.
    pub fn remove_cookie(&self, name: &str) -> (r: Result<Vec<CookieRecord>, JarError>)
        ensures
            self.lock_policy() == LockPolicy::Recover ==> r is Ok,
            r matches Ok(v) ==> all_named(v@, name@) && distinct_keys(v@),
            r is Err ==> r->Err_0 == JarError::Poisoned,
    {
        let mut guard = match self.acquire() {
            Ok(g) => g,
            Err(e) => {
                return Err(e);
            },
        };
        Ok(remove_by_name(jar_of(&mut guard), name))
    }
}

impl Default for ReqwestCookieStore {
    /// An empty jar that recovers from a poisoned lock.
    fn default() -> (r: Self)
        ensures
            r.lock_policy() == LockPolicy::Recover,
    {
        Self::new(LockPolicy::Recover)
    }
}

} // verus!
