//! The outside items the jar is built on: the cookie storage engine, the HTTP
//! header value type and the standard mutex, with what each is relied on for.

use cookie_store::{Cookie, CookieError, CookieStore, StoreAction};
use reqwest::header::{HeaderValue, InvalidHeaderValue, ToStrError};
use reqwest::Url;
use std::sync::{Mutex, MutexGuard};
use vstd::prelude::*;

verus! {

#[verifier::external_type_specification]
#[verifier::external_body]
pub struct ExCookieStore(CookieStore);

#[verifier::external_type_specification]
#[verifier::external_body]
pub struct ExCookie<'a>(Cookie<'a>);

#[verifier::external_type_specification]
#[verifier::external_body]
pub struct ExCookieError(CookieError);

#[verifier::external_type_specification]
#[verifier::external_body]
pub struct ExStoreAction(StoreAction);

#[verifier::external_type_specification]
#[verifier::external_body]
pub struct ExUrl(Url);

#[verifier::external_type_specification]
#[verifier::external_body]
pub struct ExHeaderValue(HeaderValue);

#[verifier::external_type_specification]
#[verifier::external_body]
pub struct ExInvalidHeaderValue(InvalidHeaderValue);

#[verifier::external_type_specification]
#[verifier::external_body]
pub struct ExToStrError(ToStrError);

#[verifier::external_type_specification]
#[verifier::external_body]
#[verifier::reject_recursive_types(T)]
pub struct ExMutex<T: ?Sized>(Mutex<T>);

#[verifier::external_type_specification]
#[verifier::external_body]
#[verifier::reject_recursive_types(T)]
pub struct ExMutexGuard<'a, T: ?Sized + 'a>(MutexGuard<'a, T>);

/// The key under which the engine files a cookie: (domain, path, name).
pub type CookieKey = (Seq<char>, Seq<char>, Seq<char>);

/// What a store holds: the value of each cookie, expired or not, by its key.
pub uninterp spec fn jar_contents(j: CookieStore) -> Map<CookieKey, Seq<char>>;

/// Whether the store was given a public suffix list, with which it may file a
/// cookie under another domain than the one parsed.
pub uninterp spec fn uses_suffix_list(j: CookieStore) -> bool;

/// The keys of the stored cookies that last until the session ends: they have
/// no expiry time, so they never count as expired.
pub uninterp spec fn session_keys(j: CookieStore) -> Set<CookieKey>;

/// What `Cookie::parse` makes of a `Set-Cookie` text received from `url`: the
/// key it is filed under, its value, and whether it lasts until the session
/// ends; none when the text is refused. It depends on the text and the URL alone.
pub uninterp spec fn parsed_cookie(text: Seq<char>, url: Url) -> Option<(CookieKey, Seq<char>, bool)>;

/// What a successful parse did to the store.
#[derive(Clone, Copy, Debug, PartialEq, Eq, Structural)]
pub enum ParseEffect {
    /// The cookie was added, or replaced the one under its key.
    Stored,
    /// The cookie had expired, and it expired the one stored under its key.
    ExpiredExisting,
}

/// A stored cookie as the jar reads it: the key the engine files it under,
/// its value, and the engine's own record, handed out as it is.
pub struct CookieRecord {
    pub domain: String,
    pub path: String,
    pub name: String,
    pub value: String,
    pub cookie: Cookie<'static>,
}

pub open spec fn key_of(r: CookieRecord) -> CookieKey {
    (r.domain@, r.path@, r.name@)
}

/// Apart from the key `k0`, the stores `before` and `after` agree.
pub open spec fn same_except(
    before: Map<CookieKey, Seq<char>>,
    after: Map<CookieKey, Seq<char>>,
    k0: CookieKey,
) -> bool {
    forall|k: CookieKey|
        k != k0 ==> (#[trigger] after.contains_key(k) == before.contains_key(k) && (
        before.contains_key(k) ==> after[k] == before[k]))
}

/// The store `after` differs from `before` in at most one key, and lost none.
pub open spec fn changed_at_most_one(
    before: Map<CookieKey, Seq<char>>,
    after: Map<CookieKey, Seq<char>>,
) -> bool {
    &&& forall|k: CookieKey| before.contains_key(k) ==> #[trigger] after.contains_key(k)
    &&& exists|k0: CookieKey| #[trigger] same_except(before, after, k0)
}

/// A character that `HeaderValue::from_str` accepts: a tab, or any character
/// from the space on but DEL (the bytes of a non-ASCII character are all
/// above 127).
pub open spec fn header_char(c: char) -> bool {
    c == '\t' || ((c as u32) >= 32 && (c as u32) != 127)
}

pub open spec fn header_safe(s: Seq<char>) -> bool {
    forall|i: int| 0 <= i < s.len() ==> header_char(#[trigger] s[i])
}

/// A character that `HeaderValue::to_str` lets through: a tab or visible ASCII.
pub open spec fn visible_char(c: char) -> bool {
    c == '\t' || (32 <= (c as u32) < 127)
}

pub open spec fn visible_text(s: Seq<char>) -> bool {
    forall|i: int| 0 <= i < s.len() ==> visible_char(#[trigger] s[i])
}

/// The text `HeaderValue::to_str` reads from a header value: its bytes as
/// characters when all are tabs or visible ASCII, else none. It depends on the
/// bytes alone.
pub uninterp spec fn text_of(h: HeaderValue) -> Option<Seq<char>>;

/// Relies on `CookieStore::default`: a new store holds no cookie.
#[verifier::external_body]
pub(crate) fn empty_jar() -> (r: CookieStore)
    ensures
        jar_contents(r).dom() == Set::<CookieKey>::empty(),
        session_keys(r) == Set::<CookieKey>::empty(),
        !uses_suffix_list(r),
{
    CookieStore::default()
}

/// Relies on `CookieStore::iter_unexpired`: it walks the store's domain, path
/// and name maps, so each cookie comes under the key it is filed by, with its
/// value, and no key comes twice. Which cookies have expired depends on the
/// clock, but one that lasts until the session ends is always there.
#[verifier::external_body]
pub(crate) fn unexpired_records(j: &CookieStore) -> (r: Vec<CookieRecord>)
    ensures
        forall|i: int|
            0 <= i < r.len() ==> jar_contents(*j).contains_key(#[trigger] key_of(r[i]))
                && jar_contents(*j)[key_of(r[i])] == r[i].value@,
        forall|i: int, k: int| 0 <= i < k < r.len() ==> key_of(r[i]) != key_of(r[k]),
        forall|k: CookieKey|
            #[trigger] session_keys(*j).contains(k) ==> exists|i: int|
                0 <= i < r.len() && key_of(r[i]) == k,
{
    j.iter_unexpired().map(|c| CookieRecord {
        domain: String::from(&c.domain),
        path: String::from(&c.path),
        name: c.name().to_string(),
        value: c.value().to_string(),
        cookie: c.clone(),
    }).collect()
}

/// Relies on `CookieStore::remove`: it takes out the cookie filed under exactly
/// this domain, path and name, and hands it back if there was one.
#[verifier::external_body]
pub(crate) fn remove_entry(j: &mut CookieStore, domain: &str, path: &str, name: &str) -> (r:
    Option<Cookie<'static>>)
    ensures
        jar_contents(*final(j)) == jar_contents(*old(j)).remove((domain@, path@, name@)),
        r is Some <==> jar_contents(*old(j)).contains_key((domain@, path@, name@)),
        session_keys(*final(j)) == session_keys(*old(j)).remove((domain@, path@, name@)),
        uses_suffix_list(*final(j)) == uses_suffix_list(*old(j)),
{
    j.remove(domain, path, name)
}

/// Relies on `CookieStore::parse`: it parses the text with `Cookie::parse`
/// and inserts the cookie. Each error comes before the store is touched. An
/// unexpired cookie is filed under its key, taking the place of any there
/// (under another domain only with a public suffix list); an expired one
/// that finds an unexpired cookie under its key marks that one expired.
#[verifier::external_body]
pub(crate) fn parse_into(j: &mut CookieStore, text: &str, url: &Url) -> (r: Result<
    ParseEffect,
    CookieError,
>)
    ensures
        uses_suffix_list(*final(j)) == uses_suffix_list(*old(j)),
        r is Err ==> jar_contents(*final(j)) == jar_contents(*old(j)) && session_keys(*final(j))
            == session_keys(*old(j)),
        r is Ok ==> changed_at_most_one(jar_contents(*old(j)), jar_contents(*final(j)))
            && parsed_cookie(text@, *url) is Some,
        r matches Ok(ParseEffect::Stored) && !uses_suffix_list(*old(j)) ==> (parsed_cookie(
            text@,
            *url,
        ) matches Some(c) && jar_contents(*final(j)) == jar_contents(*old(j)).insert(c.0, c.1)
            && session_keys(*final(j)) == (if c.2 {
            session_keys(*old(j)).insert(c.0)
        } else {
            session_keys(*old(j)).remove(c.0)
        })),
        r matches Ok(ParseEffect::ExpiredExisting) ==> jar_contents(*final(j)) == jar_contents(
            *old(j),
        ) && (!uses_suffix_list(*old(j)) ==> (parsed_cookie(text@, *url) matches Some(c)
            && session_keys(*final(j)) == session_keys(*old(j)).remove(c.0))),
{
    match j.parse(text, url) {
        Ok(StoreAction::Inserted) => Ok(ParseEffect::Stored),
        Ok(StoreAction::UpdatedExisting) => Ok(ParseEffect::Stored),
        Ok(StoreAction::ExpiredExisting) => Ok(ParseEffect::ExpiredExisting),
        Err(e) => Err(e),
    }
}

/// Each (name, value) pair is that of a cookie held in the store.
pub open spec fn pairs_held(m: Map<CookieKey, Seq<char>>, p: Seq<(String, String)>) -> bool {
    forall|i: int|
        #![trigger p[i]]
        0 <= i < p.len() ==> exists|d: Seq<char>, q: Seq<char>|
            m.contains_key((d, q, p[i].0@)) && m[(d, q, p[i].0@)] == p[i].1@
}

/// Relies on `CookieStore::get_request_values`: each (name, value) pair it
/// yields is that of a cookie in the store.
#[verifier::external_body]
pub(crate) fn request_pairs(j: &CookieStore, url: &Url) -> (r: Vec<(String, String)>)
    ensures
        pairs_held(jar_contents(*j), r@),
{
    j.get_request_values(url).map(|(n, v)| (n.to_string(), v.to_string())).collect()
}

/// Relies on `HeaderValue::from_str`: it accepts a text exactly when each of
/// its bytes is a tab, or is 32 or more and not 127, and then holds those bytes,
/// which `to_str` gives back when they are all tabs or visible ASCII.
#[verifier::external_body]
pub(crate) fn header_from_text(s: &str) -> (r: Result<HeaderValue, InvalidHeaderValue>)
    ensures
        r is Ok <==> header_safe(s@),
        r matches Ok(h) ==> text_of(h) == (if visible_text(s@) {
            Some(s@)
        } else {
            None
        }),
{
    HeaderValue::from_str(s)
}

/// Relies on `HeaderValue::to_str`: it succeeds only on tabs and visible ASCII,
/// and gives the value's bytes as text.
#[verifier::external_body]
pub(crate) fn header_text(h: &HeaderValue) -> (r: Result<String, ToStrError>)
    ensures
        r is Ok <==> text_of(*h) is Some,
        r matches Ok(s) ==> text_of(*h) == Some(s@) && visible_text(s@),
{
    h.to_str().map(|s| s.to_string())
}

/// Relies on `Mutex::new`.
#[verifier::external_body]
pub(crate) fn new_lock(j: CookieStore) -> (r: Mutex<CookieStore>) {
    Mutex::new(j)
}

/// Relies on `Mutex::lock`, which blocks until the lock is free; the flag says
/// whether an earlier holder panicked, and the guard is taken either way.
#[verifier::external_body]
pub(crate) fn lock_jar(m: &Mutex<CookieStore>) -> (r: (MutexGuard<'_, CookieStore>, bool)) {
    match m.lock() {
        Ok(g) => (g, false),
        Err(e) => (e.into_inner(), true),
    }
}

/// Relies on `Mutex::is_poisoned`: whether a holder of the lock has panicked.
#[verifier::external_body]
pub(crate) fn lock_poisoned(m: &Mutex<CookieStore>) -> (r: bool) {
    m.is_poisoned()
}

/// Relies on `MutexGuard`'s `DerefMut`: the store the guard holds.
#[verifier::external_body]
pub(crate) fn jar_of<'a, 'b>(g: &'a mut MutexGuard<'b, CookieStore>) -> (r: &'a mut CookieStore) {
    &mut *g
}

} // verus!
