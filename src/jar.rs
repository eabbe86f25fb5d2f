//! The jar's operations on a cookie store: recording response cookies,
//! building the request header, and finding or removing cookies by name.

use crate::engine::{
    empty_jar, header_from_text, header_safe, header_text, jar_contents, text_of, visible_text, key_of, parse_into,
    remove_entry, request_pairs, pairs_held, unexpired_records, parsed_cookie, session_keys, uses_suffix_list,
    CookieKey, CookieRecord, ParseEffect,
};
use crate::header::{cookie_header_text, joined, lemma_joined_not_empty};
use cookie_store::CookieStore;
use reqwest::header::HeaderValue;
use reqwest::Url;
use vstd::prelude::*;
use vstd::string::StringExecFns;

verus! {

/// Why an operation of the jar failed.
#[derive(Debug, PartialEq, Eq, Structural)]
pub enum JarError {
    /// An earlier holder of the lock panicked, and the jar fails fast.
    Poisoned,
    /// The response header at `index` is not text; the rest of the batch was not read.
    NotText { index: usize },
    /// The request header text holds a character that no header value may hold.
    InvalidHeader,
}

/// Each record is held in the store under its key, with its value.
pub open spec fn held_in(m: Map<CookieKey, Seq<char>>, s: Seq<CookieRecord>) -> bool {
    forall|i: int|
        0 <= i < s.len() ==> m.contains_key(#[trigger] key_of(s[i])) && m[key_of(s[i])]
            == s[i].value@
}

/// No two records have the same key.
pub open spec fn distinct_keys(s: Seq<CookieRecord>) -> bool {
    forall|i: int, k: int| 0 <= i < k < s.len() ==> key_of(s[i]) != key_of(s[k])
}

/// Every record bears the name `n`.
pub open spec fn all_named(s: Seq<CookieRecord>, n: Seq<char>) -> bool {
    forall|i: int| 0 <= i < s.len() ==> (#[trigger] s[i]).name@ == n
}

/// The keys of the records.
pub open spec fn keys_of(s: Seq<CookieRecord>) -> Set<CookieKey> {
    Set::new(|k: CookieKey| exists|i: int| 0 <= i < s.len() && #[trigger] key_of(s[i]) == k)
}

/// The records named `n`, in their order.
pub open spec fn named(s: Seq<CookieRecord>, n: Seq<char>) -> Seq<CookieRecord> {
    s.filter(|r: CookieRecord| r.name@ == n)
}

/// Positions in increasing order, each below `n`.
pub open spec fn increasing_below(s: Seq<usize>, n: nat) -> bool {
    &&& forall|i: int, k: int| 0 <= i < k < s.len() ==> s[i] < s[k]
    &&& forall|i: int| 0 <= i < s.len() ==> (#[trigger] s[i]) < n
}

/// Each record named `n` comes from `s`; so they keep what `s` has of the
/// store and of distinct keys.
pub proof fn lemma_named(s: Seq<CookieRecord>, n: Seq<char>, m: Map<CookieKey, Seq<char>>)
    ensures
        all_named(named(s, n), n),
        forall|i: int|
            0 <= i < named(s, n).len() ==> exists|j: int|
                0 <= j < s.len() && #[trigger] named(s, n)[i] == s[j],
        held_in(m, s) ==> held_in(m, named(s, n)),
        distinct_keys(s) ==> distinct_keys(named(s, n)),
    decreases s.len(),
{
    reveal(Seq::filter);
    if s.len() > 0 {
        let t = s.drop_last();
        lemma_named(t, n, m);
        assert forall|i: int| 0 <= i < named(t, n).len() implies exists|j: int|
            0 <= j < s.len() && #[trigger] named(t, n)[i] == s[j] by {
            let j = choose|j: int| 0 <= j < t.len() && named(t, n)[i] == t[j];
            assert(s[j] == t[j]);
        }
        if s.last().name@ == n {
            let r = named(t, n).push(s.last());
            assert forall|i: int| 0 <= i < r.len() implies exists|j: int|
                0 <= j < s.len() && #[trigger] r[i] == s[j] by {
                if i == r.len() - 1 {
                    assert(r[i] == s[s.len() - 1]);
                } else {
                    assert(r[i] == named(t, n)[i]);
                }
            }
            if distinct_keys(s) {
                assert forall|i: int, k: int| 0 <= i < k < r.len() implies key_of(r[i])
                    != key_of(r[k]) by {
                    if k == r.len() - 1 {
                        assert(r[i] == named(t, n)[i]);
                        let j = choose|j: int| 0 <= j < s.len() && named(t, n)[i] == s[j];
                        assert(j < s.len() - 1) by {
                            let jt = choose|jt: int| 0 <= jt < t.len() && named(t, n)[i] == t[jt];
                            assert(s[jt] == t[jt]);
                        }
                    } else {
                        assert(r[i] == named(t, n)[i]);
                        assert(r[k] == named(t, n)[k]);
                    }
                }
            }
            if held_in(m, s) {
                assert forall|i: int| 0 <= i < r.len() implies m.contains_key(
                    #[trigger] key_of(r[i]),
                ) && m[key_of(r[i])] == r[i].value@ by {
                    let j = choose|j: int| 0 <= j < s.len() && r[i] == s[j];
                    assert(m.contains_key(key_of(s[j])));
                }
            }
        }
    }
}

/// Each record of `s` named `n` is among the records named `n`.
pub proof fn lemma_named_complete(s: Seq<CookieRecord>, n: Seq<char>, j: int)
    requires
        0 <= j < s.len(),
        s[j].name@ == n,
    ensures
        exists|i: int| 0 <= i < named(s, n).len() && #[trigger] named(s, n)[i] == s[j],
    decreases s.len(),
{
    reveal(Seq::filter);
    let t = s.drop_last();
    if j == s.len() - 1 {
        assert(named(s, n)[named(t, n).len() as int] == s[j]);
    } else {
        lemma_named_complete(t, n, j);
        let i = choose|i: int| 0 <= i < named(t, n).len() && #[trigger] named(t, n)[i] == t[j];
        if s.last().name@ == n {
            assert(named(s, n)[i] == s[j]);
        } else {
            assert(named(s, n)[i] == s[j]);
        }
    }
}

/// A new store, which holds no cookie.
pub fn new_jar() -> (r: CookieStore)
    ensures
        jar_contents(r).dom() == Set::<CookieKey>::empty(),
        session_keys(r) == Set::<CookieKey>::empty(),
        !uses_suffix_list(r),
{
    empty_jar()
}

/// The records named `name`, in the order given.
pub fn select_by_name(records: Vec<CookieRecord>, name: &str) -> (r: Vec<CookieRecord>)
    ensures
        r@ == named(records@, name@),
{
    let ghost orig = records@;
    let ghost mut i: int = 0;
    let target = String::from_str(name);
    let mut rest = records;
    let mut out: Vec<CookieRecord> = Vec::new();
    while rest.len() > 0
        invariant
            0 <= i <= orig.len(),
            rest@ == orig.skip(i),
            out@ == named(orig.take(i), name@),
            target@ == name@,
        decreases rest.len(),
    {
        let c = rest.remove(0);
        proof {
            reveal(Seq::filter);
            assert(c == orig[i]);
            assert(orig.take(i + 1).drop_last() =~= orig.take(i));
            assert(orig.take(i + 1).last() == orig[i]);
            assert(orig.skip(i).remove(0) =~= orig.skip(i + 1));
        }
        if c.name == target {
            out.push(c);
        }
        proof {
            i = i + 1;
        }
    }
    proof {
        assert(orig.take(i) =~= orig);
    }
    out
}

/// The unexpired cookies of the store named `name`, in the engine's order.
/// Which cookies have expired depends on the clock; each cookie of the name
/// that lasts until the session ends is always found.
pub fn find_by_name(jar: &CookieStore, name: &str) -> (r: Vec<CookieRecord>)
    ensures
        all_named(r@, name@),
        held_in(jar_contents(*jar), r@),
        distinct_keys(r@),
        jar_contents(*jar).dom().is_empty() ==> r.len() == 0,
        forall|k: CookieKey|
            #[trigger] session_keys(*jar).contains(k) && k.2 == name@ ==> keys_of(r@).contains(k),
{
    let snapshot = unexpired_records(jar);
    proof {
        lemma_named(snapshot@, name@, jar_contents(*jar));
        if jar_contents(*jar).dom().is_empty() && snapshot.len() > 0 {
            assert(jar_contents(*jar).contains_key(key_of(snapshot@[0])));
        }
    }
    let ghost snap = snapshot@;
    let r = select_by_name(snapshot, name);
    proof {
        assert forall|k: CookieKey|
            #[trigger] session_keys(*jar).contains(k) && k.2 == name@ implies keys_of(r@).contains(
            k,
        ) by {
            let j = choose|j: int| 0 <= j < snap.len() && key_of(snap[j]) == k;
            lemma_named_complete(snap, name@, j);
            let i = choose|i: int| 0 <= i < named(snap, name@).len() && #[trigger] named(snap, name@)[i] == snap[j];
            assert(key_of(r@[i]) == k);
        }
        if jar_contents(*jar).dom().is_empty() && r.len() > 0 {
            assert(jar_contents(*jar).contains_key(key_of(r@[0])));
        }
    }
    r
}

/// Removes from the store, one after the other, the cookies filed under the
/// keys of `matched`, and returns those records whose key was still held when
/// its turn came. When the records come from the store with distinct keys,
/// all of them are returned.
pub fn remove_listed(jar: &mut CookieStore, matched: Vec<CookieRecord>) -> (r: Vec<CookieRecord>)
    ensures
        jar_contents(*final(jar)) == jar_contents(*old(jar)).remove_keys(keys_of(matched@)),
        session_keys(*final(jar)) == session_keys(*old(jar)).difference(keys_of(matched@)),
        uses_suffix_list(*final(jar)) == uses_suffix_list(*old(jar)),
        forall|i: int| 0 <= i < r.len() ==> keys_of(matched@).contains(#[trigger] key_of(r[i])),
        held_in(jar_contents(*old(jar)), matched@) && distinct_keys(matched@) ==> r@ == matched@,
{
    let ghost orig = matched@;
    let ghost start = jar_contents(*jar);
    let ghost sessions = session_keys(*jar);
    let ghost suffix = uses_suffix_list(*jar);
    let ghost mut i: int = 0;
    let mut rest = matched;
    let mut out: Vec<CookieRecord> = Vec::new();
    while rest.len() > 0
        invariant
            0 <= i <= orig.len(),
            rest@ == orig.skip(i),
            jar_contents(*jar) == start.remove_keys(keys_of(orig.take(i))),
            session_keys(*jar) == sessions.difference(keys_of(orig.take(i))),
            uses_suffix_list(*jar) == suffix,
            sessions == session_keys(*old(jar)),
            suffix == uses_suffix_list(*old(jar)),
            forall|j: int| 0 <= j < out.len() ==> keys_of(orig).contains(#[trigger] key_of(out[j])),
            held_in(start, orig) && distinct_keys(orig) ==> out@ == orig.take(i),
        decreases rest.len(),
    {
        let c = rest.remove(0);
        proof {
            assert(c == orig[i]);
            assert(orig.skip(i).remove(0) =~= orig.skip(i + 1));
            assert(keys_of(orig.take(i + 1)) =~= keys_of(orig.take(i)).insert(key_of(orig[i]))) by {
                assert forall|k: CookieKey| keys_of(orig.take(i + 1)).contains(k) implies keys_of(
                    orig.take(i),
                ).insert(key_of(orig[i])).contains(k) by {
                    let j = choose|j: int| 0 <= j < i + 1 && #[trigger] key_of(orig.take(i + 1)[j]) == k;
                    if j < i {
                        assert(key_of(orig.take(i)[j]) == k);
                    }
                }
                assert forall|k: CookieKey| keys_of(orig.take(i)).insert(key_of(orig[i])).contains(
                    k,
                ) implies keys_of(orig.take(i + 1)).contains(k) by {
                    if k == key_of(orig[i]) {
                        assert(key_of(orig.take(i + 1)[i]) == k);
                    } else {
                        let j = choose|j: int| 0 <= j < i && #[trigger] key_of(orig.take(i)[j]) == k;
                        assert(key_of(orig.take(i + 1)[j]) == k);
                    }
                }
            }
            assert(keys_of(orig).contains(key_of(c)));
            if held_in(start, orig) && distinct_keys(orig) {
                assert(start.contains_key(key_of(orig[i])));
                assert(!keys_of(orig.take(i)).contains(key_of(orig[i]))) by {
                    if keys_of(orig.take(i)).contains(key_of(orig[i])) {
                        let j = choose|j: int| 0 <= j < i && #[trigger] key_of(orig.take(i)[j]) == key_of(orig[i]);
                        assert(key_of(orig[j]) != key_of(orig[i]));
                    }
                }
            }
        }
        let removed = remove_entry(jar, c.domain.as_str(), c.path.as_str(), c.name.as_str());
        proof {
            assert(jar_contents(*jar) =~= start.remove_keys(keys_of(orig.take(i + 1))));
            assert(session_keys(*jar) =~= sessions.difference(keys_of(orig.take(i + 1))));
        }
        if removed.is_some() {
            out.push(c);
            proof {
                if held_in(start, orig) && distinct_keys(orig) {
                    assert(out@ =~= orig.take(i + 1));
                }
            }
        }
        proof {
            i = i + 1;
        }
    }
    proof {
        assert(orig.take(i) =~= orig);
    }
    out
}

/// Removes the unexpired cookies named `name`: the matching cookies are
/// listed first, then each is removed by its key. Returns the removed ones.
pub fn remove_by_name(jar: &mut CookieStore, name: &str) -> (r: Vec<CookieRecord>)
    ensures
        all_named(r@, name@),
        held_in(jar_contents(*old(jar)), r@),
        distinct_keys(r@),
        jar_contents(*final(jar)) == jar_contents(*old(jar)).remove_keys(keys_of(r@)),
        session_keys(*final(jar)) == session_keys(*old(jar)).difference(keys_of(r@)),
        uses_suffix_list(*final(jar)) == uses_suffix_list(*old(jar)),
        forall|k: CookieKey|
            #[trigger] session_keys(*old(jar)).contains(k) && k.2 == name@ ==> keys_of(r@).contains(k),
        forall|k: CookieKey| #[trigger] session_keys(*final(jar)).contains(k) ==> k.2 != name@,
{
    let matched = find_by_name(jar, name);
    let ghost listed = matched@;
    let r = remove_listed(jar, matched);
    proof {
        assert(r@ == listed);
    }
    r
}

/// After a removal by name, no cookie found in the store is one of those
/// removed.
pub proof fn lemma_removed_not_found(
    before: Map<CookieKey, Seq<char>>,
    after: Map<CookieKey, Seq<char>>,
    removed: Seq<CookieRecord>,
    found: Seq<CookieRecord>,
)
    requires
        after == before.remove_keys(keys_of(removed)),
        held_in(after, found),
    ensures
        forall|i: int, j: int|
            0 <= i < found.len() && 0 <= j < removed.len() ==> key_of(found[i]) != key_of(
                removed[j],
            ),
{
    assert forall|i: int, j: int| 0 <= i < found.len() && 0 <= j < removed.len() implies key_of(
        found[i],
    ) != key_of(removed[j]) by {
        assert(keys_of(removed).contains(key_of(removed[j])));
        assert(after.contains_key(key_of(found[i])));
    }
}

/// What became of one response header that is text.
#[derive(Clone, Copy, Debug, PartialEq, Eq, Structural)]
pub enum HeaderOutcome {
    /// The engine stored its cookie, adding it or replacing the one under its key.
    Stored,
    /// Its cookie had expired, and expired the one stored under its key.
    Expired,
    /// The engine turned it down and left the store as it was.
    Rejected,
}

/// What the engine makes of a response header: the cookie parsed from its
/// text, when it is text and the engine can parse it.
pub open spec fn stored_entry(h: HeaderValue, url: Url) -> Option<(CookieKey, Seq<char>, bool)> {
    match text_of(h) {
        Some(t) => parsed_cookie(t, url),
        None => None,
    }
}

/// The store after the first `n` headers of a batch, each with its outcome:
/// a stored header files its parsed cookie under its key, and the others
/// leave the values as they were.
pub open spec fn replay(
    m: Map<CookieKey, Seq<char>>,
    hs: Seq<HeaderValue>,
    url: Url,
    outs: Seq<HeaderOutcome>,
    n: nat,
) -> Map<CookieKey, Seq<char>>
    decreases n,
{
    if n == 0 {
        m
    } else {
        let prev = replay(m, hs, url, outs, (n - 1) as nat);
        if outs[n - 1] == HeaderOutcome::Stored {
            match stored_entry(hs[n - 1], url) {
                Some(c) => prev.insert(c.0, c.1),
                None => prev,
            }
        } else {
            prev
        }
    }
}

/// The replay of `n` headers reads only the first `n` outcomes.
pub proof fn lemma_replay_prefix(
    m: Map<CookieKey, Seq<char>>,
    hs: Seq<HeaderValue>,
    url: Url,
    outs: Seq<HeaderOutcome>,
    more: Seq<HeaderOutcome>,
    n: nat,
)
    requires
        n <= outs.len(),
        n <= more.len(),
        forall|j: int| 0 <= j < n ==> outs[j] == more[j],
    ensures
        replay(m, hs, url, outs, n) == replay(m, hs, url, more, n),
    decreases n,
{
    if n > 0 {
        lemma_replay_prefix(m, hs, url, outs, more, (n - 1) as nat);
    }
}

/// Whether the header at `j` was stored with its cookie filed under `k`.
pub open spec fn stores_key(hs: Seq<HeaderValue>, url: Url, outs: Seq<HeaderOutcome>, j: int, k: CookieKey) -> bool {
    &&& outs[j] == HeaderOutcome::Stored
    &&& stored_entry(hs[j], url) is Some
    &&& stored_entry(hs[j], url)->Some_0.0 == k
}

/// After a batch, a key that no stored header of the batch files under keeps
/// its value, and a key filed by the batch holds the value of the last stored
/// header that files under it.
pub proof fn lemma_replay_key(
    m: Map<CookieKey, Seq<char>>,
    hs: Seq<HeaderValue>,
    url: Url,
    outs: Seq<HeaderOutcome>,
    n: nat,
    k: CookieKey,
)
    ensures
        (forall|j: int| 0 <= j < n ==> !#[trigger] stores_key(hs, url, outs, j, k)) ==> (replay(
            m,
            hs,
            url,
            outs,
            n,
        ).contains_key(k) == m.contains_key(k) && (m.contains_key(k) ==> replay(
            m,
            hs,
            url,
            outs,
            n,
        )[k] == m[k])),
        forall|j: int|
            0 <= j < n && #[trigger] stores_key(hs, url, outs, j, k) && (forall|l: int|
                j < l < n ==> !#[trigger] stores_key(hs, url, outs, l, k)) ==> replay(
                m,
                hs,
                url,
                outs,
                n,
            ).contains_key(k) && replay(m, hs, url, outs, n)[k] == stored_entry(
                hs[j],
                url,
            )->Some_0.1,
    decreases n,
{
    if n > 0 {
        lemma_replay_key(m, hs, url, outs, (n - 1) as nat, k);
        if forall|j: int| 0 <= j < n ==> !#[trigger] stores_key(hs, url, outs, j, k) {
            assert(!stores_key(hs, url, outs, n - 1, k));
            assert forall|j: int| 0 <= j < n - 1 implies !#[trigger] stores_key(hs, url, outs, j, k) by {
                assert(!stores_key(hs, url, outs, j, k));
            }
        }
        assert forall|j: int|
            0 <= j < n && #[trigger] stores_key(hs, url, outs, j, k) && (forall|l: int|
                j < l < n ==> !#[trigger] stores_key(hs, url, outs, l, k)) implies replay(
            m,
            hs,
            url,
            outs,
            n,
        ).contains_key(k) && replay(m, hs, url, outs, n)[k] == stored_entry(hs[j], url)->Some_0.1 by {
            if j < n - 1 {
                assert(!stores_key(hs, url, outs, n - 1, k));
            }
        }
    }
}

/// What a batch of response headers did: the outcome of each, in order.
pub struct IngestReport {
    pub outcomes: Vec<HeaderOutcome>,
}

/// Notes the outcome of the header at `index`: none when it is not text,
/// which ends the batch with an error.
pub fn record_outcome(
    outcomes: &mut Vec<HeaderOutcome>,
    index: usize,
    outcome: Option<HeaderOutcome>,
) -> (r: Result<(), JarError>)
    ensures
        outcome matches Some(o) ==> r is Ok && final(outcomes)@ == old(outcomes)@.push(o),
        outcome is None ==> r == Err::<(), JarError>(JarError::NotText { index })
            && final(outcomes)@ == old(outcomes)@,
{
    match outcome {
        Some(o) => {
            outcomes.push(o);
            Ok(())
        },
        None => Err(JarError::NotText { index }),
    }
}

/// Records a batch of response `Set-Cookie` headers from `url`, in order,
/// under one hold of the store. Each header's text goes to the engine; one the
/// engine turns down is reported and the batch goes on. The first header that
/// is not text ends the batch, with the headers before it applied and those
/// after it not read. Without a public suffix list, the store after is the
/// replay of the headers read, with their outcomes. No stored cookie is lost.
pub fn ingest(jar: &mut CookieStore, headers: &Vec<HeaderValue>, url: &Url) -> (r: Result<
    IngestReport,
    JarError,
>)
    ensures
        uses_suffix_list(*final(jar)) == uses_suffix_list(*old(jar)),
        r matches Ok(rep) ==> rep.outcomes.len() == headers.len(),
        r is Ok ==> forall|j: int|
            0 <= j < headers.len() && #[trigger] r->Ok_0.outcomes@[j] != HeaderOutcome::Rejected
                ==> stored_entry(headers@[j], *url) is Some,
        r is Ok && !uses_suffix_list(*old(jar)) ==> jar_contents(*final(jar)) == replay(
            jar_contents(*old(jar)),
            headers@,
            *url,
            r->Ok_0.outcomes@,
            headers.len() as nat,
        ),
        r is Err ==> (match r {
            Err(JarError::NotText { index }) => index < headers.len() && text_of(
                headers@[index as int],
            ) is None && (forall|j: int| 0 <= j < index ==> #[trigger] text_of(headers@[j]) is Some)
                && (!uses_suffix_list(*old(jar)) ==> exists|outs: Seq<HeaderOutcome>|
                outs.len() == index && jar_contents(*final(jar)) == #[trigger] replay(
                    jar_contents(*old(jar)),
                    headers@,
                    *url,
                    outs,
                    index as nat,
                )),
            _ => false,
        }),
        r is Ok <==> forall|j: int| 0 <= j < headers.len() ==> #[trigger] text_of(headers@[j]) is Some,
        forall|k: CookieKey| #[trigger]
            jar_contents(*old(jar)).contains_key(k) ==> jar_contents(*final(jar)).contains_key(k),
{
    let ghost start = jar_contents(*jar);
    let ghost suffix = uses_suffix_list(*jar);
    let mut outcomes: Vec<HeaderOutcome> = Vec::new();
    let mut i: usize = 0;
    while i < headers.len()
        invariant
            0 <= i <= headers.len(),
            outcomes.len() == i,
            start == jar_contents(*old(jar)),
            suffix == uses_suffix_list(*old(jar)),
            uses_suffix_list(*jar) == suffix,
            forall|j: int| 0 <= j < i ==> #[trigger] text_of(headers@[j]) is Some,
            forall|j: int|
                0 <= j < i && #[trigger] outcomes@[j] != HeaderOutcome::Rejected ==> stored_entry(
                    headers@[j],
                    *url,
                ) is Some,
            !suffix ==> jar_contents(*jar) == replay(start, headers@, *url, outcomes@, i as nat),
            forall|k: CookieKey| #[trigger] start.contains_key(k) ==> jar_contents(*jar).contains_key(k),
        decreases headers.len() - i,
    {
        let ghost before = jar_contents(*jar);
        let ghost outs0 = outcomes@;
        let outcome = match header_text(&headers[i]) {
            Ok(text) => match parse_into(jar, text.as_str(), url) {
                Ok(ParseEffect::Stored) => Some(HeaderOutcome::Stored),
                Ok(ParseEffect::ExpiredExisting) => Some(HeaderOutcome::Expired),
                Err(_) => Some(HeaderOutcome::Rejected),
            },
            Err(_) => None,
        };
        if let Err(e) = record_outcome(&mut outcomes, i, outcome) {
            proof {
                if !suffix {
                    assert(jar_contents(*jar) == replay(start, headers@, *url, outs0, i as nat));
                }
            }
            return Err(e);
        }
        proof {
            lemma_replay_prefix(start, headers@, *url, outs0, outcomes@, i as nat);
        }
        i += 1;
    }
    proof {
        assert(i == headers.len());
    }
    Ok(IngestReport { outcomes })
}

/// The header built from the pairs `p`: none for no pair; refused when their
/// joined text holds a character no header value may hold; else a value
/// whose text is the joined text whenever that is visible ASCII.
pub open spec fn header_from_pairs(p: Seq<(String, String)>, r: Result<Option<HeaderValue>, JarError>) -> bool {
    &&& (r matches Ok(None) <==> p.len() == 0)
    &&& (r is Err <==> p.len() > 0 && !header_safe(joined(p)))
    &&& (r is Err ==> r == Err::<Option<HeaderValue>, JarError>(JarError::InvalidHeader))
    &&& (r matches Ok(Some(h)) ==> text_of(h) == (if visible_text(joined(p)) {
        Some(joined(p))
    } else {
        None
    }))
}

/// The `Cookie` header for these (name, value) pairs: none when there is no
/// pair, else their text joined by `; `, refused when it holds a character
/// that no header value may hold.
pub fn header_for_pairs(pairs: &Vec<(String, String)>) -> (r: Result<Option<HeaderValue>, JarError>)
    ensures
        r matches Ok(None) <==> pairs.len() == 0,
        r is Err <==> pairs.len() > 0 && !header_safe(joined(pairs@)),
        r is Err ==> r == Err::<Option<HeaderValue>, JarError>(JarError::InvalidHeader),
        r matches Ok(Some(h)) ==> text_of(h) == (if visible_text(joined(pairs@)) {
            Some(joined(pairs@))
        } else {
            None
        }),
    header_from_pairs(pairs@, r),
{
    match cookie_header_text(pairs) {
        None => Ok(None),
        Some(t) => match header_from_text(t.as_str()) {
            Ok(h) => Ok(Some(h)),
            Err(_) => Err(JarError::InvalidHeader),
        },
    }
}

/// The `Cookie` header for a request to `url`, from the pairs the engine
/// finds applicable, in its order. A store that holds no cookie gives none.
pub fn cookie_header(jar: &CookieStore, url: &Url) -> (r: Result<Option<HeaderValue>, JarError>)
    ensures
        jar_contents(*jar).dom().is_empty() ==> r matches Ok(None),
        r is Err ==> r == Err::<Option<HeaderValue>, JarError>(JarError::InvalidHeader),
        r matches Ok(Some(h)) ==> (text_of(h) matches Some(t) ==> t.len() > 0),
        exists|p: Seq<(String, String)>|
            pairs_held(jar_contents(*jar), p) && #[trigger] header_from_pairs(p, r),
{
    let pairs = request_pairs(jar, url);
    proof {
        if jar_contents(*jar).dom().is_empty() && pairs.len() > 0 {
            let p = pairs@[0];
            let (d, q) = choose|d: Seq<char>, q: Seq<char>|
                jar_contents(*jar).contains_key((d, q, p.0@)) && jar_contents(*jar)[(d, q, p.0@)]
                    == p.1@;
            assert(jar_contents(*jar).dom().contains((d, q, p.0@)));
        }
    }
    proof {
        if pairs.len() > 0 {
            lemma_joined_not_empty(pairs@);
        }
    }
    let r = header_for_pairs(&pairs);
    proof {
        assert(pairs_held(jar_contents(*jar), pairs@));
        assert(header_from_pairs(pairs@, r));
    }
    r
}

} // verus!
