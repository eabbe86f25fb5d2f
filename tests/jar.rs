use std::sync::Arc;

use reqwest::cookie::CookieStore as CookieProvider;
use reqwest::header::HeaderValue;
use reqwest::{Client, Url};
use reqwest_cookie_jar::header::cookie_header_text;
use reqwest_cookie_jar::jar::{header_for_pairs, select_by_name, HeaderOutcome, JarError};
use reqwest_cookie_jar::engine::CookieRecord;
use reqwest_cookie_jar::store::{lock_decision, LockPolicy, ReqwestCookieStore};

struct Provider(ReqwestCookieStore);

impl CookieProvider for Provider {
    fn set_cookies(&self, cookie_headers: &mut dyn Iterator<Item = &HeaderValue>, url: &Url) {
        let headers: Vec<HeaderValue> = cookie_headers.cloned().collect();
        self.0.set_cookies(&headers, url).unwrap();
    }

    fn cookies(&self, url: &Url) -> Option<HeaderValue> {
        self.0.cookies(url).unwrap()
    }
}

fn url() -> Url {
    Url::parse("https://example.com/").unwrap()
}

fn headers(texts: &[&'static str]) -> Vec<HeaderValue> {
    texts.iter().map(|t| HeaderValue::from_static(t)).collect()
}

fn pairs(items: &[(&str, &str)]) -> Vec<(String, String)> {
    items.iter().map(|(n, v)| (n.to_string(), v.to_string())).collect()
}

fn names_values(records: &[CookieRecord]) -> Vec<(String, String, String, String)> {
    let mut v: Vec<_> = records
        .iter()
        .map(|r| (r.domain.clone(), r.path.clone(), r.name.clone(), r.value.clone()))
        .collect();
    v.sort();
    v
}

#[test]
fn it_works() {
    let cookie_jar = ReqwestCookieStore::default();
    let cookie_arc = Arc::new(Provider(cookie_jar));
    let _client = Client::builder().cookie_provider(cookie_arc.clone());
}

#[test]
fn provider_round_trip() {
    let provider = Provider(ReqwestCookieStore::default());
    let hs = headers(&["session=xyz; Path=/"]);
    provider.set_cookies(&mut hs.iter(), &url());
    let h = provider.cookies(&url()).unwrap();
    assert_eq!(h.to_str().unwrap(), "session=xyz");
}

#[test]
fn round_trip_header_contains_cookie() {
    let jar = ReqwestCookieStore::default();
    let report = jar.set_cookies(&headers(&["session=xyz; Path=/"]), &url()).unwrap();
    assert_eq!(report.outcomes, vec![HeaderOutcome::Stored]);
    let sub = Url::parse("https://example.com/account/page").unwrap();
    let h = jar.cookies(&sub).unwrap().unwrap();
    assert!(h.to_str().unwrap().contains("session=xyz"));
}

#[test]
fn fresh_jar_has_no_header() {
    let jar = ReqwestCookieStore::default();
    assert!(jar.cookies(&url()).unwrap().is_none());
    let other = Url::parse("http://other.org/a/b?c=d").unwrap();
    assert!(jar.cookies(&other).unwrap().is_none());
}

#[test]
fn no_header_for_unrelated_url() {
    let jar = ReqwestCookieStore::default();
    jar.set_cookies(&headers(&["a=1; Path=/"]), &url()).unwrap();
    let other = Url::parse("https://other.org/").unwrap();
    assert!(jar.cookies(&other).unwrap().is_none());
}

#[test]
fn lookup_twice_gives_same_result() {
    let jar = ReqwestCookieStore::default();
    jar.set_cookies(&headers(&["a=1; Path=/", "a=2; Path=/x", "b=3; Path=/"]), &url())
        .unwrap();
    let first = jar.get_cookie("a").unwrap();
    let second = jar.get_cookie("a").unwrap();
    assert_eq!(first.len(), 2);
    assert_eq!(names_values(&first), names_values(&second));
    assert_eq!(
        names_values(&first),
        vec![
            ("example.com".to_string(), "/".to_string(), "a".to_string(), "1".to_string()),
            ("example.com".to_string(), "/x".to_string(), "a".to_string(), "2".to_string()),
        ]
    );
}

#[test]
fn lookup_is_case_sensitive_and_empty_when_missing() {
    let jar = ReqwestCookieStore::default();
    jar.set_cookies(&headers(&["Token=1; Path=/"]), &url()).unwrap();
    assert!(jar.get_cookie("token").unwrap().is_empty());
    assert!(jar.get_cookie("missing").unwrap().is_empty());
    assert_eq!(jar.get_cookie("Token").unwrap().len(), 1);
}

#[test]
fn remove_then_find_none() {
    let jar = ReqwestCookieStore::default();
    jar.set_cookies(&headers(&["a=1; Path=/", "a=2; Path=/x", "b=3; Path=/"]), &url())
        .unwrap();
    let before = jar.get_cookie("a").unwrap();
    let removed = jar.remove_cookie("a").unwrap();
    assert_eq!(names_values(&removed), names_values(&before));
    assert!(jar.get_cookie("a").unwrap().is_empty());
    assert_eq!(jar.get_cookie("b").unwrap().len(), 1);
    assert!(jar.remove_cookie("a").unwrap().is_empty());
}

#[test]
fn remove_missing_name_removes_nothing() {
    let jar = ReqwestCookieStore::default();
    jar.set_cookies(&headers(&["b=3; Path=/"]), &url()).unwrap();
    assert!(jar.remove_cookie("a").unwrap().is_empty());
    assert_eq!(jar.get_cookie("b").unwrap().len(), 1);
}

#[test]
fn ingest_from_two_callers_keeps_both() {
    let jar = Arc::new(ReqwestCookieStore::default());
    let first = jar.clone();
    let second = jar.clone();
    first.set_cookies(&headers(&["a=1; Path=/"]), &url()).unwrap();
    second.set_cookies(&headers(&["b=2; Path=/"]), &url()).unwrap();
    assert_eq!(jar.get_cookie("a").unwrap().len(), 1);
    assert_eq!(jar.get_cookie("b").unwrap().len(), 1);
}

#[test]
fn separator_is_semicolon_space() {
    let text = cookie_header_text(&pairs(&[("session", "xyz"), ("theme", "dark")]));
    assert_eq!(text, Some("session=xyz; theme=dark".to_string()));
}

#[test]
fn header_text_of_one_and_none() {
    assert_eq!(cookie_header_text(&pairs(&[("a", "b")])), Some("a=b".to_string()));
    assert_eq!(cookie_header_text(&pairs(&[("a", "")])), Some("a=".to_string()));
    assert_eq!(cookie_header_text(&pairs(&[])), None);
}

#[test]
fn header_for_pairs_builds_the_value() {
    let h = header_for_pairs(&pairs(&[("session", "xyz"), ("theme", "dark")])).unwrap().unwrap();
    assert_eq!(h.to_str().unwrap(), "session=xyz; theme=dark");
    assert!(header_for_pairs(&pairs(&[])).unwrap().is_none());
}

#[test]
fn header_for_pairs_refuses_control_characters() {
    let r = header_for_pairs(&pairs(&[("a", "b\u{7f}")]));
    assert_eq!(r.err(), Some(JarError::InvalidHeader));
    let r = header_for_pairs(&pairs(&[("a", "line\nbreak")]));
    assert_eq!(r.err(), Some(JarError::InvalidHeader));
    assert!(header_for_pairs(&pairs(&[("a", "tab\there")])).unwrap().is_some());
}

#[test]
fn malformed_header_is_reported_and_rest_applied() {
    let jar = ReqwestCookieStore::default();
    let report = jar.set_cookies(&headers(&["a=1; Path=/", "garbage", "b=2; Path=/"]), &url())
        .unwrap();
    assert_eq!(
        report.outcomes,
        vec![HeaderOutcome::Stored, HeaderOutcome::Rejected, HeaderOutcome::Stored]
    );
    assert_eq!(jar.get_cookie("a").unwrap().len(), 1);
    assert_eq!(jar.get_cookie("b").unwrap().len(), 1);
}

#[test]
fn header_that_is_not_text_ends_the_batch() {
    let jar = ReqwestCookieStore::default();
    let hs = vec![
        HeaderValue::from_static("a=1; Path=/"),
        HeaderValue::from_bytes(b"b=\xff").unwrap(),
        HeaderValue::from_static("c=3; Path=/"),
    ];
    let r = jar.set_cookies(&hs, &url());
    assert_eq!(r.err(), Some(JarError::NotText { index: 1 }));
    assert_eq!(jar.get_cookie("a").unwrap().len(), 1);
    assert!(jar.get_cookie("c").unwrap().is_empty());
}

#[test]
fn expired_cookie_is_turned_down() {
    let jar = ReqwestCookieStore::default();
    let report = jar.set_cookies(&headers(&["a=1; Max-Age=0"]), &url()).unwrap();
    assert_eq!(report.outcomes, vec![HeaderOutcome::Rejected]);
    assert!(jar.get_cookie("a").unwrap().is_empty());
}

#[test]
fn empty_batch_changes_nothing() {
    let jar = ReqwestCookieStore::default();
    let report = jar.set_cookies(&Vec::new(), &url()).unwrap();
    assert!(report.outcomes.is_empty());
    assert!(jar.cookies(&url()).unwrap().is_none());
}

#[test]
fn record_keeps_engine_cookie() {
    let jar = ReqwestCookieStore::default();
    jar.set_cookies(&headers(&["a=1; Path=/; Secure"]), &url()).unwrap();
    let found = jar.get_cookie("a").unwrap();
    assert_eq!(found[0].cookie.value(), "1");
    assert_eq!(found[0].cookie.secure(), Some(true));
}

#[test]
fn select_by_name_keeps_order() {
    let u = url();
    let make = |text: &str, path: &str| {
        let c = cookie_store::Cookie::parse(text.to_string(), &u).unwrap();
        CookieRecord {
            domain: "example.com".to_string(),
            path: path.to_string(),
            name: c.name().to_string(),
            value: c.value().to_string(),
            cookie: c,
        }
    };
    let records = vec![make("a=1", "/"), make("b=2", "/"), make("a=3", "/x")];
    let picked = select_by_name(records, "a");
    let values: Vec<&str> = picked.iter().map(|r| r.value.as_str()).collect();
    assert_eq!(values, vec!["1", "3"]);
}

#[test]
fn policy_is_kept() {
    assert_eq!(ReqwestCookieStore::default().policy(), LockPolicy::Recover);
    assert_eq!(ReqwestCookieStore::new(LockPolicy::FailFast).policy(), LockPolicy::FailFast);
}

#[test]
fn lock_decision_stops_only_fail_fast_on_poison() {
    assert_eq!(lock_decision(LockPolicy::FailFast, true), Err(JarError::Poisoned));
    assert_eq!(lock_decision(LockPolicy::FailFast, false), Ok(()));
    assert_eq!(lock_decision(LockPolicy::Recover, true), Ok(()));
    assert_eq!(lock_decision(LockPolicy::Recover, false), Ok(()));
}

#[test]
fn get_jar_is_the_locked_store() {
    let jar = ReqwestCookieStore::default();
    assert!(!jar.is_poisoned());
    let u = Url::parse("http://example.com/").unwrap();
    jar.get_jar().lock().unwrap().parse("a=1; Path=/", &u).unwrap();
    assert_eq!(jar.get_cookie("a").unwrap().len(), 1);
    jar.set_cookies(&headers(&["b=2; Path=/"]), &u).unwrap();
    assert_eq!(jar.get_jar().lock().unwrap().iter_unexpired().count(), 2);
}

#[test]
fn single_cookie_header_is_exact() {
    let jar = ReqwestCookieStore::default();
    let u = Url::parse("http://example.com/").unwrap();
    jar.set_cookies(&headers(&["session=xyz"]), &u).unwrap();
    assert_eq!(jar.cookies(&u).unwrap(), Some(HeaderValue::from_static("session=xyz")));
}

#[test]
fn header_for_pairs_keeps_non_ascii_text_out_of_to_str() {
    let h = header_for_pairs(&pairs(&[("a", "\u{e9}")])).unwrap().unwrap();
    assert!(h.to_str().is_err());
}

#[test]
fn later_header_replaces_earlier_one() {
    let jar = ReqwestCookieStore::default();
    let report = jar.set_cookies(&headers(&["k=1; Path=/", "k=2; Path=/"]), &url()).unwrap();
    assert_eq!(report.outcomes, vec![HeaderOutcome::Stored, HeaderOutcome::Stored]);
    let found = jar.get_cookie("k").unwrap();
    assert_eq!(found.len(), 1);
    assert_eq!(found[0].value, "2");
}

#[test]
fn expiring_header_expires_stored_cookie() {
    let jar = ReqwestCookieStore::default();
    let report = jar.set_cookies(&headers(&["k=1; Path=/", "k=1; Path=/; Max-Age=0"]), &url())
        .unwrap();
    assert_eq!(report.outcomes, vec![HeaderOutcome::Stored, HeaderOutcome::Expired]);
    assert!(jar.get_cookie("k").unwrap().is_empty());
    assert!(jar.cookies(&url()).unwrap().is_none());
}

#[test]
fn removed_name_is_no_longer_sent() {
    let jar = ReqwestCookieStore::default();
    jar.set_cookies(&headers(&["a=1; Path=/", "b=2; Path=/"]), &url()).unwrap();
    assert_eq!(jar.remove_cookie("a").unwrap().len(), 1);
    let h = jar.cookies(&url()).unwrap().unwrap();
    assert_eq!(h.to_str().unwrap(), "b=2");
}
