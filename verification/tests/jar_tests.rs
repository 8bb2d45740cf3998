use cookiejar::jar::{CookieStore, Jar};
use cookiejar::middleware::{advance_phase, attach_cookies, observe_response, CyclePhase,
    MiddlewareError};
use cookiejar::request_url::parse_request_url;
use cookiejar::store::UrlParts;
use http::HeaderValue;

fn url(secure: bool, host: &str, path: &str) -> UrlParts {
    UrlParts { secure, host: String::from(host), path: String::from(path) }
}

fn header_text(v: &HeaderValue) -> &str {
    v.to_str().unwrap()
}

#[test]
fn add_cookie_str_then_cookies() {
    let jar = Jar::new();
    let u = url(true, "yolo.local", "/");
    jar.add_cookie_str("foo=bar; Domain=yolo.local", &u);
    let hv = jar.cookies(&u).unwrap();
    assert_eq!(header_text(&hv), "foo=bar");
}

#[test]
fn cookies_none_when_empty() {
    let jar = Jar::new();
    assert!(jar.cookies(&url(true, "a.test", "/")).is_none());
}

#[test]
fn set_cookies_from_response_headers_ingests_each_header() {
    let jar = Jar::new();
    let u = url(true, "a.test", "/");
    let headers = vec![
        HeaderValue::from_static("a=1; Path=/"),
        HeaderValue::from_static("not a cookie"),
        HeaderValue::from_static("b=2; Path=/"),
    ];
    jar.set_cookies_from_response_headers(&headers, &u);
    let hv = jar.cookies(&u).unwrap();
    assert_eq!(header_text(&hv), "a=1; b=2");
}

#[test]
fn unencodable_header_is_omitted() {
    let jar = Jar::new();
    let u = url(true, "a.test", "/");
    jar.add_cookie_str("bad=\u{7f}x", &u);
    // The record is stored and matches, but its rendering is not a valid
    // header value, so no header is produced.
    assert_eq!(jar.query_pairs(&u).len(), 1);
    assert!(jar.cookies(&u).is_none());
}

#[test]
fn utf8_cookie_value_is_stored_and_rendered() {
    let jar = Jar::new();
    let u = url(true, "a.test", "/");
    let headers = vec![HeaderValue::from_bytes("n=caf\u{e9}".as_bytes()).unwrap()];
    jar.set_cookies_from_response_headers(&headers, &u);
    assert_eq!(
        jar.query_pairs(&u),
        vec![(String::from("n"), String::from("caf\u{e9}"))]
    );
    // It renders back into a header whose bytes are the UTF-8 text.
    let hv = jar.cookies(&u).unwrap();
    assert_eq!(hv.as_bytes(), "n=caf\u{e9}".as_bytes());
}

#[test]
fn clone_is_an_independent_snapshot() {
    let jar = Jar::new();
    let u = url(true, "a.test", "/");
    jar.add_cookie_str("a=1", &u);
    let snap = jar.clone();
    jar.add_cookie_str("b=2", &u);
    assert_eq!(jar.query_pairs(&u).len(), 2);
    assert_eq!(snap.query_pairs(&u).len(), 1);
    snap.add_cookie_str("c=3", &u);
    assert_eq!(jar.query_pairs(&u).len(), 2);
}

#[test]
fn default_jar_is_empty() {
    let jar = Jar::default();
    assert!(jar.query_pairs(&url(true, "a.test", "/")).is_empty());
}

#[test]
fn concurrent_style_writes_converge_to_one_value() {
    // Two ingestions of the same key through one shared jar: the store
    // always holds exactly one, uncorrupted value — the last write.
    let jar = Jar::new();
    let u = url(true, "a.test", "/");
    jar.add_cookie_str("k=1", &u);
    jar.add_cookie_str("k=2", &u);
    let got = jar.query_pairs(&u);
    assert_eq!(got, vec![(String::from("k"), String::from("2"))]);
}

#[test]
fn parse_request_url_splits_scheme_host_path() {
    let u = parse_request_url("https://sub.example.com/a/b?x=1").unwrap();
    assert!(u.secure);
    assert_eq!(u.host, "sub.example.com");
    assert_eq!(u.path, "/a/b");
    let v = parse_request_url("http://plain.test/").unwrap();
    assert!(!v.secure);
    let w = parse_request_url("wss://socket.test/chat").unwrap();
    assert!(w.secure);
}

#[test]
fn parse_request_url_rejects_non_urls() {
    assert!(parse_request_url("not a url").is_none());
    assert!(parse_request_url("/relative/only").is_none());
}

#[test]
fn end_to_end_cycle_stores_and_replays_sid() {
    let jar = Jar::new();
    // First request: nothing to attach.
    let (u, attached) = attach_cookies(&jar, "https://a.test/").unwrap();
    assert!(attached.is_none());
    // Its response sets a cookie.
    let headers = vec![HeaderValue::from_static("sid=42; Path=/; HttpOnly")];
    observe_response(&jar, &headers, &u);
    // The store now answers any path of the host.
    let anywhere = url(true, "a.test", "/anything");
    assert_eq!(jar.query_pairs(&anywhere), vec![(String::from("sid"), String::from("42"))]);
    // A subsequent request carries the cookie.
    let (_, again) = attach_cookies(&jar, "https://a.test/").unwrap();
    assert_eq!(header_text(&again.unwrap()), "sid=42");
}

#[test]
fn attach_cookies_rejects_malformed_url() {
    let jar = Jar::new();
    let e = attach_cookies(&jar, "no scheme at all").unwrap_err();
    assert_eq!(e, MiddlewareError::MalformedRequestUrl);
    assert_eq!(e.message(), "request carries no valid absolute URL");
    assert_eq!(
        MiddlewareError::Delegation.message(),
        "error extracting the inner handler's response"
    );
}

#[test]
fn cycle_phases_advance_in_order_and_fail_terminally() {
    let mut p = CyclePhase::Received;
    p = advance_phase(p, true);
    assert_eq!(p, CyclePhase::CookieAttached);
    p = advance_phase(p, true);
    assert_eq!(p, CyclePhase::Delegated);
    p = advance_phase(p, true);
    assert_eq!(p, CyclePhase::ResponseObserved);
    p = advance_phase(p, true);
    assert_eq!(p, CyclePhase::Completed);
    p = advance_phase(p, true);
    assert_eq!(p, CyclePhase::Completed);
    let f = advance_phase(CyclePhase::Delegated, false);
    assert_eq!(f, CyclePhase::Failed);
    assert_eq!(advance_phase(f, true), CyclePhase::Failed);
}

#[test]
fn fresh_max_age_cookie_is_attached_right_away() {
    // A cookie with a minute to live, stamped with the real clock, must
    // still be fresh when queried immediately afterwards.
    let jar = Jar::new();
    let u = url(true, "a.test", "/");
    jar.add_cookie_str("t=1; Max-Age=60", &u);
    assert_eq!(jar.query_pairs(&u).len(), 1);
    jar.add_cookie_str("gone=1; Max-Age=0", &u);
    assert_eq!(jar.query_pairs(&u).len(), 1);
}

#[test]
fn secure_cookie_not_attached_over_plain_scheme() {
    let jar = Jar::new();
    let u = url(true, "a.test", "/");
    jar.add_cookie_str("s=1; Secure", &u);
    let (_, over_https) = attach_cookies(&jar, "https://a.test/").unwrap();
    assert!(over_https.is_some());
    let (_, over_http) = attach_cookies(&jar, "http://a.test/").unwrap();
    assert!(over_http.is_none());
}
