use cookiejar::cookie::Cookie;
use cookiejar::store::{StoreState, UrlParts};

fn url(secure: bool, host: &str, path: &str) -> UrlParts {
    UrlParts { secure, host: String::from(host), path: String::from(path) }
}

fn ingest(store: &mut StoreState, texts: &[&str], u: &UrlParts, now: i64) {
    let mut cookies: Vec<Cookie> = Vec::new();
    for t in texts {
        cookies.push(Cookie::parse(t).unwrap());
    }
    store.ingest(&cookies, u, now);
}

fn pairs(store: &StoreState, u: &UrlParts, now: i64) -> Vec<(String, String)> {
    store.query(u, now)
}

#[test]
fn ingest_then_query_returns_pair() {
    let u = url(true, "a.test", "/");
    let mut s = StoreState::new();
    ingest(&mut s, &["sid=42"], &u, 1000);
    let got = pairs(&s, &u, 1000);
    assert_eq!(got, vec![(String::from("sid"), String::from("42"))]);
}

#[test]
fn ingest_twice_is_idempotent() {
    let u = url(true, "a.test", "/");
    let mut s = StoreState::new();
    ingest(&mut s, &["sid=42; Path=/"], &u, 1000);
    let once = pairs(&s, &u, 1000);
    ingest(&mut s, &["sid=42; Path=/"], &u, 1000);
    let twice = pairs(&s, &u, 1000);
    assert_eq!(once, twice);
    assert_eq!(twice.len(), 1);
}

#[test]
fn max_age_zero_never_returned() {
    let u = url(true, "a.test", "/");
    let mut s = StoreState::new();
    ingest(&mut s, &["dead=1; Max-Age=0"], &u, 1000);
    assert!(pairs(&s, &u, 1000).is_empty());
}

#[test]
fn negative_max_age_never_returned() {
    let u = url(true, "a.test", "/");
    let mut s = StoreState::new();
    ingest(&mut s, &["dead=1; Max-Age=-1"], &u, 1000);
    assert!(pairs(&s, &u, 1000).is_empty());
}

#[test]
fn past_expires_never_returned() {
    let u = url(true, "a.test", "/");
    let mut s = StoreState::new();
    // Expires in 2015, queried later.
    ingest(&mut s, &["dead=1; Expires=Wed, 21 Oct 2015 07:28:00 GMT"], &u, 1_600_000_000);
    assert!(pairs(&s, &u, 1_600_000_000).is_empty());
}

#[test]
fn fresh_max_age_returned_until_it_lapses() {
    let u = url(true, "a.test", "/");
    let mut s = StoreState::new();
    ingest(&mut s, &["live=1; Max-Age=60"], &u, 1000);
    assert_eq!(pairs(&s, &u, 1059).len(), 1);
    assert!(pairs(&s, &u, 1060).is_empty());
}

#[test]
fn max_age_takes_precedence_over_expires() {
    let u = url(true, "a.test", "/");
    let mut s = StoreState::new();
    // Expires lies in the past, Max-Age keeps it alive.
    ingest(
        &mut s,
        &["k=1; Max-Age=100; Expires=Wed, 21 Oct 2015 07:28:00 GMT"],
        &u,
        1_600_000_000,
    );
    assert_eq!(pairs(&s, &u, 1_600_000_000).len(), 1);
}

#[test]
fn domain_cookie_covers_sibling_subdomains() {
    let set_from = url(true, "sub.example.com", "/");
    let mut s = StoreState::new();
    ingest(&mut s, &["k=v; Domain=example.com"], &set_from, 1000);
    let other = url(true, "other.example.com", "/");
    assert_eq!(pairs(&s, &other, 1000).len(), 1);
    let apex = url(true, "example.com", "/");
    assert_eq!(pairs(&s, &apex, 1000).len(), 1);
    let stranger = url(true, "notexample.com", "/");
    assert!(pairs(&s, &stranger, 1000).is_empty());
}

#[test]
fn host_only_cookie_stays_on_its_host() {
    let set_from = url(true, "sub.example.com", "/");
    let mut s = StoreState::new();
    ingest(&mut s, &["h=1"], &set_from, 1000);
    assert_eq!(pairs(&s, &set_from, 1000).len(), 1);
    let other = url(true, "other.example.com", "/");
    assert!(pairs(&s, &other, 1000).is_empty());
    let apex = url(true, "example.com", "/");
    assert!(pairs(&s, &apex, 1000).is_empty());
}

#[test]
fn foreign_domain_attribute_is_dropped() {
    let set_from = url(true, "a.test", "/");
    let mut s = StoreState::new();
    ingest(&mut s, &["k=v; Domain=evil.test"], &set_from, 1000);
    let evil = url(true, "evil.test", "/");
    assert!(pairs(&s, &set_from, 1000).is_empty());
    assert!(pairs(&s, &evil, 1000).is_empty());
}

#[test]
fn domain_matching_is_case_insensitive() {
    let set_from = url(true, "Sub.Example.COM", "/");
    let mut s = StoreState::new();
    ingest(&mut s, &["k=v; Domain=EXAMPLE.com"], &set_from, 1000);
    let other = url(true, "other.example.Com", "/");
    assert_eq!(pairs(&s, &other, 1000).len(), 1);
}

#[test]
fn secure_cookie_never_sent_over_plain_scheme() {
    let https = url(true, "a.test", "/");
    let mut s = StoreState::new();
    ingest(&mut s, &["s=1; Secure"], &https, 1000);
    assert_eq!(pairs(&s, &https, 1000).len(), 1);
    let http = url(false, "a.test", "/");
    assert!(pairs(&s, &http, 1000).is_empty());
}

#[test]
fn path_prefix_scoping() {
    let set_from = url(true, "a.test", "/");
    let mut s = StoreState::new();
    ingest(&mut s, &["k=v; Path=/app"], &set_from, 1000);
    assert_eq!(pairs(&s, &url(true, "a.test", "/app"), 1000).len(), 1);
    assert_eq!(pairs(&s, &url(true, "a.test", "/app/sub"), 1000).len(), 1);
    assert!(pairs(&s, &url(true, "a.test", "/other"), 1000).is_empty());
    // Not even the URL that set it sees the record when its Path does
    // not cover that URL's path.
    assert!(pairs(&s, &set_from, 1000).is_empty());
}

#[test]
fn default_path_derived_from_set_url() {
    let set_from = url(true, "a.test", "/a/b");
    let mut s = StoreState::new();
    ingest(&mut s, &["k=v"], &set_from, 1000);
    // Default path is /a: sent under /a and /a/c, not under /b.
    assert_eq!(pairs(&s, &url(true, "a.test", "/a"), 1000).len(), 1);
    assert_eq!(pairs(&s, &url(true, "a.test", "/a/c"), 1000).len(), 1);
    assert!(pairs(&s, &url(true, "a.test", "/b"), 1000).is_empty());
}

#[test]
fn longer_paths_come_first_then_insertion_order() {
    let u = url(true, "a.test", "/x/y");
    let mut s = StoreState::new();
    ingest(&mut s, &["a=1; Path=/", "b=2; Path=/x/y", "c=3; Path=/x", "d=4; Path=/"], &u, 1000);
    let got = pairs(&s, &u, 1000);
    let names: Vec<&str> = got.iter().map(|p| p.0.as_str()).collect();
    assert_eq!(names, vec!["b", "c", "a", "d"]);
}

#[test]
fn duplicate_names_on_different_paths_are_all_sent() {
    let u = url(true, "a.test", "/x/y");
    let mut s = StoreState::new();
    ingest(&mut s, &["k=deep; Path=/x/y", "k=root; Path=/"], &u, 1000);
    let got = pairs(&s, &u, 1000);
    assert_eq!(got.len(), 2);
    assert_eq!(got[0], (String::from("k"), String::from("deep")));
    assert_eq!(got[1], (String::from("k"), String::from("root")));
}

#[test]
fn last_write_wins_for_a_key() {
    let u = url(true, "a.test", "/");
    let mut s = StoreState::new();
    ingest(&mut s, &["k=1"], &u, 1000);
    ingest(&mut s, &["k=2"], &u, 1000);
    assert_eq!(pairs(&s, &u, 1000), vec![(String::from("k"), String::from("2"))]);

    let mut s2 = StoreState::new();
    ingest(&mut s2, &["k=2"], &u, 1000);
    ingest(&mut s2, &["k=1"], &u, 1000);
    assert_eq!(pairs(&s2, &u, 1000), vec![(String::from("k"), String::from("1"))]);
}

#[test]
fn render_joins_pairs() {
    let u = url(true, "a.test", "/");
    let mut s = StoreState::new();
    ingest(&mut s, &["a=1", "b=2"], &u, 1000);
    assert_eq!(s.render_for(&u, 1000), Some(String::from("a=1; b=2")));
}

#[test]
fn render_nothing_when_no_match() {
    let u = url(true, "a.test", "/");
    let s = StoreState::new();
    assert_eq!(s.render_for(&u, 1000), None);
}
