use cookiejar::cookie::Cookie;

fn p(s: &str) -> Cookie {
    Cookie::parse(s).unwrap()
}

#[test]
fn parse_basic_pair() {
    let c = p("foo=bar");
    assert_eq!(c.name(), "foo");
    assert_eq!(c.value(), "bar");
    assert!(!c.secure());
    assert!(!c.http_only());
    assert!(!c.same_site_lax());
    assert!(!c.same_site_strict());
    assert_eq!(c.path(), None);
    assert_eq!(c.domain(), None);
    assert_eq!(c.max_age(), None);
    assert_eq!(c.expires(), None);
}

#[test]
fn parse_full_attributes() {
    let c = p("sid=42; Path=/app; HttpOnly; Secure; SameSite=Lax; Max-Age=60; Domain=.example.com");
    assert_eq!(c.name(), "sid");
    assert_eq!(c.value(), "42");
    assert!(c.secure());
    assert!(c.http_only());
    assert!(c.same_site_lax());
    assert!(!c.same_site_strict());
    assert_eq!(c.path(), Some("/app"));
    assert_eq!(c.domain(), Some("example.com"));
    assert_eq!(c.max_age(), Some(60));
}

#[test]
fn parse_attribute_names_case_insensitive() {
    let c = p("a=b; secure; HTTPONLY; sameSITE=STRICT");
    assert!(c.secure());
    assert!(c.http_only());
    assert!(c.same_site_strict());
}

#[test]
fn parse_trims_whitespace() {
    let c = p("  a  =  b  ; Path = /x ");
    assert_eq!(c.name(), "a");
    assert_eq!(c.value(), "b");
    assert_eq!(c.path(), Some("/x"));
}

#[test]
fn parse_rejects_missing_equals() {
    assert!(Cookie::parse("noequals").is_err());
    assert!(Cookie::parse("").is_err());
    assert!(Cookie::parse("justname; Secure").is_err());
}

#[test]
fn parse_rejects_empty_name() {
    assert!(Cookie::parse("=v").is_err());
    assert!(Cookie::parse("   =v; Path=/").is_err());
}

#[test]
fn parse_error_message() {
    let e = Cookie::parse("").unwrap_err();
    assert_eq!(e.message(), "invalid cookie header text");
}

#[test]
fn parse_ignores_unknown_attributes() {
    let c = p("a=b; Frobnicate=1; Version=9");
    assert_eq!(c.name(), "a");
    assert_eq!(c.value(), "b");
}

#[test]
fn parse_empty_value_allowed() {
    let c = p("a=");
    assert_eq!(c.name(), "a");
    assert_eq!(c.value(), "");
}

#[test]
fn parse_max_age_negative_and_invalid() {
    // A negative duration is clamped to zero.
    assert_eq!(p("a=b; Max-Age=-5").max_age(), Some(0));
    assert_eq!(p("a=b; Max-Age=abc").max_age(), None);
    assert_eq!(p("a=b; Max-Age=").max_age(), None);
    assert_eq!(p("a=b; Max-Age=0").max_age(), Some(0));
}

#[test]
fn parse_max_age_saturates() {
    assert_eq!(p("a=b; Max-Age=99999999999999999999999999").max_age(), Some(i64::MAX));
}

#[test]
fn parse_expires_http_date() {
    let c = p("a=b; Expires=Wed, 21 Oct 2015 07:28:00 GMT");
    assert_eq!(c.expires(), Some(1445412480));
}

#[test]
fn parse_expires_unreadable_date() {
    let c = p("a=b; Expires=not a date");
    assert_eq!(c.expires(), None);
}

#[test]
fn parse_value_stops_at_semicolon() {
    let c = p("a=b;c=d");
    assert_eq!(c.value(), "b");
}

#[test]
fn parse_domain_empty_ignored() {
    assert_eq!(p("a=b; Domain=").domain(), None);
    assert_eq!(p("a=b; Domain=.").domain(), None);
}

#[test]
fn parse_samesite_none_value() {
    let c = p("a=b; SameSite=None");
    assert!(!c.same_site_lax());
    assert!(!c.same_site_strict());
}
