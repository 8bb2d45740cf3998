//! One HTTP cookie: the structured result of parsing the text of a single
//! `Set-Cookie` header, with its attributes.
//!
//! The grammar is the conventional one: a `name=value` pair at the first
//! `=`, then semicolon-separated attributes (`Domain`, `Path`, `Secure`,
//! `HttpOnly`, `SameSite`, `Max-Age`, `Expires`), attribute names matched
//! case-insensitively, unknown attributes ignored.
use vstd::prelude::*;

use crate::strutil::{
    eq_ci, eq_fold_lit, find_char_from, find_from_spec, parse_int_range, parse_int_spec,
    substr_owned, trim_range, trim_spec,
};

verus! {

/// The `SameSite` directive carried by a cookie; `NoneSite` stands both
/// for an explicit `SameSite=None` and for an absent directive, which this
/// store does not distinguish (the attribute is informational here).
#[derive(Clone, Copy, PartialEq, Eq, Structural, Debug)]
pub enum SameSitePolicy {
    NoneSite,
    Lax,
    Strict,
}

/// Error representing a parse failure of a `Set-Cookie` header value.
#[derive(Clone, Copy, PartialEq, Eq, Structural, Debug)]
pub struct CookieParseError;

impl CookieParseError {
    /// A short description, in place of a `Display` rendering.
    pub fn message(&self) -> (r: &'static str) {
        "invalid cookie header text"
    }
}

/// The mathematical content of a parsed cookie: every field of [`Cookie`]
/// as a plain sequence value.
pub struct SpecCookie {
    pub name: Seq<char>,
    pub value: Seq<char>,
    pub domain: Option<Seq<char>>,
    pub path: Option<Seq<char>>,
    pub secure: bool,
    pub http_only: bool,
    pub same_site: SameSitePolicy,
    pub max_age: Option<i64>,
    pub expires: Option<i64>,
}

/// What `cookie::Cookie::parse` computes, from the header text alone, as
/// the Unix-seconds timestamp of the `Expires` attribute: named here, not
/// restated.
pub uninterp spec fn expiry_date_of(s: Seq<char>) -> Option<i64>;

/// Relies on `cookie::Cookie::parse` (crate `cookie`) for one thing only:
/// reading the `Expires` attribute's HTTP date, handed back as Unix
/// seconds via `Cookie::expires_datetime` and
/// `time::OffsetDateTime::unix_timestamp`. The result is a function of the
/// header text alone.
#[verifier::external_body]
fn expires_seconds_from_header(line: &str) -> (r: Option<i64>)
    ensures
        r == expiry_date_of(line@),
{
    match cookie::Cookie::parse(line) {
        Ok(c) => match c.expires_datetime() {
            Some(t) => Some(t.unix_timestamp()),
            None => None,
        },
        Err(_) => None,
    }
}

/// End of the segment that starts at `i`: the next `;` or the end of `s`.
pub open spec fn seg_end(s: Seq<char>, i: int) -> int {
    match find_from_spec(s, ';', i) {
        Some(j) => j,
        None => s.len() as int,
    }
}

/// Position of the `=` splitting the segment `[i, j)`, if any.
pub open spec fn eq_pos(s: Seq<char>, i: int, j: int) -> Option<int> {
    match find_from_spec(s, '=', i) {
        Some(e) => if e < j {
            Some(e)
        } else {
            None
        },
        None => None,
    }
}

/// Effect of one attribute segment `s[i..j)` on the cookie built so far.
/// `s` is the whole header text (the `Expires` date is a function of it).
pub open spec fn apply_attr_spec(sc: SpecCookie, s: Seq<char>, i: int, j: int) -> SpecCookie {
    let (ke, vs) = match eq_pos(s, i, j) {
        Some(e) => (e, e + 1),
        None => (j, j),
    };
    let k = trim_spec(s.subrange(i, ke));
    let v = trim_spec(s.subrange(vs, j));
    if eq_ci(k, "secure"@) {
        SpecCookie { secure: true, ..sc }
    } else if eq_ci(k, "httponly"@) {
        SpecCookie { http_only: true, ..sc }
    } else if eq_ci(k, "samesite"@) {
        if eq_ci(v, "lax"@) {
            SpecCookie { same_site: SameSitePolicy::Lax, ..sc }
        } else if eq_ci(v, "strict"@) {
            SpecCookie { same_site: SameSitePolicy::Strict, ..sc }
        } else if eq_ci(v, "none"@) {
            SpecCookie { same_site: SameSitePolicy::NoneSite, ..sc }
        } else {
            sc
        }
    } else if eq_ci(k, "domain"@) {
        let d = if v.len() > 0 && v[0] == '.' {
            v.drop_first()
        } else {
            v
        };
        if d.len() > 0 {
            SpecCookie { domain: Some(d), ..sc }
        } else {
            sc
        }
    } else if eq_ci(k, "path"@) {
        if v.len() > 0 {
            SpecCookie { path: Some(v), ..sc }
        } else {
            sc
        }
    } else if eq_ci(k, "max-age"@) {
        match parse_int_spec(v) {
            Some(n) => SpecCookie {
                max_age: Some(
                    if n < 0 {
                        0
                    } else {
                        n
                    },
                ),
                ..sc
            },
            None => sc,
        }
    } else if eq_ci(k, "expires"@) {
        SpecCookie { expires: expiry_date_of(s), ..sc }
    } else {
        sc
    }
}

/// The cookie after applying every attribute segment from position `i` on.
pub open spec fn attrs_from_spec(sc: SpecCookie, s: Seq<char>, i: int) -> SpecCookie
    decreases s.len() + 1 - i,
{
    if 0 <= i < s.len() {
        let j0 = seg_end(s, i);
        let j = if j0 < i {
            i
        } else if j0 > s.len() {
            s.len() as int
        } else {
            j0
        };
        let sc2 = apply_attr_spec(sc, s, i, j);
        attrs_from_spec(sc2, s, j + 1)
    } else {
        sc
    }
}

/// Full parse of one `Set-Cookie` header text: `None` on malformed input
/// (no `=` in the leading pair, or an empty name).
pub open spec fn parse_spec(s: Seq<char>) -> Option<SpecCookie> {
    let he = seg_end(s, 0);
    match eq_pos(s, 0, he) {
        None => None,
        Some(e) => {
            let name = trim_spec(s.subrange(0, e));
            let value = trim_spec(s.subrange(e + 1, he));
            if name.len() == 0 {
                None
            } else {
                let sc = SpecCookie {
                    name,
                    value,
                    domain: None,
                    path: None,
                    secure: false,
                    http_only: false,
                    same_site: SameSitePolicy::NoneSite,
                    max_age: None,
                    expires: None,
                };
                Some(attrs_from_spec(sc, s, he + 1))
            }
        },
    }
}

/// A single HTTP cookie, as parsed from one `Set-Cookie` header value.
#[derive(Clone, Debug)]
pub struct Cookie {
    pub name: String,
    pub value: String,
    pub domain: Option<String>,
    pub path: Option<String>,
    pub secure: bool,
    pub http_only: bool,
    pub same_site: SameSitePolicy,
    pub max_age: Option<i64>,
    pub expires: Option<i64>,
}

impl View for Cookie {
    type V = SpecCookie;

    open spec fn view(&self) -> SpecCookie {
        SpecCookie {
            name: self.name@,
            value: self.value@,
            domain: match self.domain {
                Some(d) => Some(d@),
                None => None,
            },
            path: match self.path {
                Some(p) => Some(p@),
                None => None,
            },
            secure: self.secure,
            http_only: self.http_only,
            same_site: self.same_site,
            max_age: self.max_age,
            expires: self.expires,
        }
    }
}

impl DeepView for Cookie {
    type V = SpecCookie;

    open spec fn deep_view(&self) -> SpecCookie {
        self.view()
    }
}

impl Cookie {
    /// Parses the text content of one `Set-Cookie` header.
    pub fn parse(s: &str) -> (r: Result<Cookie, CookieParseError>)
        ensures
            r is Ok <==> parse_spec(s@) is Some,
            r is Ok ==> r->Ok_0@ == parse_spec(s@)->0,
    {
        let n = s.unicode_len();
        let he = match find_char_from(s, 0, ';') {
            Some(j) => j,
            None => n,
        };
        let e = match find_char_from(s, 0, '=') {
            Some(e) => {
                if e < he {
                    e
                } else {
                    return Err(CookieParseError);
                }
            },
            None => {
                return Err(CookieParseError);
            },
        };
        let (na, nb) = trim_range(s, 0, e);
        if na == nb {
            proof {
                assert(trim_spec(s@.subrange(0, e as int)).len() == 0);
            }
            return Err(CookieParseError);
        }
        let (va, vb) = trim_range(s, e + 1, he);
        let mut c = Cookie {
            name: substr_owned(s, na, nb),
            value: substr_owned(s, va, vb),
            domain: None,
            path: None,
            secure: false,
            http_only: false,
            same_site: SameSitePolicy::NoneSite,
            max_age: None,
            expires: None,
        };
        let ghost sc0 = c@;
        let ghost goal = attrs_from_spec(sc0, s@, he + 1);
        let mut i = if he < n {
            he + 1
        } else {
            n
        };
        while i < n
            invariant
                0 < i <= n,
                n == s@.len(),
                c@.name == sc0.name,
                attrs_from_spec(c@, s@, i as int) == goal || (i == n && c@ == goal),
            decreases n - i,
        {
            let j = match find_char_from(s, i, ';') {
                Some(j) => j,
                None => n,
            };
            proof {
                assert(seg_end(s@, i as int) == j as int);
            }
            apply_attr(&mut c, s, i, j);
            proof {
                assert(attrs_from_spec(c@, s@, j + 1 as int) == goal);
                if j == n {
                    assert(attrs_from_spec(c@, s@, n as int) == c@);
                    assert(attrs_from_spec(c@, s@, n + 1 as int) == c@);
                }
            }
            i = if j < n {
                j + 1
            } else {
                n
            };
        }
        proof {
            assert(attrs_from_spec(c@, s@, i as int) == c@);
        }
        Ok(c)
    }

    /// The name of the cookie.
    pub fn name(&self) -> (r: &str)
        ensures
            r@ == self@.name,
    {
        self.name.as_str()
    }

    /// The value of the cookie.
    pub fn value(&self) -> (r: &str)
        ensures
            r@ == self@.value,
    {
        self.value.as_str()
    }

    /// Returns true if the 'HttpOnly' directive is enabled.
    pub fn http_only(&self) -> (r: bool)
        ensures
            r == self@.http_only,
    {
        self.http_only
    }

    /// Returns true if the 'Secure' directive is enabled.
    pub fn secure(&self) -> (r: bool)
        ensures
            r == self@.secure,
    {
        self.secure
    }

    /// Returns true if the 'SameSite' directive is 'Lax'.
    pub fn same_site_lax(&self) -> (r: bool)
        ensures
            r == (self@.same_site == SameSitePolicy::Lax),
    {
        match self.same_site {
            SameSitePolicy::Lax => true,
            _ => false,
        }
    }

    /// Returns true if the 'SameSite' directive is 'Strict'.
    pub fn same_site_strict(&self) -> (r: bool)
        ensures
            r == (self@.same_site == SameSitePolicy::Strict),
    {
        match self.same_site {
            SameSitePolicy::Strict => true,
            _ => false,
        }
    }

    /// Returns the path directive of the cookie, if set.
    pub fn path(&self) -> (r: Option<&str>)
        ensures
            match r {
                Some(p) => self@.path == Some(p@),
                None => self@.path is None,
            },
    {
        match &self.path {
            Some(p) => Some(p.as_str()),
            None => None,
        }
    }

    /// Returns the domain directive of the cookie, if set.
    pub fn domain(&self) -> (r: Option<&str>)
        ensures
            match r {
                Some(d) => self@.domain == Some(d@),
                None => self@.domain is None,
            },
    {
        match &self.domain {
            Some(d) => Some(d.as_str()),
            None => None,
        }
    }

    /// The Max-Age directive in whole seconds, if set; a negative
    /// duration counts as zero.
    pub fn max_age(&self) -> (r: Option<i64>)
        ensures
            r == self@.max_age,
    {
        self.max_age
    }

    /// The Expires directive as Unix seconds, if set to a readable date.
    pub fn expires(&self) -> (r: Option<i64>)
        ensures
            r == self@.expires,
    {
        self.expires
    }
}

/// Applies the attribute segment `s[i..j)` to `c`, as `apply_attr_spec`
/// describes.
fn apply_attr(c: &mut Cookie, s: &str, i: usize, j: usize)
    requires
        i <= j <= s@.len(),
    ensures
        final(c)@ == apply_attr_spec(old(c)@, s@, i as int, j as int),
        final(c)@.name == old(c)@.name,
{
    let e = match find_char_from(s, i, '=') {
        Some(e) => {
            if e < j {
                Some(e)
            } else {
                None
            }
        },
        None => None,
    };
    let (ke, vs) = match e {
        Some(e) => (e, e + 1),
        None => (j, j),
    };
    let (ka, kb) = trim_range(s, i, ke);
    let (va, vb) = trim_range(s, vs, j);
    let ghost v = trim_spec(s@.subrange(vs as int, j as int));
    if eq_fold_lit(s, ka, kb, "secure") {
        c.secure = true;
    } else if eq_fold_lit(s, ka, kb, "httponly") {
        c.http_only = true;
    } else if eq_fold_lit(s, ka, kb, "samesite") {
        if eq_fold_lit(s, va, vb, "lax") {
            c.same_site = SameSitePolicy::Lax;
        } else if eq_fold_lit(s, va, vb, "strict") {
            c.same_site = SameSitePolicy::Strict;
        } else if eq_fold_lit(s, va, vb, "none") {
            c.same_site = SameSitePolicy::NoneSite;
        }
    } else if eq_fold_lit(s, ka, kb, "domain") {
        let da = if va < vb && s.get_char(va) == '.' {
            va + 1
        } else {
            va
        };
        proof {
            if v.len() > 0 && v[0] == '.' {
                assert(s@.subrange(da as int, vb as int) =~= v.drop_first());
            } else {
                assert(s@.subrange(da as int, vb as int) == v);
            }
        }
        if da < vb {
            c.domain = Some(substr_owned(s, da, vb));
        }
    } else if eq_fold_lit(s, ka, kb, "path") {
        if va < vb {
            c.path = Some(substr_owned(s, va, vb));
        }
    } else if eq_fold_lit(s, ka, kb, "max-age") {
        match parse_int_range(s, va, vb) {
            Some(m) => {
                // A negative Max-Age counts as zero: expire at once.
                c.max_age = Some(
                    if m < 0 {
                        0
                    } else {
                        m
                    },
                );
            },
            None => {},
        }
    } else if eq_fold_lit(s, ka, kb, "expires") {
        c.expires = expires_seconds_from_header(s);
    }
}

} // verus!
