//! The default store implementation: a synchronized jar behind a
//! reader-writer lock, shareable across concurrently executing request
//! cycles, and the trusted edge that turns header values into text and
//! back.
use vstd::prelude::*;
use vstd::rwlock::{RwLock, RwLockPredicate};

use crate::cookie::{parse_spec, Cookie, SpecCookie};
use crate::store::{join_pairs, keys_unique, query_spec, SpecRecord, StoreState, UrlParts};

verus! {

#[verifier::external_type_specification]
#[verifier::external_body]
pub struct ExHeaderValue(http::HeaderValue);

/// A character that survives `http`'s header-value byte check: tab, or
/// at least 32 and not DEL; every character above ASCII encodes to bytes
/// of 128 and above, which the byte check accepts.
pub open spec fn valid_header_char(c: char) -> bool {
    (c as u32) >= 128 || c == '\t' || ((c as u32) >= 32 && (c as u32) != 127)
}

/// Text whose UTF-8 bytes `http` accepts as a header value.
pub open spec fn valid_header_text(s: Seq<char>) -> bool {
    forall|i: int| 0 <= i < s.len() ==> valid_header_char(#[trigger] s[i])
}

/// Relies on `http::HeaderValue::from_maybe_shared` over `bytes::Bytes`:
/// it accepts exactly the byte strings whose every byte is 32..=255
/// except 127, or tab — for UTF-8 text, exactly `valid_header_text` —
/// and the accepted value holds exactly the input's bytes, so its text
/// (`header_text_of`) is the input string.
#[verifier::external_body]
fn header_value_from_string(s: String) -> (r: Option<http::HeaderValue>)
    ensures
        r is Some <==> valid_header_text(s@),
        r matches Some(v) ==> header_text_of(v) == Some(s@),
{
    match http::HeaderValue::from_maybe_shared(bytes::Bytes::from(s)) {
        Ok(v) => Some(v),
        Err(_) => None,
    }
}

/// What the text of a header value is, as a function of the value
/// alone: its bytes decoded as UTF-8, or `None`. Named here, not
/// restated.
pub uninterp spec fn header_text_of(v: http::HeaderValue) -> Option<Seq<char>>;

/// Relies on `http::HeaderValue::as_bytes` and `String::from_utf8`: the
/// value's text when its bytes are valid UTF-8 — `header_text_of` of
/// the value alone.
#[verifier::external_body]
fn header_value_text(v: &http::HeaderValue) -> (r: Option<String>)
    ensures
        match r {
            Some(s) => header_text_of(*v) == Some(s@),
            None => header_text_of(*v) is None,
        },
{
    match String::from_utf8(v.as_bytes().to_vec()) {
        Ok(s) => Some(s),
        Err(_) => None,
    }
}

/// Relies on `std::time::SystemTime::now`, read as whole seconds since
/// the Unix epoch (zero before the epoch): the store's clock.
#[verifier::external_body]
pub fn now_seconds() -> (r: i64)
{
    match std::time::SystemTime::now().duration_since(std::time::UNIX_EPOCH) {
        Ok(d) => i64::try_from(d.as_secs()).unwrap_or(i64::MAX),
        Err(_) => 0,
    }
}

/// The cookies a header-value list yields: each readable header's text
/// parsed, the unreadable and the malformed dropped, in order.
pub open spec fn extract_spec(hs: Seq<http::HeaderValue>) -> Seq<SpecCookie>
    decreases hs.len(),
{
    if hs.len() == 0 {
        Seq::empty()
    } else {
        let head: Seq<SpecCookie> = match header_text_of(hs[0]) {
            Some(text) => match parse_spec(text) {
                Some(sc) => seq![sc],
                None => Seq::empty(),
            },
            None => Seq::empty(),
        };
        head + extract_spec(hs.drop_first())
    }
}

/// Parses every `Set-Cookie` header value in the list, in order,
/// dropping the unreadable and the malformed ones: a parse failure
/// skips that header and never aborts the rest.
pub fn extract_response_cookies(headers: &Vec<http::HeaderValue>) -> (out: Vec<Cookie>)
    ensures
        out.deep_view() == extract_spec(headers@),
{
    let ghost hs = headers@;
    let mut out: Vec<Cookie> = Vec::new();
    let n = headers.len();
    proof {
        assert(hs.skip(0) =~= hs);
        assert(out.deep_view() =~= Seq::<SpecCookie>::empty());
    }
    let mut i: usize = 0;
    while i < n
        invariant
            0 <= i <= n,
            n == headers.len(),
            hs == headers@,
            out.deep_view() + extract_spec(hs.skip(i as int)) == extract_spec(hs),
        decreases n - i,
    {
        proof {
            assert(hs.skip(i as int).drop_first() =~= hs.skip(i + 1));
            assert(hs.skip(i as int)[0] == hs[i as int]);
        }
        let ghost pre = out.deep_view();
        match header_value_text(&headers[i]) {
            Some(text) => {
                match Cookie::parse(text.as_str()) {
                    Ok(c) => {
                        out.push(c);
                        proof {
                            assert(out.deep_view() =~= pre.push(c@));
                            assert(pre.push(c@) =~= pre + seq![c@]);
                        }
                    },
                    Err(_) => {},
                }
            },
            None => {},
        }
        proof {
            assert(out.deep_view() + extract_spec(hs.skip(i + 1)) =~= pre + extract_spec(
                hs.skip(i as int),
            ));
        }
        i += 1;
    }
    proof {
        assert(hs.skip(n as int) =~= Seq::<http::HeaderValue>::empty());
    }
    out
}

/// The header text a store snapshot yields for `url` at `now`: `None`
/// when nothing matches or the joined text is not a valid header value,
/// else the matching `name=value` pairs joined by `"; "`.
pub open spec fn snapshot_header_text(rs: Seq<SpecRecord>, url: UrlParts, now: i64) -> Option<
    Seq<char>,
> {
    let q = query_spec(rs, url, now);
    if q.len() > 0 && valid_header_text(join_pairs(q)) {
        Some(join_pairs(q))
    } else {
        None
    }
}

/// `r` is what reading the jar for `url` can answer: some key-unique
/// store snapshot, at some clock reading, yields exactly this optional
/// header — `None` when that snapshot's query is empty or unencodable,
/// else a value whose text is the snapshot's joined pairs.
pub open spec fn reflects_snapshot_query(r: Option<http::HeaderValue>, url: UrlParts) -> bool {
    exists|rs: Seq<SpecRecord>, now: i64|
        keys_unique(rs) && (match r {
            Some(v) => header_text_of(v) is Some && header_text_of(v)
                == #[trigger] snapshot_header_text(rs, url, now),
            None => snapshot_header_text(rs, url, now) is None,
        })
}

/// The lock predicate of a jar: the store's key invariant — at most one
/// record per (domain, path, name) key.
pub struct JarInv;

impl RwLockPredicate<StoreState> for JarInv {
    open spec fn inv(self, v: StoreState) -> bool {
        keys_unique(v.recs())
    }
}

/// Actions for a persistent cookie store providing session support; any
/// alternative store can stand in for the default [`Jar`].
pub trait CookieStore {
    /// Store a set of Set-Cookie header values received from `url`.
    fn set_cookies(&self, cookie_headers: &Vec<http::HeaderValue>, url: &UrlParts);

    /// Get any Cookie header value in the store for `url`.
    fn cookies(&self, url: &UrlParts) -> Option<http::HeaderValue>;
}

/// A good default `CookieStore` implementation: the verified store
/// behind a reader-writer lock — concurrent readers, exclusive writers —
/// so one jar serves many in-flight request cycles.
pub struct Jar {
    lock: RwLock<StoreState, JarInv>,
}

impl Jar {
    /// An empty jar.
    pub fn new() -> (j: Jar) {
        let st = StoreState::new();
        proof {
            assert(keys_unique(st.recs()));
        }
        Jar { lock: RwLock::new(st, Ghost(JarInv)) }
    }

    /// Adds one cookie definition, given as `Set-Cookie` text, scoped to
    /// `url` — for pre-seeding session state before any request.
    pub fn add_cookie_str(&self, cookie: &str, url: &UrlParts) {
        match Cookie::parse(cookie) {
            Ok(c) => {
                let now = now_seconds();
                let mut cs: Vec<Cookie> = Vec::new();
                cs.push(c);
                let (mut st, wh) = self.lock.acquire_write();
                st.ingest(&cs, url, now);
                wh.release_write(st);
            },
            Err(_) => {},
        }
    }

    /// The stored (name, value) pairs matching `url` at this moment,
    /// longest path first: the query of some key-unique snapshot of the
    /// lock-held store, at some clock reading.
    pub fn query_pairs(&self, url: &UrlParts) -> (out: Vec<(String, String)>)
        ensures
            exists|rs: Seq<SpecRecord>, now: i64|
                keys_unique(rs) && out.deep_view() == #[trigger] query_spec(rs, *url, now),
    {
        let now = now_seconds();
        let rh = self.lock.acquire_read();
        let st = rh.borrow();
        let ghost rs = st.recs();
        let out = st.query(url, now);
        rh.release_read();
        proof {
            assert(keys_unique(rs) && out.deep_view() == query_spec(rs, *url, now));
        }
        out
    }

    /// Absorbs every `Set-Cookie` header of a response from `url`; with
    /// no headers the store is left untouched.
    pub fn set_cookies_from_response_headers(
        &self,
        headers: &Vec<http::HeaderValue>,
        url: &UrlParts,
    ) {
        if headers.len() > 0 {
            self.set_cookies(headers, url);
        }
    }
}

impl Default for Jar {
    /// An empty jar.
    fn default() -> (j: Jar) {
        Jar::new()
    }
}

impl Clone for Jar {
    /// A deep copy: an independent snapshot of the records at this
    /// moment, not a second handle to the same store.
    fn clone(&self) -> (j: Jar) {
        let rh = self.lock.acquire_read();
        let snapshot = rh.borrow().duplicate();
        rh.release_read();
        Jar { lock: RwLock::new(snapshot, Ghost(JarInv)) }
    }
}

impl CookieStore for Jar {
    fn set_cookies(&self, cookie_headers: &Vec<http::HeaderValue>, url: &UrlParts) {
        let cookies = extract_response_cookies(cookie_headers);
        let now = now_seconds();
        let (mut st, wh) = self.lock.acquire_write();
        st.ingest(&cookies, url, now);
        wh.release_write(st);
    }

    fn cookies(&self, url: &UrlParts) -> (r: Option<http::HeaderValue>)
        ensures
            reflects_snapshot_query(r, *url),
    {
        let now = now_seconds();
        let rh = self.lock.acquire_read();
        let st = rh.borrow();
        let ghost rs = st.recs();
        let text = st.render_for(url, now);
        rh.release_read();
        let r = match text {
            Some(s) => header_value_from_string(s),
            None => None,
        };
        proof {
            assert(keys_unique(rs) && (match r {
                Some(v) => header_text_of(v) is Some && header_text_of(v)
                    == snapshot_header_text(rs, *url, now),
                None => snapshot_header_text(rs, *url, now) is None,
            }));
        }
        r
    }
}

} // verus!
