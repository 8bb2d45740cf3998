//! The cookie store: resolution of parsed cookies against the URL that
//! set them, upsert by the (domain, path, name) key with last-write-wins,
//! and the query that renders the matching, non-expired records for a
//! request URL, longest path first and in insertion order within a length.
use vstd::prelude::*;

use crate::cookie::{Cookie, SpecCookie};
use crate::strutil::{
    eq_ci, eq_fold_range, eq_fold_str, is_prefix_spec, is_prefix_str, last_index_of_spec,
    last_slash, lemma_last_index_of_spec, sat_add, sat_add_spec, str_eq, substr_owned,
};

verus! {

/// What the store reads of a request URL: whether its scheme is
/// encrypted, its host, and its path.
#[derive(Clone, Debug)]
pub struct UrlParts {
    pub secure: bool,
    pub host: String,
    pub path: String,
}

/// A well-formed request URL part set: a host, and a rooted path.
pub open spec fn url_wf(u: UrlParts) -> bool {
    u.host@.len() > 0 && u.path@.len() > 0 && u.path@[0] == '/'
}

/// When a stored record lapses: never (a session record), or at an
/// absolute Unix-seconds instant.
#[derive(Clone, Copy, PartialEq, Eq, Structural, Debug)]
pub enum Expiry {
    Session,
    AtSeconds(i64),
}

/// A record is fresh while its expiration instant lies strictly in the
/// future; a session record always is.
pub open spec fn fresh_at(e: Expiry, now: i64) -> bool {
    match e {
        Expiry::Session => true,
        Expiry::AtSeconds(t) => t > now,
    }
}

/// The mathematical content of one stored record.
pub struct SpecRecord {
    pub name: Seq<char>,
    pub value: Seq<char>,
    pub domain: Seq<char>,
    pub host_only: bool,
    pub path: Seq<char>,
    pub secure: bool,
    pub http_only: bool,
    pub same_site: crate::cookie::SameSitePolicy,
    pub expiry: Expiry,
}

/// One stored cookie record, its Domain and Path resolved against the URL
/// that set it.
#[derive(Clone, Debug)]
pub struct CookieRecord {
    pub name: String,
    pub value: String,
    pub domain: String,
    pub host_only: bool,
    pub path: String,
    pub secure: bool,
    pub http_only: bool,
    pub same_site: crate::cookie::SameSitePolicy,
    pub expiry: Expiry,
}

impl View for CookieRecord {
    type V = SpecRecord;

    open spec fn view(&self) -> SpecRecord {
        SpecRecord {
            name: self.name@,
            value: self.value@,
            domain: self.domain@,
            host_only: self.host_only,
            path: self.path@,
            secure: self.secure,
            http_only: self.http_only,
            same_site: self.same_site,
            expiry: self.expiry,
        }
    }
}

impl DeepView for CookieRecord {
    type V = SpecRecord;

    open spec fn deep_view(&self) -> SpecRecord {
        self.view()
    }
}

/// `d` names a strict superdomain of `h`: `h` ends in `.` followed by
/// `d`, compared case-insensitively.
pub open spec fn domain_suffix_match(d: Seq<char>, h: Seq<char>) -> bool {
    h.len() > d.len() && eq_ci(h.subrange(h.len() - d.len(), h.len() as int), d) && h[h.len()
        - d.len() - 1] == '.'
}

/// Domain matching: the stored domain is the host itself or a
/// dot-separated superdomain of it.
pub open spec fn domain_match(d: Seq<char>, h: Seq<char>) -> bool {
    eq_ci(d, h) || domain_suffix_match(d, h)
}

/// Decides `domain_match` on string slices.
pub fn domain_match_exec(d: &str, h: &str) -> (r: bool)
    ensures
        r == domain_match(d@, h@),
{
    if eq_fold_str(d, h) {
        return true;
    }
    let dn = d.unicode_len();
    let hn = h.unicode_len();
    if hn > dn {
        let suffix_eq = eq_fold_range(h, hn - dn, hn, d, 0, dn);
        proof {
            assert(d@.subrange(0, dn as int) =~= d@);
        }
        if suffix_eq && h.get_char(hn - dn - 1) == '.' {
            return true;
        }
    }
    false
}

/// The default path of a cookie set without a rooted `Path` attribute:
/// the set-URL's path up to, and not including, its last `/` (the root
/// path if that would be empty).
pub open spec fn default_path_spec(p: Seq<char>) -> Seq<char> {
    if p.len() == 0 || p[0] != '/' {
        seq!['/']
    } else {
        match last_index_of_spec(p, '/') {
            Some(k) => if k == 0 {
                seq!['/']
            } else {
                p.subrange(0, k)
            },
            None => seq!['/'],
        }
    }
}

/// Computes `default_path_spec` of a path slice.
pub fn default_path(p: &str) -> (r: String)
    ensures
        r@ == default_path_spec(p@),
{
    let n = p.unicode_len();
    if n == 0 || p.get_char(0) != '/' {
        let root = "/".to_owned();
        proof {
            reveal_strlit("/");
            assert(root@ =~= seq!['/']);
        }
        return root;
    }
    match last_slash(p) {
        Some(k) => {
            proof {
                lemma_last_index_of_spec(p@, '/');
            }
            if k == 0 {
                let root = "/".to_owned();
                proof {
                    reveal_strlit("/");
                    assert(root@ =~= seq!['/']);
                }
                root
            } else {
                substr_owned(p, 0, k)
            }
        },
        None => {
            proof {
                lemma_last_index_of_spec(p@, '/');
                assert(p@[0] == '/');
                assert(false);
            }
            "/".to_owned()
        },
    }
}

/// Whether a record is sent with a request to `u` at time `now`: it is
/// fresh, its domain covers the host (exactly for a host-only record),
/// its path is a prefix of the request path, and a Secure record goes
/// only over an encrypted scheme.
pub open spec fn record_matches(r: SpecRecord, u: UrlParts, now: i64) -> bool {
    &&& fresh_at(r.expiry, now)
    &&& if r.host_only {
        eq_ci(r.domain, u.host@)
    } else {
        domain_match(r.domain, u.host@)
    }
    &&& is_prefix_spec(r.path, u.path@)
    &&& (r.secure ==> u.secure)
}

/// Decides `record_matches` for one stored record.
pub fn record_matches_exec(r: &CookieRecord, u: &UrlParts, now: i64) -> (b: bool)
    ensures
        b == record_matches(r@, *u, now),
{
    let fresh = match r.expiry {
        Expiry::Session => true,
        Expiry::AtSeconds(t) => t > now,
    };
    if !fresh {
        return false;
    }
    let dom_ok = if r.host_only {
        eq_fold_str(r.domain.as_str(), u.host.as_str())
    } else {
        domain_match_exec(r.domain.as_str(), u.host.as_str())
    };
    if !dom_ok {
        return false;
    }
    if !is_prefix_str(r.path.as_str(), u.path.as_str()) {
        return false;
    }
    if r.secure && !u.secure {
        return false;
    }
    true
}

/// Resolution of a parsed cookie against the URL that set it: a missing
/// Domain binds the record to the exact host; a Domain that does not
/// cover the host drops the cookie; a missing or unrooted Path takes the
/// default path; Max-Age (saturating, from `now`) takes precedence over
/// Expires for the expiration instant.
pub open spec fn resolve_spec(c: SpecCookie, u: UrlParts, now: i64) -> Option<SpecRecord> {
    let path = match c.path {
        Some(p) => if p.len() > 0 && p[0] == '/' {
            p
        } else {
            default_path_spec(u.path@)
        },
        None => default_path_spec(u.path@),
    };
    let expiry = match c.max_age {
        Some(m) => Expiry::AtSeconds(sat_add_spec(now, m)),
        None => match c.expires {
            Some(t) => Expiry::AtSeconds(t),
            None => Expiry::Session,
        },
    };
    match c.domain {
        Some(d) => if domain_match(d, u.host@) {
            Some(
                SpecRecord {
                    name: c.name,
                    value: c.value,
                    domain: d,
                    host_only: false,
                    path,
                    secure: c.secure,
                    http_only: c.http_only,
                    same_site: c.same_site,
                    expiry,
                },
            )
        } else {
            None
        },
        None => Some(
            SpecRecord {
                name: c.name,
                value: c.value,
                domain: u.host@,
                host_only: true,
                path,
                secure: c.secure,
                http_only: c.http_only,
                same_site: c.same_site,
                expiry,
            },
        ),
    }
}

/// Computes `resolve_spec` for one parsed cookie.
pub fn resolve(c: &Cookie, u: &UrlParts, now: i64) -> (r: Option<CookieRecord>)
    ensures
        match r {
            Some(rec) => resolve_spec(c@, *u, now) == Some(rec@),
            None => resolve_spec(c@, *u, now) is None,
        },
{
    let path: String = match &c.path {
        Some(p) => {
            let pn = p.unicode_len();
            if pn > 0 && p.get_char(0) == '/' {
                p.clone()
            } else {
                default_path(u.path.as_str())
            }
        },
        None => default_path(u.path.as_str()),
    };
    let expiry: Expiry = match c.max_age {
        Some(m) => Expiry::AtSeconds(sat_add(now, m)),
        None => match c.expires {
            Some(t) => Expiry::AtSeconds(t),
            None => Expiry::Session,
        },
    };
    match &c.domain {
        Some(d) => {
            if domain_match_exec(d.as_str(), u.host.as_str()) {
                Some(
                    CookieRecord {
                        name: c.name.clone(),
                        value: c.value.clone(),
                        domain: d.clone(),
                        host_only: false,
                        path,
                        secure: c.secure,
                        http_only: c.http_only,
                        same_site: c.same_site,
                        expiry,
                    },
                )
            } else {
                None
            }
        },
        None => Some(
            CookieRecord {
                name: c.name.clone(),
                value: c.value.clone(),
                domain: u.host.clone(),
                host_only: true,
                path,
                secure: c.secure,
                http_only: c.http_only,
                same_site: c.same_site,
                expiry,
            },
        ),
    }
}

/// Two records share a store key when name, domain and path agree.
pub open spec fn key_eq(a: SpecRecord, b: SpecRecord) -> bool {
    a.name == b.name && a.domain == b.domain && a.path == b.path
}

/// Index of the first record sharing `r`'s key.
pub open spec fn find_key(rs: Seq<SpecRecord>, r: SpecRecord) -> Option<int>
    decreases rs.len(),
{
    if rs.len() == 0 {
        None
    } else if key_eq(rs[0], r) {
        Some(0)
    } else {
        match find_key(rs.drop_first(), r) {
            Some(j) => Some(j + 1),
            None => None,
        }
    }
}

pub proof fn lemma_find_key(rs: Seq<SpecRecord>, r: SpecRecord)
    ensures
        match find_key(rs, r) {
            Some(i) => 0 <= i < rs.len() && key_eq(rs[i], r) && forall|k: int|
                0 <= k < i ==> !key_eq(rs[k], r),
            None => forall|k: int| 0 <= k < rs.len() ==> !key_eq(rs[k], r),
        },
    decreases rs.len(),
{
    if rs.len() > 0 && !key_eq(rs[0], r) {
        lemma_find_key(rs.drop_first(), r);
        assert(forall|k: int| 1 <= k < rs.len() ==> rs[k] == rs.drop_first()[k - 1]);
    }
}

/// Upsert by key: replace the first record with the same key in place,
/// else append — last write wins for a key.
pub open spec fn upsert_spec(rs: Seq<SpecRecord>, r: SpecRecord) -> Seq<SpecRecord> {
    match find_key(rs, r) {
        Some(i) => rs.update(i, r),
        None => rs.push(r),
    }
}

/// The store's key invariant: at most one record per (domain, path,
/// name) key.
pub open spec fn keys_unique(rs: Seq<SpecRecord>) -> bool {
    forall|i: int, j: int| 0 <= i < j < rs.len() ==> !(#[trigger] key_eq(rs[i], rs[j]))
}

/// Upserting preserves key uniqueness: a shared key is overwritten in
/// place, a new key is appended once.
pub proof fn lemma_upsert_preserves_unique(rs: Seq<SpecRecord>, r: SpecRecord)
    requires
        keys_unique(rs),
    ensures
        keys_unique(upsert_spec(rs, r)),
{
    lemma_find_key(rs, r);
    let rs2 = upsert_spec(rs, r);
    match find_key(rs, r) {
        Some(i) => {
            assert forall|a: int, b: int| 0 <= a < b < rs2.len() implies !(#[trigger] key_eq(
                rs2[a],
                rs2[b],
            )) by {
                if a == i {
                    if key_eq(rs2[a], rs2[b]) {
                        assert(key_eq(rs[i], rs[b]));
                    }
                } else if b == i {
                    if key_eq(rs2[a], rs2[b]) {
                        assert(key_eq(rs[a], rs[i]));
                    }
                } else {
                    assert(!key_eq(rs[a], rs[b]));
                }
            }
        },
        None => {
            assert forall|a: int, b: int| 0 <= a < b < rs2.len() implies !(#[trigger] key_eq(
                rs2[a],
                rs2[b],
            )) by {
                if b == rs.len() {
                    assert(!key_eq(rs[a], r));
                } else {
                    assert(!key_eq(rs[a], rs[b]));
                }
            }
        },
    }
}

/// Ingesting one parsed cookie: resolve it and upsert, or drop it when
/// its Domain does not cover the setting host.
pub open spec fn ingest_one_spec(
    rs: Seq<SpecRecord>,
    c: SpecCookie,
    u: UrlParts,
    now: i64,
) -> Seq<SpecRecord> {
    match resolve_spec(c, u, now) {
        Some(rec) => upsert_spec(rs, rec),
        None => rs,
    }
}

/// Ingestion preserves key uniqueness, cookie by cookie.
pub proof fn lemma_ingest_list_preserves_unique(
    rs: Seq<SpecRecord>,
    cs: Seq<SpecCookie>,
    u: UrlParts,
    now: i64,
)
    requires
        keys_unique(rs),
    ensures
        keys_unique(ingest_list_spec(rs, cs, u, now)),
    decreases cs.len(),
{
    if cs.len() > 0 {
        match resolve_spec(cs[0], u, now) {
            Some(rec) => {
                lemma_upsert_preserves_unique(rs, rec);
            },
            None => {},
        }
        lemma_ingest_list_preserves_unique(ingest_one_spec(rs, cs[0], u, now), cs.drop_first(), u, now);
    }
}

/// Ingesting a sequence of parsed cookies, in order.
pub open spec fn ingest_list_spec(
    rs: Seq<SpecRecord>,
    cs: Seq<SpecCookie>,
    u: UrlParts,
    now: i64,
) -> Seq<SpecRecord>
    decreases cs.len(),
{
    if cs.len() == 0 {
        rs
    } else {
        ingest_list_spec(ingest_one_spec(rs, cs[0], u, now), cs.drop_first(), u, now)
    }
}

/// The pairs contributed by records whose path length is exactly `l`, in
/// store (insertion) order.
pub open spec fn pairs_with_len(
    rs: Seq<SpecRecord>,
    u: UrlParts,
    now: i64,
    l: int,
) -> Seq<(Seq<char>, Seq<char>)>
    decreases rs.len(),
{
    if rs.len() == 0 {
        Seq::empty()
    } else {
        let head: Seq<(Seq<char>, Seq<char>)> = if record_matches(rs[0], u, now) && rs[0].path.len()
            == l {
            seq![(rs[0].name, rs[0].value)]
        } else {
            Seq::empty()
        };
        head + pairs_with_len(rs.drop_first(), u, now, l)
    }
}

/// The query result for path lengths `l` down to zero: longer, more
/// specific paths first.
pub open spec fn pairs_down_from(
    rs: Seq<SpecRecord>,
    u: UrlParts,
    now: i64,
    l: int,
) -> Seq<(Seq<char>, Seq<char>)>
    decreases l + 1,
{
    if l < 0 {
        Seq::empty()
    } else {
        pairs_with_len(rs, u, now, l) + pairs_down_from(rs, u, now, l - 1)
    }
}

/// The longest stored path length, zero for an empty store.
pub open spec fn max_path_len(rs: Seq<SpecRecord>) -> int
    decreases rs.len(),
{
    if rs.len() == 0 {
        0
    } else {
        let rest = max_path_len(rs.drop_first());
        if rs[0].path.len() > rest {
            rs[0].path.len() as int
        } else {
            rest
        }
    }
}

/// The full query: every matching, fresh record's (name, value) pair,
/// ordered by path length descending, then insertion order.
pub open spec fn query_spec(rs: Seq<SpecRecord>, u: UrlParts, now: i64) -> Seq<
    (Seq<char>, Seq<char>),
> {
    pairs_down_from(rs, u, now, max_path_len(rs))
}

pub proof fn lemma_max_path_len_nonneg(rs: Seq<SpecRecord>)
    ensures
        max_path_len(rs) >= 0,
    decreases rs.len(),
{
    if rs.len() > 0 {
        lemma_max_path_len_nonneg(rs.drop_first());
    }
}

/// Replaces the first record with `rec`'s key in place, or appends.
fn upsert_record(records: &mut Vec<CookieRecord>, rec: CookieRecord)
    ensures
        final(records).deep_view() == upsert_spec(old(records).deep_view(), rec@),
{
    let ghost rs = records.deep_view();
    let n = records.len();
    let mut i: usize = 0;
    while i < n
        invariant
            0 <= i <= n,
            n == records.len(),
            records.deep_view() == rs,
            rs == old(records).deep_view(),
            forall|k: int| 0 <= k < i ==> !key_eq(rs[k], rec@),
        decreases n - i,
    {
        let same = {
            let ri = &records[i];
            str_eq(ri.name.as_str(), rec.name.as_str()) && str_eq(
                ri.domain.as_str(),
                rec.domain.as_str(),
            ) && str_eq(ri.path.as_str(), rec.path.as_str())
        };
        proof {
            assert(rs[i as int] == records@[i as int].deep_view());
            assert(same == key_eq(rs[i as int], rec@));
        }
        if same {
            records.remove(i);
            records.insert(i, rec);
            proof {
                lemma_find_key(rs, rec@);
                match find_key(rs, rec@) {
                    Some(j) => {
                        assert(!(j < i) && !(i < j));
                        assert(j == i);
                    },
                    None => {
                        assert(key_eq(rs[i as int], rec@));
                        assert(false);
                    },
                }
                assert(records.deep_view() =~= rs.update(i as int, rec@));
            }
            return ;
        }
        i += 1;
    }
    records.push(rec);
    proof {
        lemma_find_key(rs, rec@);
        match find_key(rs, rec@) {
            Some(j) => {
                assert(!key_eq(rs[j], rec@));
                assert(false);
            },
            None => {},
        }
        assert(records.deep_view() =~= rs.push(rec@));
    }
}

/// `name=value` rendering of one pair.
pub open spec fn pair_text(p: (Seq<char>, Seq<char>)) -> Seq<char> {
    p.0 + "="@ + p.1
}

/// The `"; "`-separated rendering of the pairs from index `i` on, each
/// preceded by the separator.
pub open spec fn join_rest(ps: Seq<(Seq<char>, Seq<char>)>, i: int) -> Seq<char>
    decreases ps.len() - i,
{
    if i < 0 || i >= ps.len() {
        Seq::empty()
    } else {
        "; "@ + pair_text(ps[i]) + join_rest(ps, i + 1)
    }
}

/// The conventional `Cookie` header rendering: `name=value` pairs joined
/// with `"; "`.
pub open spec fn join_pairs(ps: Seq<(Seq<char>, Seq<char>)>) -> Seq<char> {
    if ps.len() == 0 {
        Seq::empty()
    } else {
        pair_text(ps[0]) + join_rest(ps, 1)
    }
}

/// Appends `name=value` to `s`.
fn append_pair(s: &mut String, p: &(String, String))
    ensures
        final(s)@ == old(s)@ + pair_text(p.deep_view()),
{
    s.append(p.0.as_str());
    s.append("=");
    s.append(p.1.as_str());
    proof {
        assert(s@ =~= old(s)@ + pair_text(p.deep_view()));
    }
}

/// Renders a non-empty pair list as one `Cookie` header value.
pub fn render_pairs(pairs: &Vec<(String, String)>) -> (r: String)
    ensures
        r@ == join_pairs(pairs.deep_view()),
{
    let ghost ps = pairs.deep_view();
    let n = pairs.len();
    let mut s = String::new();
    if n == 0 {
        return s;
    }
    append_pair(&mut s, &pairs[0]);
    proof {
        assert(ps[0] == pairs@[0].deep_view());
        assert(s@ == pair_text(ps[0]));
    }
    let mut i: usize = 1;
    while i < n
        invariant
            1 <= i <= n,
            n == pairs.len(),
            ps == pairs.deep_view(),
            ps.len() == n,
            s@ + join_rest(ps, i as int) == join_pairs(ps),
        decreases n - i,
    {
        let ghost s0 = s@;
        s.append("; ");
        append_pair(&mut s, &pairs[i]);
        proof {
            assert(ps[i as int] == pairs@[i as int].deep_view());
            assert(s@ =~= s0 + ("; "@ + pair_text(ps[i as int])));
            assert(s@ + join_rest(ps, i + 1) =~= s0 + join_rest(ps, i as int));
        }
        i += 1;
    }
    s
}

/// The collection of cookie records of one client session, in insertion
/// order. A store grown through `ingest` holds at most one record per
/// (domain, path, name) key (`keys_unique`, preserved by
/// `lemma_upsert_preserves_unique`); the jar's lock predicate pins that
/// invariant for every store it holds.
#[derive(Clone, Debug)]
pub struct StoreState {
    pub records: Vec<CookieRecord>,
}

impl StoreState {
    /// The store's mathematical content: its records, in insertion order.
    pub open spec fn recs(&self) -> Seq<SpecRecord> {
        self.records.deep_view()
    }

    /// An empty store.
    pub fn new() -> (s: StoreState)
        ensures
            s.recs() == Seq::<SpecRecord>::empty(),
    {
        let s = StoreState { records: Vec::new() };
        proof {
            assert(s.recs() =~= Seq::<SpecRecord>::empty());
        }
        s
    }

    /// An independent deep copy holding the same records.
    pub fn duplicate(&self) -> (s: StoreState)
        ensures
            s.recs() == self.recs(),
    {
        let ghost rs = self.recs();
        let n = self.records.len();
        let mut records: Vec<CookieRecord> = Vec::new();
        proof {
            assert(records.deep_view() =~= rs.subrange(0, 0));
        }
        let mut i: usize = 0;
        while i < n
            invariant
                0 <= i <= n,
                n == self.records.len(),
                rs == self.recs(),
                rs.len() == n,
                records.deep_view() == rs.subrange(0, i as int),
            decreases n - i,
        {
            let ghost pre = records.deep_view();
            let r = &self.records[i];
            records.push(
                CookieRecord {
                    name: r.name.clone(),
                    value: r.value.clone(),
                    domain: r.domain.clone(),
                    host_only: r.host_only,
                    path: r.path.clone(),
                    secure: r.secure,
                    http_only: r.http_only,
                    same_site: r.same_site,
                    expiry: r.expiry,
                },
            );
            proof {
                assert(rs[i as int] == self.records@[i as int].deep_view());
                assert(records.deep_view() =~= pre.push(rs[i as int]));
                assert(records.deep_view() =~= rs.subrange(0, i + 1));
            }
            i += 1;
        }
        proof {
            assert(rs.subrange(0, n as int) =~= rs);
        }
        StoreState { records }
    }

    /// Ingests parsed cookies set by a response from `u`, in order:
    /// resolves each against `u` and upserts by key, last write winning.
    pub fn ingest(&mut self, cookies: &Vec<Cookie>, u: &UrlParts, now: i64)
        ensures
            final(self).recs() == ingest_list_spec(
                old(self).recs(),
                cookies.deep_view(),
                *u,
                now,
            ),
            keys_unique(old(self).recs()) ==> keys_unique(final(self).recs()),
    {
        proof {
            if keys_unique(old(self).recs()) {
                lemma_ingest_list_preserves_unique(old(self).recs(), cookies.deep_view(), *u, now);
            }
        }
        let ghost cs = cookies.deep_view();
        let ghost goal = ingest_list_spec(old(self).recs(), cs, *u, now);
        let n = cookies.len();
        proof {
            assert(cs.skip(0) =~= cs);
        }
        let mut i: usize = 0;
        while i < n
            invariant
                0 <= i <= n,
                n == cookies.len(),
                cs == cookies.deep_view(),
                cs.len() == n,
                ingest_list_spec(self.recs(), cs.skip(i as int), *u, now) == goal,
            decreases n - i,
        {
            let ghost pre = self.recs();
            let c = &cookies[i];
            proof {
                assert(cs[i as int] == cookies@[i as int].deep_view());
                assert(cs.skip(i as int).drop_first() =~= cs.skip(i + 1));
                assert(cs.skip(i as int)[0] == cs[i as int]);
            }
            match resolve(c, u, now) {
                Some(rec) => {
                    upsert_record(&mut self.records, rec);
                },
                None => {},
            }
            proof {
                assert(self.recs() == ingest_one_spec(pre, cs[i as int], *u, now));
            }
            i += 1;
        }
        proof {
            assert(cs.skip(n as int) =~= Seq::<SpecCookie>::empty());
        }
    }

    /// The (name, value) pairs to send with a request to `u` at `now`:
    /// exactly the fresh, matching records, longest path first, then
    /// insertion order.
    pub fn query(&self, u: &UrlParts, now: i64) -> (out: Vec<(String, String)>)
        ensures
            out.deep_view() == query_spec(self.recs(), *u, now),
    {
        let ghost rs = self.recs();
        let n = self.records.len();
        proof {
            assert(rs.skip(0) =~= rs);
            lemma_max_path_len_nonneg(rs);
        }
        let mut maxl: usize = 0;
        let mut i: usize = 0;
        while i < n
            invariant
                0 <= i <= n,
                n == self.records.len(),
                rs == self.recs(),
                rs.len() == n,
                maxl >= 0,
                ({
                    let rest = max_path_len(rs.skip(i as int));
                    max_path_len(rs) == if maxl >= rest {
                        maxl as int
                    } else {
                        rest
                    }
                }),
            decreases n - i,
        {
            proof {
                assert(rs.skip(i as int).drop_first() =~= rs.skip(i + 1));
                assert(rs.skip(i as int)[0] == rs[i as int]);
                assert(rs[i as int] == self.records@[i as int].deep_view());
                lemma_max_path_len_nonneg(rs.skip(i + 1));
            }
            let pl = self.records[i].path.unicode_len();
            if pl > maxl {
                maxl = pl;
            }
            i += 1;
        }
        proof {
            assert(rs.skip(n as int) =~= Seq::<SpecRecord>::empty());
            lemma_max_path_len_nonneg(rs);
            assert(maxl as int == max_path_len(rs));
        }
        let mut out: Vec<(String, String)> = Vec::new();
        let mut li: usize = maxl;
        proof {
            assert(out.deep_view() =~= Seq::<(Seq<char>, Seq<char>)>::empty());
        }
        loop
            invariant_except_break
                out.deep_view() + pairs_down_from(rs, *u, now, li as int) == query_spec(
                    rs,
                    *u,
                    now,
                ),
            invariant
                0 <= li <= maxl,
                n == self.records.len(),
                rs == self.recs(),
                rs.len() == n,
                maxl as int == max_path_len(rs),
            ensures
                out.deep_view() == query_spec(rs, *u, now),
            decreases li,
        {
            let ghost pre = out.deep_view();
            proof {
                assert(rs.skip(0) =~= rs);
            }
            let mut i2: usize = 0;
            while i2 < n
                invariant
                    0 <= i2 <= n,
                    n == self.records.len(),
                    rs == self.recs(),
                    rs.len() == n,
                    pre + pairs_with_len(rs, *u, now, li as int) == out.deep_view()
                        + pairs_with_len(rs.skip(i2 as int), *u, now, li as int),
                decreases n - i2,
            {
                proof {
                    assert(rs.skip(i2 as int).drop_first() =~= rs.skip(i2 + 1));
                    assert(rs.skip(i2 as int)[0] == rs[i2 as int]);
                    assert(rs[i2 as int] == self.records@[i2 as int].deep_view());
                }
                let ghost outpre = out.deep_view();
                let r = &self.records[i2];
                let pl = r.path.unicode_len();
                if pl == li && record_matches_exec(r, u, now) {
                    out.push((r.name.clone(), r.value.clone()));
                    proof {
                        assert(out.deep_view() =~= outpre.push(
                            (rs[i2 as int].name, rs[i2 as int].value),
                        ));
                        assert(outpre.push((rs[i2 as int].name, rs[i2 as int].value)) =~= outpre
                            + seq![(rs[i2 as int].name, rs[i2 as int].value)]);
                    }
                }
                proof {
                    assert(out.deep_view() + pairs_with_len(rs.skip(i2 + 1), *u, now, li as int)
                        =~= outpre + pairs_with_len(rs.skip(i2 as int), *u, now, li as int));
                }
                i2 += 1;
            }
            proof {
                assert(rs.skip(n as int) =~= Seq::<SpecRecord>::empty());
                assert(out.deep_view() =~= pre + pairs_with_len(rs, *u, now, li as int));
                assert(out.deep_view() + pairs_down_from(rs, *u, now, li as int - 1) =~= pre
                    + pairs_down_from(rs, *u, now, li as int));
            }
            if li == 0 {
                proof {
                    assert(pairs_down_from(rs, *u, now, -1) =~= Seq::<(Seq<char>, Seq<char>)>::empty());
                    assert(out.deep_view() =~= query_spec(rs, *u, now));
                }
                break ;
            }
            li -= 1;
        }
        out
    }

    /// The `Cookie` header text for a request to `u` at `now`, or `None`
    /// when no record matches (no header is sent then).
    pub fn render_for(&self, u: &UrlParts, now: i64) -> (r: Option<String>)
        ensures
            match r {
                None => query_spec(self.recs(), *u, now).len() == 0,
                Some(s) => query_spec(self.recs(), *u, now).len() > 0 && s@ == join_pairs(
                    query_spec(self.recs(), *u, now),
                ),
            },
    {
        let pairs = self.query(u, now);
        if pairs.len() == 0 {
            proof {
                assert(query_spec(self.recs(), *u, now).len() == 0);
            }
            return None;
        }
        Some(render_pairs(&pairs))
    }
}

} // verus!
