//! The store's laws: what `query` returns is exactly the pairs of
//! matching, fresh records; ingestion is idempotent; expired records are
//! never returned; domain and secure scoping.
use vstd::prelude::*;

use crate::cookie::SpecCookie;
use crate::store::{
    default_path_spec, domain_match, find_key, fresh_at, ingest_one_spec, key_eq,
    max_path_len, pairs_down_from, pairs_with_len, query_spec, record_matches, resolve_spec,
    upsert_spec, Expiry, SpecRecord, UrlParts,
};
use crate::strutil::{eq_ci, is_prefix_spec, last_index_of_spec, lemma_last_index_of_spec,
    sat_add_spec};

verus! {

proof fn lemma_concat_contains<A>(s1: Seq<A>, s2: Seq<A>, p: A)
    ensures
        (s1 + s2).contains(p) <==> s1.contains(p) || s2.contains(p),
{
    if (s1 + s2).contains(p) {
        let k = choose|k: int| 0 <= k < (s1 + s2).len() && (s1 + s2)[k] == p;
        if k < s1.len() {
            assert(s1[k] == p);
        } else {
            assert(s2[k - s1.len()] == p);
        }
    }
    if s1.contains(p) {
        let k = choose|k: int| 0 <= k < s1.len() && s1[k] == p;
        assert((s1 + s2)[k] == p);
    }
    if s2.contains(p) {
        let k = choose|k: int| 0 <= k < s2.len() && s2[k] == p;
        assert((s1 + s2)[s1.len() + k] == p);
    }
}

proof fn lemma_pairs_with_len_char(
    rs: Seq<SpecRecord>,
    u: UrlParts,
    now: i64,
    l: int,
    p: (Seq<char>, Seq<char>),
)
    ensures
        pairs_with_len(rs, u, now, l).contains(p) <==> exists|i: int|
            0 <= i < rs.len() && #[trigger] record_matches(rs[i], u, now) && rs[i].path.len() == l
                && p == (rs[i].name, rs[i].value),
    decreases rs.len(),
{
    if rs.len() == 0 {
    } else {
        let head: Seq<(Seq<char>, Seq<char>)> = if record_matches(rs[0], u, now) && rs[0].path.len()
            == l {
            seq![(rs[0].name, rs[0].value)]
        } else {
            Seq::empty()
        };
        let rest = rs.drop_first();
        lemma_pairs_with_len_char(rest, u, now, l, p);
        lemma_concat_contains(head, pairs_with_len(rest, u, now, l), p);
        assert(forall|i: int| 0 <= i < rest.len() ==> rest[i] == rs[i + 1]);
        if pairs_with_len(rs, u, now, l).contains(p) {
            if head.contains(p) {
                assert(record_matches(rs[0], u, now) && rs[0].path.len() == l && p == (
                    rs[0].name,
                    rs[0].value,
                ));
            } else {
                let i = choose|i: int|
                    0 <= i < rest.len() && #[trigger] record_matches(rest[i], u, now)
                        && rest[i].path.len() == l && p == (rest[i].name, rest[i].value);
                assert(record_matches(rs[i + 1], u, now) && rs[i + 1].path.len() == l && p == (
                    rs[i + 1].name,
                    rs[i + 1].value,
                ));
            }
        }
        if exists|i: int|
            0 <= i < rs.len() && #[trigger] record_matches(rs[i], u, now) && rs[i].path.len() == l
                && p == (rs[i].name, rs[i].value) {
            let i = choose|i: int|
                0 <= i < rs.len() && #[trigger] record_matches(rs[i], u, now) && rs[i].path.len()
                    == l && p == (rs[i].name, rs[i].value);
            if i == 0 {
                assert(head[0] == p);
                assert(head.contains(p));
            } else {
                assert(record_matches(rest[i - 1], u, now) && rest[i - 1].path.len() == l && p == (
                    rest[i - 1].name,
                    rest[i - 1].value,
                ));
                assert(pairs_with_len(rest, u, now, l).contains(p));
            }
        }
    }
}

proof fn lemma_pairs_down_char(
    rs: Seq<SpecRecord>,
    u: UrlParts,
    now: i64,
    l: int,
    p: (Seq<char>, Seq<char>),
)
    ensures
        pairs_down_from(rs, u, now, l).contains(p) <==> exists|i: int|
            0 <= i < rs.len() && #[trigger] record_matches(rs[i], u, now) && rs[i].path.len() <= l
                && p == (rs[i].name, rs[i].value),
    decreases l + 1,
{
    if l < 0 {
    } else {
        lemma_pairs_down_char(rs, u, now, l - 1, p);
        lemma_pairs_with_len_char(rs, u, now, l, p);
        lemma_concat_contains(pairs_with_len(rs, u, now, l), pairs_down_from(rs, u, now, l - 1), p);
    }
}

proof fn lemma_max_path_len_bound(rs: Seq<SpecRecord>)
    ensures
        forall|i: int| 0 <= i < rs.len() ==> #[trigger] rs[i].path.len() <= max_path_len(rs),
    decreases rs.len(),
{
    if rs.len() > 0 {
        let rest = rs.drop_first();
        lemma_max_path_len_bound(rest);
        assert forall|i: int| 0 <= i < rs.len() implies #[trigger] rs[i].path.len()
            <= max_path_len(rs) by {
            if i > 0 {
                assert(rest[i - 1] == rs[i]);
                assert(rest[i - 1].path.len() <= max_path_len(rest));
            }
        }
    }
}

/// The query law: a (name, value) pair is in `query`'s result exactly
/// when some stored record carries it and matches the request URL at the
/// given time — fresh, domain covering the host, path a prefix of the
/// request path, and Secure only over an encrypted scheme.
pub proof fn lemma_query_exactly_matching(
    rs: Seq<SpecRecord>,
    u: UrlParts,
    now: i64,
    p: (Seq<char>, Seq<char>),
)
    ensures
        query_spec(rs, u, now).contains(p) <==> exists|i: int|
            0 <= i < rs.len() && #[trigger] record_matches(rs[i], u, now) && p == (
                rs[i].name,
                rs[i].value,
            ),
{
    lemma_pairs_down_char(rs, u, now, max_path_len(rs), p);
    lemma_max_path_len_bound(rs);
}

proof fn lemma_find_key_unique(rs: Seq<SpecRecord>, r: SpecRecord, i: int)
    requires
        0 <= i < rs.len(),
        key_eq(rs[i], r),
        forall|k: int| 0 <= k < i ==> !key_eq(rs[k], r),
    ensures
        find_key(rs, r) == Some(i),
{
    crate::store::lemma_find_key(rs, r);
    match find_key(rs, r) {
        Some(j) => {
            if j < i {
                assert(!key_eq(rs[j], r));
                assert(false);
            }
            if i < j {
                assert(!key_eq(rs[i], r));
                assert(false);
            }
        },
        None => {
            assert(!key_eq(rs[i], r));
            assert(false);
        },
    }
}

/// After an upsert, the record stands in the store: at the slot whose key
/// it shares, or appended at the end.
pub proof fn lemma_upsert_contains(rs: Seq<SpecRecord>, r: SpecRecord)
    ensures
        exists|i: int| 0 <= i < upsert_spec(rs, r).len() && #[trigger] upsert_spec(rs, r)[i] == r,
{
    crate::store::lemma_find_key(rs, r);
    match find_key(rs, r) {
        Some(i) => {
            assert(upsert_spec(rs, r)[i] == r);
        },
        None => {
            assert(upsert_spec(rs, r)[rs.len() as int] == r);
        },
    }
}

/// Two upserts for one key compose to the second alone: whichever of
/// two writes to the same (domain, path, name) key lands last is the
/// whole stored record — never a merged or partial value.
pub proof fn lemma_last_write_wins(rs: Seq<SpecRecord>, r1: SpecRecord, r2: SpecRecord)
    requires
        key_eq(r1, r2),
    ensures
        upsert_spec(upsert_spec(rs, r1), r2) == upsert_spec(rs, r2),
{
    crate::store::lemma_find_key(rs, r1);
    crate::store::lemma_find_key(rs, r2);
    match find_key(rs, r1) {
        Some(i) => {
            let rs2 = rs.update(i, r1);
            assert forall|k: int| 0 <= k < i implies !key_eq(rs[k], r2) by {
                if key_eq(rs[k], r2) {
                    assert(key_eq(rs[k], r1));
                }
            }
            lemma_find_key_unique(rs, r2, i);
            assert forall|k: int| 0 <= k < i implies !key_eq(rs2[k], r2) by {
                assert(rs2[k] == rs[k]);
            }
            lemma_find_key_unique(rs2, r2, i);
            assert(rs2.update(i, r2) =~= rs.update(i, r2));
        },
        None => {
            let n = rs.len() as int;
            let rs2 = rs.push(r1);
            match find_key(rs, r2) {
                Some(j) => {
                    assert(key_eq(rs[j], r1));
                    assert(false);
                },
                None => {},
            }
            assert forall|k: int| 0 <= k < n implies !key_eq(rs2[k], r2) by {
                assert(rs2[k] == rs[k]);
            }
            lemma_find_key_unique(rs2, r2, n);
            assert(rs2.update(n, r2) =~= rs.push(r2));
        },
    }
}

/// Ingesting one valid cookie and then querying the URL it was set from
/// returns its name and value, provided the resolved record matches that
/// URL then: it is not already expired, its path covers the request
/// path, and a Secure cookie was set over an encrypted scheme.
pub proof fn lemma_ingest_then_query(rs: Seq<SpecRecord>, c: SpecCookie, u: UrlParts, now: i64)
    requires
        resolve_spec(c, u, now) is Some,
        record_matches(resolve_spec(c, u, now)->0, u, now),
    ensures
        query_spec(ingest_one_spec(rs, c, u, now), u, now).contains((c.name, c.value)),
{
    let rec = resolve_spec(c, u, now)->0;
    let rs2 = ingest_one_spec(rs, c, u, now);
    assert(rs2 == upsert_spec(rs, rec));
    assert(rec.name == c.name && rec.value == c.value);
    lemma_upsert_contains(rs, rec);
    let i = choose|i: int| 0 <= i < rs2.len() && #[trigger] rs2[i] == rec;
    lemma_query_exactly_matching(rs2, u, now, (c.name, c.value));
    assert(record_matches(rs2[i], u, now) && (c.name, c.value) == (rs2[i].name, rs2[i].value));
}

/// Ingesting the same cookie text twice from the same URL at the same
/// time leaves the store — and with it every query — unchanged: the
/// second ingestion overwrites the record with itself.
pub proof fn lemma_ingest_idempotent(rs: Seq<SpecRecord>, c: SpecCookie, u: UrlParts, now: i64)
    ensures
        ingest_one_spec(ingest_one_spec(rs, c, u, now), c, u, now) == ingest_one_spec(
            rs,
            c,
            u,
            now,
        ),
        forall|u2: UrlParts, t2: i64|
            query_spec(ingest_one_spec(ingest_one_spec(rs, c, u, now), c, u, now), u2, t2)
                == query_spec(ingest_one_spec(rs, c, u, now), u2, t2),
{
    match resolve_spec(c, u, now) {
        None => {},
        Some(rec) => {
            let rs2 = upsert_spec(rs, rec);
            crate::store::lemma_find_key(rs, rec);
            match find_key(rs, rec) {
                Some(i) => {
                    assert(rs2 == rs.update(i, rec));
                    assert(key_eq(rs2[i], rec));
                    assert(forall|k: int| 0 <= k < i ==> rs2[k] == rs[k]);
                    lemma_find_key_unique(rs2, rec, i);
                    assert(rs2.update(i, rec) =~= rs2);
                },
                None => {
                    let n = rs.len() as int;
                    assert(rs2 == rs.push(rec));
                    assert(rs2[n] == rec);
                    assert(forall|k: int| 0 <= k < n ==> rs2[k] == rs[k]);
                    lemma_find_key_unique(rs2, rec, n);
                    assert(rs2.update(n, rec) =~= rs2);
                },
            }
        },
    }
}

/// A cookie taken in with `Max-Age` at most zero, or whose `Expires`
/// instant is not after the query time, yields a record that matches no
/// URL from its ingestion time on: `query` never returns it.
pub proof fn lemma_expired_never_matches(c: SpecCookie, u: UrlParts, now: i64, later: i64)
    requires
        resolve_spec(c, u, now) is Some,
        now <= later,
        ({
            ||| c.max_age matches Some(m) && m <= 0
            ||| ({
                &&& c.max_age is None
                &&& c.expires matches Some(t) && t <= later
            })
        }),
    ensures
        forall|u2: UrlParts, t2: i64|
            t2 >= later ==> !record_matches(resolve_spec(c, u, now)->0, u2, t2),
{
    let rec = resolve_spec(c, u, now)->0;
    match c.max_age {
        Some(m) => {
            assert(rec.expiry == Expiry::AtSeconds(sat_add_spec(now, m)));
            assert(sat_add_spec(now, m) <= now);
        },
        None => {},
    }
    assert forall|u2: UrlParts, t2: i64| t2 >= later implies !record_matches(rec, u2, t2) by {
        assert(!fresh_at(rec.expiry, t2));
    }
}

/// Domain scoping: a host-only record answers only the exact host that
/// set it; a record with a Domain attribute answers every host the
/// domain covers, the host itself or any dot-separated subdomain.
pub proof fn lemma_domain_scoping(r: SpecRecord, u: UrlParts, now: i64)
    ensures
        r.host_only && !eq_ci(r.domain, u.host@) ==> !record_matches(r, u, now),
        (!r.host_only && domain_match(r.domain, u.host@) && fresh_at(r.expiry, now)
            && is_prefix_spec(r.path, u.path@) && (r.secure ==> u.secure)) ==> record_matches(
            r,
            u,
            now,
        ),
{
}

/// Secure scoping: over a non-encrypted scheme a Secure record never
/// matches, so everything `query` returns there comes from a record
/// without the Secure flag.
pub proof fn lemma_secure_scoping(
    rs: Seq<SpecRecord>,
    u: UrlParts,
    now: i64,
    p: (Seq<char>, Seq<char>),
)
    requires
        !u.secure,
    ensures
        forall|i: int|
            0 <= i < rs.len() && rs[i].secure ==> !(#[trigger] record_matches(rs[i], u, now)),
        query_spec(rs, u, now).contains(p) ==> exists|i: int|
            0 <= i < rs.len() && !rs[i].secure && #[trigger] record_matches(rs[i], u, now) && p
                == (rs[i].name, rs[i].value),
{
    lemma_query_exactly_matching(rs, u, now, p);
}

/// The default path derived from a well-formed request path is always a
/// prefix of it: a cookie set without a Path attribute is returned for
/// the URL that set it.
pub proof fn lemma_default_path_prefix(p: Seq<char>)
    requires
        p.len() > 0,
        p[0] == '/',
    ensures
        is_prefix_spec(default_path_spec(p), p),
{
    lemma_last_index_of_spec(p, '/');
    match last_index_of_spec(p, '/') {
        Some(k) => {
            if k == 0 {
                assert(p.subrange(0, 1) =~= seq!['/']);
            } else {
                assert(p.subrange(0, k) == default_path_spec(p));
            }
        },
        None => {
            assert(false);
        },
    }
}

} // verus!
