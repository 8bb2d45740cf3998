//! Derivation of the store's URL view from a request's addressing text.
use vstd::prelude::*;

use crate::store::{url_wf, UrlParts};
use crate::strutil::str_eq;

verus! {

/// What `url::Url::parse` computes, from the URL text alone: the scheme,
/// host and path of an absolute URL that has a host, or `None`. Named
/// here, not restated.
pub uninterp spec fn url_split_of(s: Seq<char>) -> Option<(Seq<char>, Seq<char>, Seq<char>)>;

/// Whether the URL text is accepted here: it splits, and its host is
/// non-empty.
pub open spec fn url_text_accepted(s: Seq<char>) -> bool {
    url_split_of(s) matches Some(t) && t.1.len() > 0
}

/// An encrypted scheme: `https` or `wss`.
pub open spec fn secure_scheme(scheme: Seq<char>) -> bool {
    scheme == "https"@ || scheme == "wss"@
}

/// The path as the store uses it: kept when rooted, the root otherwise.
pub open spec fn rooted_path(p: Seq<char>) -> Seq<char> {
    if p.len() > 0 && p[0] == '/' {
        p
    } else {
        seq!['/']
    }
}

/// `u` is the store's view of the URL text `s`: the named split accepted
/// it, `secure` holds exactly for an encrypted scheme, the host is the
/// split's host, and the path is the split's path, rooted.
pub open spec fn is_parsed_request_url(s: Seq<char>, u: UrlParts) -> bool {
    &&& url_text_accepted(s)
    &&& (u.secure <==> secure_scheme((url_split_of(s)->0).0))
    &&& u.host@ == (url_split_of(s)->0).1
    &&& u.path@ == rooted_path((url_split_of(s)->0).2)
}

/// Relies on `url::Url::parse` and its accessors `scheme`, `host_str`
/// and `path`: splits an absolute URL text into scheme, host and path,
/// or `None` when the text is not an absolute URL with a host — the
/// result `url_split_of` of the text alone.
#[verifier::external_body]
fn split_url(s: &str) -> (r: Option<(String, String, String)>)
    ensures
        match r {
            Some(t) => url_split_of(s@) == Some((t.0@, t.1@, t.2@)),
            None => url_split_of(s@) is None,
        },
{
    match url::Url::parse(s) {
        Ok(u) => {
            let host = match u.host_str() {
                Some(h) => h.to_owned(),
                None => {
                    return None;
                },
            };
            Some((u.scheme().to_owned(), host, u.path().to_owned()))
        },
        Err(_) => None,
    }
}

/// The store's view of a request URL: accepted exactly when the text is
/// an absolute URL with a non-empty host; then `secure` holds exactly
/// for the encrypted schemes `https` and `wss`, the host is the URL's
/// host, and the path is the URL's path, rooted — so every accepted URL
/// is well-formed for the store.
pub fn parse_request_url(s: &str) -> (r: Option<UrlParts>)
    ensures
        r is Some <==> url_text_accepted(s@),
        r matches Some(u) ==> is_parsed_request_url(s@, u) && url_wf(u),
{
    match split_url(s) {
        Some((scheme, host, path)) => {
            if host.unicode_len() == 0 {
                return None;
            }
            let secure = str_eq(scheme.as_str(), "https") || str_eq(scheme.as_str(), "wss");
            let pn = path.unicode_len();
            let rooted: String = if pn == 0 || path.as_str().get_char(0) != '/' {
                let root = "/".to_owned();
                proof {
                    reveal_strlit("/");
                    assert(root@ =~= seq!['/']);
                }
                root
            } else {
                path
            };
            Some(UrlParts { secure, host, path: rooted })
        },
        None => None,
    }
}

} // verus!
