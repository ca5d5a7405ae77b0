//! The target of a request: its path and its query.

use vstd::prelude::*;

use crate::http::params::{get_from_params, lookup, pairs};
use crate::tracker::announce::text_of;

verus! {

/// The segments of the path of the request target `raw`, still
/// percent-encoded: none if `raw` is no target of a request to an HTTP
/// server.
pub uninterp spec fn url_path(raw: Seq<char>) -> Option<Seq<Seq<char>>>;

/// The parameters of the query of the request target `raw`, decoded, in
/// their order: none if `raw` has no query or is no target of a request
/// to an HTTP server.
pub uninterp spec fn url_query(raw: Seq<char>) -> Option<Seq<(Seq<char>, Seq<char>)>>;

/// The segments of a path, if there is one.
pub open spec fn segments_view(path: Option<Vec<String>>) -> Option<Seq<Seq<char>>> {
    match path {
        Some(path) => Some(path@.map_values(|s: String| s@)),
        None => None,
    }
}

/// The parameters of a query, if there is one.
pub open spec fn query_view(params: Option<Vec<(String, String)>>) -> Option<
    Seq<(Seq<char>, Seq<char>)>,
> {
    match params {
        Some(params) => Some(pairs(params@)),
        None => None,
    }
}

/// The segments of the path of a request target.
///
/// Resolves `raw` against `http://localhost` with `url::Url::join` and
/// reads the result with `url::Url::path_segments`. The contract gives
/// the result a name and claims no more of it.
#[verifier::external_body]
fn path_segments(raw: &str) -> (path: Option<Vec<String>>)
    ensures
        segments_view(path) == url_path(raw@),
{
    let url = url::Url::parse("http://localhost").ok()?.join(raw).ok()?;
    Some(url.path_segments()?.map(String::from).collect())
}

/// The parameters of the query of a request target.
///
/// Resolves `raw` against `http://localhost` with `url::Url::join` and
/// reads the result with `url::Url::query_pairs` if `url::Url::query`
/// finds a query. The contract gives the result a name and claims no
/// more of it.
#[verifier::external_body]
fn query_pairs(raw: &str) -> (params: Option<Vec<(String, String)>>)
    ensures
        query_view(params) == url_query(raw@),
{
    let url = url::Url::parse("http://localhost").ok()?.join(raw).ok()?;
    url.query().map(|_| url.query_pairs().into_owned().collect())
}

/// The target of a request, taken apart.
pub struct Target {
    pub path: Option<Vec<String>>,
    pub params: Option<Vec<(String, String)>>,
}

/// Takes the target of a request apart.
pub fn split_target(raw: &str) -> (target: Target)
    ensures
        segments_view(target.path) == url_path(raw@),
        query_view(target.params) == url_query(raw@),
{
    Target { path: path_segments(raw), params: query_pairs(raw) }
}

/// The texts in which a request names addresses of its peer.
pub struct AddressTexts {
    pub ip: Option<String>,
    pub ipv4: Option<String>,
    pub ipv6: Option<String>,
}

/// The value of parameter `key`, if there are parameters and one is so
/// called.
pub open spec fn param(params: Option<Seq<(Seq<char>, Seq<char>)>>, key: Seq<char>) -> Option<
    Seq<char>,
> {
    match params {
        Some(params) => lookup(params, key),
        None => None,
    }
}

/// The value of parameter `key`, if there is one.
fn find_param(params: &Vec<(String, String)>, key: &str) -> (value: Option<String>)
    ensures
        text_of(value) == lookup(pairs(params@), key@),
{
    match get_from_params(params, key) {
        Ok(value) => Some(value),
        Err(_) => None,
    }
}

/// The values of the parameters `ip`, `ipv4` and `ipv6`, which are to be
/// read as addresses.
pub fn address_texts(params: &Option<Vec<(String, String)>>) -> (texts: AddressTexts)
    ensures
        text_of(texts.ip) == param(query_view(*params), "ip"@),
        text_of(texts.ipv4) == param(query_view(*params), "ipv4"@),
        text_of(texts.ipv6) == param(query_view(*params), "ipv6"@),
{
    match params {
        Some(params) => AddressTexts {
            ip: find_param(params, "ip"),
            ipv4: find_param(params, "ipv4"),
            ipv6: find_param(params, "ipv6"),
        },
        None => AddressTexts { ip: None, ipv4: None, ipv6: None },
    }
}

} // verus!
