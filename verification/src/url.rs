//! What is taken out of an address.
use vstd::prelude::*;

verus! {

/// The host that `Url::parse` and `Url::host_str` find in an address.
pub uninterp spec fn url_host(url: Seq<char>) -> Option<Seq<char>>;

/// The path segments that `Url::parse` and `Url::path_segments` find in an address.
pub uninterp spec fn url_segments(url: Seq<char>) -> Option<Seq<Seq<char>>>;

/// The host of an address: `reqwest::Url::parse`, then `Url::host_str`. There is none if
/// the address cannot be parsed or has no host. What it is depends on the address alone.
#[verifier::external_body]
pub(crate) fn parsed_host(url: &str) -> (r: Option<String>)
    ensures
        r is Some <==> url_host(url@) is Some,
        r matches Some(host) ==> url_host(url@) == Some(host@),
{
    match reqwest::Url::parse(url) {
        Ok(u) => u.host_str().map(|s| s.to_string()),
        Err(_) => None,
    }
}

/// The path segments of an address: `reqwest::Url::parse`, then `Url::path_segments`.
/// There are none if the address cannot be parsed or its path does not begin with a
/// slash. What they are depends on the address alone.
#[verifier::external_body]
pub(crate) fn parsed_segments(url: &str) -> (r: Option<Vec<String>>)
    ensures
        r is Some <==> url_segments(url@) is Some,
        r matches Some(v) ==> {
            &&& v@.len() == url_segments(url@)->0.len()
            &&& forall|i: int|
                0 <= i < v@.len() ==> (#[trigger] v@[i])@ == url_segments(url@)->0[i]
        },
{
    match reqwest::Url::parse(url) {
        Ok(u) => u.path_segments().map(|s| s.map(|x| x.to_string()).collect()),
        Err(_) => None,
    }
}

/// The host of an address, if it has one.
pub fn host_of(url: &str) -> (r: Option<String>)
    ensures
        r is Some <==> url_host(url@) is Some,
        r matches Some(host) ==> url_host(url@) == Some(host@),
{
    parsed_host(url)
}

} // verus!
