//! Web addresses.
use vstd::prelude::*;

verus! {

/// The address that the url crate makes of an address and one query parameter, or the text of the
/// error that it reports.
pub uninterp spec fn url_with_param(base: Seq<char>, key: Seq<char>, value: Seq<char>) -> Result<
    Seq<char>,
    Seq<char>,
>;

/// `url::Url::parse_with_params` with one parameter, and the address that comes out as text. The
/// result is the one that `url_with_param` stands for. The address that goes in is short and has no
/// fragment, as the url crate counts its length, and where a fragment starts, in 32 bits.
#[verifier::external_body]
pub(crate) fn parse_with_param(base: &str, key: &str, value: &str) -> (r: Result<String, String>)
    requires
        base@.len() < 1000,
        !base@.contains('#'),
    ensures
        match r {
            Ok(address) => url_with_param(base@, key@, value@) == Ok::<Seq<char>, Seq<char>>(address@),
            Err(message) => url_with_param(base@, key@, value@) == Err::<Seq<char>, Seq<char>>(message@),
        },
{
    match url::Url::parse_with_params(base, &[(key, value)]) {
        Ok(url) => Ok(url.to_string()),
        Err(error) => Err(error.to_string()),
    }
}

/// The host that an address names, as the url crate reads it.
pub uninterp spec fn url_host(address: Seq<char>) -> Option<Seq<char>>;

/// `url::Url::host_str` of an address. The result is the one that `url_host` stands for; there is
/// none where the address does not parse.
#[verifier::external_body]
pub(crate) fn host_of(address: &str) -> (r: Option<String>)
    ensures
        r is Some <==> url_host(address@) is Some,
        r matches Some(host) ==> url_host(address@) == Some(host@),
{
    url::Url::parse(address).ok().and_then(|url| url.host_str().map(str::to_owned))
}

} // verus!
