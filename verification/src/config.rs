//! What a run is configured with: where the service is, which tournament is
//! meant, and what the operator asked for.

use crate::text::{decimal, join, to_decimal, trim, trim_end, trimmed, without_trailing};
use vstd::prelude::*;

verus! {

/// Where the service is and how to authenticate with it.
#[derive(Debug, Clone, PartialEq, Eq)]
pub struct Auth {
    /// Address of the service, without a slash at its end.
    pub tabbycat_url: String,
    pub tournament_slug: String,
    pub api_key: String,
}

/// The sheets and options of an import.
#[derive(Debug, Clone, PartialEq, Eq)]
pub struct Import {
    /// Path of the sheet of institutions.
    pub institutions_csv: Option<String>,
    /// Path of the sheet of judges.
    pub judges_csv: Option<String>,
    /// Path of the sheet of teams.
    pub teams_csv: Option<String>,
    /// Path of the sheet of clashes.
    pub clashes_csv: Option<String>,
    /// Path of the sheet of rooms.
    pub rooms: Option<String>,
    /// Put the institution in front of the names of every team. A row can ask
    /// for the prefix by itself.
    pub use_institution_prefix: bool,
    /// Delete all judges, teams and institutions before the import.
    pub overwrite: bool,
    /// Mark every new judge as available or unavailable in every round.
    pub set_availability: bool,
}

/// What `Url::parse` of the `url` crate makes of a text: the serialization of
/// the address, or nothing where the text is no absolute address.
pub uninterp spec fn url_serialization(s: Seq<char>) -> Option<Seq<char>>;

/// What `str::contains` with `char::is_whitespace` as the pattern returns for
/// a text: whether it holds a character of Unicode white space.
pub uninterp spec fn holds_white_space(s: Seq<char>) -> bool;

/// Calls `Url::parse` and `Url::as_str` of the `url` crate. The result is
/// named [`url_serialization`]; nothing else is claimed of it.
#[verifier::external_body]
fn parse_url(text: &str) -> (r: Option<String>)
    ensures
        crate::entities::opt_text(r) == url_serialization(text@),
{
    match url::Url::parse(text) {
        Ok(u) => Some(u.as_str().to_owned()),
        Err(_) => None,
    }
}

/// Calls `str::contains` with `char::is_whitespace` as the pattern. The result
/// is named [`holds_white_space`]; nothing else is claimed of it.
#[verifier::external_body]
fn has_white_space(text: &str) -> (r: bool)
    ensures
        r == holds_white_space(text@),
{
    text.contains(char::is_whitespace)
}

/// Why credentials were not accepted.
#[derive(Debug, Clone, Copy, PartialEq, Eq)]
pub enum CredentialError {
    /// The address is no absolute URL.
    InvalidUrl,
    /// The API key holds white space.
    KeyWithWhiteSpace,
}

/// The credentials made of a parsed address, a tournament slug and an API key
/// as they were typed in. The address loses the slashes at its end, and the
/// slug is trimmed.
pub fn credentials_from(address: Option<String>, slug: &str, api_key: String, spaced: bool) -> (r:
    Result<Auth, CredentialError>)
    ensures
        match r {
            Ok(auth) => address is Some && !spaced && auth.tabbycat_url@ == without_trailing(
                address->0@,
                '/',
            ) && auth.tournament_slug@ == trimmed(slug@) && auth.api_key@ == api_key@,
            Err(CredentialError::InvalidUrl) => address is None,
            Err(CredentialError::KeyWithWhiteSpace) => address is Some && spaced,
        },
{
    match address {
        None => Err(CredentialError::InvalidUrl),
        Some(a) => {
            if spaced {
                Err(CredentialError::KeyWithWhiteSpace)
            } else {
                Ok(
                    Auth {
                        tabbycat_url: trim_end(a.as_str(), '/'),
                        tournament_slug: trim(slug),
                        api_key,
                    },
                )
            }
        },
    }
}

/// The credentials made of what the operator typed in: the address of the
/// service, the tournament slug and the API key. The address is trimmed and
/// must be an absolute URL; the key must hold no white space.
pub fn accept_credentials(address: &str, slug: &str, api_key: String) -> (r: Result<
    Auth,
    CredentialError,
>)
    ensures
        match r {
            Ok(auth) => url_serialization(trimmed(address@)) is Some && !holds_white_space(
                api_key@,
            ) && auth.tabbycat_url@ == without_trailing(
                url_serialization(trimmed(address@))->0,
                '/',
            ) && auth.tournament_slug@ == trimmed(slug@) && auth.api_key@ == api_key@,
            Err(CredentialError::InvalidUrl) => url_serialization(trimmed(address@)) is None,
            Err(CredentialError::KeyWithWhiteSpace) => url_serialization(trimmed(address@))
                is Some && holds_white_space(api_key@),
        },
{
    let typed = trim(address);
    let parsed = parse_url(typed.as_str());
    let spaced = has_white_space(api_key.as_str());
    credentials_from(parsed, slug, api_key, spaced)
}

/// The root of the API: the address of the service and `/api/v1`.
pub open spec fn api_root(auth: Auth) -> Seq<char> {
    auth.tabbycat_url@ + "/api/v1"@
}

/// The address of a resource of the tournament.
pub open spec fn tournament_resource(auth: Auth, resource: Seq<char>) -> Seq<char> {
    api_root(auth) + "/tournaments/"@ + auth.tournament_slug@ + "/"@ + resource
}

/// The address under which all institutions are listed and created.
pub fn institutions_url(auth: &Auth) -> (r: String)
    ensures
        r@ == api_root(*auth) + "/institutions"@,
{
    let root = join(auth.tabbycat_url.as_str(), "/api/v1");
    join(root.as_str(), "/institutions")
}

/// The address of a resource of the tournament, such as `teams` or
/// `break-categories`.
pub fn tournament_url(auth: &Auth, resource: &str) -> (r: String)
    ensures
        r@ == tournament_resource(*auth, resource@),
{
    let root = join(auth.tabbycat_url.as_str(), "/api/v1");
    let a = join(root.as_str(), "/tournaments/");
    let b = join(a.as_str(), auth.tournament_slug.as_str());
    let c = join(b.as_str(), "/");
    join(c.as_str(), resource)
}

/// The address under which the availabilities of a round are set.
pub fn availabilities_url(auth: &Auth, round_seq: i64) -> (r: String)
    ensures
        r@ == tournament_resource(
            *auth,
            "rounds/"@ + decimal(round_seq as int) + "/availabilities"@,
        ),
{
    let seq = to_decimal(round_seq);
    let a = join("rounds/", seq.as_str());
    let b = join(a.as_str(), "/availabilities");
    tournament_url(auth, b.as_str())
}

/// The value of the `Authorization` header that every request carries.
pub fn authorization_header(api_key: &str) -> (r: String)
    ensures
        r@ == "Token "@ + api_key@,
{
    join("Token ", api_key)
}

} // verus!
