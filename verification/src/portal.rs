//! The portal client's decision logic.
//!
//! The portal answers every request with an HTML page, and all meaning is
//! carried by fixed German-language marker phrases in that text. This module
//! holds the three decisions the client makes: reading the caller's
//! registered IP off the status page, and classifying the login and logout
//! responses; and it builds the form fields the two POST requests submit.
//! Sending the requests themselves is the unverified caller's business.

use vstd::prelude::*;
use vstd::string::StrSliceExecFns;
use vstd::string::StringExecFns;

use crate::ipv4::Ipv4Address;
use crate::ipv4::format_ipv4;
use crate::ipv4::ipv4_chars;
use crate::ipv4::lemma_ipv4_chars_digits_or_dots;
use crate::ipv4::lemma_ipv4_chars_injective;
use crate::ipv4::parse_ipv4;
use crate::ipv4::parse_ipv4_spec;
use crate::scan::contains_seq;
use crate::scan::find_first;
use crate::scan::find_str;
use crate::scan::first_match_at;
use crate::scan::lemma_contains_iff_found;
use crate::scan::lemma_find_first_correct;
use crate::scan::lemma_find_first_of_first;
use crate::scan::match_at;
use crate::scan::str_contains;

verus! {

/// Status-page URL the caller should GET before `extract_local_ip`.
pub const STATUS_URL: &'static str = "https://login.ruhr-uni-bochum.de/cgi-bin/start";

/// Form-submission URL the caller should POST the login and logout forms to.
pub const FORM_URL: &'static str = "https://login.ruhr-uni-bochum.de/cgi-bin/laklogin";

/// Marker telling the caller it is not on the managed network.
pub open spec fn not_on_network_marker() -> Seq<char> {
    "befinden sich an einem Arbeitsplatz der nicht Lock-And-Key"@
}

/// Marker directly preceding the embedded IP literal on the status page.
pub open spec fn ip_prefix_marker() -> Seq<char> {
    "name=\"ipaddr\" value=\""@
}

/// Terminator of the embedded IP literal.
pub open spec fn quote_marker() -> Seq<char> {
    "\""@
}

/// Marker of a successful login.
pub open spec fn login_success_marker() -> Seq<char> {
    "Authentisierung gelungen"@
}

/// Marker of a rejected login (the portal reuses it for failed logouts).
pub open spec fn auth_failure_marker() -> Seq<char> {
    "Authentisierung fehlgeschlagen"@
}

/// Marker of a successful logout.
pub open spec fn logout_success_marker() -> Seq<char> {
    "Logout erfolgreich"@
}

/// Failure of the status-page scrape: the page did not have the expected
/// shape. Distinct from a transport failure, which the caller sees before
/// this library is ever reached.
#[derive(Clone, Copy, PartialEq, Eq, Structural, Debug)]
pub enum ExtractError {
    /// A marker substring was missing from the page.
    MarkerNotFound,
    /// The text between the markers was not a canonical IPv4 literal.
    InvalidIpLiteral,
}

/// Failure reported by the portal in a login or logout response.
#[derive(Clone, Copy, PartialEq, Eq, Structural, Debug)]
pub enum PortalError {
    /// The portal explicitly rejected the request.
    AuthenticationFailed,
    /// The response matched no known marker; the page may have changed.
    UnexpectedResponse,
}

/// What `extract_local_ip` returns on a given status-page body: `Ok(None)`
/// when the page says the caller is off the managed network, otherwise the
/// address between the first extraction marker and the next quote.
pub open spec fn extract_local_ip_spec(body: Seq<char>) -> Result<
    Option<Ipv4Address>,
    ExtractError,
> {
    if contains_seq(body, not_on_network_marker()) {
        Ok(None)
    } else {
        match find_first(body, ip_prefix_marker()) {
            Option::None => Err(ExtractError::MarkerNotFound),
            Option::Some(i) => {
                let rest = body.skip(i + ip_prefix_marker().len() as int);
                match find_first(rest, quote_marker()) {
                    Option::None => Err(ExtractError::MarkerNotFound),
                    Option::Some(j) => match parse_ipv4_spec(rest.take(j)) {
                        Option::Some(ip) => Ok(Some(ip)),
                        Option::None => Err(ExtractError::InvalidIpLiteral),
                    },
                }
            },
        }
    }
}

/// Reads the caller's registered IP off the status-page body.
pub fn extract_local_ip(body: &str) -> (r: Result<Option<Ipv4Address>, ExtractError>)
    ensures
        r == extract_local_ip_spec(body@),
{
    if str_contains(body, "befinden sich an einem Arbeitsplatz der nicht Lock-And-Key") {
        return Ok(None);
    }
    let prefix = "name=\"ipaddr\" value=\"";
    let start = match find_str(body, prefix) {
        Some(i) => i,
        None => {
            return Err(ExtractError::MarkerNotFound);
        },
    };
    proof {
        lemma_find_first_correct(body@, prefix@);
    }
    let len = body.unicode_len();
    let value_start = start + prefix.unicode_len();
    let rest = body.substring_char(value_start, len);
    proof {
        assert(rest@ =~= body@.skip(start + ip_prefix_marker().len() as int));
    }
    let end = match find_str(rest, "\"") {
        Some(j) => j,
        None => {
            return Err(ExtractError::MarkerNotFound);
        },
    };
    proof {
        lemma_find_first_correct(rest@, "\""@);
    }
    let lit = rest.substring_char(0, end);
    proof {
        assert(lit@ =~= rest@.take(end as int));
    }
    match parse_ipv4(lit) {
        Some(ip) => Ok(Some(ip)),
        None => Err(ExtractError::InvalidIpLiteral),
    }
}

/// What `classify_login_response` returns on a given body: the success marker
/// is checked first, the explicit-failure marker second.
pub open spec fn login_response_spec(body: Seq<char>) -> Result<(), PortalError> {
    if contains_seq(body, login_success_marker()) {
        Ok(())
    } else if contains_seq(body, auth_failure_marker()) {
        Err(PortalError::AuthenticationFailed)
    } else {
        Err(PortalError::UnexpectedResponse)
    }
}

/// Classifies the body of a login response.
pub fn classify_login_response(body: &str) -> (r: Result<(), PortalError>)
    ensures
        r == login_response_spec(body@),
{
    if str_contains(body, "Authentisierung gelungen") {
        Ok(())
    } else if str_contains(body, "Authentisierung fehlgeschlagen") {
        Err(PortalError::AuthenticationFailed)
    } else {
        Err(PortalError::UnexpectedResponse)
    }
}

/// What `classify_logout_response` returns on a given body: the logout
/// success marker is checked first; the portal reuses its authentication
/// failure phrase for failed logouts.
pub open spec fn logout_response_spec(body: Seq<char>) -> Result<(), PortalError> {
    if contains_seq(body, logout_success_marker()) {
        Ok(())
    } else if contains_seq(body, auth_failure_marker()) {
        Err(PortalError::AuthenticationFailed)
    } else {
        Err(PortalError::UnexpectedResponse)
    }
}

/// Classifies the body of a logout response.
pub fn classify_logout_response(body: &str) -> (r: Result<(), PortalError>)
    ensures
        r == logout_response_spec(body@),
{
    if str_contains(body, "Logout erfolgreich") {
        Ok(())
    } else if str_contains(body, "Authentisierung fehlgeschlagen") {
        Err(PortalError::AuthenticationFailed)
    } else {
        Err(PortalError::UnexpectedResponse)
    }
}

/// The form fields of a login request for `ip` under the given credentials.
pub fn login_form(username: &str, password: &str, ip: Ipv4Address) -> (r: Vec<(String, String)>)
    ensures
        r@.len() == 5,
        r@[0].0@ == "code"@ && r@[0].1@ == "1"@,
        r@[1].0@ == "loginid"@ && r@[1].1@ == username@,
        r@[2].0@ == "password"@ && r@[2].1@ == password@,
        r@[3].0@ == "ipaddr"@ && r@[3].1@ == ipv4_chars(ip),
        r@[4].0@ == "action"@ && r@[4].1@ == "Login"@,
{
    let mut r: Vec<(String, String)> = Vec::new();
    r.push(("code".to_owned(), "1".to_owned()));
    r.push(("loginid".to_owned(), username.to_owned()));
    r.push(("password".to_owned(), password.to_owned()));
    r.push(("ipaddr".to_owned(), format_ipv4(ip)));
    r.push(("action".to_owned(), "Login".to_owned()));
    r
}

/// The form fields of a logout request for `ip`: same shape as a login, with
/// empty credentials.
pub fn logout_form(ip: Ipv4Address) -> (r: Vec<(String, String)>)
    ensures
        r@.len() == 5,
        r@[0].0@ == "code"@ && r@[0].1@ == "1"@,
        r@[1].0@ == "loginid"@ && r@[1].1@ == ""@,
        r@[2].0@ == "password"@ && r@[2].1@ == ""@,
        r@[3].0@ == "ipaddr"@ && r@[3].1@ == ipv4_chars(ip),
        r@[4].0@ == "action"@ && r@[4].1@ == "Logout"@,
{
    let mut r: Vec<(String, String)> = Vec::new();
    r.push(("code".to_owned(), "1".to_owned()));
    r.push(("loginid".to_owned(), "".to_owned()));
    r.push(("password".to_owned(), "".to_owned()));
    r.push(("ipaddr".to_owned(), format_ipv4(ip)));
    r.push(("action".to_owned(), "Logout".to_owned()));
    r
}

/// A status-page body with the canonical text of `ip` embedded between the
/// extraction markers.
pub open spec fn status_page_with_ip(pre: Seq<char>, ip: Ipv4Address, post: Seq<char>) -> Seq<
    char,
> {
    pre + ip_prefix_marker() + ipv4_chars(ip) + quote_marker() + post
}

/// Law: whenever a canonical IPv4 literal stands between the extraction
/// markers of a status page that does not carry the off-network phrase, and
/// the extraction marker first occurs right before that literal, the page
/// yields exactly that address.
pub proof fn lemma_embedded_ip_is_extracted(pre: Seq<char>, ip: Ipv4Address, post: Seq<char>)
    requires
        !contains_seq(status_page_with_ip(pre, ip, post), not_on_network_marker()),
        first_match_at(status_page_with_ip(pre, ip, post), ip_prefix_marker(), pre.len() as int),
    ensures
        extract_local_ip_spec(status_page_with_ip(pre, ip, post)) == Ok::<_, ExtractError>(
            Some(ip),
        ),
{
    reveal_strlit("\"");
    let body = status_page_with_ip(pre, ip, post);
    lemma_find_first_of_first(body, ip_prefix_marker(), pre.len() as int);
    let rest = body.skip(pre.len() + ip_prefix_marker().len() as int);
    assert(rest =~= ipv4_chars(ip) + quote_marker() + post);
    let l = ipv4_chars(ip).len() as int;
    assert(quote_marker().len() == 1);
    assert(rest.subrange(l, l + 1) =~= quote_marker());
    assert(match_at(rest, quote_marker(), l));
    lemma_ipv4_chars_digits_or_dots(ip);
    assert forall|j: int| 0 <= j < l implies !match_at(rest, quote_marker(), j) by {
        if match_at(rest, quote_marker(), j) {
            assert(rest.subrange(j, j + 1)[0] == rest[j]);
            assert(rest[j] == ipv4_chars(ip)[j]);
            assert(rest[j] == '"');
        }
    }
    lemma_find_first_of_first(rest, quote_marker(), l);
    assert(rest.take(l) =~= ipv4_chars(ip));
    assert(parse_ipv4_spec(rest.take(l)) == Some(ip)) by {
        let other = choose|x: Ipv4Address| rest.take(l) == ipv4_chars(x);
        assert(rest.take(l) == ipv4_chars(ip));
        lemma_ipv4_chars_injective(ip, other);
    }
}

/// Law: the off-network phrase decides the outcome by itself; whatever else
/// the body holds, the result is "no address, and no error".
pub proof fn lemma_off_network_wins(body: Seq<char>)
    requires
        contains_seq(body, not_on_network_marker()),
    ensures
        extract_local_ip_spec(body) == Ok::<Option<Ipv4Address>, ExtractError>(None),
{
}

/// Law: a body without the off-network phrase and without the extraction
/// marker fails as a scrape error, never as anything else.
pub proof fn lemma_missing_marker_fails(body: Seq<char>)
    requires
        !contains_seq(body, not_on_network_marker()),
        !contains_seq(body, ip_prefix_marker()),
    ensures
        extract_local_ip_spec(body) == Err::<Option<Ipv4Address>, ExtractError>(
            ExtractError::MarkerNotFound,
        ),
{
    lemma_contains_iff_found(body, ip_prefix_marker());
}

/// Law: a login succeeds exactly when the body carries the success marker,
/// which takes priority over the failure marker; the explicit failure comes
/// exactly when only the failure marker is present; anything else is an
/// unexpected response.
pub proof fn lemma_login_classification(body: Seq<char>)
    ensures
        login_response_spec(body) == Ok::<(), PortalError>(()) <==> contains_seq(
            body,
            login_success_marker(),
        ),
        login_response_spec(body) == Err::<(), PortalError>(PortalError::AuthenticationFailed)
            <==> !contains_seq(body, login_success_marker()) && contains_seq(
            body,
            auth_failure_marker(),
        ),
        login_response_spec(body) == Err::<(), PortalError>(PortalError::UnexpectedResponse)
            <==> !contains_seq(body, login_success_marker()) && !contains_seq(
            body,
            auth_failure_marker(),
        ),
{
}

/// Law: a logout succeeds exactly when the body carries the logout success
/// marker; the portal's reused authentication-failure phrase decides the
/// explicit failure; anything else is an unexpected response.
pub proof fn lemma_logout_classification(body: Seq<char>)
    ensures
        logout_response_spec(body) == Ok::<(), PortalError>(()) <==> contains_seq(
            body,
            logout_success_marker(),
        ),
        logout_response_spec(body) == Err::<(), PortalError>(PortalError::AuthenticationFailed)
            <==> !contains_seq(body, logout_success_marker()) && contains_seq(
            body,
            auth_failure_marker(),
        ),
        logout_response_spec(body) == Err::<(), PortalError>(PortalError::UnexpectedResponse)
            <==> !contains_seq(body, logout_success_marker()) && !contains_seq(
            body,
            auth_failure_marker(),
        ),
{
}

impl ExtractError {
    /// Short description for diagnostics.
    pub fn describe(&self) -> (r: &'static str)
        ensures
            *self == ExtractError::MarkerNotFound ==> r@ == "failed to extract ip from response"@,
            *self == ExtractError::InvalidIpLiteral ==> r@ == "failed to parse the ip"@,
    {
        match self {
            ExtractError::MarkerNotFound => "failed to extract ip from response",
            ExtractError::InvalidIpLiteral => "failed to parse the ip",
        }
    }
}

impl PortalError {
    /// Short description for diagnostics.
    pub fn describe(&self) -> (r: &'static str)
        ensures
            *self == PortalError::AuthenticationFailed ==> r@ == "Authentication failed"@,
            *self == PortalError::UnexpectedResponse ==> r@ == "Unexpected response"@,
    {
        match self {
            PortalError::AuthenticationFailed => "Authentication failed",
            PortalError::UnexpectedResponse => "Unexpected response",
        }
    }
}

} // verus!
