use url::{ParseError, Url};
use vstd::prelude::*;

verus! {

#[verifier::external_type_specification]
#[verifier::external_body]
pub struct ExUrl(Url);

#[verifier::external_type_specification]
#[verifier::external_body]
pub struct ExParseError(ParseError);

/// Why an address did not parse: one variant for each of `url::ParseError`,
/// and `Other` with the message of any variant a later `url` adds.
#[derive(Debug, Clone, PartialEq, Eq)]
pub enum UrlError {
    EmptyHost,
    IdnaError,
    InvalidPort,
    InvalidIpv4Address,
    InvalidIpv6Address,
    InvalidDomainCharacter,
    RelativeUrlWithoutBase,
    RelativeUrlWithCannotBeABaseBase,
    SetHostOnCannotBeABaseUrl,
    Overflow,
    Other(String),
}

/// What `url::Url::parse` returns for the text `s`.
pub uninterp spec fn url_parse_result(s: Seq<char>) -> Result<Url, ParseError>;

/// The variant of `UrlError` that stands for `e`.
pub uninterp spec fn url_error_of(e: ParseError) -> UrlError;

/// Calls `url::Url::parse` on `s`; the outcome is named, not described
/// (it follows the WHATWG URL standard).
#[verifier::external_body]
fn url_parse(s: &str) -> (r: Result<Url, ParseError>)
    ensures
        r == url_parse_result(s@),
{
    Url::parse(s)
}

/// Tells the variants of `url::ParseError` apart, one arm each; a variant
/// that a later `url` adds keeps its `Display` text.
#[verifier::external_body]
fn url_error_kind(e: ParseError) -> (r: UrlError)
    ensures
        r == url_error_of(e),
{
    match e {
        ParseError::EmptyHost => UrlError::EmptyHost,
        ParseError::IdnaError => UrlError::IdnaError,
        ParseError::InvalidPort => UrlError::InvalidPort,
        ParseError::InvalidIpv4Address => UrlError::InvalidIpv4Address,
        ParseError::InvalidIpv6Address => UrlError::InvalidIpv6Address,
        ParseError::InvalidDomainCharacter => UrlError::InvalidDomainCharacter,
        ParseError::RelativeUrlWithoutBase => UrlError::RelativeUrlWithoutBase,
        ParseError::RelativeUrlWithCannotBeABaseBase => UrlError::RelativeUrlWithCannotBeABaseBase,
        ParseError::SetHostOnCannotBeABaseUrl => UrlError::SetHostOnCannotBeABaseUrl,
        ParseError::Overflow => UrlError::Overflow,
        other => UrlError::Other(other.to_string()),
    }
}

/// The message of an error, as `url::ParseError`'s `Display` writes it.
pub open spec fn url_error_text(e: UrlError) -> Seq<char> {
    match e {
        UrlError::EmptyHost => "empty host"@,
        UrlError::IdnaError => "invalid international domain name"@,
        UrlError::InvalidPort => "invalid port number"@,
        UrlError::InvalidIpv4Address => "invalid IPv4 address"@,
        UrlError::InvalidIpv6Address => "invalid IPv6 address"@,
        UrlError::InvalidDomainCharacter => "invalid domain character"@,
        UrlError::RelativeUrlWithoutBase => "relative URL without a base"@,
        UrlError::RelativeUrlWithCannotBeABaseBase => "relative URL with a cannot-be-a-base base"@,
        UrlError::SetHostOnCannotBeABaseUrl => "a cannot-be-a-base URL doesn\u{2019}t have a host to set"@,
        UrlError::Overflow => "URLs more than 4 GB are not supported"@,
        UrlError::Other(text) => text@,
    }
}

/// The message given back for an address that does not parse.
pub open spec fn invalid_url_message(e: UrlError) -> Seq<char> {
    "Invalid URL: "@ + url_error_text(e)
}

/// The parsed address of a pin, or the message shown when it does not parse.
pub open spec fn pin_url_outcome(parsed: Result<Url, UrlError>) -> Result<Url, Seq<char>> {
    match parsed {
        Ok(u) => Ok(u),
        Err(e) => Err(invalid_url_message(e)),
    }
}

/// The outcome of `url::Url::parse` on `s`, its error told apart.
pub open spec fn classified_parse(s: Seq<char>) -> Result<Url, UrlError> {
    match url_parse_result(s) {
        Ok(u) => Ok(u),
        Err(e) => Err(url_error_of(e)),
    }
}

/// The message of `e`.
pub fn url_error_message(e: &UrlError) -> (text: String)
    ensures
        text@ == url_error_text(*e),
{
    match e {
        UrlError::EmptyHost => String::from_str("empty host"),
        UrlError::IdnaError => String::from_str("invalid international domain name"),
        UrlError::InvalidPort => String::from_str("invalid port number"),
        UrlError::InvalidIpv4Address => String::from_str("invalid IPv4 address"),
        UrlError::InvalidIpv6Address => String::from_str("invalid IPv6 address"),
        UrlError::InvalidDomainCharacter => String::from_str("invalid domain character"),
        UrlError::RelativeUrlWithoutBase => String::from_str("relative URL without a base"),
        UrlError::RelativeUrlWithCannotBeABaseBase => String::from_str(
            "relative URL with a cannot-be-a-base base",
        ),
        UrlError::SetHostOnCannotBeABaseUrl => String::from_str(
            "a cannot-be-a-base URL doesn\u{2019}t have a host to set",
        ),
        UrlError::Overflow => String::from_str("URLs more than 4 GB are not supported"),
        UrlError::Other(text) => text.clone(),
    }
}

/// What the outcome of parsing a pin's address becomes: the address
/// itself, or the message `Invalid URL: ` followed by the parser's message.
pub fn pin_url_from_parse(parsed: Result<Url, UrlError>) -> (r: Result<Url, String>)
    ensures
        match (r, pin_url_outcome(parsed)) {
            (Ok(u), Ok(v)) => u == v,
            (Err(m), Err(t)) => m@ == t,
            _ => false,
        },
{
    match parsed {
        Ok(u) => Ok(u),
        Err(e) => {
            let mut msg = String::from_str("Invalid URL: ");
            let detail = url_error_message(&e);
            msg.append(detail.as_str());
            Err(msg)
        },
    }
}

/// Parses the address of a pin before its window is opened; an address
/// that does not parse gives `Invalid URL: ` and the parser's message.
pub fn parse_pin_url(url: &str) -> (r: Result<Url, String>)
    ensures
        match (r, pin_url_outcome(classified_parse(url@))) {
            (Ok(u), Ok(v)) => u == v,
            (Err(m), Err(t)) => m@ == t,
            _ => false,
        },
{
    let parsed = match url_parse(url) {
        Ok(u) => Ok(u),
        Err(e) => Err(url_error_kind(e)),
    };
    pin_url_from_parse(parsed)
}

} // verus!
