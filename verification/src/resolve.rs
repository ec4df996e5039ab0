//! The name that is looked up for a host argument.
//!
//! A host may be given with a scheme in front (`https://`). What is looked
//! up is the host without it: the pattern [`HOST_PATTERN`] takes a scheme,
//! letters and `://`, off the start where there is one, and captures all
//! that follows as its `domain`. A host without a scheme is looked up as it
//! is. Of the addresses that the lookup finds, the first is the target; a
//! lookup that finds none has failed.

use vstd::prelude::*;

verus! {

/// `regex::Error`, carried as a value that nothing here looks into.
#[verifier::external_type_specification]
#[verifier::external_body]
pub struct ExRegexError(regex::Error);

/// The pattern that a host argument is matched against: a scheme, if there
/// is one, and then the name to look up, which is the whole rest.
pub const HOST_PATTERN: &'static str = r"(?s)^([a-zA-Z]*://)?(?<domain>.*)";

/// The name of the group of [`HOST_PATTERN`] that holds the name to look up.
pub const DOMAIN_GROUP: &'static str = "domain";

/// Why a host argument gives no address.
#[derive(Debug, Clone, Copy, PartialEq, Eq, Structural)]
pub enum HostError {
    /// The pattern is no regular expression.
    BadPattern,
    /// The pattern does not match the host, or matches it without the
    /// group.
    NoHost,
    /// The lookup of the name found no address.
    Unresolved,
}

/// Whether `pattern` is a regular expression that the regex crate compiles.
pub uninterp spec fn pattern_compiles(pattern: Seq<char>) -> bool;

/// What the first match of `pattern` in `haystack` captures in the group
/// named `group`: `None` where there is no match, `Some(None)` where the
/// match has no such group or the group took no part in it, else the text of
/// the group.
pub uninterp spec fn captured(pattern: Seq<char>, group: Seq<char>, haystack: Seq<char>) -> Option<
    Option<Seq<char>>,
>;

/// A capture as plain text.
pub open spec fn capture_view(capture: Option<Option<String>>) -> Option<Option<Seq<char>>> {
    match capture {
        None => None,
        Some(None) => Some(None),
        Some(Some(text)) => Some(Some(text@)),
    }
}

/// Compiles `pattern` by `regex::Regex::new`, finds its first match in
/// `haystack` by `regex::Regex::captures` and takes the text of the group
/// `group` from it by `regex::Captures::name`.
///
/// Trusted: the pattern compiles or not, and the match captures what it
/// captures, as a function of these three texts alone. Nothing is claimed of
/// what that is.
#[verifier::external_body]
fn capture(pattern: &str, group: &str, haystack: &str) -> (r: Result<
    Option<Option<String>>,
    regex::Error,
>)
    ensures
        r is Ok <==> pattern_compiles(pattern@),
        r matches Ok(found) ==> capture_view(found) == captured(pattern@, group@, haystack@),
{
    let re = regex::Regex::new(pattern)?;
    Ok(re.captures(haystack).map(|caps| caps.name(group).map(|m| m.as_str().to_owned())))
}

/// The name to look up, given what the pattern captured in the host
/// argument.
pub fn domain_from(found: Result<Option<Option<String>>, regex::Error>) -> (r: Result<
    String,
    HostError,
>)
    ensures
        match found {
            Ok(Some(Some(text))) => r == Ok::<String, HostError>(text),
            Ok(_) => r == Err::<String, HostError>(HostError::NoHost),
            Err(_) => r == Err::<String, HostError>(HostError::BadPattern),
        },
{
    match found {
        Ok(Some(Some(text))) => Ok(text),
        Ok(_) => Err(HostError::NoHost),
        Err(_) => Err(HostError::BadPattern),
    }
}

/// The name to look up for the host argument `host`: what [`HOST_PATTERN`]
/// captures in it as its domain.
pub fn lookup_name(host: &str) -> (r: Result<String, HostError>)
    ensures
        !pattern_compiles(HOST_PATTERN@) ==> r == Err::<String, HostError>(HostError::BadPattern),
        pattern_compiles(HOST_PATTERN@) ==> match captured(HOST_PATTERN@, DOMAIN_GROUP@, host@) {
            Some(Some(text)) => r is Ok && r->Ok_0@ == text,
            _ => r == Err::<String, HostError>(HostError::NoHost),
        },
{
    domain_from(capture(HOST_PATTERN, DOMAIN_GROUP, host))
}

/// The address of the target among the addresses that the lookup found, in
/// the order in which it found them: the first. Where it found none, the host
/// is unresolved.
pub fn first_address<A: Copy>(found: &Vec<A>) -> (r: Result<A, HostError>)
    ensures
        found@.len() > 0 ==> r == Ok::<A, HostError>(found@[0]),
        found@.len() == 0 ==> r == Err::<A, HostError>(HostError::Unresolved),
{
    if found.len() > 0 {
        Ok(found[0])
    } else {
        Err(HostError::Unresolved)
    }
}

impl HostError {
    /// What to tell the user.
    pub fn message(&self) -> (r: &'static str)
        ensures
            *self == HostError::BadPattern ==> r@ == "the host pattern is no regular expression"@,
            *self == HostError::NoHost ==> r@ == "no host provided!"@,
            *self == HostError::Unresolved ==> r@ == "Could not resolve the host"@,
    {
        match self {
            HostError::BadPattern => "the host pattern is no regular expression",
            HostError::NoHost => "no host provided!",
            HostError::Unresolved => "Could not resolve the host",
        }
    }
}

} // verus!
