//! What a registration must satisfy, and the error it gets where it does not.

use crate::text::{chars_of, expect_text, occurs_at};
use vstd::prelude::*;

verus! {

/// Why an input was refused.
#[derive(Clone, Copy, Debug, PartialEq, Eq, Structural)]
pub enum ValidationError {
    /// The topic is the empty string.
    EmptyTopic,
    /// The subscriber's URL is not an absolute HTTP or HTTPS URL.
    MalformedUrl,
}

/// The characters a URL is written with: ASCII letters and digits, the
/// marks `-._~`, the delimiters `:/?#[]@` and `!$&'()*+,;=`, and `%`.
pub open spec fn is_url_char(c: char) -> bool {
    ||| 'a' <= c <= 'z'
    ||| 'A' <= c <= 'Z'
    ||| '0' <= c <= '9'
    ||| c == '-' || c == '.' || c == '_' || c == '~'
    ||| c == ':' || c == '/' || c == '?' || c == '#' || c == '[' || c == ']' || c == '@'
    ||| c == '!' || c == '$' || c == '&' || c == '\'' || c == '(' || c == ')'
    ||| c == '*' || c == '+' || c == ',' || c == ';' || c == '=' || c == '%'
}

/// An ASCII capital letter as its small letter; any other character as it is.
pub open spec fn to_lower(c: char) -> char {
    if 'A' <= c <= 'Z' {
        (c as int + 32) as char
    } else {
        c
    }
}

/// Whether `url` begins with `scheme`, in capital or small letters, and
/// `://`.
pub open spec fn has_scheme(url: Seq<char>, scheme: Seq<char>) -> bool {
    &&& scheme.len() <= url.len()
    &&& forall|k: int| 0 <= k < scheme.len() ==> to_lower(#[trigger] url[k]) == scheme[k]
    &&& occurs_at(url, scheme.len() as int, "://"@)
}

/// The index at which the host begins in a URL with the scheme `scheme`:
/// behind the scheme and `://`.
pub open spec fn host_index(scheme: Seq<char>) -> int {
    (scheme.len() + "://"@.len()) as int
}

/// Whether a host begins at index `at` of `url`: a character stands there,
/// and it is none of those that stand behind a host.
pub open spec fn host_starts_at(url: Seq<char>, at: int) -> bool {
    &&& at < url.len()
    &&& url[at] != '/'
    &&& url[at] != '?'
    &&& url[at] != '#'
    &&& url[at] != ':'
}

/// An absolute HTTP or HTTPS URL: written in the characters of a URL, it
/// begins with the scheme `http` or `https` and `://`, and a host follows.
pub open spec fn valid_url(url: Seq<char>) -> bool {
    &&& forall|i: int| 0 <= i < url.len() ==> is_url_char(#[trigger] url[i])
    &&& {
        ||| has_scheme(url, "http"@) && host_starts_at(url, host_index("http"@))
        ||| has_scheme(url, "https"@) && host_starts_at(url, host_index("https"@))
    }
}

/// Whether `c` is a character a URL is written with.
fn url_char(c: char) -> (r: bool)
    ensures
        r == is_url_char(c),
{
    (c >= 'a' && c <= 'z') || (c >= 'A' && c <= 'Z') || (c >= '0' && c <= '9') || c == '-' || c
        == '.' || c == '_' || c == '~' || c == ':' || c == '/' || c == '?' || c == '#' || c == '['
        || c == ']' || c == '@' || c == '!' || c == '$' || c == '&' || c == '\'' || c == '(' || c
        == ')' || c == '*' || c == '+' || c == ',' || c == ';' || c == '=' || c == '%'
}

/// An ASCII capital letter as its small letter; any other character as it is.
fn lower(c: char) -> (r: char)
    ensures
        r == to_lower(c),
{
    if c >= 'A' && c <= 'Z' {
        (c as u8 + 32) as char
    } else {
        c
    }
}

/// Whether every character of `url` is one a URL is written with.
fn all_url_chars(url: &Vec<char>) -> (r: bool)
    ensures
        r == forall|i: int| 0 <= i < url@.len() ==> is_url_char(#[trigger] url@[i]),
{
    let mut k: usize = 0;
    while k < url.len()
        invariant
            k <= url.len(),
            forall|i: int| 0 <= i < k ==> is_url_char(#[trigger] url@[i]),
        decreases url.len() - k,
    {
        if !url_char(url[k]) {
            return false;
        }
        k = k + 1;
    }
    true
}

/// Looks for `scheme` and `://` at the beginning of `url`, and gives the
/// index just behind them where they stand there.
fn scheme_end(url: &Vec<char>, scheme: &str) -> (r: Option<usize>)
    ensures
        match r {
            Some(end) => has_scheme(url@, scheme@) && end == host_index(scheme@),
            None => !has_scheme(url@, scheme@),
        },
{
    let wanted: Vec<char> = chars_of(scheme);
    if wanted.len() > url.len() {
        return None;
    }
    let mut k: usize = 0;
    while k < wanted.len()
        invariant
            wanted@ == scheme@,
            wanted@.len() <= url@.len(),
            k <= wanted@.len(),
            forall|j: int| 0 <= j < k ==> to_lower(#[trigger] url@[j]) == wanted@[j],
        decreases wanted@.len() - k,
    {
        if lower(url[k]) != wanted[k] {
            return None;
        }
        k = k + 1;
    }
    expect_text(url, wanted.len(), "://")
}

/// Whether a host begins at index `at` of `url`.
fn host_begins(url: &Vec<char>, at: usize) -> (r: bool)
    ensures
        r == host_starts_at(url@, at as int),
{
    if at >= url.len() {
        return false;
    }
    let c: char = url[at];
    c != '/' && c != '?' && c != '#' && c != ':'
}

/// Whether `url` is an absolute HTTP or HTTPS URL.
pub fn is_valid_url(url: &str) -> (r: bool)
    ensures
        r == valid_url(url@),
{
    let chars: Vec<char> = chars_of(url);
    if !all_url_chars(&chars) {
        return false;
    }
    let plain: bool = match scheme_end(&chars, "http") {
        Some(end) => host_begins(&chars, end),
        None => false,
    };
    let secure: bool = match scheme_end(&chars, "https") {
        Some(end) => host_begins(&chars, end),
        None => false,
    };
    plain || secure
}

} // verus!
