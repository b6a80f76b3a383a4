//! Trusted bridges to outside functions whose results the contracts speak
//! of: character conversion, case folding, Markdown rendering, URL domain
//! extraction and date parsing.

use vstd::prelude::*;

verus! {

/// What `str::to_lowercase` returns; it depends on the characters alone.
pub uninterp spec fn lower_of(s: Seq<char>) -> Seq<char>;

/// What `html2md::parse_html` returns: the Markdown rendering of an HTML
/// fragment, a function of the fragment alone.
pub uninterp spec fn md_of(html: Seq<char>) -> Seq<char>;

/// What `url::Url::parse` followed by `url::Url::domain` yields: `None`
/// when the string is not a valid absolute URL, otherwise the URL's
/// domain, if it has one.
pub uninterp spec fn url_domain_of(s: Seq<char>) -> Option<Option<Seq<char>>>;

/// The Unix timestamp encoded by an RFC 2822 date string, if it parses.
pub uninterp spec fn rfc2822_sec(s: Seq<char>) -> Option<i64>;

/// The Unix timestamp encoded by an RFC 3339 date string, if it parses.
pub uninterp spec fn rfc3339_sec(s: Seq<char>) -> Option<i64>;

/// Relies on std's `str::chars`: iterating a string slice yields exactly
/// the characters of its view.
#[verifier::external_body]
pub(crate) fn chars_of(s: &str) -> (r: Vec<char>)
    ensures
        r@ == s@,
{
    s.chars().collect()
}

/// Relies on std's `FromIterator<char> for String`: collecting characters
/// builds the string whose view is exactly that character sequence.
#[verifier::external_body]
pub(crate) fn string_from_chars(v: &Vec<char>) -> (r: String)
    ensures
        r@ == v@,
{
    v.iter().collect()
}

/// Relies on std's `str::to_lowercase`.
#[verifier::external_body]
pub(crate) fn lowercase(s: &str) -> (r: String)
    ensures
        r@ == lower_of(s@),
{
    s.to_lowercase()
}

/// Relies on `html2md::parse_html`, which renders HTML as Markdown.
#[verifier::external_body]
pub(crate) fn html_to_markdown(html: &str) -> (r: String)
    ensures
        r@ == md_of(html@),
{
    html2md::parse_html(html)
}

/// Relies on `url::Url::parse` and `url::Url::domain`.
#[verifier::external_body]
pub(crate) fn parse_url_domain(s: &str) -> (r: Option<Option<String>>)
    ensures
        r.deep_view() == url_domain_of(s@),
{
    match url::Url::parse(s) {
        Ok(u) => Some(u.domain().map(|d| d.to_string())),
        Err(_) => None,
    }
}

/// Relies on `chrono::DateTime::parse_from_rfc2822` and
/// `chrono::DateTime::timestamp`.
#[verifier::external_body]
pub(crate) fn parse_rfc2822(s: &str) -> (r: Option<i64>)
    ensures
        r == rfc2822_sec(s@),
{
    chrono::DateTime::parse_from_rfc2822(s).ok().map(|d| d.timestamp())
}

/// Relies on `chrono::DateTime::parse_from_rfc3339` and
/// `chrono::DateTime::timestamp`.
#[verifier::external_body]
pub(crate) fn parse_rfc3339(s: &str) -> (r: Option<i64>)
    ensures
        r == rfc3339_sec(s@),
{
    chrono::DateTime::parse_from_rfc3339(s).ok().map(|d| d.timestamp())
}

} // verus!
