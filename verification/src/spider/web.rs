//! What the crawler takes on trust from the `url` and `scraper` crates.
//!
//! Each result is a function of the texts handed in and nothing else, so each
//! has a name that contracts can speak of. Nothing is claimed about what a
//! parser makes of a given text.

use vstd::prelude::*;

verus! {

/// The text that `url::Url::parse` and `Url::as_str` give for `input`;
/// `None` where `input` does not parse as an absolute URL.
pub uninterp spec fn url_parse(input: Seq<char>) -> Option<Seq<char>>;

/// The text of `reference` resolved against `base` by `url::Url::join`;
/// `None` where `base` does not parse or the reference cannot be resolved.
pub uninterp spec fn url_join(base: Seq<char>, reference: Seq<char>) -> Option<Seq<char>>;

/// What `url::Url::host_str` gives for the URL written as `url`; `None` where
/// it does not parse or has no host.
pub uninterp spec fn url_host(url: Seq<char>) -> Option<Seq<char>>;

/// What `url::Url::path` gives for the URL written as `url`; `None` where it
/// does not parse.
pub uninterp spec fn url_path(url: Seq<char>) -> Option<Seq<char>>;

/// For each element of the document `body` that the CSS selector group
/// `selector` matches, in the order in which the parser met them, the value
/// of its attribute `attr` if it has one, as the `scraper` crate finds them;
/// `None` where `selector` is not a selector group.
pub uninterp spec fn html_attr_values(
    body: Seq<char>,
    selector: Seq<char>,
    attr: Seq<char>,
) -> Option<Seq<Option<Seq<char>>>>;

/// Calls `url::Url::parse` on `input` and hands back `Url::as_str` of the
/// result. Trusted: the outcome depends on `input` alone.
#[verifier::external_body]
pub(crate) fn parse_url(input: &str) -> (r: Option<String>)
    ensures
        r.deep_view() == url_parse(input@),
{
    match url::Url::parse(input) {
        Ok(u) => Some(String::from(u.as_str())),
        Err(_) => None,
    }
}

/// Calls `url::Url::parse` on `base`, then `Url::join` with `reference`, and
/// hands back `Url::as_str` of the result. Trusted: the outcome depends on
/// the two texts alone.
#[verifier::external_body]
pub(crate) fn join_url(base: &str, reference: &str) -> (r: Option<String>)
    ensures
        r.deep_view() == url_join(base@, reference@),
{
    match url::Url::parse(base) {
        Ok(b) => match b.join(reference) {
            Ok(u) => Some(String::from(u.as_str())),
            Err(_) => None,
        },
        Err(_) => None,
    }
}

/// Calls `url::Url::parse` on `url` and hands back `Url::host_str` of the
/// result. Trusted: the outcome depends on `url` alone.
#[verifier::external_body]
pub(crate) fn host_of(url: &str) -> (r: Option<String>)
    ensures
        r.deep_view() == url_host(url@),
{
    match url::Url::parse(url) {
        Ok(u) => u.host_str().map(String::from),
        Err(_) => None,
    }
}

/// Calls `url::Url::parse` on `url` and hands back `Url::path` of the result.
/// Trusted: the outcome depends on `url` alone.
#[verifier::external_body]
pub(crate) fn path_of(url: &str) -> (r: Option<String>)
    ensures
        r.deep_view() == url_path(url@),
{
    match url::Url::parse(url) {
        Ok(u) => Some(String::from(u.path())),
        Err(_) => None,
    }
}

/// Parses `selector` with `scraper::Selector::parse` and `body` with
/// `scraper::Html::parse_document`, walks `Html::select`, and reads
/// `Element::attr` on each element found. Trusted: the outcome depends on the
/// three texts alone.
#[verifier::external_body]
pub(crate) fn select_attr(body: &str, selector: &str, attr: &str) -> (r: Option<
    Vec<Option<String>>,
>)
    ensures
        r.deep_view() == html_attr_values(body@, selector@, attr@),
{
    match scraper::Selector::parse(selector) {
        Ok(s) => Some(
            scraper::Html::parse_document(body)
                .select(&s)
                .map(|e| e.value().attr(attr).map(String::from))
                .collect(),
        ),
        Err(_) => None,
    }
}

} // verus!
