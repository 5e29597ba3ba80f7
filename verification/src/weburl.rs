//! URL parsing and resolution through the `url` crate (WHATWG URL Standard).

use vstd::prelude::*;

verus! {

/// `Some` of the view of the string, or `None`.
pub open spec fn opt_view(o: Option<String>) -> Option<Seq<char>> {
    match o {
        Some(s) => Some(s@),
        None => None,
    }
}

/// The serialization of `url::Url::parse(s)` when it succeeds, `None` when it fails.
pub uninterp spec fn url_serialization(s: Seq<char>) -> Option<Seq<char>>;

/// The serialization of `base` (parsed with `Url::parse`) joined with `href`
/// through `Url::join`, `None` when either step fails.
pub uninterp spec fn url_join_serialization(base: Seq<char>, href: Seq<char>) -> Option<Seq<char>>;

/// The serialization of the URL `site` (parsed with `Url::parse`) after
/// `set_path(path)`, `set_query(None)` and `set_fragment(None)`; `None` when `site`
/// does not parse.
pub uninterp spec fn url_with_path_of(site: Seq<char>, path: Seq<char>) -> Option<Seq<char>>;

/// Calls `url::Url::parse` and serializes the result. The contract names the result
/// (`url_serialization`); it depends only on the text given.
#[verifier::external_body]
pub(crate) fn parse_url(s: &str) -> (res: Option<String>)
    ensures
        opt_view(res) == url_serialization(s@),
{
    match url::Url::parse(s) {
        Ok(u) => Some(u.to_string()),
        Err(_) => None,
    }
}

/// Calls `url::Url::parse` on `base` and then `Url::join` with `href`, serializing the
/// result. The contract names the result (`url_join_serialization`) as a function of
/// the two texts.
#[verifier::external_body]
pub(crate) fn join_url(base: &str, href: &str) -> (res: Option<String>)
    ensures
        opt_view(res) == url_join_serialization(base@, href@),
{
    match url::Url::parse(base) {
        Ok(b) => match b.join(href) {
            Ok(u) => Some(u.to_string()),
            Err(_) => None,
        },
        Err(_) => None,
    }
}

/// Parses `site` with `url::Url::parse`, gives it the path `path` and no query or
/// fragment (`Url::set_path`, `set_query(None)`, `set_fragment(None)`), and serializes
/// it. The contract names the result (`url_with_path_of`) as a function of the two
/// texts.
#[verifier::external_body]
pub(crate) fn url_with_path(site: &str, path: &str) -> (res: Option<String>)
    ensures
        opt_view(res) == url_with_path_of(site@, path@),
{
    match url::Url::parse(site) {
        Ok(mut u) => {
            u.set_path(path);
            u.set_query(None);
            u.set_fragment(None);
            Some(u.to_string())
        },
        Err(_) => None,
    }
}

}
