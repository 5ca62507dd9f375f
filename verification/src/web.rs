//! The calls into the `url` and `scraper` crates: parsing a URL for its
//! host, resolving a link against the page it stands on, and collecting
//! the `href` of a page's anchors.

use vstd::prelude::*;

verus! {

/// What `url::Url::parse` makes of `s`, seen through `Url::host_str`:
/// `Ok` with the host, if the parsed URL has one, or `Err` with the text of
/// the parse error (its `Display`).
pub uninterp spec fn parsed_host(s: Seq<char>) -> Result<Option<Seq<char>>, Seq<char>>;

/// Parses `s` with `url::Url::parse` and hands back `host_str` of the
/// result, or the error's text.  The contract names the outcome
/// `parsed_host`; the WHATWG parsing rules that decide it are not restated.
#[verifier::external_body]
pub(crate) fn url_host(s: &str) -> (r: Result<Option<String>, String>)
    ensures
        match r {
            Ok(Some(h)) => parsed_host(s@) == Ok::<Option<Seq<char>>, Seq<char>>(Some(h@)),
            Ok(None) => parsed_host(s@) == Ok::<Option<Seq<char>>, Seq<char>>(None),
            Err(e) => parsed_host(s@) == Err::<Option<Seq<char>>, Seq<char>>(e@),
        },
{
    match url::Url::parse(s) {
        Ok(u) => Ok(u.host_str().map(|h| h.to_string())),
        Err(e) => Err(e.to_string()),
    }
}

/// The serialization of `href` resolved against `base` (`url::Url::parse`
/// of `base`, then `Url::join`), or `None` where either step fails.
pub uninterp spec fn joined_url(base: Seq<char>, href: Seq<char>) -> Option<Seq<char>>;

/// Resolves `href` against the page URL `base` with `url::Url::parse` and
/// `Url::join`, and serializes the result.  The contract names the outcome
/// `joined_url`; the resolution rules are not restated.
#[verifier::external_body]
pub(crate) fn url_join(base: &str, href: &str) -> (r: Option<String>)
    ensures
        match r {
            Some(u) => joined_url(base@, href@) == Some(u@),
            None => joined_url(base@, href@) == None::<Seq<char>>,
        },
{
    match url::Url::parse(base) {
        Ok(b) => match b.join(href) {
            Ok(j) => Some(j.to_string()),
            Err(_) => None,
        },
        Err(_) => None,
    }
}

/// What `scraper` finds in the HTML document `body`
/// (`scraper::Html::parse_document`): `None` where `scraper::Selector::parse`
/// refuses `selector`; otherwise, for each element that the selector picks,
/// in the order `Html::select` yields them, the value of its attribute
/// `attr`, if it has one.
pub uninterp spec fn selected_attrs(body: Seq<char>, selector: Seq<char>, attr: Seq<char>) -> Option<Seq<Option<Seq<char>>>>;

/// Parses `body` as an HTML document with `scraper`, selects the elements
/// matching the CSS selector `selector`, and reads the attribute `attr` of
/// each.  The contract names the outcome `selected_attrs`; the HTML and CSS
/// rules that decide it are not restated.
#[verifier::external_body]
pub(crate) fn html_select_attrs(body: &str, selector: &str, attr: &str) -> (r: Option<Vec<Option<String>>>)
    ensures
        match r {
            None => selected_attrs(body@, selector@, attr@) == None::<Seq<Option<Seq<char>>>>,
            Some(v) => selected_attrs(body@, selector@, attr@) is Some
                && v@.len() == selected_attrs(body@, selector@, attr@)->0.len()
                && forall|i: int| 0 <= i < v@.len() ==> match #[trigger] v@[i] {
                    Some(h) => selected_attrs(body@, selector@, attr@)->0[i] == Some(h@),
                    None => selected_attrs(body@, selector@, attr@)->0[i] == None::<Seq<char>>,
                },
        },
{
    let selector = match scraper::Selector::parse(selector) {
        Ok(sel) => sel,
        Err(_) => return None,
    };
    let document = scraper::Html::parse_document(body);
    let mut found = Vec::new();
    for element in document.select(&selector) {
        found.push(element.value().attr(attr).map(|h| h.to_string()));
    }
    Some(found)
}

} // verus!
