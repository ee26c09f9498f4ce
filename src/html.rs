//! The one query this library makes of an HTML document.
use vstd::prelude::*;

use crate::text::opt_view;

verus! {

/// The element whose text holds both queue numbers.
pub open spec fn position_selector() -> Seq<char> {
    "#predicted-position"@
}

/// The element that holds the rental's location.
pub open spec fn location_selector() -> Seq<char> {
    "#maincontent > div > div.pageblock.objectinfo.pure-u-1.pure-u-md-1-2 > div > div.properties > div:nth-child(2) > p"@
}

/// The inner HTML of the first node of the parsed document `body`, in the
/// order the parser created its nodes, that the CSS selector `selector`
/// matches; none where no node matches or the selector does not parse.
pub uninterp spec fn first_inner_html_of(body: Seq<char>, selector: Seq<char>) -> Option<Seq<char>>;

/// Relies on scraper's `Html::parse_document`, `Selector::parse`, `Html::select`
/// and `ElementRef::inner_html`: parsing and serialising depend on the text
/// alone, and `select` walks the nodes in the order the parser created them.
/// Only the library's two fixed selectors are admitted: `Selector::parse`
/// recurses without a depth limit on nested `:not(...)`.
#[verifier::external_body]
pub(crate) fn first_inner_html(body: &str, selector: &str) -> (r: Option<String>)
    requires
        selector@ == position_selector() || selector@ == location_selector(),
    ensures
        opt_view(r) == first_inner_html_of(body@, selector@),
{
    let document = scraper::Html::parse_document(body);
    match scraper::Selector::parse(selector) {
        Ok(parsed) => document.select(&parsed).next().map(|element| element.inner_html()),
        Err(_) => None,
    }
}

} // verus!
