//! The listing page: what is asked of the portal, and the candidate links read
//! back from its answer.
use vstd::prelude::*;

use crate::text::{chars_of, contains, has_part, lines_of, push_char, slice, split_lines, string_from, views_of};

verus! {

/// The search endpoint of the portal.
pub fn search_url() -> (r: &'static str)
    ensures
        r@ == "https://nya.boplats.se/sok"@,
{
    "https://nya.boplats.se/sok"
}

/// The form sent to the search endpoint: first-hand rentals in one city, with
/// the viewer's requirements applied.
pub fn search_form() -> (r: &'static str)
    ensures
        r@ == "itemtype=1hand&city=508A8CB406FE001F00030A60&filterrequirements=on&search=search"@,
{
    "itemtype=1hand&city=508A8CB406FE001F00030A60&filterrequirements=on&search=search"
}

pub open spec fn cookie_of(session_id: Seq<char>) -> Seq<char> {
    "Boplats-session="@ + session_id + seq![';']
}

/// The `Cookie` header value that carries the session credential.
pub fn session_cookie(session_id: &str) -> (r: String)
    ensures
        r@ == cookie_of(session_id@),
{
    let mut out = String::new();
    out.append("Boplats-session=");
    out.append(session_id);
    push_char(&mut out, ';');
    out
}

/// The text that marks a listing entry on the listing page.
pub open spec fn listing_marker() -> Seq<char> {
    "search-result-link"@
}

pub open spec fn clamp(n: int, len: int) -> int {
    if n < len {
        n
    } else {
        len
    }
}

/// The link of a marked line: the characters after its first eleven, at most sixty.
pub open spec fn link_in_line(line: Seq<char>) -> Seq<char> {
    line.subrange(clamp(11, line.len() as int), clamp(71, line.len() as int))
}

/// The links of the marked lines among `ls`, in order.
pub open spec fn candidates_in(ls: Seq<Seq<char>>) -> Seq<Seq<char>>
    decreases ls.len(),
{
    if ls.len() == 0 {
        seq![]
    } else {
        let before = candidates_in(ls.drop_last());
        if has_part(ls.last(), listing_marker()) {
            before.push(link_in_line(ls.last()))
        } else {
            before
        }
    }
}

pub open spec fn strings_view(v: Seq<String>) -> Seq<Seq<char>> {
    v.map_values(|s: String| s@)
}

/// The candidate links of a listing page, in document order. A page with no
/// marked line gives none.
pub fn scan_candidates(body: &str) -> (r: Vec<String>)
    ensures
        strings_view(r@) == candidates_in(lines_of(body@)),
        (forall|k: int|
            0 <= k < lines_of(body@).len() ==> !has_part(
                #[trigger] lines_of(body@)[k],
                listing_marker(),
            )) ==> r.len() == 0,
{
    let t = chars_of(body);
    let lines = split_lines(&t);
    let ghost ls = lines_of(body@);
    let marker = chars_of("search-result-link");
    let mut out: Vec<String> = Vec::new();
    let mut i: usize = 0;
    while i < lines.len()
        invariant
            i <= lines.len(),
            ls == lines_of(body@),
            views_of(lines@) == ls,
            marker@ == listing_marker(),
            strings_view(out@) == candidates_in(ls.take(i as int)),
            (forall|k: int| 0 <= k < i ==> !has_part(#[trigger] ls[k], listing_marker()))
                ==> out.len() == 0,
        decreases lines.len() - i,
    {
        assert(ls.take(i + 1).drop_last() =~= ls.take(i as int));
        assert(ls.take(i + 1).last() == lines@[i as int]@);
        let line = &lines[i];
        if contains(line, &marker) {
            let a: usize = if 11 < line.len() {
                11
            } else {
                line.len()
            };
            let b: usize = if 71 < line.len() {
                71
            } else {
                line.len()
            };
            let link = string_from(&slice(line, a, b));
            let ghost before = out@;
            out.push(link);
            assert(strings_view(out@) =~= strings_view(before).push(link@));
        }
        i += 1;
    }
    assert(ls.take(lines.len() as int) =~= ls);
    out
}

} // verus!
