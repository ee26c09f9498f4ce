//! Reading a detail page: the queue position, the queue length and the
//! location of one rental.
use vstd::prelude::*;

use crate::html::{first_inner_html, first_inner_html_of, location_selector, position_selector};
use crate::rental::{BoplatsError, Rental, RentalView};
use crate::text::{
    chars_of, find_line, first_with, has_part, lemma_first_with_absent, lines_of, opt_view,
    parse_decimal, parse_decimal_in, scan, scan_from, split_lines, Stop,
};

verus! {

/// The viewer's place in a rental's queue, and the queue's size.
#[derive(Debug, Clone, Copy, PartialEq, Eq, Structural)]
pub struct QueueStanding {
    pub position: u32,
    pub length: u32,
}

/// The phrase of the line that gives the queue length ("applicants right now").
pub open spec fn length_phrase() -> Seq<char> {
    "sökande just nu"@
}

/// The phrase of the line that gives the queue position ("ahead of you if you
/// register interest").
pub open spec fn position_phrase() -> Seq<char> {
    "före dig om du anmäler intresse"@
}

/// The queue length in `text`: its first whitespace-separated token, read as a
/// decimal number.
pub open spec fn queue_length_in(text: Seq<char>) -> Option<u32> {
    let a = scan(text, 0, Stop::NonWhite);
    let b = scan(text, a, Stop::White);
    parse_decimal(text.subrange(a, b))
}

/// The queue position in `text`: the token that follows its first `(`, up to
/// whitespace or `)`, read as a decimal number.
pub open spec fn queue_position_in(text: Seq<char>) -> Option<u32> {
    let p = scan(text, 0, Stop::OpenParen);
    if p >= text.len() {
        None
    } else {
        let b = scan(text, p + 1, Stop::WhiteOrClose);
        parse_decimal(text.subrange(p + 1, b))
    }
}

/// A value that must be there, or an extraction error.
pub open spec fn required(o: Option<u32>) -> Result<u32, BoplatsError> {
    match o {
        Some(n) => Ok(n),
        None => Err(BoplatsError::Extraction),
    }
}

/// The queue standing that the text `text` gives, where it gives both numbers.
pub open spec fn standing_in(text: Seq<char>) -> Result<QueueStanding, BoplatsError> {
    match (queue_position_in(text), queue_length_in(text)) {
        (Some(position), Some(length)) => Ok(QueueStanding { position, length }),
        _ => Err(BoplatsError::Extraction),
    }
}

/// The queue standing read line by line: the length from the first line that
/// holds the length phrase, the position from the first line that holds the
/// position phrase.
pub open spec fn standing_in_lines(body: Seq<char>) -> Result<QueueStanding, BoplatsError> {
    let ls = lines_of(body);
    match (first_with(ls, length_phrase(), 0), first_with(ls, position_phrase(), 0)) {
        (Some(length_line), Some(position_line)) => match (
            queue_position_in(position_line),
            queue_length_in(length_line),
        ) {
            (Some(position), Some(length)) => Ok(QueueStanding { position, length }),
            _ => Err(BoplatsError::Extraction),
        },
        _ => Err(BoplatsError::Extraction),
    }
}

/// The queue standing of a detail page: from the queue element where the page
/// has one, else from its lines.
pub open spec fn standing_of_page(body: Seq<char>) -> Result<QueueStanding, BoplatsError> {
    match first_inner_html_of(body, position_selector()) {
        Some(text) => standing_in(text),
        None => standing_in_lines(body),
    }
}

/// The rental that the detail page `body`, fetched from `link`, describes.
pub open spec fn rental_of_page(link: Seq<char>, body: Seq<char>) -> Result<
    RentalView,
    BoplatsError,
> {
    match standing_of_page(body) {
        Ok(s) => Ok(
            RentalView {
                link,
                queue_position: s.position,
                queue_length: s.length,
                location: first_inner_html_of(body, location_selector()),
            },
        ),
        Err(e) => Err(e),
    }
}

/// The queue length in the text of the queue element.
pub fn queue_length_from_text(text: &str) -> (r: Option<u32>)
    ensures
        r == queue_length_in(text@),
{
    queue_length_in_chars(&chars_of(text))
}

/// The queue position in the text of the queue element.
pub fn queue_position_from_text(text: &str) -> (r: Option<u32>)
    ensures
        r == queue_position_in(text@),
{
    queue_position_in_chars(&chars_of(text))
}

/// The queue standing that a piece of text gives.
pub fn standing_from_text(text: &str) -> (r: Result<QueueStanding, BoplatsError>)
    ensures
        r == standing_in(text@),
{
    match (queue_position_from_text(text), queue_length_from_text(text)) {
        (Some(position), Some(length)) => Ok(QueueStanding { position, length }),
        _ => Err(BoplatsError::Extraction),
    }
}

/// The queue length of a detail page, from its queue element.
pub fn get_queue_length_from_rental_document(body: &str) -> (r: Result<u32, BoplatsError>)
    ensures
        r == required(
            match first_inner_html_of(body@, position_selector()) {
                Some(text) => queue_length_in(text),
                None => None,
            },
        ),
{
    match first_inner_html(body, "#predicted-position") {
        Some(text) => match queue_length_from_text(text.as_str()) {
            Some(n) => Ok(n),
            None => Err(BoplatsError::Extraction),
        },
        None => Err(BoplatsError::Extraction),
    }
}

/// The queue position of a detail page, from its queue element.
pub fn get_queue_position_from_rental_document(body: &str) -> (r: Result<u32, BoplatsError>)
    ensures
        r == required(
            match first_inner_html_of(body@, position_selector()) {
                Some(text) => queue_position_in(text),
                None => None,
            },
        ),
{
    match first_inner_html(body, "#predicted-position") {
        Some(text) => match queue_position_from_text(text.as_str()) {
            Some(n) => Ok(n),
            None => Err(BoplatsError::Extraction),
        },
        None => Err(BoplatsError::Extraction),
    }
}

/// The location of a detail page, where it has one.
pub fn get_location_from_rental_document(body: &str) -> (r: Option<String>)
    ensures
        opt_view(r) == first_inner_html_of(body@, location_selector()),
{
    first_inner_html(
        body,
        "#maincontent > div > div.pageblock.objectinfo.pure-u-1.pure-u-md-1-2 > div > div.properties > div:nth-child(2) > p",
    )
}

/// The queue standing read from the lines of a page. It fails where a phrase
/// stands in no line.
pub fn standing_from_lines(body: &str) -> (r: Result<QueueStanding, BoplatsError>)
    ensures
        r == standing_in_lines(body@),
        (forall|k: int|
            0 <= k < lines_of(body@).len() ==> !has_part(#[trigger] lines_of(body@)[k], length_phrase()))
            ==> r == Err::<QueueStanding, BoplatsError>(BoplatsError::Extraction),
        (forall|k: int|
            0 <= k < lines_of(body@).len() ==> !has_part(#[trigger] lines_of(body@)[k], position_phrase()))
            ==> r == Err::<QueueStanding, BoplatsError>(BoplatsError::Extraction),
{
    proof {
        if forall|k: int|
            0 <= k < lines_of(body@).len() ==> !has_part(#[trigger] lines_of(body@)[k], length_phrase()) {
            lemma_first_with_absent(lines_of(body@), length_phrase(), 0);
        }
        if forall|k: int|
            0 <= k < lines_of(body@).len() ==> !has_part(#[trigger] lines_of(body@)[k], position_phrase()) {
            lemma_first_with_absent(lines_of(body@), position_phrase(), 0);
        }
    }
    let t = chars_of(body);
    let lines = split_lines(&t);
    let length_line = find_line(&lines, &chars_of("sökande just nu"));
    let position_line = find_line(&lines, &chars_of("före dig om du anmäler intresse"));
    match (length_line, position_line) {
        (Some(l), Some(p)) => {
            let position = queue_position_in_chars(&lines[p]);
            let length = queue_length_in_chars(&lines[l]);
            match (position, length) {
                (Some(position), Some(length)) => Ok(QueueStanding { position, length }),
                _ => Err(BoplatsError::Extraction),
            }
        },
        _ => Err(BoplatsError::Extraction),
    }
}

fn queue_length_in_chars(t: &Vec<char>) -> (r: Option<u32>)
    ensures
        r == queue_length_in(t@),
{
    let a = scan_from(t, 0, Stop::NonWhite);
    let b = scan_from(t, a, Stop::White);
    parse_decimal_in(t, a, b)
}

fn queue_position_in_chars(t: &Vec<char>) -> (r: Option<u32>)
    ensures
        r == queue_position_in(t@),
{
    let p = scan_from(t, 0, Stop::OpenParen);
    if p >= t.len() {
        None
    } else {
        let b = scan_from(t, p + 1, Stop::WhiteOrClose);
        parse_decimal_in(t, p + 1, b)
    }
}

/// The queue standing of a detail page.
pub fn standing_from_page(body: &str) -> (r: Result<QueueStanding, BoplatsError>)
    ensures
        r == standing_of_page(body@),
{
    match first_inner_html(body, "#predicted-position") {
        Some(text) => standing_from_text(text.as_str()),
        None => standing_from_lines(body),
    }
}

/// The rental that the detail page `body`, fetched from `link`, describes.
pub fn rental_from_page(link: String, body: &str) -> (r: Result<Rental, BoplatsError>)
    ensures
        match r {
            Ok(rental) => rental_of_page(link@, body@) == Ok::<RentalView, BoplatsError>(rental@),
            Err(e) => rental_of_page(link@, body@) == Err::<RentalView, BoplatsError>(e),
        },
{
    match standing_from_page(body) {
        Ok(s) => Ok(
            Rental {
                link,
                queue_position: s.position,
                queue_length: s.length,
                location: get_location_from_rental_document(body),
            },
        ),
        Err(e) => Err(e),
    }
}

} // verus!
