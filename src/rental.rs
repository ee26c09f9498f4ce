//! A rental listing with its place in the waiting queue, and the library's errors.
use vstd::prelude::*;

use crate::text::{decimal_text, opt_view, push_char, push_decimal};

verus! {

/// Why a run, or the work on one candidate, failed.
#[derive(Debug, Clone, Copy, PartialEq, Eq, Structural)]
pub enum BoplatsError {
    /// The session credential is missing or blank.
    Config,
    /// A request failed on the network or with a non-success status.
    Transport,
    /// A detail page lacks the queue fields, or they do not parse.
    Extraction,
}

/// One listing that was fetched and read in full.
#[derive(Debug, Clone)]
pub struct Rental {
    /// The detail page the listing came from.
    pub link: String,
    /// How many applicants would stand ahead of the viewer.
    pub queue_position: u32,
    /// How many applicants stand in the queue now.
    pub queue_length: u32,
    /// Where the rental is, where the page says so.
    pub location: Option<String>,
}

/// A rental as the contracts see it: its strings as character sequences.
pub struct RentalView {
    pub link: Seq<char>,
    pub queue_position: u32,
    pub queue_length: u32,
    pub location: Option<Seq<char>>,
}

impl View for Rental {
    type V = RentalView;

    open spec fn view(&self) -> RentalView {
        RentalView {
            link: self.link@,
            queue_position: self.queue_position,
            queue_length: self.queue_length,
            location: opt_view(self.location),
        }
    }
}

/// The report line of a rental: its link, its position, a slash and the queue
/// length, then its location where it has one.
pub open spec fn line_of(r: RentalView) -> Seq<char> {
    let base = r.link + seq![' '] + decimal_text(r.queue_position as nat) + seq![' ', '/', ' ']
        + decimal_text(r.queue_length as nat);
    match r.location {
        Some(l) => base + seq![' '] + l,
        None => base,
    }
}

impl Rental {
    /// The report line: `<link> <position> / <length>`, followed by
    /// ` <location>` where the location is known.
    pub fn to_line(&self) -> (r: String)
        ensures
            r@ == line_of(self@),
    {
        let mut out = String::new();
        out.append(self.link.as_str());
        push_char(&mut out, ' ');
        push_decimal(&mut out, self.queue_position);
        push_char(&mut out, ' ');
        push_char(&mut out, '/');
        push_char(&mut out, ' ');
        push_decimal(&mut out, self.queue_length);
        if let Some(location) = &self.location {
            push_char(&mut out, ' ');
            out.append(location.as_str());
        }
        proof {
            assert(out@ =~= line_of(self@));
        }
        out
    }
}

} // verus!
