//! Ranks rental listings of a housing portal by how reachable they are:
//! candidate links are scanned from the listing page, each detail page is
//! reduced to a queue position and a queue length, and the results are
//! ordered by position, then by length.
use vstd::prelude::*;

pub mod text;
pub mod html;
pub mod rental;
pub mod extract;
pub mod listing;
pub mod aggregate;
pub mod rank;
pub mod session;

verus! {

} // verus!
