//! Joining the detail pages of all candidates into one set of rentals: each
//! candidate gives one rental or one failure, and no failure stops the others.
use vstd::prelude::*;

use crate::extract::{rental_from_page, rental_of_page};
use crate::listing::strings_view;
use crate::rental::{BoplatsError, Rental, RentalView};
use crate::text::push_char;

verus! {

/// What came of one candidate whose page was fetched as `fetched`.
pub open spec fn outcome_of(link: Seq<char>, fetched: Result<String, BoplatsError>) -> Result<
    RentalView,
    BoplatsError,
> {
    match fetched {
        Ok(body) => rental_of_page(link, body@),
        Err(e) => Err(e),
    }
}

/// The rentals of the first `n` candidates, in candidate order.
pub open spec fn rentals_upto(
    links: Seq<Seq<char>>,
    fetched: Seq<Result<String, BoplatsError>>,
    n: nat,
) -> Seq<RentalView>
    decreases n,
{
    if n == 0 {
        seq![]
    } else {
        let before = rentals_upto(links, fetched, (n - 1) as nat);
        match outcome_of(links[n - 1], fetched[n - 1]) {
            Ok(r) => before.push(r),
            Err(_) => before,
        }
    }
}

/// The links of the failed candidates among the first `n`, in candidate order.
pub open spec fn failures_upto(
    links: Seq<Seq<char>>,
    fetched: Seq<Result<String, BoplatsError>>,
    n: nat,
) -> Seq<Seq<char>>
    decreases n,
{
    if n == 0 {
        seq![]
    } else {
        let before = failures_upto(links, fetched, (n - 1) as nat);
        match outcome_of(links[n - 1], fetched[n - 1]) {
            Ok(_) => before,
            Err(_) => before.push(links[n - 1]),
        }
    }
}

pub open spec fn rental_views(v: Seq<Rental>) -> Seq<RentalView> {
    v.map_values(|r: Rental| r@)
}

/// For each rental of the first `n` candidates, the index of the candidate it
/// came from.
pub open spec fn sources_upto(
    links: Seq<Seq<char>>,
    fetched: Seq<Result<String, BoplatsError>>,
    n: nat,
) -> Seq<int>
    decreases n,
{
    if n == 0 {
        seq![]
    } else {
        let before = sources_upto(links, fetched, (n - 1) as nat);
        match outcome_of(links[n - 1], fetched[n - 1]) {
            Ok(_) => before.push(n - 1),
            Err(_) => before,
        }
    }
}

/// How many of the first `n` links are `u`.
pub open spec fn count_upto(links: Seq<Seq<char>>, u: Seq<char>, n: nat) -> nat
    decreases n,
{
    if n == 0 {
        0
    } else {
        count_upto(links, u, (n - 1) as nat) + if links[n - 1] == u {
            1nat
        } else {
            0nat
        }
    }
}

/// How many of `rs` came from the link `u`.
pub open spec fn count_link(rs: Seq<RentalView>, u: Seq<char>) -> nat
    decreases rs.len(),
{
    if rs.len() == 0 {
        0
    } else {
        count_link(rs.drop_last(), u) + if rs.last().link == u {
            1nat
        } else {
            0nat
        }
    }
}

/// The rentals and the failed links of one batch.
pub struct Collected {
    pub rentals: Vec<Rental>,
    pub failed: Vec<String>,
}

/// Reads the fetched detail page of every candidate: `fetched[i]` is what the
/// request for `candidates[i]` returned. Every candidate gives either one
/// rental or one failed link.
pub fn aggregate_rentals(candidates: &Vec<String>, fetched: Vec<Result<String, BoplatsError>>) -> (r:
    Collected)
    requires
        candidates.len() == fetched.len(),
    ensures
        rental_views(r.rentals@) == rentals_upto(
            strings_view(candidates@),
            fetched@,
            candidates.len() as nat,
        ),
        strings_view(r.failed@) == failures_upto(
            strings_view(candidates@),
            fetched@,
            candidates.len() as nat,
        ),
        r.rentals.len() + r.failed.len() == candidates.len(),
{
    let ghost links = strings_view(candidates@);
    let ghost all = fetched@;
    let mut rentals: Vec<Rental> = Vec::new();
    let mut failed: Vec<String> = Vec::new();
    let mut i: usize = 0;
    while i < candidates.len()
        invariant
            i <= candidates.len() == fetched.len(),
            links == strings_view(candidates@),
            all == fetched@,
            rental_views(rentals@) == rentals_upto(links, all, i as nat),
            strings_view(failed@) == failures_upto(links, all, i as nat),
            rentals.len() + failed.len() == i,
        decreases candidates.len() - i,
    {
        let link = candidates[i].clone();
        let outcome = match &fetched[i] {
            Ok(body) => rental_from_page(link, body.as_str()),
            Err(e) => Err(*e),
        };
        let ghost rb = rentals@;
        let ghost fb = failed@;
        match outcome {
            Ok(rental) => {
                rentals.push(rental);
                assert(rental_views(rentals@) =~= rental_views(rb).push(rental@));
            },
            Err(_) => {
                failed.push(candidates[i].clone());
                assert(strings_view(failed@) =~= strings_view(fb).push(links[i as int]));
            },
        }
        i += 1;
    }
    Collected { rentals, failed }
}

/// The diagnostic line for a candidate that gave no rental:
/// `Fetching rental "<link>" failed`.
pub fn failure_notice(link: &str) -> (r: String)
    ensures
        r@ == "Fetching rental "@ + seq!['"'] + link@ + seq!['"'] + " failed"@,
{
    let mut out = String::new();
    out.append("Fetching rental ");
    push_char(&mut out, '"');
    out.append(link);
    push_char(&mut out, '"');
    out.append(" failed");
    out
}

/// Every candidate gives one rental or one failure: with `k` failures among
/// `n` candidates there are `n - k` rentals, none when all fail.
pub proof fn lemma_rentals_count(
    links: Seq<Seq<char>>,
    fetched: Seq<Result<String, BoplatsError>>,
    n: nat,
)
    requires
        n <= links.len(),
        n <= fetched.len(),
    ensures
        rentals_upto(links, fetched, n).len() == n - failures_upto(links, fetched, n).len(),
    decreases n,
{
    if n > 0 {
        lemma_rentals_count(links, fetched, (n - 1) as nat);
    }
}

/// Every rental's link is one of the candidates, and no link gives more
/// rentals than it stands among the candidates.
pub proof fn lemma_rentals_from_candidates(
    links: Seq<Seq<char>>,
    fetched: Seq<Result<String, BoplatsError>>,
    n: nat,
)
    requires
        n <= links.len(),
        n <= fetched.len(),
    ensures
        forall|k: int|
            0 <= k < rentals_upto(links, fetched, n).len() ==> exists|i: int|
                0 <= i < n && #[trigger] rentals_upto(links, fetched, n)[k].link == links[i],
        forall|u: Seq<char>|
            #[trigger] count_link(rentals_upto(links, fetched, n), u) <= count_upto(links, u, n),
    decreases n,
{
    if n > 0 {
        let m = (n - 1) as nat;
        lemma_rentals_from_candidates(links, fetched, m);
        let before = rentals_upto(links, fetched, m);
        let now = rentals_upto(links, fetched, n);
        match outcome_of(links[m as int], fetched[m as int]) {
            Ok(r) => {
                assert(r.link == links[m as int]);
                assert(now.drop_last() =~= before);
                assert forall|k: int| 0 <= k < now.len() implies exists|i: int|
                    0 <= i < n && #[trigger] now[k].link == links[i] by {
                    if k < before.len() {
                        let i = choose|i: int| 0 <= i < m && before[k].link == links[i];
                        assert(now[k] == before[k]);
                        assert(0 <= i < n && now[k].link == links[i]);
                    } else {
                        assert(now[k].link == links[m as int]);
                    }
                }
                assert forall|u: Seq<char>|
                    #[trigger] count_link(now, u) <= count_upto(links, u, n) by {
                    assert(count_link(before, u) <= count_upto(links, u, m));
                }
            },
            Err(_) => {
                assert(now == before);
                assert forall|u: Seq<char>|
                    #[trigger] count_link(now, u) <= count_upto(links, u, n) by {
                    assert(count_link(before, u) <= count_upto(links, u, m));
                }
            },
        }
    }
}

/// Each rental comes from its own candidate: the candidates the rentals came
/// from are distinct (in increasing order), lie among the first `n`, and each
/// rental's link is its candidate's link. So there are at most `n` rentals,
/// and distinct candidate links give distinct rental links.
pub proof fn lemma_rentals_injective(
    links: Seq<Seq<char>>,
    fetched: Seq<Result<String, BoplatsError>>,
    n: nat,
)
    requires
        n <= links.len(),
        n <= fetched.len(),
    ensures
        sources_upto(links, fetched, n).len() == rentals_upto(links, fetched, n).len(),
        forall|j: int|
            0 <= j < sources_upto(links, fetched, n).len() ==> 0 <= #[trigger] sources_upto(
                links,
                fetched,
                n,
            )[j] < n && rentals_upto(links, fetched, n)[j].link == links[sources_upto(
                links,
                fetched,
                n,
            )[j]],
        forall|i: int, j: int|
            0 <= i < j < sources_upto(links, fetched, n).len() ==> #[trigger] sources_upto(
                links,
                fetched,
                n,
            )[i] < #[trigger] sources_upto(links, fetched, n)[j],
        rentals_upto(links, fetched, n).len() <= n,
        (forall|a: int, b: int| 0 <= a < b < n ==> #[trigger] links[a] != #[trigger] links[b])
            ==> forall|i: int, j: int|
            0 <= i < j < rentals_upto(links, fetched, n).len() ==> #[trigger] rentals_upto(
                links,
                fetched,
                n,
            )[i].link != #[trigger] rentals_upto(links, fetched, n)[j].link,
    decreases n,
{
    lemma_sources(links, fetched, n);
    let src = sources_upto(links, fetched, n);
    let rs = rentals_upto(links, fetched, n);
    if forall|a: int, b: int| 0 <= a < b < n ==> #[trigger] links[a] != #[trigger] links[b] {
        assert forall|i: int, j: int| 0 <= i < j < rs.len() implies #[trigger] rs[i].link
            != #[trigger] rs[j].link by {
            assert(src[i] < src[j]);
            assert(links[src[i]] != links[src[j]]);
        }
    }
}

proof fn lemma_sources(
    links: Seq<Seq<char>>,
    fetched: Seq<Result<String, BoplatsError>>,
    n: nat,
)
    requires
        n <= links.len(),
        n <= fetched.len(),
    ensures
        sources_upto(links, fetched, n).len() == rentals_upto(links, fetched, n).len(),
        forall|j: int|
            0 <= j < sources_upto(links, fetched, n).len() ==> 0 <= #[trigger] sources_upto(
                links,
                fetched,
                n,
            )[j] < n && rentals_upto(links, fetched, n)[j].link == links[sources_upto(
                links,
                fetched,
                n,
            )[j]],
        forall|i: int, j: int|
            0 <= i < j < sources_upto(links, fetched, n).len() ==> #[trigger] sources_upto(
                links,
                fetched,
                n,
            )[i] < #[trigger] sources_upto(links, fetched, n)[j],
        rentals_upto(links, fetched, n).len() <= n,
    decreases n,
{
    if n > 0 {
        let m = (n - 1) as nat;
        lemma_sources(links, fetched, m);
        let src = sources_upto(links, fetched, m);
        let now = sources_upto(links, fetched, n);
        match outcome_of(links[m as int], fetched[m as int]) {
            Ok(r) => {
                assert(r.link == links[m as int]);
                assert forall|j: int| 0 <= j < now.len() - 1 implies now[j] == src[j] && #[trigger] now[j] < m by {}
                assert forall|j: int| 0 <= j < now.len() implies 0 <= #[trigger] now[j] < n
                    && rentals_upto(links, fetched, n)[j].link == links[now[j]] by {
                    if j < now.len() - 1 {
                        assert(now[j] == src[j]);
                        assert(rentals_upto(links, fetched, n)[j] == rentals_upto(links, fetched, m)[j]);
                    }
                }
            },
            Err(_) => {},
        }
    }
}

} // verus!
