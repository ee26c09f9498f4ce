//! Ordering rentals by how reachable they are.
use vstd::prelude::*;

use vstd::multiset::Multiset;

use crate::rental::Rental;

verus! {

/// `a` ranks no later than `b`: a smaller queue position, or the same position
/// and a queue no longer.
pub open spec fn ranks_before(a: Rental, b: Rental) -> bool {
    a.queue_position < b.queue_position || (a.queue_position == b.queue_position
        && a.queue_length <= b.queue_length)
}

pub open spec fn is_ranked(s: Seq<Rental>) -> bool {
    forall|i: int, j: int| 0 <= i < j < s.len() ==> ranks_before(#[trigger] s[i], #[trigger] s[j])
}

fn strictly_before(a: &Rental, b: &Rental) -> (r: bool)
    ensures
        r == !ranks_before(*b, *a),
{
    a.queue_position < b.queue_position || (a.queue_position == b.queue_position
        && a.queue_length < b.queue_length)
}

/// The rentals ordered by ascending queue position, then ascending queue length.
pub fn rank_rentals(rentals: Vec<Rental>) -> (r: Vec<Rental>)
    ensures
        r@.to_multiset() == rentals@.to_multiset(),
        r.len() == rentals.len(),
        is_ranked(r@),
        forall|i: int| 0 <= i < r.len() - 1 ==> ranks_before(#[trigger] r@[i], r@[i + 1]),
{
    broadcast use vstd::seq_lib::group_to_multiset_ensures, vstd::multiset::group_multiset_axioms;

    let ghost original = rentals@;
    let mut rest = rentals;
    let mut out: Vec<Rental> = Vec::new();
    proof {
        assert(out@ =~= Seq::<Rental>::empty());
        assert(out@.to_multiset() =~= Multiset::empty());
        assert(out@.to_multiset().add(rest@.to_multiset()) =~= original.to_multiset());
    }
    while rest.len() > 0
        invariant
            is_ranked(out@),
            out@.to_multiset().add(rest@.to_multiset()) == original.to_multiset(),
            out.len() + rest.len() == original.len(),
        decreases rest.len(),
    {
        let ghost before_rest = rest@;
        let x = rest.pop().unwrap();
        proof {
            assert(before_rest =~= rest@.push(x));
            vstd::seq_lib::to_multiset_build(rest@, x);
        }
        let mut j: usize = 0;
        while j < out.len() && strictly_before(&out[j], &x)
            invariant
                j <= out.len(),
                forall|m: int| 0 <= m < j ==> !ranks_before(x, #[trigger] out@[m]),
            decreases out.len() - j,
        {
            j += 1;
        }
        let ghost before_out = out@;
        out.insert(j, x);
        proof {
            vstd::seq_lib::to_multiset_insert(before_out, j as int, x);
            assert forall|a: int, b: int| 0 <= a < b < out.len() implies ranks_before(
                #[trigger] out@[a],
                #[trigger] out@[b],
            ) by {
                if b < j {
                    assert(out@[a] == before_out[a] && out@[b] == before_out[b]);
                } else if b == j {
                    assert(out@[a] == before_out[a]);
                    assert(!ranks_before(x, before_out[a]));
                } else if a == j {
                    assert(out@[b] == before_out[b - 1]);
                    assert(ranks_before(x, before_out[j as int]));
                    if b - 1 > j {
                        assert(ranks_before(before_out[j as int], before_out[b - 1]));
                    }
                } else if a < j {
                    assert(out@[a] == before_out[a] && out@[b] == before_out[b - 1]);
                } else {
                    assert(out@[a] == before_out[a - 1] && out@[b] == before_out[b - 1]);
                }
            }
        }
    }
    proof {
        assert(rest@ =~= Seq::<Rental>::empty());
        assert(rest@.to_multiset() =~= Multiset::empty());
        assert(out@.to_multiset().add(rest@.to_multiset()) =~= out@.to_multiset());
    }
    out
}

} // verus!
