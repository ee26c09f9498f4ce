//! The session credential that authenticates every request of a run.
use vstd::prelude::*;

use crate::rental::BoplatsError;
use crate::text::{chars_of, is_white, is_white_spec, scan, scan_from, slice, string_from, Stop};

verus! {

/// Where the credential came from.
pub enum SessionSource {
    /// Given on the command line; used as it stands.
    Argument(String),
    /// Typed in answer to a prompt; surrounding whitespace is dropped.
    Typed(String),
}

/// Every character of `s` is whitespace.
pub open spec fn is_blank(s: Seq<char>) -> bool {
    forall|i: int| 0 <= i < s.len() ==> is_white_spec(#[trigger] s[i])
}

/// The end of `s` up to `j` without its trailing whitespace.
pub open spec fn trim_end(s: Seq<char>, j: int) -> int
    decreases j,
{
    if j <= 0 {
        0
    } else if !is_white_spec(s[j - 1]) {
        j
    } else {
        trim_end(s, j - 1)
    }
}

/// `s` without leading and trailing whitespace, as `str::trim` gives it.
pub open spec fn trimmed(s: Seq<char>) -> Seq<char> {
    let a = scan(s, 0, Stop::NonWhite);
    let b = trim_end(s, s.len() as int);
    if a < b {
        s.subrange(a, b)
    } else {
        seq![]
    }
}

proof fn lemma_scan_blank(s: Seq<char>, i: int)
    requires
        0 <= i <= s.len(),
        forall|k: int| i <= k < s.len() ==> is_white_spec(#[trigger] s[k]),
    ensures
        scan(s, i, Stop::NonWhite) == s.len(),
    decreases s.len() - i,
{
    if i < s.len() {
        lemma_scan_blank(s, i + 1);
    }
}

proof fn lemma_scan_stops(s: Seq<char>, i: int, k: int)
    requires
        0 <= i <= k < s.len(),
        !is_white_spec(s[k]),
    ensures
        i <= scan(s, i, Stop::NonWhite) <= k,
    decreases k - i,
{
    if i < k {
        lemma_scan_stops(s, i + 1, k);
    }
}

proof fn lemma_trim_end_stops(s: Seq<char>, j: int, k: int)
    requires
        0 <= k < j <= s.len(),
        !is_white_spec(s[k]),
    ensures
        k < trim_end(s, j) <= j,
    decreases j,
{
    if j - 1 > k && is_white_spec(s[j - 1]) {
        lemma_trim_end_stops(s, j - 1, k);
    }
}

proof fn lemma_trim_end_bound(s: Seq<char>, j: int)
    ensures
        trim_end(s, j) <= j || j < 0,
    decreases j,
{
    if j > 0 && is_white_spec(s[j - 1]) {
        lemma_trim_end_bound(s, j - 1);
    }
}

/// Trimming leaves nothing exactly where the text is blank.
pub proof fn lemma_trimmed_empty(s: Seq<char>)
    ensures
        trimmed(s).len() == 0 <==> is_blank(s),
{
    if is_blank(s) {
        lemma_scan_blank(s, 0);
        lemma_trim_end_bound(s, s.len() as int);
    } else {
        let k = choose|k: int| 0 <= k < s.len() && !is_white_spec(#[trigger] s[k]);
        lemma_scan_stops(s, 0, k);
        lemma_trim_end_stops(s, s.len() as int, k);
    }
}

fn trim_end_from(s: &Vec<char>) -> (r: usize)
    ensures
        r == trim_end(s@, s.len() as int),
        r <= s.len(),
{
    let mut j: usize = s.len();
    while j > 0 && is_white(s[j - 1])
        invariant
            j <= s.len(),
            trim_end(s@, s.len() as int) == trim_end(s@, j as int),
        decreases j,
    {
        j -= 1;
    }
    j
}

/// The credential of a run: a blank one is refused before any request is
/// made; a typed one is trimmed.
pub fn get_session_id(source: SessionSource) -> (r: Result<String, BoplatsError>)
    ensures
        match source {
            SessionSource::Argument(s) => match r {
                Ok(id) => !is_blank(s@) && id@ == s@,
                Err(e) => is_blank(s@) && e == BoplatsError::Config,
            },
            SessionSource::Typed(s) => match r {
                Ok(id) => !is_blank(s@) && id@ == trimmed(s@),
                Err(e) => is_blank(s@) && e == BoplatsError::Config,
            },
        },
{
    match source {
        SessionSource::Argument(s) => {
            let t = chars_of(s.as_str());
            proof {
                lemma_trimmed_empty(s@);
            }
            if scan_from(&t, 0, Stop::NonWhite) < trim_end_from(&t) {
                Ok(s)
            } else {
                Err(BoplatsError::Config)
            }
        },
        SessionSource::Typed(s) => {
            let t = chars_of(s.as_str());
            proof {
                lemma_trimmed_empty(s@);
            }
            let a = scan_from(&t, 0, Stop::NonWhite);
            let b = trim_end_from(&t);
            if a < b {
                Ok(string_from(&slice(&t, a, b)))
            } else {
                Err(BoplatsError::Config)
            }
        },
    }
}

} // verus!
