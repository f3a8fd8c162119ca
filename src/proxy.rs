//! Deciding which candidate proxies route traffic through another address.

use vstd::prelude::*;
use crate::text::{opt_view, str_equal};

verus! {

/// A candidate is kept when its echo reply arrived and differs from the
/// address seen without a proxy.
pub open spec fn accepted(baseline: Seq<char>, reply: Option<Seq<char>>) -> bool {
    reply is Some && reply->0 != baseline
}

/// The positions of the kept candidates, ascending.
pub open spec fn kept(baseline: Seq<char>, replies: Seq<Option<Seq<char>>>) -> Seq<int>
    decreases replies.len(),
{
    if replies.len() == 0 {
        Seq::empty()
    } else {
        let rest = kept(baseline, replies.drop_last());
        if accepted(baseline, replies.last()) {
            rest.push(replies.len() - 1)
        } else {
            rest
        }
    }
}

/// Whether a candidate whose echo request gave `reply` is kept.
pub fn accepts(baseline: &str, reply: &Option<String>) -> (r: bool)
    ensures
        r == accepted(baseline@, opt_view(*reply)),
{
    match reply {
        Some(text) => !str_equal(text.as_str(), baseline),
        None => false,
    }
}

/// The positions of the candidates to keep, given the echo reply obtained
/// through each (`None` for a failed request).
pub fn select_proxies(baseline: &str, replies: &Vec<Option<String>>) -> (r: Vec<usize>)
    ensures
        r@.map_values(|i: usize| i as int) == kept(baseline@, replies@.map_values(|o: Option<String>| opt_view(o))),
{
    let mut r: Vec<usize> = Vec::new();
    let n = replies.len();
    let mut i: usize = 0;
    while i < n
        invariant
            n == replies@.len(),
            i <= n,
            r@.map_values(|i: usize| i as int) == kept(
                baseline@,
                replies@.subrange(0, i as int).map_values(|o: Option<String>| opt_view(o)),
            ),
        decreases n - i,
    {
        let ghost before = replies@.subrange(0, i as int).map_values(|o: Option<String>| opt_view(o));
        let ghost after = replies@.subrange(0, i + 1).map_values(|o: Option<String>| opt_view(o));
        assert(after.drop_last() =~= before);
        assert(after.last() == opt_view(replies@[i as int]));
        if accepts(baseline, &replies[i]) {
            let ghost prev = r@;
            r.push(i);
            assert(r@.map_values(|i: usize| i as int) =~= prev.map_values(|i: usize| i as int).push(i as int));
        }
        i = i + 1;
    }
    assert(replies@.subrange(0, n as int) =~= replies@);
    r
}

/// A single candidate is kept exactly when its echo reply arrived and names
/// an address other than the direct one.
pub proof fn lemma_single_candidate(baseline: Seq<char>, reply: Option<Seq<char>>)
    ensures
        kept(baseline, seq![reply]).len() > 0 <==> accepted(baseline, reply),
{
    assert(seq![reply].drop_last() =~= Seq::<Option<Seq<char>>>::empty());
    assert(kept(baseline, Seq::<Option<Seq<char>>>::empty()).len() == 0);
    assert(seq![reply].last() == reply);
}

} // verus!
