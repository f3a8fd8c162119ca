//! Character-sequence ordering and sorted, duplicate-free string lists.

use vstd::prelude::*;
use vstd::string::*;

verus! {

/// Lexicographic order on character sequences, by code point.
pub open spec fn seq_lt(a: Seq<char>, b: Seq<char>) -> bool
    decreases a.len(),
{
    if a.len() == 0 {
        b.len() > 0
    } else if b.len() == 0 {
        false
    } else if a[0] != b[0] {
        (a[0] as int) < (b[0] as int)
    } else {
        seq_lt(a.drop_first(), b.drop_first())
    }
}

/// The character sequences that a list of strings holds, in order.
pub open spec fn views(v: Seq<String>) -> Seq<Seq<char>> {
    v.map_values(|s: String| s@)
}

/// The text an optional string holds.
pub open spec fn opt_view(o: Option<String>) -> Option<Seq<char>> {
    match o {
        Some(s) => Some(s@),
        None => None,
    }
}

/// Every element is strictly below each later one: sorted, no duplicates.
pub open spec fn strictly_sorted(s: Seq<Seq<char>>) -> bool {
    forall|i: int, j: int| 0 <= i < j < s.len() ==> seq_lt(#[trigger] s[i], #[trigger] s[j])
}

pub proof fn lemma_lt_irreflexive(a: Seq<char>)
    ensures
        !seq_lt(a, a),
    decreases a.len(),
{
    if a.len() > 0 {
        lemma_lt_irreflexive(a.drop_first());
    }
}

pub proof fn lemma_lt_trichotomy(a: Seq<char>, b: Seq<char>)
    ensures
        seq_lt(a, b) || seq_lt(b, a) || a == b,
    decreases a.len(),
{
    if a.len() > 0 && b.len() > 0 && a[0] == b[0] {
        lemma_lt_trichotomy(a.drop_first(), b.drop_first());
        if a.drop_first() == b.drop_first() {
            assert(a =~= seq![a[0]] + a.drop_first());
            assert(b =~= seq![b[0]] + b.drop_first());
        }
    } else if a.len() > 0 && b.len() > 0 {
        assert((a[0] as int) != (b[0] as int));
    } else if a.len() == 0 && b.len() == 0 {
        assert(a =~= b);
    }
}

pub proof fn lemma_lt_transitive(a: Seq<char>, b: Seq<char>, c: Seq<char>)
    requires
        seq_lt(a, b),
        seq_lt(b, c),
    ensures
        seq_lt(a, c),
    decreases a.len(),
{
    if a.len() > 0 && b.len() > 0 && c.len() > 0 && a[0] == b[0] && b[0] == c[0] {
        lemma_lt_transitive(a.drop_first(), b.drop_first(), c.drop_first());
    }
}

/// Compares two strings in the order `seq_lt`.
pub fn str_less(a: &str, b: &str) -> (r: bool)
    ensures
        r == seq_lt(a@, b@),
{
    let la = a.unicode_len();
    let lb = b.unicode_len();
    let mut i: usize = 0;
    assert(a@.skip(0) =~= a@);
    assert(b@.skip(0) =~= b@);
    while i < la && i < lb
        invariant
            la == a@.len(),
            lb == b@.len(),
            i <= la,
            i <= lb,
            seq_lt(a@, b@) == seq_lt(a@.skip(i as int), b@.skip(i as int)),
        decreases la - i,
    {
        let ca = a.get_char(i);
        let cb = b.get_char(i);
        if ca != cb {
            return (ca as u32) < (cb as u32);
        }
        assert(a@.skip(i as int).drop_first() =~= a@.skip(i + 1));
        assert(b@.skip(i as int).drop_first() =~= b@.skip(i + 1));
        i = i + 1;
    }
    i == la && i < lb
}

/// Tests two strings for equal contents.
pub fn str_equal(a: &str, b: &str) -> (r: bool)
    ensures
        r == (a@ == b@),
{
    proof {
        lemma_lt_trichotomy(a@, b@);
        lemma_lt_irreflexive(a@);
    }
    !str_less(a, b) && !str_less(b, a)
}

/// Adds `x` to a strictly sorted list, keeping it strictly sorted; a value
/// already present is not added twice.
pub fn insert_sorted(v: &mut Vec<String>, x: String)
    requires
        strictly_sorted(views(old(v)@)),
    ensures
        strictly_sorted(views(final(v)@)),
        forall|t: Seq<char>|
            views(final(v)@).contains(t) <==> (views(old(v)@).contains(t) || t == x@),
{
    let n = v.len();
    let mut i: usize = 0;
    while i < n && str_less(v[i].as_str(), x.as_str())
        invariant
            n == v@.len(),
            i <= n,
            forall|j: int| 0 <= j < i ==> seq_lt(#[trigger] views(v@)[j], x@),
        decreases n - i,
    {
        i = i + 1;
    }
    let ghost old_views = views(v@);
    if i < n && v[i] == x {
        assert(views(v@)[i as int] == x@);
        return;
    }
    if i < n {
        proof {
            lemma_lt_trichotomy(views(v@)[i as int], x@);
        }
    }
    v.insert(i, x);
    let ghost new_views = views(v@);
    assert(new_views =~= old_views.insert(i as int, x@));
    assert forall|a: int, b: int| 0 <= a < b < new_views.len() implies seq_lt(
        #[trigger] new_views[a],
        #[trigger] new_views[b],
    ) by {
        if b < i {
            assert(seq_lt(old_views[a], old_views[b]));
        } else if b == i {
        } else if a < i {
            assert(seq_lt(old_views[a], x@));
            if b - 1 > i {
                assert(seq_lt(old_views[i as int], old_views[b - 1]));
                lemma_lt_transitive(x@, old_views[i as int], old_views[b - 1]);
            }
            lemma_lt_transitive(old_views[a], x@, old_views[b - 1]);
        } else if a == i {
            if b - 1 > i {
                assert(seq_lt(old_views[i as int], old_views[b - 1]));
                lemma_lt_transitive(x@, old_views[i as int], old_views[b - 1]);
            }
        } else {
            assert(seq_lt(old_views[a - 1], old_views[b - 1]));
        }
    }
    assert forall|t: Seq<char>| new_views.contains(t) <==> (old_views.contains(t) || t == x@) by {
        if new_views.contains(t) {
            let k = choose|k: int| 0 <= k < new_views.len() && new_views[k] == t;
            if k < i {
                assert(old_views[k] == t);
            } else if k > i {
                assert(old_views[k - 1] == t);
            }
        }
        if old_views.contains(t) {
            let k = choose|k: int| 0 <= k < old_views.len() && old_views[k] == t;
            if k < i {
                assert(new_views[k] == t);
            } else {
                assert(new_views[k + 1] == t);
            }
        }
        if t == x@ {
            assert(new_views[i as int] == t);
        }
    }
}

/// The distinct values of `items`, sorted ascending.
pub fn sorted_unique(items: Vec<String>) -> (r: Vec<String>)
    ensures
        strictly_sorted(views(r@)),
        forall|t: Seq<char>| views(r@).contains(t) <==> views(items@).contains(t),
{
    let mut r: Vec<String> = Vec::new();
    let mut i: usize = 0;
    let n = items.len();
    while i < n
        invariant
            n == items@.len(),
            i <= n,
            strictly_sorted(views(r@)),
            forall|t: Seq<char>|
                views(r@).contains(t) <==> views(items@.subrange(0, i as int)).contains(t),
        decreases n - i,
    {
        let ghost prev = views(items@.subrange(0, i as int));
        insert_sorted(&mut r, items[i].clone());
        proof {
            let next = views(items@.subrange(0, i + 1));
            assert(next =~= prev.push(items@[i as int]@));
            assert forall|t: Seq<char>| next.contains(t) <==> (prev.contains(t) || t == items@[i as int]@) by {
                if next.contains(t) {
                    let k = choose|k: int| 0 <= k < next.len() && next[k] == t;
                    if k < i {
                        assert(prev[k] == t);
                    }
                }
                if prev.contains(t) {
                    let k = choose|k: int| 0 <= k < prev.len() && prev[k] == t;
                    assert(next[k] == t);
                }
                if t == items@[i as int]@ {
                    assert(next[i as int] == t);
                }
            }
        }
        i = i + 1;
    }
    assert(items@.subrange(0, n as int) =~= items@);
    r
}

} // verus!
