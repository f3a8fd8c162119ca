//! The total page count shown by the site's pagination.

use vstd::prelude::*;
use crate::text::opt_view;

verus! {

/// `s` without its commas.
pub open spec fn strip_commas(s: Seq<char>) -> Seq<char>
    decreases s.len(),
{
    if s.len() == 0 {
        s
    } else if s.last() == ',' {
        strip_commas(s.drop_last())
    } else {
        strip_commas(s.drop_last()).push(s.last())
    }
}

/// The value of a decimal digit.
pub open spec fn digit_value(c: char) -> Option<nat> {
    if '0' <= c && c <= '9' {
        Some((c as int - '0' as int) as nat)
    } else {
        None
    }
}

pub open spec fn is_digit(c: char) -> bool {
    digit_value(c) is Some
}

fn read_digit(c: char) -> (r: Option<usize>)
    ensures
        as_nat(r) == digit_value(c),
{
    if '0' <= c && c <= '9' {
        Some((c as u32 - '0' as u32) as usize)
    } else {
        None
    }
}

/// The value of a string of decimal digits.
pub open spec fn digits_value(d: Seq<char>) -> nat
    decreases d.len(),
{
    if d.len() == 0 {
        0
    } else {
        digits_value(d.drop_last()) * 10 + digit_value(d.last()).unwrap_or(0)
    }
}

pub open spec fn all_digits(d: Seq<char>) -> bool {
    forall|i: int| 0 <= i < d.len() ==> is_digit(#[trigger] d[i])
}

/// The text of a number, without its optional leading `+`.
pub open spec fn unsigned_part(t: Seq<char>) -> Seq<char> {
    if t.len() > 0 && t[0] == '+' { t.drop_first() } else { t }
}

/// An unsigned integer in decimal, with an optional leading `+`, that fits
/// in `usize`.
pub open spec fn number_view(t: Seq<char>) -> Option<nat> {
    let d = unsigned_part(t);
    if d.len() > 0 && all_digits(d) && digits_value(d) <= usize::MAX {
        Some(digits_value(d))
    } else {
        None
    }
}

/// The number written in `s`, thousands separators allowed.
pub open spec fn count_view(s: Seq<char>) -> Option<nat> {
    number_view(strip_commas(s))
}

pub open spec fn as_nat(r: Option<usize>) -> Option<nat> {
    match r {
        Some(v) => Some(v as nat),
        None => None,
    }
}

proof fn lemma_prefix_value(d: Seq<char>, k: int)
    requires
        0 <= k <= d.len(),
    ensures
        digits_value(d.subrange(0, k)) <= digits_value(d),
    decreases d.len(),
{
    if k < d.len() {
        assert(d.drop_last().subrange(0, k) =~= d.subrange(0, k));
        lemma_prefix_value(d.drop_last(), k);
    } else {
        assert(d.subrange(0, k) =~= d);
    }
}

/// Reads a decimal number, with an optional leading `+`.
fn read_number(t: &Vec<char>) -> (r: Option<usize>)
    ensures
        as_nat(r) == number_view(t@),
{
    let n = t.len();
    let start: usize = if n > 0 && t[0] == '+' { 1 } else { 0 };
    let ghost d = unsigned_part(t@);
    assert(d =~= t@.subrange(start as int, n as int));
    if start == n {
        return None;
    }
    let mut v: usize = 0;
    let mut j: usize = start;
    assert(t@.subrange(start as int, start as int) =~= Seq::<char>::empty());
    while j < n
        invariant
            start <= j <= n,
            n == t@.len(),
            start < n,
            d == t@.subrange(start as int, n as int),
            d == unsigned_part(t@),
            forall|i: int| start <= i < j ==> is_digit(#[trigger] t@[i]),
            v as nat == digits_value(t@.subrange(start as int, j as int)),
        decreases n - j,
    {
        let c = t[j];
        let digit = match read_digit(c) {
            Some(x) => x,
            None => {
                assert(!is_digit(d[j - start]));
                assert(!all_digits(d));
                return None;
            },
        };
        let ghost next = t@.subrange(start as int, j + 1);
        assert(next.drop_last() =~= t@.subrange(start as int, j as int));
        assert(next.last() == c);
        assert(digits_value(next) == v as nat * 10 + digit as nat);
        proof {
            if all_digits(d) {
                assert(next =~= d.subrange(0, j + 1 - start));
                lemma_prefix_value(d, j + 1 - start);
            }
        }
        match v.checked_mul(10) {
            Some(w) => match w.checked_add(digit) {
                Some(x) => {
                    v = x;
                },
                None => {
                    return None;
                },
            },
            None => {
                return None;
            },
        }
        j = j + 1;
    }
    assert(all_digits(d)) by {
        assert forall|i: int| 0 <= i < d.len() implies is_digit(#[trigger] d[i]) by {
            assert(d[i] == t@[start + i]);
        }
    }
    Some(v)
}

/// Reads a count such as `1,234`: commas are dropped, the rest must be a
/// decimal number that fits in `usize`.
pub fn parse_count(s: &str) -> (r: Option<usize>)
    ensures
        as_nat(r) == count_view(s@),
{
    let n = s.unicode_len();
    let mut t: Vec<char> = Vec::new();
    let mut i: usize = 0;
    assert(s@.subrange(0, 0) =~= Seq::<char>::empty());
    while i < n
        invariant
            n == s@.len(),
            i <= n,
            t@ == strip_commas(s@.subrange(0, i as int)),
        decreases n - i,
    {
        let c = s.get_char(i);
        let ghost next = s@.subrange(0, i + 1);
        assert(next.drop_last() =~= s@.subrange(0, i as int));
        if c != ',' {
            t.push(c);
        }
        i = i + 1;
    }
    assert(s@.subrange(0, n as int) =~= s@);
    read_number(&t)
}

/// The page count that a pagination list gives: the text of its
/// second-to-last element, read by `count_view`.
pub open spec fn count_from_view(texts: Seq<Option<Seq<char>>>) -> Option<nat> {
    if texts.len() < 2 {
        None
    } else {
        match texts[texts.len() - 2] {
            Some(t) => count_view(t),
            None => None,
        }
    }
}

/// Reads the page count from the texts of the pagination elements.
pub fn count_from_texts(texts: &Vec<Option<String>>) -> (r: Option<usize>)
    ensures
        as_nat(r) == count_from_view(texts@.map_values(|o: Option<String>| opt_view(o))),
{
    let n = texts.len();
    if n < 2 {
        return None;
    }
    match &texts[n - 2] {
        Some(t) => parse_count(t.as_str()),
        None => None,
    }
}

/// The first text piece of each pagination element of an HTML document, in
/// the order in which the parsed tree yields the elements.
pub uninterp spec fn pagination_texts_of(html: Seq<char>) -> Seq<Option<Seq<char>>>;

/// Relies on scraper's `Html::parse_document`, `Html::select` with the
/// selector `a.page-numbers`, and `ElementRef::text`: the result depends on
/// the document text alone.
#[verifier::external_body]
fn pagination_texts(html: &str) -> (r: Vec<Option<String>>)
    ensures
        r@.map_values(|o: Option<String>| opt_view(o)) == pagination_texts_of(html@),
{
    let selector = scraper::Selector::parse("a.page-numbers").unwrap();
    let document = scraper::Html::parse_document(html);
    document.select(&selector).map(|e| e.text().next().map(String::from)).collect()
}

/// The total page count shown by the site root's pagination, or `None`
/// where it cannot be read.
pub fn page_count(html: &str) -> (r: Option<usize>)
    ensures
        as_nat(r) == count_from_view(pagination_texts_of(html@)),
{
    let texts = pagination_texts(html);
    count_from_texts(&texts)
}

} // verus!
