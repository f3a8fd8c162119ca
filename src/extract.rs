//! Reading links and the page count out of stored documents.

use vstd::prelude::*;
use vstd::string::*;
use crate::jobs::site_root;
use crate::text::{sorted_unique, str_equal, strictly_sorted, views};

verus! {

/// The `href` of each anchor of an HTML document that has one, in the order
/// in which the parsed tree yields the anchors.
pub uninterp spec fn hrefs_of(html: Seq<char>) -> Seq<Seq<char>>;

/// Relies on scraper's `Html::parse_document` and `Html::select` with the
/// selector `a[href]`: the result depends on the document text alone.
#[verifier::external_body]
fn anchor_hrefs(html: &str) -> (r: Vec<String>)
    ensures
        views(r@) == hrefs_of(html@),
{
    let selector = scraper::Selector::parse("a[href]").unwrap();
    let document = scraper::Html::parse_document(html);
    document.select(&selector).filter_map(|e| e.value().attr("href")).map(String::from).collect()
}

pub open spec fn has_suffix(s: Seq<char>, suffix: Seq<char>) -> bool {
    suffix.len() <= s.len() && s.subrange(s.len() - suffix.len(), s.len() as int) == suffix
}

/// `s` with every occurrence of `p` taken out, scanning left to right.
pub open spec fn removed(s: Seq<char>, p: Seq<char>) -> Seq<char>
    decreases s.len(),
{
    if p.len() == 0 || s.len() < p.len() {
        s
    } else if s.subrange(0, p.len() as int) == p {
        removed(s.skip(p.len() as int), p)
    } else {
        seq![s[0]] + removed(s.skip(1), p)
    }
}

/// Whether `s` ends with `suffix`.
pub fn ends_with(s: &str, suffix: &str) -> (r: bool)
    ensures
        r == has_suffix(s@, suffix@),
{
    let n = s.unicode_len();
    let m = suffix.unicode_len();
    if m > n {
        return false;
    }
    str_equal(s.substring_char(n - m, n), suffix)
}

/// Takes every occurrence of `p` out of `s`.
pub fn remove_all(s: &str, p: &str) -> (r: String)
    ensures
        r@ == removed(s@, p@),
{
    let n = s.unicode_len();
    let m = p.unicode_len();
    if m == 0 {
        return String::from_str(s);
    }
    let mut r = String::new();
    let mut i: usize = 0;
    assert(s@.skip(0) =~= s@);
    while i < n
        invariant
            n == s@.len(),
            m == p@.len(),
            m > 0,
            i <= n,
            removed(s@, p@) == r@ + removed(s@.skip(i as int), p@),
        decreases n - i,
    {
        let ghost t = s@.skip(i as int);
        if n - i >= m && str_equal(s.substring_char(i, i + m), p) {
            assert(t.subrange(0, m as int) =~= s@.subrange(i as int, i + m));
            assert(t.skip(m as int) =~= s@.skip(i + m));
            i = i + m;
        } else {
            let c = s.substring_char(i, i + 1);
            proof {
                assert(t.skip(1) =~= s@.skip(i + 1));
                assert(c@ =~= seq![t[0]]);
                if n - i >= m {
                    assert(t.subrange(0, m as int) =~= s@.subrange(i as int, i + m));
                } else {
                    assert(t =~= seq![t[0]] + t.skip(1));
                }
            }
            let ghost before = r@;
            r.append(c);
            assert(r@ + removed(s@.skip(i + 1), p@) =~= before + (seq![t[0]] + removed(t.skip(1), p@)));
            i = i + 1;
        }
    }
    assert(s@.skip(n as int) =~= Seq::<char>::empty());
    assert(r@ + Seq::<char>::empty() =~= r@);
    r
}

/// The link kept from one `href`: those with the suffix, the site root taken out.
pub open spec fn kept_link(href: Seq<char>, suffix: Seq<char>) -> Option<Seq<char>> {
    if has_suffix(href, suffix) {
        Some(removed(href, site_root()))
    } else {
        None
    }
}

/// The links kept from a list of `href`s, in order.
pub open spec fn kept_links(hrefs: Seq<Seq<char>>, suffix: Seq<char>) -> Seq<Seq<char>>
    decreases hrefs.len(),
{
    if hrefs.len() == 0 {
        Seq::empty()
    } else {
        let rest = kept_links(hrefs.drop_last(), suffix);
        match kept_link(hrefs.last(), suffix) {
            Some(l) => rest.push(l),
            None => rest,
        }
    }
}

/// Keeps the `href`s that end with `suffix`, with the site root taken out.
pub fn links_in(hrefs: &Vec<String>, suffix: &str) -> (r: Vec<String>)
    ensures
        views(r@) == kept_links(views(hrefs@), suffix@),
{
    let mut r: Vec<String> = Vec::new();
    let n = hrefs.len();
    let mut i: usize = 0;
    while i < n
        invariant
            n == hrefs@.len(),
            i <= n,
            views(r@) == kept_links(views(hrefs@.subrange(0, i as int)), suffix@),
        decreases n - i,
    {
        let ghost before = views(hrefs@.subrange(0, i as int));
        let ghost after = views(hrefs@.subrange(0, i + 1));
        assert(after.drop_last() =~= before);
        assert(after.last() == hrefs@[i as int]@);
        if ends_with(hrefs[i].as_str(), suffix) {
            let link = remove_all(hrefs[i].as_str(), "http://www.ptorrents.com");
            let ghost prev = r@;
            r.push(link);
            assert(views(r@) =~= views(prev).push(link@));
        }
        i = i + 1;
    }
    assert(hrefs@.subrange(0, n as int) =~= hrefs@);
    r
}

/// The links of an HTML document that end with `suffix`, with the site root
/// taken out, in document order.
pub fn extract_links(html: &str, suffix: &str) -> (r: Vec<String>)
    ensures
        views(r@) == kept_links(hrefs_of(html@), suffix@),
{
    let hrefs = anchor_hrefs(html);
    links_in(&hrefs, suffix)
}

/// Some document of `docs` yields the link `t`.
pub open spec fn yielded_by(docs: Seq<String>, suffix: Seq<char>, t: Seq<char>) -> bool {
    exists|d: int| 0 <= d < docs.len() && kept_links(hrefs_of(docs[d]@), suffix).contains(t)
}

/// The distinct links that the documents yield, sorted ascending.
pub fn collect_links(docs: &Vec<String>, suffix: &str) -> (r: Vec<String>)
    ensures
        strictly_sorted(views(r@)),
        forall|t: Seq<char>| views(r@).contains(t) <==> yielded_by(docs@, suffix@, t),
{
    let mut all: Vec<String> = Vec::new();
    let n = docs.len();
    let mut d: usize = 0;
    while d < n
        invariant
            n == docs@.len(),
            d <= n,
            forall|t: Seq<char>| views(all@).contains(t) <==> yielded_by(docs@.subrange(0, d as int), suffix@, t),
        decreases n - d,
    {
        let mut links = extract_links(docs[d].as_str(), suffix);
        let ghost prev = views(all@);
        let ghost got = views(links@);
        let ghost before = docs@.subrange(0, d as int);
        assert(forall|t: Seq<char>| #[trigger] prev.contains(t) <==> yielded_by(before, suffix@, t));
        all.append(&mut links);
        proof {
            assert(views(all@) =~= prev + got);
            let after = docs@.subrange(0, d + 1);
            assert forall|t: Seq<char>| views(all@).contains(t) <==> yielded_by(after, suffix@, t) by {
                if views(all@).contains(t) {
                    let k = choose|k: int| 0 <= k < views(all@).len() && views(all@)[k] == t;
                    if k < prev.len() {
                        assert(prev[k] == t);
                        assert(prev.contains(t));
                        assert(yielded_by(before, suffix@, t));
                        let e = choose|e: int| 0 <= e < before.len() && kept_links(hrefs_of(before[e]@), suffix@).contains(t);
                        assert(after[e] == before[e]);
                    } else {
                        assert(got[k - prev.len()] == t);
                        assert(after[d as int] == docs@[d as int]);
                    }
                }
                if yielded_by(after, suffix@, t) {
                    let e = choose|e: int| 0 <= e < after.len() && kept_links(hrefs_of(after[e]@), suffix@).contains(t);
                    if e < d {
                        assert(before[e] == after[e]);
                        assert(yielded_by(before, suffix@, t));
                        assert(prev.contains(t));
                        let k = choose|k: int| 0 <= k < prev.len() && prev[k] == t;
                        assert(views(all@)[k] == t);
                    } else {
                        let k = choose|k: int| 0 <= k < got.len() && got[k] == t;
                        assert(views(all@)[prev.len() + k] == t);
                    }
                }
            }
        }
        d = d + 1;
    }
    assert(docs@.subrange(0, n as int) =~= docs@);
    sorted_unique(all)
}

} // verus!
