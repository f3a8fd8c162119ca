//! Mapping a download-file link to the place where the file is stored.
//!
//! A link has the shape `https://d.ptorrents.com/<path>/[site].<name>.torrent`:
//! the tag is the fixed text `[site]`, path and name are nonempty, and no
//! part of the link holds a line break. When the tag occurs more than once,
//! the longest path is taken.

use vstd::prelude::*;
use vstd::string::*;
use crate::jobs::{join, Job, job_view, jobs_view};
use crate::text::str_equal;

verus! {

pub open spec fn link_host() -> Seq<char> {
    "https://d.ptorrents.com/"@
}

pub open spec fn link_ext() -> Seq<char> {
    ".torrent"@
}

/// What separates the path from the name: a slash, the site's tag, a dot.
pub open spec fn link_tag() -> Seq<char> {
    "/[site]."@
}

/// The part of a link between the host prefix and the extension.
pub open spec fn link_body(l: Seq<char>) -> Seq<char> {
    l.subrange(24, l.len() - 8)
}

/// In `body`, a nonempty path ends at `k`, where the tag starts, and a
/// nonempty name follows the tag.
pub open spec fn splits(body: Seq<char>, k: int) -> bool {
    &&& 1 <= k
    &&& k + 8 < body.len()
    &&& body.subrange(k, k + 8) == link_tag()
}

pub open spec fn no_line_break(l: Seq<char>) -> bool {
    forall|i: int| 0 <= i < l.len() ==> #[trigger] l[i] != '\n'
}

/// The link has the template's shape.
pub open spec fn is_link(l: Seq<char>) -> bool {
    &&& l.len() >= 32
    &&& l.subrange(0, 24) == link_host()
    &&& l.subrange(l.len() - 8, l.len() as int) == link_ext()
    &&& no_line_break(l)
    &&& exists|k: int| splits(link_body(l), k)
}

/// Where the longest path of a link ends.
pub open spec fn path_cut(l: Seq<char>) -> int {
    choose|k: int|
        splits(link_body(l), k) && forall|k2: int| splits(link_body(l), k2) ==> k2 <= k
}

/// The path and the name segments of a link, or `None` for a link of
/// another shape.
pub open spec fn link_parts(l: Seq<char>) -> Option<(Seq<char>, Seq<char>)> {
    if is_link(l) {
        let b = link_body(l);
        Some((b.subrange(0, path_cut(l)), b.subrange(path_cut(l) + 8, b.len() as int)))
    } else {
        None
    }
}

pub open spec fn torrent_path(base: Seq<char>, path: Seq<char>, name: Seq<char>) -> Seq<char> {
    base + "/TORRENT/"@ + path + "/"@ + name + ".TORRENT"@
}

/// The job for a link, if it has the template's shape.
#[verifier::opaque]
pub open spec fn torrent_job_view(base: Seq<char>, l: Seq<char>) -> Option<(Seq<char>, Seq<char>)> {
    match link_parts(l) {
        Some(parts) => Some((l, torrent_path(base, parts.0, parts.1))),
        None => None,
    }
}

/// Whether `s` holds a line break.
fn has_line_break(s: &str, n: usize) -> (r: bool)
    requires
        n == s@.len(),
    ensures
        r == !no_line_break(s@),
{
    let mut i: usize = 0;
    while i < n
        invariant
            n == s@.len(),
            i <= n,
            forall|m: int| 0 <= m < i ==> s@[m] != '\n',
        decreases n - i,
    {
        if s.get_char(i) == '\n' {
            return true;
        }
        i = i + 1;
    }
    false
}

/// Splits a link into its path and name segments; `None` for a link of
/// another shape.
pub fn split_link(l: &str) -> (r: Option<(String, String)>)
    ensures
        match r {
            Some(parts) => link_parts(l@) == Some((parts.0@, parts.1@)),
            None => link_parts(l@) is None,
        },
{
    let n = l.unicode_len();
    if n < 32 {
        return None;
    }
    proof {
        reveal_strlit("https://d.ptorrents.com/");
        reveal_strlit(".torrent");
        reveal_strlit("/[site].");
    }
    if !str_equal(l.substring_char(0, 24), "https://d.ptorrents.com/") {
        return None;
    }
    if !str_equal(l.substring_char(n - 8, n), ".torrent") {
        return None;
    }
    if has_line_break(l, n) {
        return None;
    }
    let body = l.substring_char(24, n - 8);
    let m = n - 32;
    assert(body@ == link_body(l@));
    assert(l@.subrange(0, 24) == link_host());
    assert(l@.subrange(n - 8, n as int) == link_ext());
    // Candidate cuts run downwards; `k` is one past the next one to try.
    let mut k: usize = if m >= 8 { m - 8 } else { 0 };
    while k > 1
        invariant
            k <= m,
            k == 0 || k + 8 <= m,
            m == body@.len(),
            body@ == link_body(l@),
            n == l@.len(),
            n >= 32,
            l@.subrange(0, 24) == link_host(),
            l@.subrange(n - 8, n as int) == link_ext(),
            no_line_break(l@),
            forall|k2: int| k <= k2 ==> !(#[trigger] splits(body@, k2)),
        decreases k,
    {
        let c = k - 1;
        if str_equal(body.substring_char(c, c + 8), "/[site].") {
            proof {
                let b = body@;
                assert(splits(b, c as int));
                assert(is_link(l@));
                let pc = path_cut(l@);
                assert(splits(b, pc) && forall|k2: int| splits(b, k2) ==> k2 <= pc);
                if pc > c {
                    assert(!splits(b, pc));
                }
                assert(pc == c);
            }
            let path = String::from_str(body.substring_char(0, c));
            let name = String::from_str(body.substring_char(c + 8, m));
            return Some((path, name));
        }
        k = c;
    }
    proof {
        assert forall|k2: int| !splits(body@, k2) by {
            if splits(body@, k2) {
                assert(k2 >= 1);
            }
        }
    }
    None
}

/// The job that fetches the file behind a link, or `None` for a link of
/// another shape.
pub fn torrent_job(base: &str, link: &str) -> (r: Option<Job>)
    ensures
        match r {
            Some(j) => torrent_job_view(base@, link@) == Some(job_view(j)),
            None => torrent_job_view(base@, link@) is None,
        },
{
    proof {
        reveal(torrent_job_view);
    }
    match split_link(link) {
        Some((path, name)) => {
            let mut dest = join(base, "/TORRENT/");
            dest.append(path.as_str());
            dest.append("/");
            dest.append(name.as_str());
            dest.append(".TORRENT");
            Some(Job { source: String::from_str(link), destination: dest })
        },
        None => None,
    }
}

/// The jobs for the links that have the template's shape, in order; other
/// links give no job.
pub open spec fn torrent_jobs_view(base: Seq<char>, links: Seq<Seq<char>>) -> Seq<(Seq<char>, Seq<char>)>
    decreases links.len(),
{
    if links.len() == 0 {
        Seq::empty()
    } else {
        let rest = torrent_jobs_view(base, links.drop_last());
        match torrent_job_view(base, links.last()) {
            Some(j) => rest.push(j),
            None => rest,
        }
    }
}

/// One job per link that has the template's shape, in the links' order.
pub fn torrent_jobs(base: &str, links: &Vec<String>) -> (r: Vec<Job>)
    ensures
        jobs_view(r@) == torrent_jobs_view(base@, links@.map_values(|s: String| s@)),
{
    let mut r: Vec<Job> = Vec::new();
    let n = links.len();
    let mut i: usize = 0;
    while i < n
        invariant
            n == links@.len(),
            i <= n,
            jobs_view(r@) == torrent_jobs_view(base@, links@.subrange(0, i as int).map_values(|s: String| s@)),
        decreases n - i,
    {
        let ghost before = links@.subrange(0, i as int).map_values(|s: String| s@);
        let ghost after = links@.subrange(0, i + 1).map_values(|s: String| s@);
        assert(after.drop_last() =~= before);
        assert(after.last() == links@[i as int]@);
        let found = torrent_job(base, links[i].as_str());
        match found {
            Some(j) => {
                assert(torrent_jobs_view(base@, after) == torrent_jobs_view(base@, before).push(job_view(j)));
                let ghost prev = r@;
                r.push(j);
                assert(jobs_view(r@) =~= jobs_view(prev).push(job_view(j)));
            },
            None => {
                assert(torrent_jobs_view(base@, after) == torrent_jobs_view(base@, before));
            },
        }
        i = i + 1;
    }
    assert(links@.subrange(0, n as int) =~= links@);
    r
}

} // verus!
