//! Stage decisions of the harvesting pipeline, each gated by the checkpoint
//! and by which artifacts are already stored.

use vstd::prelude::*;
use crate::checkpoint::{recorded_count, Config};
use crate::jobs::{entry_jobs, entry_jobs_view, job_view, jobs_view, page_jobs, page_path, page_url, pending, pending_of, Job};
use crate::text::{lemma_lt_irreflexive, lemma_lt_transitive, seq_lt, strictly_sorted, views};

verus! {

/// The page stage runs exactly when the fresh count exceeds the recorded one.
pub open spec fn pages_due(max_pages: nat, fresh: nat) -> bool {
    fresh > max_pages
}

/// The page jobs to run for a freshly scraped page count: every page
/// `1..=fresh` when `fresh` exceeds the recorded count, else none at all.
pub fn plan_pages(config: &Config, base: &str, fresh: usize) -> (r: Option<Vec<Job>>)
    ensures
        r is Some <==> pages_due(config.max_pages as nat, fresh as nat),
        r matches Some(jobs) ==> {
            &&& jobs@.len() == fresh
            &&& forall|i: int|
                0 <= i < fresh ==> job_view(#[trigger] jobs@[i]) == (page_url((i + 1) as nat), page_path(base@, (i + 1) as nat))
        },
{
    if fresh > config.max_pages {
        Some(page_jobs(base, fresh))
    } else {
        None
    }
}

/// The entry jobs still to run: one per known entry whose file is absent,
/// in the entries' order. `present[i]` tells whether the file of
/// `config.entries[i]` exists.
pub fn plan_entries(config: &Config, base: &str, present: &Vec<bool>) -> (r: Vec<Job>)
    requires
        present@.len() == config.entries@.len(),
    ensures
        jobs_view(r@) == pending_of(entry_jobs_view(base@, views(config.entries@)), present@),
        r@.len() > 0 <==> exists|i: int| 0 <= i < present@.len() && !present@[i],
{
    let jobs = entry_jobs(base, &config.entries);
    pending(jobs, present)
}

/// When every destination is already stored, nothing is pending.
pub proof fn lemma_nothing_pending(jobs: Seq<Job>, present: Seq<bool>)
    requires
        jobs.len() == present.len(),
        forall|i: int| 0 <= i < present.len() ==> #[trigger] present[i],
    ensures
        pending_of(jobs, present).len() == 0,
    decreases jobs.len(),
{
    if jobs.len() > 0 {
        lemma_nothing_pending(jobs.drop_last(), present.drop_last());
    }
}

/// Two strictly sorted lists with the same elements are the same list: a
/// link list re-derived from unchanged documents is stored identically.
pub proof fn lemma_sorted_lists_equal(a: Seq<Seq<char>>, b: Seq<Seq<char>>)
    requires
        strictly_sorted(a),
        strictly_sorted(b),
        forall|t: Seq<char>| a.contains(t) <==> b.contains(t),
    ensures
        a == b,
    decreases a.len(),
{
    if a.len() == 0 {
        if b.len() > 0 {
            assert(b.contains(b[0]));
        }
        assert(a =~= b);
    } else {
        assert(a.contains(a[0]));
        let kb = choose|k: int| 0 <= k < b.len() && b[k] == a[0];
        assert(b.contains(b[0]));
        let ka = choose|k: int| 0 <= k < a.len() && a[k] == b[0];
        if kb > 0 {
            assert(seq_lt(b[0], b[kb]));
            if ka > 0 {
                assert(seq_lt(a[0], a[ka]));
                lemma_lt_transitive(a[0], b[0], a[0]);
                lemma_lt_irreflexive(a[0]);
            } else {
                lemma_lt_irreflexive(a[0]);
            }
        }
        assert(a[0] == b[0]);
        let (a2, b2) = (a.drop_first(), b.drop_first());
        assert forall|t: Seq<char>| a2.contains(t) <==> b2.contains(t) by {
            if a2.contains(t) {
                let k = choose|k: int| 0 <= k < a2.len() && a2[k] == t;
                assert(a[k + 1] == t);
                assert(seq_lt(a[0], a[k + 1]));
                assert(a.contains(t));
                let m = choose|m: int| 0 <= m < b.len() && b[m] == t;
                if m == 0 {
                    lemma_lt_irreflexive(t);
                }
                assert(b2[m - 1] == t);
            }
            if b2.contains(t) {
                let k = choose|k: int| 0 <= k < b2.len() && b2[k] == t;
                assert(b[k + 1] == t);
                assert(seq_lt(b[0], b[k + 1]));
                assert(b.contains(t));
                let m = choose|m: int| 0 <= m < a.len() && a[m] == t;
                if m == 0 {
                    lemma_lt_irreflexive(t);
                }
                assert(a2[m - 1] == t);
            }
        }
        lemma_sorted_lists_equal(a2, b2);
        assert(a =~= seq![a[0]] + a2);
        assert(b =~= seq![b[0]] + b2);
    }
}

/// Running the pipeline a second time against an unchanged site issues no
/// download job and rewrites nothing. The first run recorded the page count
/// it saw (`recorded_count`), and its downloads left every entry file and
/// every download file stored. On the second run, which sees the same page
/// count: the page stage is not due, so neither pages nor entries are
/// re-derived; recording the count again leaves it as it was; no entry file
/// is pending, so the download links are not re-derived; and no download
/// file is pending.
pub proof fn lemma_quiet_rerun(
    max_pages: nat,
    fresh: nat,
    entries: Seq<Job>,
    entries_present: Seq<bool>,
    files: Seq<Job>,
    files_present: Seq<bool>,
)
    requires
        entries.len() == entries_present.len(),
        forall|i: int| 0 <= i < entries_present.len() ==> #[trigger] entries_present[i],
        files.len() == files_present.len(),
        forall|i: int| 0 <= i < files_present.len() ==> #[trigger] files_present[i],
    ensures
        !pages_due(recorded_count(max_pages, fresh), fresh),
        recorded_count(recorded_count(max_pages, fresh), fresh) == recorded_count(max_pages, fresh),
        pending_of(entries, entries_present).len() == 0,
        pending_of(files, files_present).len() == 0,
{
    lemma_nothing_pending(entries, entries_present);
    lemma_nothing_pending(files, files_present);
}

} // verus!
