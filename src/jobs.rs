//! Download jobs: where each artifact comes from and where it is stored.

use vstd::prelude::*;
use vstd::string::*;

verus! {

/// One download: fetch `source`, store the content at `destination`.
pub struct Job {
    pub source: String,
    pub destination: String,
}

/// A job as a pair of character sequences.
pub open spec fn job_view(j: Job) -> (Seq<char>, Seq<char>) {
    (j.source@, j.destination@)
}

pub open spec fn jobs_view(v: Seq<Job>) -> Seq<(Seq<char>, Seq<char>)> {
    v.map_values(|j: Job| job_view(j))
}

/// The site root.
pub open spec fn site_root() -> Seq<char> {
    "http://www.ptorrents.com"@
}

/// The decimal digit for `d < 10`.
pub open spec fn digit(d: nat) -> char {
    "0123456789"@[d as int]
}

/// Decimal notation of `n`, without leading zeros.
pub open spec fn decimal_view(n: nat) -> Seq<char>
    decreases n,
{
    if n < 10 {
        seq![digit(n)]
    } else {
        decimal_view(n / 10).push(digit(n % 10))
    }
}

/// Writes `n` in decimal.
pub fn decimal(n: usize) -> (r: String)
    ensures
        r@ == decimal_view(n as nat),
    decreases n,
{
    let digits = "0123456789";
    proof {
        reveal_strlit("0123456789");
    }
    let d = digits.substring_char(n % 10, n % 10 + 1);
    assert(d@ =~= seq![digit((n % 10) as nat)]);
    if n < 10 {
        String::from_str(d)
    } else {
        let mut s = decimal(n / 10);
        s.append(d);
        s
    }
}

/// Joins two pieces of text.
pub(crate) fn join(a: &str, b: &str) -> (r: String)
    ensures
        r@ == a@ + b@,
{
    let mut s = String::from_str(a);
    s.append(b);
    s
}

pub open spec fn index_job_view(base: Seq<char>) -> (Seq<char>, Seq<char>) {
    (site_root(), base + "/HTML/INDEX.HTML"@)
}

pub open spec fn page_url(page: nat) -> Seq<char> {
    site_root() + "/page/"@ + decimal_view(page)
}

pub open spec fn page_path(base: Seq<char>, page: nat) -> Seq<char> {
    base + "/HTML/PAGES/"@ + decimal_view(page) + ".HTML"@
}

pub open spec fn entry_url(entry: Seq<char>) -> Seq<char> {
    site_root() + "/"@ + entry
}

pub open spec fn entry_path(base: Seq<char>, entry: Seq<char>) -> Seq<char> {
    base + "/HTML/ENTRIES/"@ + entry + ".HTML"@
}

/// The job that fetches the site root.
pub fn index_job(base: &str) -> (r: Job)
    ensures
        job_view(r) == index_job_view(base@),
{
    Job { source: String::from_str("http://www.ptorrents.com"), destination: join(base, "/HTML/INDEX.HTML") }
}

/// Where page `page` is stored under `base`.
pub fn page_file(base: &str, page: usize) -> (r: String)
    ensures
        r@ == page_path(base@, page as nat),
{
    let mut s = join(base, "/HTML/PAGES/");
    let d = decimal(page);
    s.append(d.as_str());
    s.append(".HTML");
    s
}

/// Where the entry `entry` is stored under `base`.
pub fn entry_file(base: &str, entry: &str) -> (r: String)
    ensures
        r@ == entry_path(base@, entry@),
{
    let mut s = join(base, "/HTML/ENTRIES/");
    s.append(entry);
    s.append(".HTML");
    s
}

/// One job for each page `1..=count`, in page order.
pub fn page_jobs(base: &str, count: usize) -> (r: Vec<Job>)
    ensures
        r@.len() == count,
        forall|i: int|
            0 <= i < count ==> job_view(#[trigger] r@[i]) == (page_url((i + 1) as nat), page_path(base@, (i + 1) as nat)),
{
    let mut r: Vec<Job> = Vec::new();
    let mut i: usize = 0;
    while i < count
        invariant
            i <= count,
            r@.len() == i,
            forall|k: int|
                0 <= k < i ==> job_view(#[trigger] r@[k]) == (page_url((k + 1) as nat), page_path(base@, (k + 1) as nat)),
        decreases count - i,
    {
        let page = i + 1;
        let mut url = String::from_str("http://www.ptorrents.com/page/");
        let d = decimal(page);
        url.append(d.as_str());
        proof {
            reveal_strlit("http://www.ptorrents.com/page/");
            reveal_strlit("http://www.ptorrents.com");
            reveal_strlit("/page/");
        }
        assert(url@ =~= page_url(page as nat));
        r.push(Job { source: url, destination: page_file(base, page) });
        i = i + 1;
    }
    r
}

/// The stored pages that entries are read from: `1..max_pages`, the last
/// page left out.
pub fn entry_source_files(base: &str, max_pages: usize) -> (r: Vec<String>)
    ensures
        r@.len() == if max_pages == 0 { 0 } else { max_pages - 1 },
        forall|i: int| 0 <= i < r@.len() ==> (#[trigger] r@[i])@ == page_path(base@, (i + 1) as nat),
{
    let mut r: Vec<String> = Vec::new();
    let mut page: usize = 1;
    while page < max_pages
        invariant
            1 <= page,
            max_pages == 0 ==> page == 1,
            max_pages > 0 ==> page <= max_pages,
            r@.len() == page - 1,
            forall|i: int| 0 <= i < r@.len() ==> (#[trigger] r@[i])@ == page_path(base@, (i + 1) as nat),
        decreases max_pages - page,
    {
        r.push(page_file(base, page));
        page = page + 1;
    }
    r
}

/// The job of each entry, in the entries' order.
pub open spec fn entry_jobs_view(base: Seq<char>, entries: Seq<Seq<char>>) -> Seq<(Seq<char>, Seq<char>)> {
    entries.map_values(|e: Seq<char>| (entry_url(e), entry_path(base, e)))
}

/// One job per entry, in the entries' order.
pub fn entry_jobs(base: &str, entries: &Vec<String>) -> (r: Vec<Job>)
    ensures
        jobs_view(r@) == entry_jobs_view(base@, entries@.map_values(|s: String| s@)),
        r@.len() == entries@.len(),
        forall|i: int|
            0 <= i < r@.len() ==> job_view(#[trigger] r@[i]) == (entry_url(entries@[i]@), entry_path(base@, entries@[i]@)),
{
    let mut r: Vec<Job> = Vec::new();
    let n = entries.len();
    let mut i: usize = 0;
    while i < n
        invariant
            n == entries@.len(),
            i <= n,
            r@.len() == i,
            forall|k: int|
                0 <= k < i ==> job_view(#[trigger] r@[k]) == (entry_url(entries@[k]@), entry_path(base@, entries@[k]@)),
        decreases n - i,
    {
        let url = join("http://www.ptorrents.com/", entries[i].as_str());
        proof {
            reveal_strlit("http://www.ptorrents.com/");
            reveal_strlit("http://www.ptorrents.com");
            reveal_strlit("/");
        }
        assert(url@ =~= entry_url(entries@[i as int]@));
        r.push(Job { source: url, destination: entry_file(base, entries[i].as_str()) });
        i = i + 1;
    }
    assert(jobs_view(r@) =~= entry_jobs_view(base@, entries@.map_values(|s: String| s@)));
    r
}

/// Where each entry is stored, in the entries' order.
pub fn entry_files(base: &str, entries: &Vec<String>) -> (r: Vec<String>)
    ensures
        r@.len() == entries@.len(),
        forall|i: int| 0 <= i < r@.len() ==> (#[trigger] r@[i])@ == entry_path(base@, entries@[i]@),
{
    let mut r: Vec<String> = Vec::new();
    let n = entries.len();
    let mut i: usize = 0;
    while i < n
        invariant
            n == entries@.len(),
            i <= n,
            r@.len() == i,
            forall|k: int| 0 <= k < i ==> (#[trigger] r@[k])@ == entry_path(base@, entries@[k]@),
        decreases n - i,
    {
        r.push(entry_file(base, entries[i].as_str()));
        i = i + 1;
    }
    r
}

/// The items whose destination is not yet present, in their order.
pub open spec fn pending_of<A>(items: Seq<A>, present: Seq<bool>) -> Seq<A>
    decreases items.len(),
{
    if items.len() == 0 || present.len() == 0 {
        Seq::empty()
    } else {
        let rest = pending_of(items.drop_last(), present.drop_last());
        if present.last() {
            rest
        } else {
            rest.push(items.last())
        }
    }
}

/// Filtering commutes with viewing each job.
pub proof fn lemma_pending_jobs_view(jobs: Seq<Job>, present: Seq<bool>)
    ensures
        jobs_view(pending_of(jobs, present)) == pending_of(jobs_view(jobs), present),
    decreases jobs.len(),
{
    if jobs.len() > 0 && present.len() > 0 {
        lemma_pending_jobs_view(jobs.drop_last(), present.drop_last());
        assert(jobs_view(jobs).drop_last() =~= jobs_view(jobs.drop_last()));
        let rest = pending_of(jobs.drop_last(), present.drop_last());
        if !present.last() {
            assert(jobs_view(rest.push(jobs.last())) =~= jobs_view(rest).push(job_view(jobs.last())));
        }
    } else {
        assert(jobs_view(pending_of(jobs, present)) =~= Seq::<(Seq<char>, Seq<char>)>::empty());
    }
}

/// Keeps the jobs whose destination is absent; `present[i]` tells whether
/// the destination of `jobs[i]` already exists.
pub fn pending(jobs: Vec<Job>, present: &Vec<bool>) -> (r: Vec<Job>)
    requires
        jobs@.len() == present@.len(),
    ensures
        r@ == pending_of(jobs@, present@),
        jobs_view(r@) == pending_of(jobs_view(jobs@), present@),
        r@.len() > 0 <==> exists|i: int| 0 <= i < present@.len() && !present@[i],
{
    let mut r: Vec<Job> = Vec::new();
    let mut jobs = jobs;
    let ghost all = jobs@;
    let n = present.len();
    let mut i: usize = 0;
    while i < n
        invariant
            n == present@.len(),
            n == all.len(),
            i <= n,
            jobs@.len() == n - i,
            jobs@ == all.subrange(i as int, n as int),
            r@ == pending_of(all.subrange(0, i as int), present@.subrange(0, i as int)),
            r@.len() > 0 <==> exists|k: int| 0 <= k < i && !present@[k],
        decreases n - i,
    {
        let job = jobs.remove(0);
        assert(jobs@ =~= all.subrange(i + 1, n as int));
        let ghost a = all.subrange(0, i + 1);
        let ghost p = present@.subrange(0, i + 1);
        assert(a.drop_last() =~= all.subrange(0, i as int));
        assert(p.drop_last() =~= present@.subrange(0, i as int));
        if !present[i] {
            r.push(job);
        }
        i = i + 1;
    }
    assert(all.subrange(0, n as int) =~= all);
    assert(present@.subrange(0, n as int) =~= present@);
    proof {
        lemma_pending_jobs_view(all, present@);
    }
    r
}

} // verus!
