use torrent_harvest::checkpoint::Config;
use torrent_harvest::count::{count_from_texts, page_count, parse_count};
use torrent_harvest::extract::{collect_links, ends_with, extract_links, links_in, remove_all};
use torrent_harvest::jobs::{
    decimal, entry_file, entry_jobs, entry_source_files, index_job, page_file, page_jobs, pending, Job,
};
use torrent_harvest::locator::{split_link, torrent_job, torrent_jobs};
use torrent_harvest::pipeline::{plan_entries, plan_pages};
use torrent_harvest::proxy::{accepts, select_proxies};
use torrent_harvest::text::{sorted_unique, str_equal, str_less};

fn strings(v: &[&str]) -> Vec<String> {
    v.iter().map(|s| s.to_string()).collect()
}

fn job(source: &str, destination: &str) -> Job {
    Job { source: source.to_string(), destination: destination.to_string() }
}

fn pairs(jobs: &[Job]) -> Vec<(String, String)> {
    jobs.iter().map(|j| (j.source.clone(), j.destination.clone())).collect()
}

#[test]
fn single_candidate_kept_only_with_other_address() {
    let baseline = "1.2.3.4";
    assert_eq!(select_proxies(baseline, &vec![Some("5.6.7.8".to_string())]), vec![0]);
    assert!(select_proxies(baseline, &vec![Some("1.2.3.4".to_string())]).is_empty());
    assert!(select_proxies(baseline, &vec![None]).is_empty());
}

#[test]
fn proxies_kept_in_candidate_order() {
    let replies = vec![
        None,
        Some("9.9.9.9".to_string()),
        Some("1.2.3.4".to_string()),
        Some("8.8.8.8".to_string()),
    ];
    assert_eq!(select_proxies("1.2.3.4", &replies), vec![1, 3]);
    assert!(accepts("a", &Some("b".to_string())));
    assert!(!accepts("a", &Some("a".to_string())));
    assert!(!accepts("a", &None));
}

#[test]
fn replaced_lists_are_sorted_without_duplicates() {
    let mut config = Config::new();
    config.replace_entries(strings(&["/b", "/a", "/c", "/a", "/b"]));
    assert_eq!(config.entries, strings(&["/a", "/b", "/c"]));
    config.replace_torrents(strings(&["z", "y", "z"]));
    assert_eq!(config.torrents, strings(&["y", "z"]));
    assert_eq!(config.entries, strings(&["/a", "/b", "/c"]));
}

#[test]
fn sorted_unique_of_empty_is_empty() {
    assert!(sorted_unique(Vec::new()).is_empty());
}

#[test]
fn sorted_unique_is_idempotent() {
    let once = sorted_unique(strings(&["q", "b", "q", "ab", "a"]));
    assert_eq!(once, strings(&["a", "ab", "b", "q"]));
    assert_eq!(sorted_unique(once.clone()), once);
}

#[test]
fn page_stage_runs_only_on_a_larger_count() {
    let mut config = Config::new();
    config.max_pages = 5;
    assert!(plan_pages(&config, "/out", 5).is_none());
    assert!(plan_pages(&config, "/out", 4).is_none());
    assert_eq!(plan_pages(&config, "/out", 6).unwrap().len(), 6);
}

#[test]
fn entry_stage_runs_only_with_an_absent_file() {
    let mut config = Config::new();
    config.replace_entries(strings(&["one", "two"]));
    assert!(plan_entries(&config, "/out", &vec![true, true]).is_empty());
    let jobs = plan_entries(&config, "/out", &vec![true, false]);
    assert_eq!(
        pairs(&jobs),
        vec![("http://www.ptorrents.com/two".to_string(), "/out/HTML/ENTRIES/two.HTML".to_string())]
    );
}

#[test]
fn mapping_example() {
    let j = torrent_job("/out", "https://d.ptorrents.com/Movies/2024/[site].Example.Title.torrent").unwrap();
    assert_eq!(j.source, "https://d.ptorrents.com/Movies/2024/[site].Example.Title.torrent");
    assert_eq!(j.destination, "/out/TORRENT/Movies/2024/Example.Title.TORRENT");
    assert!(torrent_job("/out", "https://example.com/Movies/x.torrent").is_none());
    assert!(torrent_job("/out", "https://d.ptorrents.com/Movies/2024/Example.Title.torrent").is_none());
}

#[test]
fn mapping_takes_the_longest_path() {
    let (path, name) = split_link("https://d.ptorrents.com/a/[site].b/[site].c.torrent").unwrap();
    assert_eq!(path, "a/[site].b");
    assert_eq!(name, "c");
    let (path, name) = split_link("https://d.ptorrents.com/a/[site].b/[x].c.torrent").unwrap();
    assert_eq!(path, "a");
    assert_eq!(name, "b/[x].c");
}

#[test]
fn mapping_needs_the_site_tag() {
    assert!(split_link("https://d.ptorrents.com/a/[x].b.torrent").is_none());
    assert!(split_link("https://d.ptorrents.com/Games/[ptorrents.com].Some.Game.torrent").is_none());
    assert!(split_link("https://d.ptorrents.com/[site].b.torrent").is_none());
    assert!(split_link("https://d.ptorrents.com/x/[site]..torrent").is_none());
    assert!(split_link("https://d.ptorrents.com/x/[site].b.torrent.gz").is_none());
}

#[test]
fn mapping_refuses_line_breaks() {
    assert!(split_link("https://d.ptorrents.com/x\ny/[site].b.torrent").is_none());
    assert!(split_link("https://d.ptorrents.com/x/[site].b\nc.torrent").is_none());
    assert!(split_link("https://d.ptorrents.com/x/[site].bc.torrent").is_some());
}

#[test]
fn torrent_jobs_drop_other_links() {
    let links = strings(&[
        "https://d.ptorrents.com/A/[site].One.torrent",
        "/not/a/link.torrent",
        "https://d.ptorrents.com/B/C/[site].Two.torrent",
    ]);
    let jobs = torrent_jobs("/o", &links);
    assert_eq!(
        pairs(&jobs),
        vec![
            (links[0].clone(), "/o/TORRENT/A/One.TORRENT".to_string()),
            (links[2].clone(), "/o/TORRENT/B/C/Two.TORRENT".to_string()),
        ]
    );
}

#[test]
fn end_to_end_page_scenario() {
    let mut config = Config::new();
    config.max_pages = 5;
    let jobs = plan_pages(&config, "/out", 7).unwrap();
    assert_eq!(jobs.len(), 7);
    for (i, j) in jobs.iter().enumerate() {
        let page = i + 1;
        assert_eq!(j.source, format!("http://www.ptorrents.com/page/{page}"));
        assert_eq!(j.destination, format!("/out/HTML/PAGES/{page}.HTML"));
    }
    assert!(config.record_page_count(7));
    assert_eq!(config.max_pages, 7);
    let sources = entry_source_files("/out", config.max_pages);
    let expected: Vec<String> = (1..=6).map(|p| format!("/out/HTML/PAGES/{p}.HTML")).collect();
    assert_eq!(sources, expected);
}

#[test]
fn page_count_never_decreases() {
    let mut config = Config::new();
    assert!(config.record_page_count(3));
    assert!(!config.record_page_count(2));
    assert_eq!(config.max_pages, 3);
    assert!(!config.record_page_count(3));
    assert_eq!(config.max_pages, 3);
}

#[test]
fn rerun_with_nothing_new_issues_no_job() {
    let mut config = Config::new();
    config.max_pages = 7;
    config.replace_entries(strings(&["a", "b"]));
    let before = (config.max_pages, config.entries.clone(), config.torrents.clone());
    assert!(plan_pages(&config, "/out", 7).is_none());
    assert!(!config.record_page_count(7));
    assert!(plan_entries(&config, "/out", &vec![true, true]).is_empty());
    let files = torrent_jobs("/out", &strings(&["https://d.ptorrents.com/A/[site].One.torrent"]));
    assert_eq!(files.len(), 1);
    assert!(pending(files, &vec![true]).is_empty());
    assert_eq!(before, (config.max_pages, config.entries.clone(), config.torrents.clone()));
}

#[test]
fn pending_keeps_absent_in_order() {
    let jobs = vec![job("a", "1"), job("b", "2"), job("c", "3")];
    let left = pending(jobs, &vec![false, true, false]);
    assert_eq!(pairs(&left), vec![("a".to_string(), "1".to_string()), ("c".to_string(), "3".to_string())]);
    assert!(pending(Vec::new(), &Vec::new()).is_empty());
}

#[test]
fn job_paths() {
    let j = index_job("/base");
    assert_eq!(j.source, "http://www.ptorrents.com");
    assert_eq!(j.destination, "/base/HTML/INDEX.HTML");
    assert_eq!(page_file("/b", 12), "/b/HTML/PAGES/12.HTML");
    assert_eq!(entry_file("/b", "some-entry"), "/b/HTML/ENTRIES/some-entry.HTML");
    let jobs = entry_jobs("/b", &strings(&["x/y"]));
    assert_eq!(pairs(&jobs), vec![("http://www.ptorrents.com/x/y".to_string(), "/b/HTML/ENTRIES/x/y.HTML".to_string())]);
    assert!(page_jobs("/b", 0).is_empty());
    assert!(entry_source_files("/b", 0).is_empty());
    assert!(entry_source_files("/b", 1).is_empty());
}

#[test]
fn decimal_digits() {
    assert_eq!(decimal(0), "0");
    assert_eq!(decimal(7), "7");
    assert_eq!(decimal(1204), "1204");
    assert_eq!(decimal(usize::MAX), usize::MAX.to_string());
}

#[test]
fn count_parsing() {
    assert_eq!(parse_count("1,234"), Some(1234));
    assert_eq!(parse_count("42"), Some(42));
    assert_eq!(parse_count("+7"), Some(7));
    assert_eq!(parse_count(""), None);
    assert_eq!(parse_count(","), None);
    assert_eq!(parse_count("Next"), None);
    assert_eq!(parse_count("-3"), None);
    assert_eq!(parse_count("99999999999999999999999"), None);
    assert_eq!(parse_count(&usize::MAX.to_string()), Some(usize::MAX));
}

#[test]
fn count_from_second_to_last() {
    let texts = vec![Some("1".to_string()), Some("2,048".to_string()), Some("Next".to_string())];
    assert_eq!(count_from_texts(&texts), Some(2048));
    assert_eq!(count_from_texts(&vec![Some("3".to_string())]), None);
    assert_eq!(count_from_texts(&vec![None, Some("x".to_string())]), None);
}

#[test]
fn page_count_from_document() {
    let html = r#"<html><body><nav>
        <a class="page-numbers" href="/page/1">1</a>
        <a class="page-numbers" href="/page/2">2</a>
        <a class="page-numbers" href="/page/1310">1,310</a>
        <a class="next page-numbers" href="/page/2">Next</a>
        </nav></body></html>"#;
    assert_eq!(page_count(html), Some(1310));
    assert_eq!(page_count("<html><body><p>none</p></body></html>"), None);
}

#[test]
fn links_from_document() {
    let html = r#"<html><body>
        <a href="http://www.ptorrents.com/some-title.html">one</a>
        <a href="/other.html">two</a>
        <a href="https://d.ptorrents.com/A/[s].One.torrent">three</a>
        <a name="no-href">four</a>
        </body></html>"#;
    assert_eq!(extract_links(html, ".html"), strings(&["/some-title.html", "/other.html"]));
    assert_eq!(extract_links(html, ".torrent"), strings(&["https://d.ptorrents.com/A/[s].One.torrent"]));
}

#[test]
fn links_collected_across_documents() {
    let docs = strings(&[
        r#"<a href="http://www.ptorrents.com/b.html">b</a><a href="/a.html">a</a>"#,
        r#"<a href="/a.html">a</a><a href="/c.txt">c</a>"#,
    ]);
    assert_eq!(collect_links(&docs, ".html"), strings(&["/a.html", "/b.html"]));
    assert!(collect_links(&Vec::new(), ".html").is_empty());
}

#[test]
fn href_filter_and_root_removal() {
    let hrefs = strings(&["http://www.ptorrents.com/x.html", "y.htm", "z.html"]);
    assert_eq!(links_in(&hrefs, ".html"), strings(&["/x.html", "z.html"]));
    assert_eq!(remove_all("abcabcx", "abc"), "x");
    assert_eq!(remove_all("aaa", "aa"), "a");
    assert_eq!(remove_all("text", ""), "text");
    assert!(ends_with("file.html", ".html"));
    assert!(!ends_with("html", ".html"));
}

#[test]
fn text_order() {
    assert!(str_less("a", "b"));
    assert!(str_less("ab", "abc"));
    assert!(!str_less("abc", "ab"));
    assert!(!str_less("same", "same"));
    assert!(str_less("Z", "a"));
    assert!(str_equal("same", "same"));
    assert!(!str_equal("same", "Same"));
}
