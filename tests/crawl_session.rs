use index_crawler::{
    CrawlError, CrawlSession, DownloadData, DownloadScheduler, FilterError, FilterRule,
    RuleType, Timestamp,
};
use std::collections::HashMap;

fn rule(rule_type: RuleType, pattern: &str) -> FilterRule {
    FilterRule { rule_type, pattern: pattern.to_string() }
}

fn listing() -> HashMap<String, String> {
    let mut pages = HashMap::new();
    pages.insert(
        "http://host/".to_string(),
        r#"<a href="a.txt">a.txt</a> <a href="sub/">sub/</a>"#.to_string(),
    );
    pages.insert(
        "http://host/sub/".to_string(),
        r#"<a href="../">Parent Directory</a> <a href="b.txt">b.txt</a>"#.to_string(),
    );
    pages
}

fn contents() -> HashMap<String, Vec<u8>> {
    let mut files = HashMap::new();
    files.insert("http://host/a.txt".to_string(), b"alpha".to_vec());
    files.insert("http://host/sub/b.txt".to_string(), b"bravo!!".to_vec());
    files
}

/// Plays the caller's part: fetches every page handed out from `pages`
/// and probes sizes from `files`.
fn crawl(
    pages: &HashMap<String, String>,
    files: &HashMap<String, Vec<u8>>,
    filters: Vec<FilterRule>,
) -> Result<index_crawler::CrawlData, CrawlError> {
    let mut session = CrawlSession::new("http://host/", filters, 4)?;
    while let Some(request) = session.next_page() {
        match pages.get(&request.url) {
            Some(html) => {
                let probes = session.page_loaded(request.id, html)?;
                for probe in probes {
                    let size = files.get(&probe.url).map(|b| b.len() as u64);
                    assert!(session.record_size(probe.entry, size));
                    assert!(!session.record_size(probe.entry, Some(1000)));
                }
            }
            None => session.page_failed(request.id)?,
        }
    }
    assert!(session.is_finished());
    Ok(session.into_manifest(Timestamp { seconds: 0, nanos: 0 }))
}

#[test]
fn crawl_then_download_two_level_tree() {
    let pages = listing();
    let files = contents();
    let manifest = crawl(&pages, &files, vec![rule(RuleType::Include, "*")]).unwrap();
    let found: Vec<(String, String)> = manifest
        .download_list
        .iter()
        .map(|d| (d.output_dir.clone(), d.url.clone()))
        .collect();
    assert_eq!(
        found,
        vec![
            ("a.txt".to_string(), "http://host/a.txt".to_string()),
            ("sub/b.txt".to_string(), "http://host/sub/b.txt".to_string()),
        ]
    );
    assert_eq!(manifest.directories_to_create, vec!["sub".to_string()]);
    assert_eq!(manifest.total_size, 12);

    let mut disk: HashMap<String, Vec<u8>> = HashMap::new();
    let mut scheduler = DownloadScheduler::new(&manifest.download_list, 2);
    let mut fetches = 0;
    while !scheduler.is_done() {
        let mut started = Vec::new();
        while let Some(job) = scheduler.dispatch() {
            assert!(scheduler.in_flight() <= 2);
            started.push(job);
        }
        for job in started {
            let on_disk = disk.get(&job.path).map(|b| b.len() as u64);
            if scheduler.start(job.index, on_disk) {
                fetches += 1;
                let body = files[&job.url].clone();
                let n = body.len() as u64;
                disk.insert(job.path.clone(), body);
                assert!(scheduler.finish(job.index, Some(n)));
            }
        }
    }
    assert_eq!(fetches, 2);
    assert_eq!(disk["a.txt"], b"alpha".to_vec());
    assert_eq!(disk["sub/b.txt"], b"bravo!!".to_vec());
    assert_eq!(scheduler.downloaded_bytes(), manifest.total_size);
}

#[test]
fn excluded_directory_is_pruned_with_its_files() {
    let pages = listing();
    let files = contents();
    let filters = vec![rule(RuleType::Include, "*"), rule(RuleType::Exclude, "sub/**")];
    let manifest = crawl(&pages, &files, filters).unwrap();
    assert_eq!(manifest.download_list.len(), 1);
    assert_eq!(manifest.download_list[0].output_dir, "a.txt");
    // The exclude rule matches the directory link `sub/` itself, so the
    // directory is never visited nor listed.
    assert!(manifest.directories_to_create.is_empty());
    assert_eq!(manifest.total_size, 5);
}

#[test]
fn failed_probe_counts_zero() {
    let pages = listing();
    let mut files = contents();
    files.remove("http://host/a.txt");
    let manifest = crawl(&pages, &files, vec![]).unwrap();
    assert_eq!(manifest.download_list.len(), 2);
    assert_eq!(manifest.total_size, 7);
}

#[test]
fn root_failure_ends_the_crawl() {
    let pages: HashMap<String, String> = HashMap::new();
    let files = contents();
    let result = crawl(&pages, &files, vec![]);
    assert_eq!(result.err(), Some(CrawlError::RootUnreachable));
}

#[test]
fn failed_subdirectory_is_contained() {
    let mut pages = listing();
    pages.remove("http://host/sub/");
    let files = contents();
    let mut session = CrawlSession::new("http://host/", vec![], 1).unwrap();
    let root = session.next_page().unwrap();
    assert!(session.next_page().is_none());
    session.page_loaded(root.id, &pages["http://host/"]).unwrap();
    let sub = session.next_page().unwrap();
    assert_eq!(sub.url, "http://host/sub/");
    assert_eq!(session.page_failed(sub.id), Ok(()));
    assert_eq!(session.page_failed(sub.id), Err(CrawlError::UnknownPage));
    assert_eq!(session.failed_pages(), vec!["http://host/sub/".to_string()]);
    assert!(!session.is_finished());
    assert!(session.record_size(0, files.get("http://host/a.txt").map(|b| b.len() as u64)));
    assert!(session.is_finished());
    let manifest = session.into_manifest(Timestamp { seconds: 1, nanos: 2 });
    assert_eq!(manifest.download_list.len(), 1);
    assert_eq!(manifest.directories_to_create, vec!["sub".to_string()]);
    assert_eq!(manifest.saved_at, Timestamp { seconds: 1, nanos: 2 });
}

#[test]
fn page_limit_is_respected() {
    let mut pages = HashMap::new();
    let mut root = String::new();
    for i in 0..10 {
        root.push_str(&format!(r#"<a href="d{i}/">d{i}/</a>"#));
        pages.insert(format!("http://host/d{i}/"), String::new());
    }
    pages.insert("http://host/".to_string(), root);
    let mut session = CrawlSession::new("http://host/", vec![], 3).unwrap();
    let first = session.next_page().unwrap();
    session.page_loaded(first.id, &pages[&first.url]).unwrap();
    let mut held = Vec::new();
    while let Some(request) = session.next_page() {
        held.push(request);
    }
    assert_eq!(held.len(), 3);
    let done = held.remove(0);
    session.page_loaded(done.id, &pages[&done.url]).unwrap();
    assert!(session.next_page().is_some());
    assert!(session.next_page().is_none());
}

#[test]
fn malformed_filter_is_refused_up_front() {
    let result = CrawlSession::new("http://host/", vec![rule(RuleType::Include, "***")], 1);
    assert_eq!(result.err(), Some(CrawlError::InvalidFilter(FilterError::InvalidPattern(0))));
}

#[test]
fn links_leaving_the_listing_are_not_followed() {
    let mut session = CrawlSession::new("http://host/", vec![], 2).unwrap();
    let root = session.next_page().unwrap();
    let html = r#"<a href="/">root</a><a href="http://elsewhere/x/">x</a><a href="./">here</a><a href="ok.txt">ok</a>"#;
    let probes = session.page_loaded(root.id, html).unwrap();
    assert_eq!(probes.len(), 1);
    assert_eq!(probes[0].url, "http://host/ok.txt");
    assert!(session.next_page().is_none());
}

#[test]
fn unknown_page_reports_change_nothing() {
    let mut session = CrawlSession::new("http://host/", vec![], 2).unwrap();
    assert_eq!(session.page_loaded(0, "<a href=\"x\">x</a>").err(), Some(CrawlError::UnknownPage));
    assert!(session.next_page().is_some());
}

#[test]
fn manifest_entries_keep_raw_encoding() {
    let mut session = CrawlSession::new("http://host/", vec![], 2).unwrap();
    let root = session.next_page().unwrap();
    session.page_loaded(root.id, r#"<a href="my%20file.txt">my file</a>"#).unwrap();
    session.record_size(0, None);
    let manifest = session.into_manifest(Timestamp { seconds: 0, nanos: 0 });
    let entry: &DownloadData = &manifest.download_list[0];
    assert_eq!(entry.output_dir, "my%20file.txt");
}

#[test]
fn nested_links_list_their_directories() {
    let mut session = CrawlSession::new("http://host/", vec![], 2).unwrap();
    let root = session.next_page().unwrap();
    let html = r#"<a href="x/y.txt">y</a><a href="x/z/">z</a>"#;
    let probes = session.page_loaded(root.id, html).unwrap();
    assert_eq!(probes.len(), 1);
    assert_eq!(probes[0].url, "http://host/x/y.txt");
    let page = session.next_page().unwrap();
    assert_eq!(page.url, "http://host/x/z/");
    session.page_loaded(page.id, r#"<a href="w.txt">w</a>"#).unwrap();
    session.record_size(0, Some(1));
    session.record_size(1, Some(2));
    let manifest = session.into_manifest(Timestamp { seconds: 0, nanos: 0 });
    let paths: Vec<&str> = manifest.download_list.iter().map(|d| d.output_dir.as_str()).collect();
    assert_eq!(paths, vec!["x/y.txt", "x/z/w.txt"]);
    let mut dirs = manifest.directories_to_create.clone();
    dirs.sort();
    dirs.dedup();
    assert_eq!(dirs, vec!["x".to_string(), "x/z".to_string()]);
}
