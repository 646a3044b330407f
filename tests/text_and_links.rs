use index_crawler::{
    extract_links, has_prefix, is_local, same_text, should_skip_url, truncate_string,
    Config, DownloadData, RuleType, UnresolvedLink,
};

#[test]
fn skipped_links() {
    for href in ["../", "#", "javascript:void(0)", "mailto:a@b.c", "tel:123", "?C=N;O=D"] {
        assert!(should_skip_url(href), "{href}");
    }
    for href in ["a.txt", "sub/", "..", "#top", "file?x"] {
        assert!(!should_skip_url(href), "{href}");
    }
}

#[test]
fn local_links() {
    assert!(is_local("a.txt"));
    assert!(is_local("sub/"));
    assert!(!is_local(""));
    assert!(!is_local("/abs/"));
    assert!(is_local("a/b.txt"));
    assert!(is_local("a/b/"));
    assert!(is_local(".hidden"));
    assert!(is_local("a..b/"));
    assert!(is_local("./x.txt"));
    assert!(is_local("a/./b"));
    assert!(is_local("a//b.txt"));
    assert!(is_local("dir/a:b.txt"));
    assert!(!is_local("./"));
    assert!(!is_local("a/./"));
    assert!(!is_local(".."));
    assert!(!is_local("a/../b"));
    assert!(!is_local("a/.."));
    assert!(!is_local("x:y"));
    assert!(!is_local("x:y/"));
    assert!(!is_local("http://other.example/"));
}

#[test]
fn prefix_and_equality() {
    assert!(has_prefix("javascript:x", "javascript:"));
    assert!(!has_prefix("java", "javascript:"));
    assert!(same_text("abc", "abc"));
    assert!(!same_text("abc", "abd"));
}

#[test]
fn truncation_keeps_short_strings() {
    assert_eq!(truncate_string("short", 70), "short");
    assert_eq!(truncate_string("abcdefghij", 10), "abcdefghij");
}

#[test]
fn truncation_cuts_long_strings() {
    assert_eq!(truncate_string("abcdefghijk", 10), "abcdefg...");
    assert_eq!(truncate_string("abcd", 3), "...");
}

#[test]
fn links_in_document_order_resolved_and_classified() {
    let html = r#"<html><body>
        <a href="../">Parent</a>
        <a href="sub/">sub/</a>
        <a>no href</a>
        <a href="a%20b.txt">a b.txt</a>
        <a href="?C=M;O=A">sort</a>
        <a href="mailto:x@y.z">mail</a>
    </body></html>"#;
    let links = extract_links(html, "http://host/files/").unwrap();
    assert_eq!(links.len(), 2);
    assert_eq!(links[0].href, "sub/");
    assert_eq!(links[0].url, "http://host/files/sub/");
    assert!(links[0].is_dir);
    assert_eq!(links[1].href, "a%20b.txt");
    assert_eq!(links[1].url, "http://host/files/a%20b.txt");
    assert!(!links[1].is_dir);
}

#[test]
fn page_without_anchors_has_no_links() {
    let links = extract_links("<html><body><p>empty</p></body></html>", "http://host/").unwrap();
    assert!(links.is_empty());
}

#[test]
fn links_against_a_malformed_base_do_not_resolve() {
    let html = r#"<a href="a.txt">a</a>"#;
    assert_eq!(extract_links(html, "not a url").unwrap_err(), UnresolvedLink { position: 0 });
}

#[test]
fn default_config_includes_everything() {
    let config = Config::default();
    assert_eq!(config.url, "https://example.com/files/");
    assert_eq!(config.output_dir, "./output");
    assert_eq!(config.concurrent_downloads, 30);
    assert_eq!(config.filter.len(), 1);
    assert_eq!(config.filter[0].rule_type, RuleType::Include);
    assert_eq!(config.filter[0].pattern, "*");
}

#[test]
fn download_entry_description() {
    let entry = DownloadData { url: "http://host/a.txt".to_string(), output_dir: "a.txt".to_string() };
    assert_eq!(entry.describe(), "http://host/a.txt -> a.txt");
}
