//! Crawl an open HTTP directory listing into a manifest of files, then plan
//! and account for their download under a bounded number of transfers.
//!
//! The library holds the decisions: which links are followed, which paths the
//! filter rules keep, how the manifest grows, when a failed call is retried and
//! how many transfers run at once. The caller performs the network and disk
//! work and reports each outcome back.
//!
//! Paths are relative to the crawl root: a file found under directory `sub/`
//! through the link `b.txt` has the path `sub/b.txt`, and `sub` is listed
//! among the directories to create. The filter sees a directory link's own
//! path (`sub/`) before the directory is visited, so a rule that excludes it
//! prunes the whole subtree. A link may hold several segments (`a/b.txt`);
//! every directory its path lies in is listed. Links that could leave the
//! listed directory (absolute paths, other hosts or schemes, `..` segments,
//! and `.` segments in directory links, which could loop) are not followed.
//! A directory reached through two paths is crawled twice, and the directory
//! list may then name it twice.

mod config;
mod crawl;
mod crawl_data;
mod download;
mod filter;
mod links;
mod retry;
mod text;

pub use config::{
    Config, FilterRule, RuleType, DEFAULT_CONCURRENT_DOWNLOADS, DEFAULT_CONFIG_PATH, DEFAULT_OUTPUT_DIR,
    DEFAULT_URL, DEFAULT_USER_AGENT,
};
pub use crawl::{
    dirs_between, dot_segment_at, dotdot_segment_at, in_first_segment, segment_ends,
    segment_starts, follows, found_dirs, lemma_fetches_bounded, lemma_manifest_consistent, loaded, probed, found_files, found_pages, is_local, is_local_href, parents_listed,
    saturated, CrawlError, CrawlSession, CrawlView, PageRequest, SizeProbe,
};
pub use crawl_data::{CrawlData, DownloadData, Timestamp};
pub use download::{
    decodes_safely, in_flight_count, initial_outcome, plan_directories, lemma_transfers_bounded, is_safe_path, parent_segment_at, percent_decoded, safe_path,
    success_bytes, total_success_bytes, DownloadJob, DownloadScheduler, DownloadView, FailureCause,
    FileOutcome,
};
pub use filter::{
    all_patterns_compile, excluded, glob_compiles, glob_matches, lemma_filter_answers,
    lemma_filter_policy, rule_hits, should_filter, some_rule_hits, stops_at_bad_pattern,
    validate_filters, FilterError,
};
pub use links::{
    anchor_hrefs_of, classified, extract_links, joined_url, kept_hrefs, names_directory, opt_text,
    should_skip_url, skipped_href, some_link_unresolved, Link, UnresolvedLink,
};
pub use retry::{
    all_digits, content_length_value, decimal_value, digits_value, is_success, is_success_status,
    parse_content_length, probe_size, RetryPolicy, RetrySchedule, PAGE_RETRIES, PROBE_RETRIES,
    MAX_JITTERED_WAIT_MS, RETRY_BASE_MS, RETRY_MAX_DELAY_MS,
};
pub use text::{has_prefix, starts_with, same_text, truncate_string};
