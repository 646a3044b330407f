use vstd::prelude::*;
use vstd::string::StringExecFns;

verus! {

/// Default path to the configuration file.
pub const DEFAULT_CONFIG_PATH: &'static str = "./config.toml";

/// Directory listing to crawl when none is configured.
pub const DEFAULT_URL: &'static str = "https://example.com/files/";

/// User-Agent header sent with every request.
pub const DEFAULT_USER_AGENT: &'static str = "Mozilla/5.0 (Windows NT 10.0; Win64; x64) AppleWebKit/537.36 (KHTML, like Gecko) Chrome/58.0.3029.110 Safari/537.36";

/// Directory that receives the downloaded files.
pub const DEFAULT_OUTPUT_DIR: &'static str = "./output";

/// Number of transfers allowed at once.
pub const DEFAULT_CONCURRENT_DOWNLOADS: usize = 30;

/// Whether a matching rule keeps a path or drops it.
#[derive(Clone, Copy, Debug, PartialEq, Eq, Structural)]
pub enum RuleType {
    Include,
    Exclude,
}

/// One include or exclude rule: a glob pattern matched against a path
/// relative to the crawl root.
#[derive(Debug, Clone)]
pub struct FilterRule {
    pub rule_type: RuleType,
    pub pattern: String,
}

/// What the crawl and the downloads are run with.
#[derive(Debug)]
pub struct Config {
    pub url: String,
    pub user_agent: String,
    pub output_dir: String,
    pub concurrent_downloads: usize,
    pub filter: Vec<FilterRule>,
}

impl Default for Config {
    /// The default configuration keeps every path.
    fn default() -> (r: Self)
        ensures
            r.url@ == DEFAULT_URL@,
            r.user_agent@ == DEFAULT_USER_AGENT@,
            r.output_dir@ == DEFAULT_OUTPUT_DIR@,
            r.concurrent_downloads == DEFAULT_CONCURRENT_DOWNLOADS,
            r.filter@.len() == 1,
            r.filter@[0].rule_type == RuleType::Include,
            r.filter@[0].pattern@ == "*"@,
    {
        let mut filter: Vec<FilterRule> = Vec::new();
        filter.push(FilterRule { rule_type: RuleType::Include, pattern: String::from_str("*") });
        Config {
            url: String::from_str(DEFAULT_URL),
            user_agent: String::from_str(DEFAULT_USER_AGENT),
            output_dir: String::from_str(DEFAULT_OUTPUT_DIR),
            concurrent_downloads: DEFAULT_CONCURRENT_DOWNLOADS,
            filter,
        }
    }
}

} // verus!
