use vstd::prelude::*;
use vstd::string::StringExecFns;

verus! {

/// One file to fetch: its absolute URL and its path relative to the crawl
/// root, slash-separated and still percent-encoded as the listing wrote it.
#[derive(Debug, Clone)]
pub struct DownloadData {
    pub url: String,
    pub output_dir: String,
}

impl DownloadData {
    /// `url -> path`, as shown in listings and logs.
    pub fn describe(&self) -> (r: String)
        ensures
            r@ == self.url@ + " -> "@ + self.output_dir@,
    {
        let mut r = self.url.clone();
        r.append(" -> ");
        r.append(self.output_dir.as_str());
        r
    }
}

/// A point in time, as seconds and nanoseconds since the Unix epoch (UTC).
#[derive(Clone, Copy, Debug, PartialEq, Eq, Structural)]
pub struct Timestamp {
    pub seconds: i64,
    pub nanos: u32,
}

/// The manifest a crawl produces: the files found, the sum of their probed
/// sizes, the directories to create before any file is written, and when
/// it was taken.
#[derive(Debug)]
pub struct CrawlData {
    pub download_list: Vec<DownloadData>,
    pub total_size: u64,
    pub directories_to_create: Vec<String>,
    pub saved_at: Timestamp,
}

} // verus!
