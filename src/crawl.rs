use crate::config::FilterRule;
use crate::crawl_data::{CrawlData, DownloadData, Timestamp};
use crate::filter::{
    all_patterns_compile, excluded, lemma_filter_answers, should_filter, validate_filters,
    FilterError,
};
use crate::links::{
    anchor_hrefs_of, classified, extract_links, joined_url, kept_hrefs, names_directory,
    some_link_unresolved, Link,
};
use vstd::prelude::*;
use vstd::string::{StrSliceExecFns, StringExecFns};

verus! {

/// A segment of `href` starts at `i`.
pub open spec fn segment_starts(href: Seq<char>, i: int) -> bool {
    i == 0 || href[i - 1] == '/'
}

/// A segment of `href` ends at `i`.
pub open spec fn segment_ends(href: Seq<char>, i: int) -> bool {
    i == href.len() || href[i] == '/'
}

/// A `.` segment of `href` starts at `i`.
pub open spec fn dot_segment_at(href: Seq<char>, i: int) -> bool {
    &&& 0 <= i < href.len()
    &&& segment_starts(href, i)
    &&& href[i] == '.'
    &&& segment_ends(href, i + 1)
}

/// A `..` segment of `href` starts at `i`.
pub open spec fn dotdot_segment_at(href: Seq<char>, i: int) -> bool {
    &&& 0 <= i
    &&& i + 1 < href.len()
    &&& segment_starts(href, i)
    &&& href[i] == '.'
    &&& href[i + 1] == '.'
    &&& segment_ends(href, i + 2)
}

/// No `/` comes before position `i` of `href`: `i` lies in the first
/// segment.
pub open spec fn in_first_segment(href: Seq<char>, i: int) -> bool {
    forall|j: int| 0 <= j < i ==> href[j] != '/'
}

/// An href that stays below the listed directory: a relative path (a
/// directory's ends with `/`) that is not absolute, has no `..` segment, and
/// no `:` in its first segment (which would give it a scheme of its own). A
/// directory link also has no `.` segment: one could lead back to the same
/// listing without end.
pub open spec fn is_local_href(href: Seq<char>) -> bool {
    &&& href.len() > 0
    &&& href[0] != '/'
    &&& forall|i: int| 0 <= i < href.len() && #[trigger] href[i] == ':' ==> !in_first_segment(href, i)
    &&& forall|i: int| !#[trigger] dotdot_segment_at(href, i)
    &&& names_directory(href) ==> forall|i: int| !#[trigger] dot_segment_at(href, i)
}

/// Whether the raw `href` stays below the listed directory.
pub fn is_local(href: &str) -> (r: bool)
    ensures
        r == is_local_href(href@),
{
    let n = href.unicode_len();
    if n == 0 || href.get_char(0) == '/' {
        return false;
    }
    let is_dir = href.get_char(n - 1) == '/';
    let mut slash_seen = false;
    let mut dot_seen = false;
    let mut i: usize = 0;
    while i < n
        invariant
            n == href@.len(),
            n > 0,
            href@[0] != '/',
            is_dir == names_directory(href@),
            i <= n,
            slash_seen ==> !in_first_segment(href@, i as int),
            !slash_seen ==> in_first_segment(href@, i as int),
            forall|j: int| 0 <= j < i && #[trigger] href@[j] == ':' ==> !in_first_segment(href@, j),
            forall|j: int| 0 <= j < i ==> !#[trigger] dotdot_segment_at(href@, j),
            dot_seen <==> exists|j: int| 0 <= j < i && #[trigger] dot_segment_at(href@, j),
        decreases n - i,
    {
        let c = href.get_char(i);
        if c == ':' && !slash_seen {
            return false;
        }
        let starts = i == 0 || href.get_char(i - 1) == '/';
        if c == '.' && starts {
            let ends_one = i + 1 == n || href.get_char(i + 1) == '/';
            if ends_one {
                assert(dot_segment_at(href@, i as int));
                dot_seen = true;
            } else if href.get_char(i + 1) == '.' && (i + 2 == n || href.get_char(i + 2) == '/') {
                assert(dotdot_segment_at(href@, i as int));
                return false;
            }
        }
        proof {
            if !dot_seen {
                assert(!dot_segment_at(href@, i as int));
            }
            assert(!dotdot_segment_at(href@, i as int));
        }
        if c == '/' {
            slash_seen = true;
        }
        proof {
            if slash_seen && c != '/' {
                let w = choose|w: int| 0 <= w < i && href@[w] == '/';
                assert(0 <= w < i + 1 && href@[w] == '/');
            }
            if c == '/' {
                assert(0 <= i < i + 1 && href@[i as int] == '/');
            }
        }
        i = i + 1;
    }
    proof {
        assert forall|j: int| !#[trigger] dotdot_segment_at(href@, j) by {
            if 0 <= j < n {
            }
        }
        if is_dir && dot_seen {
            let j = choose|j: int| 0 <= j < n && #[trigger] dot_segment_at(href@, j);
            assert(dot_segment_at(href@, j));
        }
        if !dot_seen {
            assert forall|j: int| !#[trigger] dot_segment_at(href@, j) by {
                if 0 <= j < n {
                }
            }
        }
    }
    !(is_dir && dot_seen)
}

/// The directories that `path` lies in from position `from` on: the prefix
/// before each `/` at a position in `[from, to)`, in order.
pub open spec fn dirs_between(path: Seq<char>, from: int, to: int) -> Seq<Seq<char>>
    decreases to - from,
{
    if to <= from {
        Seq::empty()
    } else {
        let rest = dirs_between(path, from, to - 1);
        if path[to - 1] == '/' {
            rest.push(path.subrange(0, to - 1))
        } else {
            rest
        }
    }
}

/// Every directory that `path` lies in (each prefix that ends right before
/// a `/`) is listed in `dirs`.
pub open spec fn parents_listed(path: Seq<char>, dirs: Seq<Seq<char>>) -> bool {
    forall|i: int| 0 < i < path.len() && #[trigger] path[i] == '/' ==> dirs.contains(path.subrange(0, i))
}

/// The crawl follows link `href` found under `prefix`: it stays in the
/// listing and the filter keeps its path.
pub open spec fn follows(filters: Seq<FilterRule>, prefix: Seq<char>, href: Seq<char>) -> bool {
    is_local_href(href) && !excluded(filters, prefix + href)
}

/// The directories that the followed links of `hrefs` add: for each, the
/// directories its path lies in below `prefix` (for a directory link, the
/// directory itself last).
pub open spec fn found_dirs(filters: Seq<FilterRule>, prefix: Seq<char>, hrefs: Seq<Seq<char>>) -> Seq<Seq<char>>
    decreases hrefs.len(),
{
    if hrefs.len() == 0 {
        Seq::empty()
    } else {
        let rest = found_dirs(filters, prefix, hrefs.drop_last());
        let h = hrefs.last();
        if follows(filters, prefix, h) {
            rest + dirs_between(prefix + h, prefix.len() as int, (prefix + h).len() as int)
        } else {
            rest
        }
    }
}

/// The listing pages (URL, relative prefix) that the followed directory
/// links of `hrefs` queue.
pub open spec fn found_pages(
    filters: Seq<FilterRule>,
    base: Seq<char>,
    prefix: Seq<char>,
    hrefs: Seq<Seq<char>>,
) -> Seq<(Seq<char>, Seq<char>)>
    decreases hrefs.len(),
{
    if hrefs.len() == 0 {
        Seq::empty()
    } else {
        let rest = found_pages(filters, base, prefix, hrefs.drop_last());
        let h = hrefs.last();
        if follows(filters, prefix, h) && names_directory(h) {
            rest.push((joined_url(base, h)->0, prefix + h))
        } else {
            rest
        }
    }
}

/// The files (URL, relative path) that the followed file links of `hrefs`
/// add to the manifest.
pub open spec fn found_files(
    filters: Seq<FilterRule>,
    base: Seq<char>,
    prefix: Seq<char>,
    hrefs: Seq<Seq<char>>,
) -> Seq<(Seq<char>, Seq<char>)>
    decreases hrefs.len(),
{
    if hrefs.len() == 0 {
        Seq::empty()
    } else {
        let rest = found_files(filters, base, prefix, hrefs.drop_last());
        let h = hrefs.last();
        if follows(filters, prefix, h) && !names_directory(h) {
            rest.push((joined_url(base, h)->0, prefix + h))
        } else {
            rest
        }
    }
}

/// A listing page to fetch, handed out by [`CrawlSession::next_page`].
#[derive(Debug)]
pub struct PageRequest {
    pub id: usize,
    pub url: String,
}

/// A file whose size is to be probed, reported back with
/// [`CrawlSession::record_size`].
#[derive(Debug)]
pub struct SizeProbe {
    pub entry: usize,
    pub url: String,
}

/// Why a crawl step was refused or the crawl cannot go on.
#[derive(Clone, Copy, Debug, PartialEq, Eq, Structural)]
pub enum CrawlError {
    /// A filter rule holds a malformed pattern.
    InvalidFilter(FilterError),
    /// The root listing could not be fetched or read.
    RootUnreachable,
    /// The page is not one being fetched.
    UnknownPage,
}

/// What a crawl has found and what it still waits for.
pub struct CrawlView {
    pub filters: Seq<FilterRule>,
    pub limit: nat,
    /// Every listing page found so far (URL, relative prefix); the root first.
    pub pages: Seq<(Seq<char>, Seq<char>)>,
    /// Pages before this index have been handed out.
    pub next: nat,
    /// Pages handed out and not yet reported back.
    pub fetching: Seq<usize>,
    /// Pages that could not be fetched or read.
    pub failed: Seq<usize>,
    /// The manifest's files (URL, relative path), in discovery order.
    pub entries: Seq<(Seq<char>, Seq<char>)>,
    /// Which entries still wait for their size.
    pub awaiting: Seq<bool>,
    /// The manifest's directories, relative to the root.
    pub directories: Seq<Seq<char>>,
    /// The sum of the sizes recorded so far.
    pub recorded: int,
    /// That sum, saturated at `u64::MAX`.
    pub total_size: u64,
}

/// The state of one crawl: the caller fetches the pages it hands out and
/// probes the sizes it asks for, and reports each outcome back.
pub struct CrawlSession {
    filters: Vec<FilterRule>,
    limit: usize,
    urls: Vec<String>,
    prefixes: Vec<String>,
    next: usize,
    fetching: Vec<usize>,
    failed: Vec<usize>,
    entries: Vec<DownloadData>,
    awaiting: Vec<bool>,
    directories: Vec<String>,
    total_size: u64,
    recorded: Ghost<int>,
}

/// `a` saturated at `u64::MAX`.
pub open spec fn saturated(a: int) -> int {
    if a > u64::MAX {
        u64::MAX as int
    } else {
        a
    }
}

impl View for CrawlSession {
    type V = CrawlView;

    closed spec fn view(&self) -> CrawlView {
        CrawlView {
            filters: self.filters@,
            limit: self.limit as nat,
            pages: Seq::new(self.urls@.len(), |i: int| (self.urls@[i]@, self.prefixes@[i]@)),
            next: self.next as nat,
            fetching: self.fetching@,
            failed: self.failed@,
            entries: Seq::new(
                self.entries@.len(),
                |i: int| (self.entries@[i].url@, self.entries@[i].output_dir@),
            ),
            awaiting: self.awaiting@,
            directories: self.directories@.map_values(|d: String| d@),
            recorded: self.recorded@,
            total_size: self.total_size,
        }
    }
}

impl CrawlView {
    /// The manifest's consistency: every file and every directory has each
    /// directory it lies in listed, and so has every page still to crawl.
    pub open spec fn manifest_consistent(self) -> bool {
        &&& forall|k: int| 0 <= k < self.entries.len() ==> parents_listed(#[trigger] self.entries[k].1, self.directories)
        &&& forall|k: int| 0 <= k < self.directories.len() ==> parents_listed(#[trigger] self.directories[k], self.directories)
        &&& forall|k: int| 0 <= k < self.pages.len() ==> parents_listed(#[trigger] self.pages[k].1, self.directories)
    }

    /// How many pages are being fetched at once never exceeds the limit,
    /// and only pages handed out are being fetched.
    pub open spec fn fetches_bounded(self) -> bool {
        &&& 1 <= self.limit
        &&& self.fetching.len() <= self.limit
        &&& self.next <= self.pages.len()
        &&& forall|k: int| 0 <= k < self.fetching.len() ==> #[trigger] self.fetching[k] < self.next
    }

    /// The crawl has nothing left to fetch or probe.
    pub open spec fn finished(self) -> bool {
        &&& self.next == self.pages.len()
        &&& self.fetching.len() == 0
        &&& forall|k: int| 0 <= k < self.awaiting.len() ==> !#[trigger] self.awaiting[k]
    }
}

/// `dirs_between` lists the prefix before each `/` in its range.
proof fn lemma_dirs_between_contains(path: Seq<char>, from: int, to: int, j: int)
    requires
        0 <= from <= j < to <= path.len(),
        path[j] == '/',
    ensures
        dirs_between(path, from, to).contains(path.subrange(0, j)),
    decreases to - from,
{
    let b = dirs_between(path, from, to);
    if j == to - 1 {
        assert(b[b.len() - 1] == path.subrange(0, j));
    } else {
        lemma_dirs_between_contains(path, from, to - 1, j);
        let rest = dirs_between(path, from, to - 1);
        let k = choose|k: int| 0 <= k < rest.len() && rest[k] == path.subrange(0, j);
        assert(b[k] == path.subrange(0, j));
    }
}

/// Everything `dirs_between` lists is a prefix of `path`, so it has its
/// directories listed wherever `path` has.
proof fn lemma_dirs_between_listed(path: Seq<char>, from: int, to: int, dirs: Seq<Seq<char>>)
    requires
        0 <= from,
        to <= path.len(),
        parents_listed(path, dirs),
    ensures
        forall|k: int|
            0 <= k < dirs_between(path, from, to).len() ==> parents_listed(
                #[trigger] dirs_between(path, from, to)[k],
                dirs,
            ),
    decreases to - from,
{
    if to > from {
        lemma_dirs_between_listed(path, from, to - 1, dirs);
        lemma_prefix_listed(path, to - 1, dirs);
        let rest = dirs_between(path, from, to - 1);
        let b = dirs_between(path, from, to);
        assert forall|k: int| 0 <= k < b.len() implies parents_listed(#[trigger] b[k], dirs) by {
            if k < rest.len() {
                assert(b[k] == rest[k]);
            } else {
                assert(b[k] == path.subrange(0, to - 1));
            }
        }
    }
}

/// Listing further directories keeps every path's directories listed.
proof fn lemma_listed_extend(path: Seq<char>, dirs: Seq<Seq<char>>, more: Seq<Seq<char>>)
    requires
        parents_listed(path, dirs),
    ensures
        parents_listed(path, dirs + more),
{
    assert forall|i: int| 0 < i < path.len() && #[trigger] path[i] == '/' implies (dirs
        + more).contains(path.subrange(0, i)) by {
        let k = choose|k: int| 0 <= k < dirs.len() && dirs[k] == path.subrange(0, i);
        assert((dirs + more)[k] == path.subrange(0, i));
    }
}

/// A path whose directories are listed has its prefixes' directories
/// listed too.
proof fn lemma_prefix_listed(path: Seq<char>, n: int, dirs: Seq<Seq<char>>)
    requires
        parents_listed(path, dirs),
        0 <= n <= path.len(),
    ensures
        parents_listed(path.subrange(0, n), dirs),
{
    let d = path.subrange(0, n);
    assert forall|i: int| 0 < i < d.len() && #[trigger] d[i] == '/' implies dirs.contains(
        d.subrange(0, i),
    ) by {
        assert(path[i] == '/');
        assert(d.subrange(0, i) =~= path.subrange(0, i));
    }
}

/// Listing the directories a path lies in below `prefix` lists all of its
/// directories, and all of theirs.
proof fn lemma_child_listed(prefix: Seq<char>, href: Seq<char>, dirs: Seq<Seq<char>>)
    requires
        parents_listed(prefix, dirs),
    ensures
        ({
            let path = prefix + href;
            let all = dirs + dirs_between(path, prefix.len() as int, path.len() as int);
            &&& parents_listed(path, all)
            &&& forall|k: int|
                0 <= k < dirs_between(path, prefix.len() as int, path.len() as int).len()
                    ==> parents_listed(
                    #[trigger] dirs_between(path, prefix.len() as int, path.len() as int)[k],
                    all,
                )
        }),
{
    let path = prefix + href;
    let n = prefix.len() as int;
    let more = dirs_between(path, n, path.len() as int);
    let all = dirs + more;
    assert forall|i: int| 0 < i < path.len() && #[trigger] path[i] == '/' implies all.contains(
        path.subrange(0, i),
    ) by {
        if i < n {
            assert(prefix[i] == '/');
            assert(path.subrange(0, i) =~= prefix.subrange(0, i));
            let k = choose|k: int| 0 <= k < dirs.len() && dirs[k] == prefix.subrange(0, i);
            assert(all[k] == path.subrange(0, i));
        } else {
            lemma_dirs_between_contains(path, n, path.len() as int, i);
            let k = choose|k: int| 0 <= k < more.len() && more[k] == path.subrange(0, i);
            assert(all[dirs.len() + k] == path.subrange(0, i));
        }
    }
    lemma_dirs_between_listed(path, n, path.len() as int, all);
}

impl CrawlSession {
    /// The session's invariant.
    pub closed spec fn wf(&self) -> bool {
        &&& self.urls@.len() == self.prefixes@.len()
        &&& self.entries@.len() == self.awaiting@.len()
        &&& all_patterns_compile(self.filters@)
        &&& self@.fetches_bounded()
        &&& self@.manifest_consistent()
        &&& self.total_size == saturated(self.recorded@)
        &&& self.recorded@ >= 0
        &&& forall|k: int| 0 <= k < self.failed@.len() ==> #[trigger] self.failed@[k] < self.next
    }

    /// Starts a crawl of the listing at `root_url` that keeps the paths that
    /// `filters` keep and fetches at most `limit` pages at once. Every
    /// pattern is checked here, once.
    pub fn new(root_url: &str, filters: Vec<FilterRule>, limit: usize) -> (r: Result<
        CrawlSession,
        CrawlError,
    >)
        requires
            limit >= 1,
        ensures
            r is Ok <==> all_patterns_compile(filters@),
            r matches Err(e) ==> e is InvalidFilter,
            r matches Ok(s) ==> {
                &&& s.wf()
                &&& s@.filters == filters@
                &&& s@.limit == limit
                &&& s@.pages == seq![(root_url@, Seq::<char>::empty())]
                &&& s@.next == 0
                &&& s@.fetching.len() == 0
                &&& s@.failed.len() == 0
                &&& s@.entries.len() == 0
                &&& s@.awaiting.len() == 0
                &&& s@.directories.len() == 0
                &&& s@.recorded == 0
                &&& s@.total_size == 0
            },
    {
        match validate_filters(filters.as_slice()) {
            Err(e) => Err(CrawlError::InvalidFilter(e)),
            Ok(()) => {
                let mut urls: Vec<String> = Vec::new();
                urls.push(String::from_str(root_url));
                let mut prefixes: Vec<String> = Vec::new();
                prefixes.push(String::new());
                let s = CrawlSession {
                    filters,
                    limit,
                    urls,
                    prefixes,
                    next: 0,
                    fetching: Vec::new(),
                    failed: Vec::new(),
                    entries: Vec::new(),
                    awaiting: Vec::new(),
                    directories: Vec::new(),
                    total_size: 0,
                    recorded: Ghost(0),
                };
                proof {
                    assert(s@.pages =~= seq![(root_url@, Seq::<char>::empty())]);
                    assert(s@.directories =~= Seq::<Seq<char>>::empty());
                    assert(parents_listed(Seq::<char>::empty(), s@.directories));
                }
                Ok(s)
            },
        }
    }

    /// Hands out the next page to fetch, unless as many pages as allowed are
    /// being fetched already or none is waiting.
    pub fn next_page(&mut self) -> (r: Option<PageRequest>)
        requires
            old(self).wf(),
        ensures
            final(self).wf(),
            r is Some <==> old(self)@.fetching.len() < old(self)@.limit && old(self)@.next < old(
                self,
            )@.pages.len(),
            r is None ==> final(self)@ == old(self)@,
            r matches Some(p) ==> {
                &&& p.id == old(self)@.next
                &&& p.url@ == old(self)@.pages[p.id as int].0
                &&& final(self)@ == (CrawlView {
                    next: old(self)@.next + 1,
                    fetching: old(self)@.fetching.push(p.id),
                    ..old(self)@
                })
            },
    {
        if self.fetching.len() < self.limit && self.next < self.urls.len() {
            let id = self.next;
            let url = self.urls[id].clone();
            self.next = id + 1;
            self.fetching.push(id);
            proof {
                assert(self@.pages =~= old(self)@.pages);
                assert(self@.entries =~= old(self)@.entries);
                assert(self@.directories =~= old(self)@.directories);
            }
            Some(PageRequest { id, url })
        } else {
            None
        }
    }

    /// Takes page `id` off the pages being fetched; false when it is not
    /// one of them.
    fn finish_fetch(&mut self, id: usize) -> (r: bool)
        requires
            old(self).wf(),
        ensures
            final(self).wf(),
            r == old(self)@.fetching.contains(id),
            !r ==> final(self)@ == old(self)@,
            r ==> exists|k: int|
                0 <= k < old(self)@.fetching.len() && old(self)@.fetching[k] == id && final(self)@
                    == (CrawlView { fetching: old(self)@.fetching.remove(k), ..old(self)@ }),
    {
        let mut k: usize = 0;
        while k < self.fetching.len()
            invariant
                self == old(self),
                self.wf(),
                k <= self.fetching@.len(),
                forall|j: int| 0 <= j < k ==> self.fetching@[j] != id,
            decreases self.fetching@.len() - k,
        {
            if self.fetching[k] == id {
                self.fetching.remove(k);
                proof {
                    assert(self@.pages =~= old(self)@.pages);
                    assert(self@.entries =~= old(self)@.entries);
                    assert(self@.directories =~= old(self)@.directories);
                    assert(self@ == (CrawlView { fetching: old(self)@.fetching.remove(k as int), ..old(self)@ }));
                    assert forall|j: int| 0 <= j < self@.fetching.len() implies #[trigger] self@.fetching[j] < self@.next by {
                        if j < k {
                            assert(self@.fetching[j] == old(self)@.fetching[j]);
                        } else {
                            assert(self@.fetching[j] == old(self)@.fetching[j + 1]);
                        }
                    }
                }
                return true;
            }
            k = k + 1;
        }
        false
    }

    /// Reports that page `id` could not be fetched. The root's failure ends
    /// the crawl; any other page's is kept as a failed subtree.
    pub fn page_failed(&mut self, id: usize) -> (r: Result<(), CrawlError>)
        requires
            old(self).wf(),
        ensures
            final(self).wf(),
            !old(self)@.fetching.contains(id) ==> r == Err::<(), CrawlError>(CrawlError::UnknownPage)
                && final(self)@ == old(self)@,
            old(self)@.fetching.contains(id) ==> {
                &&& r == if id == 0 {
                    Err(CrawlError::RootUnreachable)
                } else {
                    Ok::<(), CrawlError>(())
                }
                &&& exists|k: int|
                    0 <= k < old(self)@.fetching.len() && old(self)@.fetching[k] == id
                        && final(self)@ == (CrawlView {
                        fetching: old(self)@.fetching.remove(k),
                        failed: old(self)@.failed.push(id),
                        ..old(self)@
                    })
            },
    {
        if !self.finish_fetch(id) {
            return Err(CrawlError::UnknownPage);
        }
        let ghost mid = self@;
        self.failed.push(id);
        proof {
            let k = choose|k: int| 0 <= k < old(self)@.fetching.len() && old(self)@.fetching[k] == id;
            assert(old(self)@.fetching[k] < old(self)@.next);
            assert forall|j: int| 0 <= j < self.failed@.len() implies #[trigger] self.failed@[j] < self.next by {
                if j < self.failed@.len() - 1 {
                    assert(self.failed@[j] == mid.failed[j]);
                }
            }
            assert(self@.pages =~= mid.pages);
            assert(self@.entries =~= mid.entries);
            assert(self@.directories =~= mid.directories);
            assert(self@ == (CrawlView { failed: mid.failed.push(id), ..mid }));
        }
        if id == 0 {
            Err(CrawlError::RootUnreachable)
        } else {
            Ok(())
        }
    }

    /// Records the probed size of entry `entry`: `None` when the probe
    /// failed, which counts as 0. Each entry's size is counted once; a
    /// second report, or one for no entry, changes nothing.
    pub fn record_size(&mut self, entry: usize, size: Option<u64>) -> (r: bool)
        requires
            old(self).wf(),
        ensures
            final(self).wf(),
            r == (entry < old(self)@.awaiting.len() && old(self)@.awaiting[entry as int]),
            !r ==> final(self)@ == old(self)@,
            r ==> final(self)@ == (CrawlView {
                awaiting: old(self)@.awaiting.update(entry as int, false),
                recorded: old(self)@.recorded + match size {
                    Some(n) => n as int,
                    None => 0,
                },
                total_size: saturated(
                    old(self)@.recorded + match size {
                        Some(n) => n as int,
                        None => 0,
                    },
                ) as u64,
                ..old(self)@
            }),
    {
        if entry >= self.awaiting.len() || !self.awaiting[entry] {
            return false;
        }
        let bytes: u64 = match size {
            Some(n) => n,
            None => 0,
        };
        self.awaiting.set(entry, false);
        self.total_size = self.total_size.saturating_add(bytes);
        self.recorded = Ghost(self.recorded@ + bytes);
        proof {
            assert(self@.pages =~= old(self)@.pages);
            assert(self@.entries =~= old(self)@.entries);
            assert(self@.directories =~= old(self)@.directories);
        }
        true
    }

    /// Whether nothing is left to fetch or probe.
    pub fn is_finished(&self) -> (r: bool)
        requires
            self.wf(),
        ensures
            r == self@.finished(),
    {
        if self.next < self.urls.len() || self.fetching.len() > 0 {
            return false;
        }
        let mut k: usize = 0;
        while k < self.awaiting.len()
            invariant
                k <= self.awaiting@.len(),
                forall|j: int| 0 <= j < k ==> !#[trigger] self.awaiting@[j],
            decreases self.awaiting@.len() - k,
        {
            if self.awaiting[k] {
                assert(self@.awaiting[k as int]);
                return false;
            }
            k = k + 1;
        }
        true
    }

    /// The pages that could not be fetched or read, as their URLs.
    pub fn failed_pages(&self) -> (r: Vec<String>)
        requires
            self.wf(),
        ensures
            r@.len() == self@.failed.len(),
            forall|k: int|
                0 <= k < r@.len() ==> self@.failed[k] < self@.pages.len() && #[trigger] r@[k]@
                    == self@.pages[self@.failed[k] as int].0,
    {
        let mut r: Vec<String> = Vec::new();
        let mut k: usize = 0;
        while k < self.failed.len()
            invariant
                self.wf(),
                k <= self.failed@.len(),
                r@.len() == k,
                forall|j: int|
                    0 <= j < k ==> self@.failed[j] < self@.pages.len() && #[trigger] r@[j]@
                        == self@.pages[self@.failed[j] as int].0,
            decreases self.failed@.len() - k,
        {
            let id = self.failed[k];
            assert(self.failed@[k as int] < self.next);
            let url = self.urls[id].clone();
            let ghost before = r@;
            r.push(url);
            proof {
                assert forall|j: int|
                    0 <= j < k + 1 implies self@.failed[j] < self@.pages.len() && #[trigger] r@[j]@
                        == self@.pages[self@.failed[j] as int].0 by {
                    if j < k {
                        assert(r@[j] == before[j]);
                    }
                }
            }
            k = k + 1;
        }
        r
    }

    /// Hands the finished manifest over, stamped with `saved_at`.
    pub fn into_manifest(self, saved_at: Timestamp) -> (r: CrawlData)
        requires
            self.wf(),
        ensures
            r.download_list@.len() == self@.entries.len(),
            forall|k: int|
                0 <= k < self@.entries.len() ==> (#[trigger] r.download_list@[k]).url@
                    == self@.entries[k].0 && r.download_list@[k].output_dir@ == self@.entries[k].1,
            r.directories_to_create@.map_values(|d: String| d@) == self@.directories,
            r.total_size == self@.total_size,
            r.saved_at == saved_at,
    {
        CrawlData {
            download_list: self.entries,
            total_size: self.total_size,
            directories_to_create: self.directories,
            saved_at,
        }
    }

    /// Applies one link of a page whose relative prefix is `prefix`: a
    /// followed link lists the directories its path lies in below the
    /// prefix; a directory link also queues its page, a file link adds an
    /// entry and asks for its size.
    fn follow_link(&mut self, prefix: &String, link: &Link, probes: &mut Vec<SizeProbe>)
        requires
            old(self).wf(),
            parents_listed(prefix@, old(self)@.directories),
            link.is_dir == names_directory(link.href@),
        ensures
            final(self).wf(),
            parents_listed(prefix@, final(self)@.directories),
            follows(old(self)@.filters, prefix@, link.href@) && link.is_dir ==> final(self)@ == (
            CrawlView {
                directories: old(self)@.directories + dirs_between(
                    prefix@ + link.href@,
                    prefix@.len() as int,
                    (prefix@ + link.href@).len() as int,
                ),
                pages: old(self)@.pages.push((link.url@, prefix@ + link.href@)),
                ..old(self)@
            }) && final(probes)@ == old(probes)@,
            follows(old(self)@.filters, prefix@, link.href@) && !link.is_dir ==> final(self)@ == (
            CrawlView {
                directories: old(self)@.directories + dirs_between(
                    prefix@ + link.href@,
                    prefix@.len() as int,
                    (prefix@ + link.href@).len() as int,
                ),
                entries: old(self)@.entries.push((link.url@, prefix@ + link.href@)),
                awaiting: old(self)@.awaiting.push(true),
                ..old(self)@
            }) && final(probes)@.len() == old(probes)@.len() + 1 && final(probes)@.drop_last()
                == old(probes)@ && final(probes)@.last().entry == old(self)@.entries.len()
                && final(probes)@.last().url@ == link.url@,
            !follows(old(self)@.filters, prefix@, link.href@) ==> final(self)@ == old(self)@
                && final(probes)@ == old(probes)@,
    {
        if !is_local(link.href.as_str()) {
            return;
        }
        let mut rel = prefix.clone();
        rel.append(link.href.as_str());
        let verdict = should_filter(rel.as_str(), self.filters.as_slice());
        proof {
            lemma_filter_answers(rel@, self.filters@);
        }
        match verdict {
            Ok(false) => {},
            _ => {
                return;
            },
        }
        let ghost before = self@;
        let ghost path = prefix@ + link.href@;
        let plen = prefix.as_str().unicode_len();
        let n = rel.as_str().unicode_len();
        let mut new_dirs: Vec<String> = Vec::new();
        let mut i: usize = plen;
        while i < n
            invariant
                plen == prefix@.len(),
                n == path.len(),
                rel@ == path,
                path == prefix@ + link.href@,
                plen <= i <= n,
                new_dirs@.map_values(|d: String| d@) == dirs_between(path, plen as int, i as int),
            decreases n - i,
        {
            if rel.as_str().get_char(i) == '/' {
                let dir = String::from_str(rel.as_str().substring_char(0, i));
                let ghost earlier = new_dirs@;
                new_dirs.push(dir);
                assert(new_dirs@.map_values(|d: String| d@) =~= earlier.map_values(|d: String| d@).push(path.subrange(0, i as int)));
            }
            i = i + 1;
        }
        let ghost added = new_dirs@;
        self.directories.append(&mut new_dirs);
        proof {
            let more = dirs_between(path, plen as int, n as int);
            let dirs = self@.directories;
            assert(dirs =~= before.directories + more);
            lemma_child_listed(prefix@, link.href@, before.directories);
            assert forall|k: int| 0 <= k < before.entries.len() implies parents_listed(
                #[trigger] before.entries[k].1,
                dirs,
            ) by {
                lemma_listed_extend(before.entries[k].1, before.directories, more);
            }
            assert forall|k: int| 0 <= k < before.pages.len() implies parents_listed(
                #[trigger] before.pages[k].1,
                dirs,
            ) by {
                lemma_listed_extend(before.pages[k].1, before.directories, more);
            }
            assert forall|k: int| 0 <= k < dirs.len() implies parents_listed(#[trigger] dirs[k], dirs) by {
                if k < before.directories.len() {
                    lemma_listed_extend(before.directories[k], before.directories, more);
                } else {
                    assert(dirs[k] == more[k - before.directories.len()]);
                }
            }
            lemma_listed_extend(prefix@, before.directories, more);
        }
        let ghost listed = self@;
        if link.is_dir {
            self.urls.push(link.url.clone());
            self.prefixes.push(rel);
            proof {
                assert(self@.directories =~= listed.directories);
                assert(self@.pages =~= before.pages.push((link.url@, path)));
                assert(self@.entries =~= before.entries);
            }
        } else {
            probes.push(SizeProbe { entry: self.entries.len(), url: link.url.clone() });
            self.entries.push(DownloadData { url: link.url.clone(), output_dir: rel });
            self.awaiting.push(true);
            proof {
                assert(self@.directories =~= listed.directories);
                assert(self@.pages =~= before.pages);
                assert(self@.entries =~= before.entries.push((link.url@, path)));
                assert(probes@.drop_last() =~= old(probes)@);
            }
        }
    }

    /// Reports the body of page `id`. Its links are extracted; each one
    /// that stays in the listing and that the filter keeps is followed: a
    /// directory is listed and its page queued, a file is added to the
    /// manifest and returned as a size to probe. A page with a link that
    /// does not resolve counts as failed, and ends the crawl if it is the
    /// root.
    pub fn page_loaded(&mut self, id: usize, html: &str) -> (r: Result<Vec<SizeProbe>, CrawlError>)
        requires
            old(self).wf(),
        ensures
            final(self).wf(),
            !old(self)@.fetching.contains(id) ==> r is Err && r->Err_0 == CrawlError::UnknownPage
                && final(self)@ == old(self)@,
            old(self)@.fetching.contains(id) ==> exists|k: int|
                0 <= k < old(self)@.fetching.len() && old(self)@.fetching[k] == id
                    && #[trigger] loaded(old(self)@, final(self)@, k, html@, r),
    {
        if !self.finish_fetch(id) {
            return Err(CrawlError::UnknownPage);
        }
        let ghost mid = self@;
        let ghost k0 = choose|k: int|
            0 <= k < old(self)@.fetching.len() && old(self)@.fetching[k] == id && mid == (
            CrawlView { fetching: old(self)@.fetching.remove(k), ..old(self)@ });
        assert(id < self.next);
        let base = self.urls[id].clone();
        let prefix = self.prefixes[id].clone();
        let ghost hrefs = kept_hrefs(anchor_hrefs_of(html@));
        let links = match extract_links(html, base.as_str()) {
            Ok(links) => links,
            Err(_) => {
                self.failed.push(id);
                proof {
                    assert(self@.pages =~= mid.pages);
                    assert(self@.entries =~= mid.entries);
                    assert(self@.directories =~= mid.directories);
                    assert(self@ == (CrawlView { failed: mid.failed.push(id), ..mid }));
                    assert forall|j: int| 0 <= j < self.failed@.len() implies #[trigger] self.failed@[j]
                        < self.next by {
                        if j < self.failed@.len() - 1 {
                            assert(self.failed@[j] == mid.failed[j]);
                        }
                    }
                }
                let r = if id == 0 {
                    Err(CrawlError::RootUnreachable)
                } else {
                    Ok(Vec::new())
                };
                proof {
                    assert(mid.pages[id as int].0 == base@);
                    assert(loaded(old(self)@, self@, k0, html@, r));
                }
                return r;
            },
        };
        let mut probes: Vec<SizeProbe> = Vec::new();
        let mut j: usize = 0;
        assert(hrefs.subrange(0, 0) =~= Seq::<Seq<char>>::empty());
        assert(mid.pages[id as int].1 == prefix@);
        while j < links.len()
            invariant
                self.wf(),
                j <= links@.len(),
                hrefs == kept_hrefs(anchor_hrefs_of(html@)),
                classified(links@, hrefs, base@),
                parents_listed(prefix@, self@.directories),
                self@ == (CrawlView {
                    directories: mid.directories + found_dirs(mid.filters, prefix@, hrefs.subrange(0, j as int)),
                    pages: mid.pages + found_pages(mid.filters, base@, prefix@, hrefs.subrange(0, j as int)),
                    entries: mid.entries + found_files(mid.filters, base@, prefix@, hrefs.subrange(0, j as int)),
                    awaiting: mid.awaiting + Seq::new(
                        found_files(mid.filters, base@, prefix@, hrefs.subrange(0, j as int)).len(),
                        |i: int| true,
                    ),
                    ..mid
                }),
                probed(probes@, mid.entries.len() as int, found_files(mid.filters, base@, prefix@, hrefs.subrange(0, j as int))),
            decreases links@.len() - j,
        {
            let ghost before = self@;
            let ghost probes_before = probes@;
            let ghost upto = hrefs.subrange(0, j as int + 1);
            assert(upto.drop_last() =~= hrefs.subrange(0, j as int));
            assert(upto.last() == hrefs[j as int]);
            assert(links@[j as int].href@ == hrefs[j as int]);
            self.follow_link(&prefix, &links[j], &mut probes);
            proof {
                let h = hrefs[j as int];
                let fd = found_dirs(mid.filters, prefix@, hrefs.subrange(0, j as int));
                let fp = found_pages(mid.filters, base@, prefix@, hrefs.subrange(0, j as int));
                let ff = found_files(mid.filters, base@, prefix@, hrefs.subrange(0, j as int));
                assert(joined_url(base@, h)->0 == links@[j as int].url@);
                if follows(mid.filters, prefix@, h) && names_directory(h) {
                    assert(self@.directories =~= mid.directories + found_dirs(mid.filters, prefix@, upto));
                    assert(self@.pages =~= mid.pages + found_pages(mid.filters, base@, prefix@, upto));
                    assert(self@.entries =~= mid.entries + found_files(mid.filters, base@, prefix@, upto));
                } else if follows(mid.filters, prefix@, h) {
                    assert(self@.directories =~= mid.directories + found_dirs(mid.filters, prefix@, upto));
                    let ff2 = found_files(mid.filters, base@, prefix@, upto);
                    assert(ff2 == ff.push((links@[j as int].url@, prefix@ + h)));
                    assert(self@.entries =~= mid.entries + ff2);
                    assert(self@.awaiting =~= mid.awaiting + Seq::new(ff2.len(), |i: int| true));
                    assert(probed(probes@, mid.entries.len() as int, ff2)) by {
                        assert forall|i: int| 0 <= i < probes@.len() implies (#[trigger] probes@[i]).entry
                            == mid.entries.len() + i && probes@[i].url@ == ff2[i].0 by {
                            if i < probes@.len() - 1 {
                                assert(probes@[i] == probes_before[i]);
                            }
                        }
                    }
                } else {
                    assert(self@.directories =~= mid.directories + found_dirs(mid.filters, prefix@, upto));
                }
            }
            j = j + 1;
        }
        let r = Ok(probes);
        proof {
            assert(hrefs.subrange(0, links@.len() as int) =~= hrefs);
            assert(mid.pages[id as int].0 == base@);
            assert(loaded(old(self)@, self@, k0, html@, r));
        }
        r
    }
}

/// The size probes `probes` ask for the entries `files`, numbered from
/// `first`.
pub open spec fn probed(probes: Seq<SizeProbe>, first: int, files: Seq<(Seq<char>, Seq<char>)>) -> bool {
    &&& probes.len() == files.len()
    &&& forall|i: int| 0 <= i < probes.len() ==> (#[trigger] probes[i]).entry == first + i && probes[i].url@ == files[i].0
}

/// What reporting the body `html` of the page that stood at position `k`
/// of the pages being fetched does, from state `pre` to state `post`, with
/// result `r`.
pub open spec fn loaded(
    pre: CrawlView,
    post: CrawlView,
    k: int,
    html: Seq<char>,
    r: Result<Vec<SizeProbe>, CrawlError>,
) -> bool {
    let id = pre.fetching[k];
    let base = pre.pages[id as int].0;
    let prefix = pre.pages[id as int].1;
    let hrefs = kept_hrefs(anchor_hrefs_of(html));
    let mid = CrawlView { fetching: pre.fetching.remove(k), ..pre };
    if some_link_unresolved(hrefs, base) {
        &&& post == (CrawlView { failed: mid.failed.push(id), ..mid })
        &&& id == 0 ==> r is Err && r->Err_0 == CrawlError::RootUnreachable
        &&& id != 0 ==> r is Ok && r->Ok_0@.len() == 0
    } else {
        let files = found_files(pre.filters, base, prefix, hrefs);
        &&& post == (CrawlView {
            directories: mid.directories + found_dirs(pre.filters, prefix, hrefs),
            pages: mid.pages + found_pages(pre.filters, base, prefix, hrefs),
            entries: mid.entries + files,
            awaiting: mid.awaiting + Seq::new(files.len(), |i: int| true),
            ..mid
        })
        &&& r is Ok
        &&& probed(r->Ok_0@, pre.entries.len() as int, files)
    }
}

/// In every state of a crawl, every file and every directory of the
/// manifest has each directory it lies in listed among the directories to
/// create.
pub proof fn lemma_manifest_consistent(s: &CrawlSession)
    requires
        s.wf(),
    ensures
        s@.manifest_consistent(),
{
}

/// In every state of a crawl, no more pages are being fetched than the
/// limit allows.
pub proof fn lemma_fetches_bounded(s: &CrawlSession)
    requires
        s.wf(),
    ensures
        s@.fetches_bounded(),
        s@.fetching.len() <= s@.limit,
{
}

} // verus!
