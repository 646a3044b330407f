use crate::crawl::saturated;
use crate::crawl_data::DownloadData;
use crate::links::opt_text;
use vstd::prelude::*;
use vstd::string::StrSliceExecFns;

verus! {

/// The text that percent-decoding `s` gives, or `None` when the decoded
/// bytes are not UTF-8.
pub uninterp spec fn percent_decoded(s: Seq<char>) -> Option<Seq<char>>;

/// Relies on percent_encoding::percent_decode_str and
/// PercentDecode::decode_utf8: each `%XX` becomes its byte, and the bytes
/// are read back as UTF-8.
#[verifier::external_body]
fn decode_path(s: &str) -> (r: Option<String>)
    ensures
        opt_text(r) == percent_decoded(s@),
{
    match percent_encoding::percent_decode_str(s).decode_utf8() {
        Ok(decoded) => Some(decoded.into_owned()),
        Err(_) => None,
    }
}

/// `path` has a `..` segment starting at `i`.
pub open spec fn parent_segment_at(path: Seq<char>, i: int) -> bool {
    &&& 0 <= i
    &&& i + 2 <= path.len()
    &&& path[i] == '.'
    &&& path[i + 1] == '.'
    &&& (i == 0 || path[i - 1] == '/')
    &&& (i + 2 == path.len() || path[i + 2] == '/')
}

/// A path that stays below the output directory: not empty, not absolute,
/// with no `..` segment.
pub open spec fn is_safe_path(path: Seq<char>) -> bool {
    &&& path.len() > 0
    &&& path[0] != '/'
    &&& forall|i: int| !#[trigger] parent_segment_at(path, i)
}

/// Whether `path` stays below the output directory.
pub fn safe_path(path: &str) -> (r: bool)
    ensures
        r == is_safe_path(path@),
{
    let n = path.unicode_len();
    if n == 0 || path.get_char(0) == '/' {
        return false;
    }
    let mut i: usize = 0;
    while i + 1 < n
        invariant
            n == path@.len(),
            n > 0,
            i < n,
            forall|j: int| 0 <= j < i ==> !#[trigger] parent_segment_at(path@, j),
        decreases n - i,
    {
        if path.get_char(i) == '.' && path.get_char(i + 1) == '.' && (i == 0 || path.get_char(
            i - 1,
        ) == '/') && (i + 2 == n || path.get_char(i + 2) == '/') {
            assert(parent_segment_at(path@, i as int));
            return false;
        }
        i = i + 1;
    }
    assert forall|j: int| !#[trigger] parent_segment_at(path@, j) by {
        if 0 <= j < i {
        }
    }
    true
}

/// `encoded` percent-decodes to a path below the output directory.
pub open spec fn decodes_safely(encoded: Seq<char>) -> bool {
    percent_decoded(encoded) matches Some(d) && is_safe_path(d)
}

/// Decodes the manifest's directories, each relative to the output
/// directory. Any one that does not decode, or would leave the output
/// directory, is an error naming its position: no directory is created
/// then.
pub fn plan_directories(dirs: &Vec<String>) -> (r: Result<Vec<String>, usize>)
    ensures
        r is Ok <==> forall|i: int| 0 <= i < dirs@.len() ==> decodes_safely(#[trigger] dirs@[i]@),
        r matches Ok(v) ==> v@.len() == dirs@.len() && forall|i: int|
            0 <= i < dirs@.len() ==> percent_decoded(dirs@[i]@) == Some((#[trigger] v@[i])@),
        r matches Err(i) ==> i < dirs@.len() && !decodes_safely(dirs@[i as int]@) && forall|j: int|
            0 <= j < i ==> decodes_safely(#[trigger] dirs@[j]@),
{
    let mut v: Vec<String> = Vec::new();
    let mut i: usize = 0;
    while i < dirs.len()
        invariant
            i <= dirs@.len(),
            v@.len() == i,
            forall|j: int| 0 <= j < i ==> decodes_safely(#[trigger] dirs@[j]@),
            forall|j: int| 0 <= j < i ==> percent_decoded(dirs@[j]@) == Some((#[trigger] v@[j])@),
        decreases dirs@.len() - i,
    {
        match decode_path(dirs[i].as_str()) {
            Some(decoded) => {
                if !safe_path(decoded.as_str()) {
                    return Err(i);
                }
                v.push(decoded);
            },
            None => {
                return Err(i);
            },
        }
        i = i + 1;
    }
    Ok(v)
}

/// Why a file was not downloaded.
#[derive(Clone, Copy, Debug, PartialEq, Eq, Structural)]
pub enum FailureCause {
    /// Its percent-decoded path is not UTF-8.
    UndecodablePath,
    /// Its path would leave the output directory.
    UnsafePath,
    /// The transfer failed once its retries were spent.
    Transfer,
}

/// Where one file of the batch stands.
#[derive(Clone, Copy, Debug, PartialEq, Eq, Structural)]
pub enum FileOutcome {
    /// Waiting for a transfer slot.
    Pending,
    /// Holding a transfer slot.
    InFlight,
    /// Found on disk with this size; nothing was fetched.
    AlreadyPresent(u64),
    /// Fetched, with this many bytes written.
    Downloaded(u64),
    /// Not downloaded.
    Failed(FailureCause),
}

/// The outcome counts as a successful file, with its bytes.
pub open spec fn success_bytes(o: FileOutcome) -> int {
    match o {
        FileOutcome::AlreadyPresent(n) => n as int,
        FileOutcome::Downloaded(n) => n as int,
        _ => 0,
    }
}

/// How many files hold a transfer slot.
pub open spec fn in_flight_count(outcomes: Seq<FileOutcome>) -> nat
    decreases outcomes.len(),
{
    if outcomes.len() == 0 {
        0
    } else {
        in_flight_count(outcomes.drop_last()) + if outcomes.last() is InFlight {
            1nat
        } else {
            0nat
        }
    }
}

/// The bytes of all successful files.
pub open spec fn total_success_bytes(outcomes: Seq<FileOutcome>) -> int
    decreases outcomes.len(),
{
    if outcomes.len() == 0 {
        0
    } else {
        total_success_bytes(outcomes.drop_last()) + success_bytes(outcomes.last())
    }
}

/// Changing one outcome changes the two tallies by that outcome alone.
proof fn lemma_tallies_update(outcomes: Seq<FileOutcome>, i: int, o: FileOutcome)
    requires
        0 <= i < outcomes.len(),
    ensures
        in_flight_count(outcomes.update(i, o)) + (if outcomes[i] is InFlight {
            1int
        } else {
            0int
        }) == in_flight_count(outcomes) + (if o is InFlight {
            1int
        } else {
            0int
        }),
        total_success_bytes(outcomes.update(i, o)) + success_bytes(outcomes[i])
            == total_success_bytes(outcomes) + success_bytes(o),
    decreases outcomes.len(),
{
    let u = outcomes.update(i, o);
    if i == outcomes.len() - 1 {
        assert(u.drop_last() =~= outcomes.drop_last());
    } else {
        lemma_tallies_update(outcomes.drop_last(), i, o);
        assert(u.drop_last() =~= outcomes.drop_last().update(i, o));
    }
}

/// The tallies are never negative and only count what is there.
proof fn lemma_tallies_bounds(outcomes: Seq<FileOutcome>)
    ensures
        in_flight_count(outcomes) <= outcomes.len(),
        total_success_bytes(outcomes) >= 0,
    decreases outcomes.len(),
{
    if outcomes.len() > 0 {
        lemma_tallies_bounds(outcomes.drop_last());
    }
}

/// One file handed out for transfer.
#[derive(Debug)]
pub struct DownloadJob {
    /// Its position in the manifest.
    pub index: usize,
    pub url: String,
    /// Its decoded path relative to the output directory.
    pub path: String,
}

/// Where a batch of downloads stands.
pub struct DownloadView {
    /// Each file's URL and decoded path (empty where decoding failed).
    pub jobs: Seq<(Seq<char>, Seq<char>)>,
    pub outcomes: Seq<FileOutcome>,
    pub limit: nat,
    /// The bytes of the successful files, saturated at `u64::MAX`.
    pub downloaded: u64,
}

impl DownloadView {
    /// Files never hold more transfer slots than the limit, and the byte
    /// counter is the sum over the successful files.
    pub open spec fn consistent(self) -> bool {
        &&& self.jobs.len() == self.outcomes.len()
        &&& 1 <= self.limit
        &&& in_flight_count(self.outcomes) <= self.limit
        &&& self.downloaded == saturated(total_success_bytes(self.outcomes))
    }

    /// Every file's outcome is decided.
    pub open spec fn done(self) -> bool {
        forall|i: int| 0 <= i < self.outcomes.len() ==> !(#[trigger] self.outcomes[i] is Pending)
            && !(self.outcomes[i] is InFlight)
    }
}

/// The state of one batch of downloads: it hands out files while a
/// transfer slot is free, and the caller reports each one back.
pub struct DownloadScheduler {
    urls: Vec<String>,
    paths: Vec<String>,
    outcomes: Vec<FileOutcome>,
    next: usize,
    in_flight: usize,
    limit: usize,
    downloaded: u64,
}

impl View for DownloadScheduler {
    type V = DownloadView;

    closed spec fn view(&self) -> DownloadView {
        DownloadView {
            jobs: Seq::new(self.urls@.len(), |i: int| (self.urls@[i]@, self.paths@[i]@)),
            outcomes: self.outcomes@,
            limit: self.limit as nat,
            downloaded: self.downloaded,
        }
    }
}

/// The outcome a file starts with, from its encoded path.
pub open spec fn initial_outcome(encoded: Seq<char>) -> FileOutcome {
    match percent_decoded(encoded) {
        None => FileOutcome::Failed(FailureCause::UndecodablePath),
        Some(d) => if is_safe_path(d) {
            FileOutcome::Pending
        } else {
            FileOutcome::Failed(FailureCause::UnsafePath)
        },
    }
}


impl DownloadScheduler {
    /// The scheduler's invariant.
    pub closed spec fn wf(&self) -> bool {
        &&& self.urls@.len() == self.paths@.len()
        &&& self.paths@.len() == self.outcomes@.len()
        &&& self.next <= self.outcomes@.len()
        &&& forall|i: int| 0 <= i < self.next ==> !(#[trigger] self.outcomes@[i] is Pending)
        &&& forall|i: int|
            self.next <= i < self.outcomes@.len() ==> #[trigger] self.outcomes@[i] is Pending
                || self.outcomes@[i] is Failed
        &&& forall|i: int|
            0 <= i < self.outcomes@.len() && (#[trigger] self.outcomes@[i] is Pending
                || self.outcomes@[i] is InFlight) ==> is_safe_path(self.paths@[i]@)
        &&& self.in_flight == in_flight_count(self.outcomes@)
        &&& self@.consistent()
    }

    /// Plans the download of `entries` with at most `limit` transfers at
    /// once. Every path is percent-decoded here, once; a file whose path
    /// does not decode, or would leave the output directory, fails at once.
    pub fn new(entries: &Vec<DownloadData>, limit: usize) -> (r: DownloadScheduler)
        requires
            limit >= 1,
        ensures
            r.wf(),
            r@.limit == limit,
            r@.jobs.len() == entries@.len(),
            forall|i: int|
                0 <= i < entries@.len() ==> {
                    &&& (#[trigger] r@.jobs[i]).0 == entries@[i].url@
                    &&& r@.outcomes[i] == initial_outcome(entries@[i].output_dir@)
                    &&& r@.outcomes[i] is Pending ==> Some(r@.jobs[i].1) == percent_decoded(
                        entries@[i].output_dir@,
                    )
                },
            r@.downloaded == 0,
    {
        let mut urls: Vec<String> = Vec::new();
        let mut paths: Vec<String> = Vec::new();
        let mut outcomes: Vec<FileOutcome> = Vec::new();
        let mut i: usize = 0;
        while i < entries.len()
            invariant
                i <= entries@.len(),
                urls@.len() == i,
                paths@.len() == i,
                outcomes@.len() == i,
                in_flight_count(outcomes@) == 0,
                total_success_bytes(outcomes@) == 0,
                forall|j: int| 0 <= j < i ==> (#[trigger] urls@[j])@ == entries@[j].url@,
                forall|j: int|
                    0 <= j < i ==> #[trigger] outcomes@[j] == initial_outcome(
                        entries@[j].output_dir@,
                    ),
                forall|j: int|
                    0 <= j < i && outcomes@[j] is Pending ==> Some((#[trigger] paths@[j])@)
                        == percent_decoded(entries@[j].output_dir@) && is_safe_path(paths@[j]@),
            decreases entries@.len() - i,
        {
            let entry = &entries[i];
            let outcome;
            match decode_path(entry.output_dir.as_str()) {
                Some(decoded) => {
                    if safe_path(decoded.as_str()) {
                        outcome = FileOutcome::Pending;
                    } else {
                        outcome = FileOutcome::Failed(FailureCause::UnsafePath);
                    }
                    paths.push(decoded);
                },
                None => {
                    outcome = FileOutcome::Failed(FailureCause::UndecodablePath);
                    paths.push(String::new());
                },
            }
            let ghost before = outcomes@;
            let ghost paths_before = paths@.drop_last();
            let ghost urls_before = urls@;
            urls.push(entry.url.clone());
            outcomes.push(outcome);
            proof {
                assert(outcomes@.drop_last() =~= before);
                assert forall|j: int| 0 <= j < i implies (#[trigger] urls@[j])@ == entries@[j].url@ by {
                    assert(urls@[j] == urls_before[j]);
                }
                assert forall|j: int| 0 <= j < i + 1 && outcomes@[j] is Pending implies Some(
                    (#[trigger] paths@[j])@,
                ) == percent_decoded(entries@[j].output_dir@) && is_safe_path(paths@[j]@) by {
                    if j < i {
                        assert(paths@[j] == paths_before[j]);
                        assert(outcomes@[j] == before[j]);
                    }
                }
            }
            i = i + 1;
        }
        let r = DownloadScheduler {
            urls,
            paths,
            outcomes,
            next: 0,
            in_flight: 0,
            limit,
            downloaded: 0,
        };
        assert forall|j: int| 0 <= j < r.outcomes@.len() implies #[trigger] r.outcomes@[j] is Pending
            || r.outcomes@[j] is Failed by {
            assert(r.outcomes@[j] == initial_outcome(entries@[j].output_dir@));
        }
        assert forall|j: int|
            0 <= j < r.outcomes@.len() && (#[trigger] r.outcomes@[j] is Pending
                || r.outcomes@[j] is InFlight) implies is_safe_path(r.paths@[j]@) by {
            assert(r.outcomes@[j] == initial_outcome(entries@[j].output_dir@));
        }
        r
    }

    /// Hands out the first file still waiting, unless every transfer slot
    /// is taken or none is waiting.
    pub fn dispatch(&mut self) -> (r: Option<DownloadJob>)
        requires
            old(self).wf(),
        ensures
            final(self).wf(),
            r is Some <==> in_flight_count(old(self)@.outcomes) < old(self)@.limit && exists|i: int|
                0 <= i < old(self)@.outcomes.len() && #[trigger] old(self)@.outcomes[i] is Pending,
            r is None ==> final(self)@ == old(self)@,
            r matches Some(job) ==> {
                &&& job.index < old(self)@.outcomes.len()
                &&& old(self)@.outcomes[job.index as int] is Pending
                &&& forall|i: int| 0 <= i < job.index ==> !(#[trigger] old(self)@.outcomes[i] is Pending)
                &&& job.url@ == old(self)@.jobs[job.index as int].0
                &&& job.path@ == old(self)@.jobs[job.index as int].1
                &&& is_safe_path(job.path@)
                &&& final(self)@ == (DownloadView {
                    outcomes: old(self)@.outcomes.update(job.index as int, FileOutcome::InFlight),
                    ..old(self)@
                })
            },
    {
        if self.in_flight >= self.limit {
            return None;
        }
        let mut i: usize = self.next;
        while i < self.outcomes.len()
            invariant
                self == old(self),
                self.wf(),
                self.in_flight < self.limit,
                self.next <= i <= self.outcomes@.len(),
                forall|j: int| 0 <= j < i ==> !(#[trigger] self.outcomes@[j] is Pending),
            decreases self.outcomes@.len() - i,
        {
            if self.outcomes[i] == FileOutcome::Pending {
                let job = DownloadJob { index: i, url: self.urls[i].clone(), path: self.paths[i].clone() };
                let ghost before = self.outcomes@;
                self.outcomes.set(i, FileOutcome::InFlight);
                self.in_flight = self.in_flight + 1;
                self.next = i + 1;
                proof {
                    lemma_tallies_update(before, i as int, FileOutcome::InFlight);
                    assert(self@.jobs =~= old(self)@.jobs);
                    assert(self@.outcomes == old(self)@.outcomes.update(i as int, FileOutcome::InFlight));
                    assert forall|j: int|
                        self.next <= j < self.outcomes@.len() implies #[trigger] self.outcomes@[j] is Pending
                            || self.outcomes@[j] is Failed by {
                        assert(self.outcomes@[j] == before[j]);
                    }
                    assert forall|j: int|
                        0 <= j < self.outcomes@.len() && (#[trigger] self.outcomes@[j] is Pending
                            || self.outcomes@[j] is InFlight) implies is_safe_path(self.paths@[j]@) by {
                        if j != i {
                            assert(self.outcomes@[j] == before[j]);
                        }
                    }
                }
                return Some(job);
            }
            i = i + 1;
        }
        None
    }

    /// Starts the transfer of file `index`, which must hold a slot: when the
    /// target already exists on disk as a regular file of size `n`
    /// (`on_disk == Some(n)`), the file is complete with that size and
    /// nothing is fetched; otherwise the answer is true, and the caller
    /// fetches it and reports with [`DownloadScheduler::finish`]. A file
    /// that holds no slot is left alone.
    pub fn start(&mut self, index: usize, on_disk: Option<u64>) -> (fetch: bool)
        requires
            old(self).wf(),
        ensures
            final(self).wf(),
            fetch == (index < old(self)@.outcomes.len() && old(self)@.outcomes[index as int] is InFlight
                && on_disk is None),
            (index < old(self)@.outcomes.len() && old(self)@.outcomes[index as int] is InFlight)
                ==> match on_disk {
                Some(n) => final(self)@ == (DownloadView {
                    outcomes: old(self)@.outcomes.update(index as int, FileOutcome::AlreadyPresent(n)),
                    downloaded: saturated(old(self)@.downloaded + n) as u64,
                    ..old(self)@
                }),
                None => final(self)@ == old(self)@,
            },
            !(index < old(self)@.outcomes.len() && old(self)@.outcomes[index as int] is InFlight)
                ==> final(self)@ == old(self)@,
    {
        if index >= self.outcomes.len() || self.outcomes[index] != FileOutcome::InFlight {
            return false;
        }
        match on_disk {
            Some(n) => {
                self.settle(index, FileOutcome::AlreadyPresent(n), n);
                false
            },
            None => true,
        }
    }

    /// Reports the end of the transfer of file `index`: `Some(n)` when `n`
    /// bytes were written, `None` when it failed once its retries were
    /// spent. The failure of one file changes no other file's outcome. A
    /// file that holds no slot is left alone.
    pub fn finish(&mut self, index: usize, transferred: Option<u64>) -> (accepted: bool)
        requires
            old(self).wf(),
        ensures
            final(self).wf(),
            accepted == (index < old(self)@.outcomes.len()
                && old(self)@.outcomes[index as int] is InFlight),
            !accepted ==> final(self)@ == old(self)@,
            accepted ==> match transferred {
                Some(n) => final(self)@ == (DownloadView {
                    outcomes: old(self)@.outcomes.update(index as int, FileOutcome::Downloaded(n)),
                    downloaded: saturated(old(self)@.downloaded + n) as u64,
                    ..old(self)@
                }),
                None => final(self)@ == (DownloadView {
                    outcomes: old(self)@.outcomes.update(
                        index as int,
                        FileOutcome::Failed(FailureCause::Transfer),
                    ),
                    ..old(self)@
                }),
            },
    {
        if index >= self.outcomes.len() || self.outcomes[index] != FileOutcome::InFlight {
            return false;
        }
        match transferred {
            Some(n) => self.settle(index, FileOutcome::Downloaded(n), n),
            None => self.settle(index, FileOutcome::Failed(FailureCause::Transfer), 0),
        }
        true
    }

    /// Gives file `index`, which holds a slot, its final outcome, worth
    /// `bytes`, and frees the slot.
    fn settle(&mut self, index: usize, outcome: FileOutcome, bytes: u64)
        requires
            old(self).wf(),
            index < old(self)@.outcomes.len(),
            old(self)@.outcomes[index as int] is InFlight,
            !(outcome is Pending) && !(outcome is InFlight),
            success_bytes(outcome) == bytes,
        ensures
            final(self).wf(),
            final(self)@ == (DownloadView {
                outcomes: old(self)@.outcomes.update(index as int, outcome),
                downloaded: saturated(old(self)@.downloaded + bytes) as u64,
                ..old(self)@
            }),
    {
        let ghost before = self.outcomes@;
        proof {
            lemma_tallies_update(before, index as int, outcome);
            lemma_tallies_bounds(before);
        }
        self.outcomes.set(index, outcome);
        self.in_flight = self.in_flight - 1;
        self.downloaded = self.downloaded.saturating_add(bytes);
        proof {
            assert(self@.jobs =~= old(self)@.jobs);
            assert(forall|i: int| 0 <= i < self.next ==> !(#[trigger] self.outcomes@[i] is Pending));
        }
    }

    /// Whether every file's outcome is decided.
    pub fn is_done(&self) -> (r: bool)
        requires
            self.wf(),
        ensures
            r == self@.done(),
    {
        let mut i: usize = 0;
        while i < self.outcomes.len()
            invariant
                self.wf(),
                i <= self.outcomes@.len(),
                forall|j: int| 0 <= j < i ==> !(#[trigger] self.outcomes@[j] is Pending) && !(
                self.outcomes@[j] is InFlight),
            decreases self.outcomes@.len() - i,
        {
            let o = self.outcomes[i];
            if o == FileOutcome::Pending || o == FileOutcome::InFlight {
                assert(self@.outcomes[i as int] == o);
                return false;
            }
            i = i + 1;
        }
        true
    }

    /// The outcome of file `index`.
    pub fn outcome(&self, index: usize) -> (r: Option<FileOutcome>)
        requires
            self.wf(),
        ensures
            index < self@.outcomes.len() ==> r == Some(self@.outcomes[index as int]),
            index >= self@.outcomes.len() ==> r is None,
    {
        if index < self.outcomes.len() {
            Some(self.outcomes[index])
        } else {
            None
        }
    }

    /// The bytes of the successful files, saturated at `u64::MAX`.
    pub fn downloaded_bytes(&self) -> (r: u64)
        requires
            self.wf(),
        ensures
            r == self@.downloaded,
    {
        self.downloaded
    }

    /// How many files hold a transfer slot.
    pub fn in_flight(&self) -> (r: usize)
        requires
            self.wf(),
        ensures
            r == in_flight_count(self@.outcomes),
    {
        self.in_flight
    }
}

/// In every state of a batch, the files holding a transfer slot are never
/// more than the limit, and the byte counter is the sum over the
/// successful files.
pub proof fn lemma_transfers_bounded(s: &DownloadScheduler)
    requires
        s.wf(),
    ensures
        s@.consistent(),
        in_flight_count(s@.outcomes) <= s@.limit,
{
}

} // verus!
