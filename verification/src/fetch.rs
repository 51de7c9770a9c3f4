//! Fetching from GitHub: falling back to mirrors, and walking through a subdirectory within
//! limits.
use crate::error::AppError;
use crate::github::GithubContentEntry;
use crate::skill::{SkillSource, MAX_ARCHIVE_BYTES, MAX_EXTRACTED_FILES};
use crate::text::{content, contents, same};
use vstd::multiset::Multiset;
use vstd::prelude::*;

verus! {

/// The places that a file can be fetched from, and the one whose turn it is.
pub struct MirrorFallback {
    urls: Vec<String>,
    at: usize,
}

/// `MirrorFallback` over sequences of characters.
pub struct MirrorState {
    pub urls: Seq<Seq<char>>,
    pub at: int,
}

impl View for MirrorFallback {
    type V = MirrorState;

    closed spec fn view(&self) -> MirrorState {
        MirrorState { urls: contents(self.urls@), at: self.at as int }
    }
}

/// Whether the next place is tried: there has to be one, and the attempt has to have failed in a
/// way that another place may mend.
pub open spec fn retries<T>(
    outcome: Result<T, AppError>,
    falls_back: bool,
    at: int,
    count: int,
) -> bool {
    outcome is Err && falls_back && at + 1 < count
}

impl MirrorFallback {
    /// It is the turn of one of the places.
    pub open spec fn wf(self) -> bool {
        0 <= self@.at < self@.urls.len()
    }

    /// The first of `urls` is tried first. Where there are none, the error says `failure`.
    pub fn new(urls: Vec<String>, failure: &str) -> (r: Result<MirrorFallback, AppError>)
        ensures
            match r {
                Ok(m) => m.wf() && m@ == (MirrorState { urls: contents(urls@), at: 0 }),
                Err(e) => urls@.len() == 0 && e@ == failure@,
            },
    {
        if urls.len() == 0 {
            return Err(AppError::message(failure));
        }
        Ok(MirrorFallback { urls, at: 0 })
    }

    /// The place whose turn it is.
    pub fn url(&self) -> (r: &str)
        requires
            self.wf(),
        ensures
            r@ == self@.urls[self@.at],
    {
        self.urls[self.at].as_str()
    }

    /// Takes the outcome of an attempt at the place whose turn it is. `None` asks for an attempt
    /// at the next one; anything else is the outcome of the whole.
    pub fn attempted<T>(&mut self, outcome: Result<T, AppError>, falls_back: bool) -> (r: Option<
        Result<T, AppError>,
    >)
        requires
            old(self).wf(),
        ensures
            final(self).wf(),
            final(self)@.urls == old(self)@.urls,
            retries(outcome, falls_back, old(self)@.at, old(self)@.urls.len() as int) ==> {
                &&& r is None
                &&& final(self)@.at == old(self)@.at + 1
            },
            !retries(outcome, falls_back, old(self)@.at, old(self)@.urls.len() as int) ==> {
                &&& r == Some(outcome)
                &&& final(self)@.at == old(self)@.at
            },
    {
        if outcome.is_err() && falls_back && self.at < self.urls.len() - 1 {
            self.at = self.at + 1;
            return None;
        }
        Some(outcome)
    }
}

/// Which attempt answers, where attempt `i` would come to `outcomes[i]`: an outcome, and whether
/// it is one that another place may mend.
pub open spec fn answering<T>(outcomes: Seq<(Result<T, AppError>, bool)>, from: int) -> int
    decreases outcomes.len() - from,
{
    if from < 0 || from >= outcomes.len() {
        from
    } else if retries(outcomes[from].0, outcomes[from].1, from, outcomes.len() as int) {
        answering(outcomes, from + 1)
    } else {
        from
    }
}

/// Every place is tried in turn until one answers. An attempt answers if it succeeds, if no
/// other place may mend its failure, or if it is the last.
pub proof fn law_first_conclusive_attempt_answers<T>(outcomes: Seq<(Result<T, AppError>, bool)>)
    requires
        outcomes.len() > 0,
    ensures
        ({
            let i = answering(outcomes, 0);
            &&& 0 <= i < outcomes.len()
            &&& outcomes[i].0 is Ok || !outcomes[i].1 || i == outcomes.len() - 1
            &&& forall|j: int| 0 <= j < i ==> (#[trigger] outcomes[j]).0 is Err && outcomes[j].1
        }),
{
    lemma_answering(outcomes, 0);
}

proof fn lemma_answering<T>(outcomes: Seq<(Result<T, AppError>, bool)>, from: int)
    requires
        0 <= from < outcomes.len(),
    ensures
        ({
            let i = answering(outcomes, from);
            &&& from <= i < outcomes.len()
            &&& outcomes[i].0 is Ok || !outcomes[i].1 || i == outcomes.len() - 1
            &&& forall|j: int| from <= j < i ==> (#[trigger] outcomes[j]).0 is Err && outcomes[j].1
        }),
    decreases outcomes.len() - from,
{
    if retries(outcomes[from].0, outcomes[from].1, from, outcomes.len() as int) {
        lemma_answering(outcomes, from + 1);
    }
}

/// What a walk through a subdirectory asks for next.
#[derive(Debug, Clone, PartialEq, Eq)]
pub enum FetchStep {
    /// List the entries of a path.
    List { path: String },
    /// Download the file at `path` from `url`.
    Download { path: String, url: String },
    /// Nothing is left.
    Done,
}

/// `FetchStep` over sequences of characters.
pub enum FetchTask {
    List { path: Seq<char> },
    Download { path: Seq<char>, url: Seq<char> },
    Done,
}

impl View for FetchStep {
    type V = FetchTask;

    open spec fn view(&self) -> FetchTask {
        match self {
            FetchStep::List { path } => FetchTask::List { path: path@ },
            FetchStep::Download { path, url } => FetchTask::Download { path: path@, url: url@ },
            FetchStep::Done => FetchTask::Done,
        }
    }
}

/// A walk through a subdirectory of a repository.
pub struct SubpathFetch {
    pending: Vec<String>,
    entries: Vec<GithubContentEntry>,
    at: usize,
    files: usize,
    total_bytes: usize,
}

/// What a walk holds: the directories that are still to be listed, of which the last is the
/// next, the entries of the current listing that are left, and how much was fetched.
pub struct FetchState {
    pub pending: Seq<Seq<char>>,
    pub queue: Seq<GithubContentEntry>,
    pub files: int,
    pub total_bytes: int,
}

impl View for SubpathFetch {
    type V = FetchState;

    closed spec fn view(&self) -> FetchState {
        FetchState {
            pending: contents(self.pending@),
            queue: self.entries@.skip(self.at as int),
            files: self.files as int,
            total_bytes: self.total_bytes as int,
        }
    }
}

/// The entry is a directory.
pub open spec fn is_dir(entry: GithubContentEntry) -> bool {
    entry.kind@ == "dir"@
}

/// The entry is a file.
pub open spec fn is_file(entry: GithubContentEntry) -> bool {
    !is_dir(entry) && entry.kind@ == "file"@
}

/// What is done about a file when `files` were counted and `total_bytes` fetched before it.
pub open spec fn file_task(entry: GithubContentEntry, files: int, total_bytes: int) -> Result<
    FetchTask,
    Seq<char>,
> {
    if files + 1 > MAX_EXTRACTED_FILES {
        Err("skill source contains too many files"@)
    } else if entry.size is Some && total_bytes + (entry.size->Some_0 as usize) > MAX_ARCHIVE_BYTES {
        Err("skill source is too large"@)
    } else {
        match entry.download_url {
            Some(url) => Ok(FetchTask::Download { path: entry.path@, url: url@ }),
            None => Err("GitHub file is missing a download URL"@),
        }
    }
}

/// What a walk asks for next, or why it fails, and what it holds then. The entries of a listing
/// are taken in order: directories are put off, files are downloaded, and anything else is
/// passed over.
pub open spec fn advanced(s: FetchState) -> (FetchState, Result<FetchTask, Seq<char>>)
    decreases s.queue.len(),
{
    if s.queue.len() == 0 {
        if s.pending.len() == 0 {
            (s, Ok(FetchTask::Done))
        } else {
            (
                FetchState { pending: s.pending.drop_last(), ..s },
                Ok(FetchTask::List { path: s.pending.last() }),
            )
        }
    } else {
        let entry = s.queue[0];
        let rest = FetchState { queue: s.queue.skip(1), ..s };
        if is_dir(entry) {
            advanced(FetchState { pending: s.pending.push(entry.path@), ..rest })
        } else if is_file(entry) {
            match file_task(entry, s.files, s.total_bytes) {
                Ok(task) => (FetchState { files: s.files + 1, ..rest }, Ok(task)),
                Err(message) => (s, Err(message)),
            }
        } else {
            advanced(rest)
        }
    }
}

/// The walk through `subpath`, before its first step.
pub open spec fn fetch_start(subpath: Seq<char>) -> FetchState {
    FetchState { pending: seq![subpath], queue: Seq::empty(), files: 0, total_bytes: 0 }
}

impl SubpathFetch {
    /// The limits are kept.
    pub closed spec fn wf(self) -> bool {
        &&& self.at <= self.entries@.len()
        &&& self.files <= MAX_EXTRACTED_FILES
        &&& self.total_bytes <= MAX_ARCHIVE_BYTES
    }

    /// The walk through the subpath of a source, which has to have one.
    pub fn start(source: &SkillSource) -> (r: Result<SubpathFetch, AppError>)
        ensures
            match source.subpath {
                Some(subpath) => r matches Ok(walk) && walk.wf() && walk@ == fetch_start(subpath@),
                None => r matches Err(e) && e@ == "GitHub tree URL is missing a subpath"@,
            },
    {
        match &source.subpath {
            Some(subpath) => {
                let mut pending: Vec<String> = Vec::new();
                pending.push(subpath.clone());
                assert(contents(pending@) =~= seq![subpath@]);
                let walk = SubpathFetch {
                    pending,
                    entries: Vec::new(),
                    at: 0,
                    files: 0,
                    total_bytes: 0,
                };
                assert(walk@.queue =~= Seq::<GithubContentEntry>::empty());
                Ok(walk)
            },
            None => Err(AppError::message("GitHub tree URL is missing a subpath")),
        }
    }

    /// What the walk asks for next, or why it fails.
    pub fn advance(&mut self) -> (r: Result<FetchStep, AppError>)
        requires
            old(self).wf(),
        ensures
            final(self).wf(),
            match r {
                Ok(step) => advanced(old(self)@) == (
                    final(self)@,
                    Ok::<FetchTask, Seq<char>>(step@),
                ),
                Err(e) => advanced(old(self)@) == (final(self)@, Err::<FetchTask, Seq<char>>(e@)),
            },
    {
        while self.at < self.entries.len()
            invariant
                self.wf(),
                advanced(old(self)@) == advanced(self@),
            decreases self.entries@.len() - self.at,
        {
            let ghost s = self@;
            let ghost rest = self.entries@.skip(self.at + 1);
            let entry = &self.entries[self.at];
            assert(s.queue[0] == *entry);
            assert(s.queue.skip(1) =~= rest);
            if same(entry.kind.as_str(), "dir") {
                let path = entry.path.clone();
                let ghost pending = self.pending@;
                self.at = self.at + 1;
                self.pending.push(path);
                assert(contents(self.pending@) =~= contents(pending).push(path@));
                assert(self@ == (FetchState {
                    pending: s.pending.push(path@),
                    queue: rest,
                    ..s
                }));
            } else if same(entry.kind.as_str(), "file") {
                if self.files == MAX_EXTRACTED_FILES {
                    return Err(AppError::message("skill source contains too many files"));
                }
                if let Some(size) = entry.size {
                    let size: usize = size as usize;
                    if size > MAX_ARCHIVE_BYTES - self.total_bytes {
                        return Err(AppError::message("skill source is too large"));
                    }
                }
                let url = match &entry.download_url {
                    Some(url) => url.clone(),
                    None => {
                        return Err(AppError::message("GitHub file is missing a download URL"));
                    },
                };
                let path = entry.path.clone();
                self.at = self.at + 1;
                self.files = self.files + 1;
                assert(self@ == (FetchState { queue: rest, files: s.files + 1, ..s }));
                return Ok(FetchStep::Download { path, url });
            } else {
                self.at = self.at + 1;
                assert(self@ == (FetchState { queue: rest, ..s }));
            }
        }
        let ghost s = self@;
        match self.pending.pop() {
            Some(path) => {
                assert(contents(self.pending@) =~= s.pending.drop_last());
                assert(s.pending.last() == path@);
                Ok(FetchStep::List { path })
            },
            None => Ok(FetchStep::Done),
        }
    }

    /// Takes the entries of the path that was to be listed.
    pub fn listed(&mut self, entries: Vec<GithubContentEntry>)
        requires
            old(self).wf(),
        ensures
            final(self).wf(),
            final(self)@ == (FetchState { queue: entries@, ..old(self)@ }),
    {
        self.entries = entries;
        self.at = 0;
        assert(self@.queue =~= entries@);
    }

    /// Takes the length of the file that was to be downloaded, which has to keep the limit.
    pub fn downloaded(&mut self, len: usize) -> (r: Result<(), AppError>)
        requires
            old(self).wf(),
        ensures
            final(self).wf(),
            old(self)@.total_bytes + len <= MAX_ARCHIVE_BYTES ==> {
                &&& r is Ok
                &&& final(self)@ == (FetchState {
                    total_bytes: old(self)@.total_bytes + len,
                    ..old(self)@
                })
            },
            old(self)@.total_bytes + len > MAX_ARCHIVE_BYTES ==> {
                &&& r matches Err(e)
                &&& e@ == "skill source is too large"@
                &&& final(self)@ == old(self)@
            },
    {
        if len > MAX_ARCHIVE_BYTES - self.total_bytes {
            return Err(AppError::message("skill source is too large"));
        }
        self.total_bytes = self.total_bytes + len;
        Ok(())
    }
}

/// What a walk is told.
pub enum FetchEvent {
    /// The entries of the path that was to be listed.
    Listed { entries: Seq<GithubContentEntry> },
    /// The length of the file that was to be downloaded.
    Downloaded { len: int },
}

/// What a walk that started with `start` holds after `events`; nothing where it failed, or where
/// an event does not answer what the walk asked for.
pub open spec fn walked(start: FetchState, events: Seq<FetchEvent>) -> Option<FetchState>
    decreases events.len(),
{
    if events.len() == 0 {
        Some(start)
    } else {
        match walked(start, events.drop_last()) {
            Some(before) => {
                let (s, task) = advanced(before);
                match (task, events.last()) {
                    (Ok(FetchTask::List { .. }), FetchEvent::Listed { entries }) => Some(
                        FetchState { queue: entries, ..s },
                    ),
                    (
                        Ok(FetchTask::Download { .. }),
                        FetchEvent::Downloaded { len },
                    ) if s.total_bytes + len <= MAX_ARCHIVE_BYTES => Some(
                        FetchState { total_bytes: s.total_bytes + len, ..s },
                    ),
                    _ => None,
                }
            },
            None => None,
        }
    }
}

/// How many files were downloaded, and how long they are together.
pub struct Tally {
    pub downloads: int,
    pub bytes: int,
}

/// What the downloads among `events` add up to.
pub open spec fn tally(events: Seq<FetchEvent>) -> Tally
    decreases events.len(),
{
    if events.len() == 0 {
        Tally { downloads: 0, bytes: 0 }
    } else {
        let before = tally(events.drop_last());
        match events.last() {
            FetchEvent::Listed { .. } => before,
            FetchEvent::Downloaded { len } => Tally {
                downloads: before.downloads + 1,
                bytes: before.bytes + len,
            },
        }
    }
}

/// A file: its path, and where it is downloaded from.
pub type FileRef = (Seq<char>, Option<Seq<char>>);

/// The files among entries, in their order.
pub open spec fn files_of(entries: Seq<GithubContentEntry>) -> Seq<FileRef>
    decreases entries.len(),
{
    if entries.len() == 0 {
        Seq::empty()
    } else if is_file(entries[0]) {
        seq![(entries[0].path@, content(entries[0].download_url))] + files_of(entries.skip(1))
    } else {
        files_of(entries.skip(1))
    }
}

/// The paths of the directories among entries.
pub open spec fn dirs_of(entries: Seq<GithubContentEntry>) -> Multiset<Seq<char>>
    decreases entries.len(),
{
    if entries.len() == 0 {
        Multiset::empty()
    } else if is_dir(entries[0]) {
        dirs_of(entries.skip(1)).insert(entries[0].path@)
    } else {
        dirs_of(entries.skip(1))
    }
}

/// The files of the listings among `events`, in their order.
pub open spec fn files_listed(events: Seq<FetchEvent>) -> Seq<FileRef>
    decreases events.len(),
{
    if events.len() == 0 {
        Seq::empty()
    } else {
        let before = files_listed(events.drop_last());
        match events.last() {
            FetchEvent::Listed { entries } => before + files_of(entries),
            FetchEvent::Downloaded { .. } => before,
        }
    }
}

/// The paths of the directories of the listings among `events`.
pub open spec fn dirs_listed(events: Seq<FetchEvent>) -> Multiset<Seq<char>>
    decreases events.len(),
{
    if events.len() == 0 {
        Multiset::empty()
    } else {
        let before = dirs_listed(events.drop_last());
        match events.last() {
            FetchEvent::Listed { entries } => before.add(dirs_of(entries)),
            FetchEvent::Downloaded { .. } => before,
        }
    }
}

/// What the walk asked for that the last of `events` answers.
pub open spec fn last_task(start: FetchState, events: Seq<FetchEvent>) -> FetchTask {
    advanced(walked(start, events.drop_last())->Some_0).1->Ok_0
}

/// The downloads that were asked for, in their order.
pub open spec fn downloads_asked(start: FetchState, events: Seq<FetchEvent>) -> Seq<FileRef>
    decreases events.len(),
{
    if events.len() == 0 {
        Seq::empty()
    } else {
        let before = downloads_asked(start, events.drop_last());
        match last_task(start, events) {
            FetchTask::Download { path, url } => before.push((path, Some(url))),
            _ => before,
        }
    }
}

/// The paths whose listings were asked for.
pub open spec fn listings_asked(start: FetchState, events: Seq<FetchEvent>) -> Multiset<Seq<char>>
    decreases events.len(),
{
    if events.len() == 0 {
        Multiset::empty()
    } else {
        let before = listings_asked(start, events.drop_last());
        match last_task(start, events) {
            FetchTask::List { path } => before.insert(path),
            _ => before,
        }
    }
}

/// A step takes from what is left exactly what it asks for.
proof fn lemma_advanced(s: FetchState)
    requires
        s.files <= MAX_EXTRACTED_FILES,
    ensures
        ({
            let (after, task) = advanced(s);
            let dirs = s.pending.to_multiset().add(dirs_of(s.queue));
            let dirs_left = after.pending.to_multiset().add(dirs_of(after.queue));
            &&& after.total_bytes == s.total_bytes
            &&& after.files <= MAX_EXTRACTED_FILES
            &&& match task {
                Err(_) => true,
                Ok(FetchTask::List { path }) => {
                    &&& after.files == s.files
                    &&& after.queue.len() == 0
                    &&& files_of(s.queue).len() == 0
                    &&& dirs == dirs_left.insert(path)
                },
                Ok(FetchTask::Download { path, url }) => {
                    &&& after.files == s.files + 1
                    &&& files_of(s.queue) == seq![(path, Some(url))] + files_of(after.queue)
                    &&& dirs == dirs_left
                },
                Ok(FetchTask::Done) => {
                    &&& files_of(s.queue).len() == 0
                    &&& dirs == Multiset::<Seq<char>>::empty()
                },
            }
        }),
    decreases s.queue.len(),
{
    broadcast use vstd::seq_lib::group_to_multiset_ensures;

    if s.queue.len() > 0 {
        let entry = s.queue[0];
        let rest = FetchState { queue: s.queue.skip(1), ..s };
        if is_dir(entry) {
            let deferred = FetchState { pending: s.pending.push(entry.path@), ..rest };
            lemma_advanced(deferred);
            assert(s.pending.to_multiset().add(dirs_of(s.queue))
                =~= deferred.pending.to_multiset().add(dirs_of(deferred.queue)));
        } else if !is_file(entry) {
            lemma_advanced(rest);
        }
    } else if s.pending.len() > 0 {
        let (after, _task) = advanced(s);
        assert(s.pending =~= after.pending.push(s.pending.last()));
        assert(s.pending.to_multiset().add(dirs_of(s.queue)) =~= after.pending.to_multiset().add(
            dirs_of(after.queue),
        ).insert(s.pending.last()));
    } else {
        assert(s.pending.to_multiset() =~= Multiset::<Seq<char>>::empty());
    }
}

/// What was asked for and what is left make up what was listed.
proof fn lemma_walked(subpath: Seq<char>, events: Seq<FetchEvent>)
    ensures
        walked(fetch_start(subpath), events) matches Some(s) ==> {
            let start = fetch_start(subpath);
            &&& s.files == tally(events).downloads
            &&& s.files <= MAX_EXTRACTED_FILES
            &&& s.total_bytes == tally(events).bytes
            &&& s.total_bytes <= MAX_ARCHIVE_BYTES
            &&& downloads_asked(start, events) + files_of(s.queue) == files_listed(events)
            &&& listings_asked(start, events).add(s.pending.to_multiset().add(dirs_of(s.queue)))
                == dirs_listed(events).insert(subpath)
        },
    decreases events.len(),
{
    broadcast use vstd::seq_lib::group_to_multiset_ensures;

    let start = fetch_start(subpath);
    if events.len() == 0 {
        assert(start.pending =~= Seq::<Seq<char>>::empty().push(subpath));
        assert(Seq::<Seq<char>>::empty().to_multiset() =~= Multiset::<Seq<char>>::empty());
        assert(listings_asked(start, events).add(
            start.pending.to_multiset().add(dirs_of(start.queue)),
        ) =~= dirs_listed(events).insert(subpath));
    } else if walked(start, events) is Some {
        let before = walked(start, events.drop_last())->Some_0;
        let s = walked(start, events)->Some_0;
        lemma_walked(subpath, events.drop_last());
        lemma_advanced(before);
        assert(downloads_asked(start, events) + files_of(s.queue) =~= files_listed(events));
        let (after, _task) = advanced(before);
        let asked = listings_asked(start, events.drop_last());
        let dirs = before.pending.to_multiset().add(dirs_of(before.queue));
        let dirs_left = after.pending.to_multiset().add(dirs_of(after.queue));
        let now = listings_asked(start, events).add(s.pending.to_multiset().add(dirs_of(s.queue)));
        let known = dirs_listed(events.drop_last()).insert(subpath);
        assert forall|path: Seq<char>| #[trigger] now.count(path) == dirs_listed(events).insert(
            subpath,
        ).count(path) by {
            assert(asked.add(dirs).count(path) == known.count(path));
            match last_task(start, events) {
                FetchTask::List { path: asked_for } => {
                    assert(dirs.count(path) == dirs_left.insert(asked_for).count(path));
                },
                _ => {
                    assert(dirs.count(path) == dirs_left.count(path));
                },
            }
        }
        assert(now =~= dirs_listed(events).insert(subpath));
    }
}

/// A walk never fetches more files, nor more bytes, than the limits allow.
pub proof fn law_walk_keeps_the_limits(subpath: Seq<char>, events: Seq<FetchEvent>)
    ensures
        walked(fetch_start(subpath), events) is Some ==> {
            &&& tally(events).downloads <= MAX_EXTRACTED_FILES
            &&& tally(events).bytes <= MAX_ARCHIVE_BYTES
        },
{
    lemma_walked(subpath, events);
}

/// A walk that is done has left nothing out and added nothing: it asked for the download of each
/// file of the listings, in their order, and for the listing of the subpath and of each directory
/// of the listings.
pub proof fn law_finished_walk_is_complete(subpath: Seq<char>, events: Seq<FetchEvent>)
    ensures
        (walked(fetch_start(subpath), events) matches Some(s) && advanced(s).1 == Ok::<
            FetchTask,
            Seq<char>,
        >(FetchTask::Done)) ==> {
            &&& downloads_asked(fetch_start(subpath), events) == files_listed(events)
            &&& listings_asked(fetch_start(subpath), events) == dirs_listed(events).insert(subpath)
        },
{
    let start = fetch_start(subpath);
    lemma_walked(subpath, events);
    if let Some(s) = walked(start, events) {
        lemma_advanced(s);
        if advanced(s).1 == Ok::<FetchTask, Seq<char>>(FetchTask::Done) {
            assert(downloads_asked(start, events) + files_of(s.queue) =~= downloads_asked(
                start,
                events,
            ));
            assert(listings_asked(start, events).add(
                s.pending.to_multiset().add(dirs_of(s.queue)),
            ) =~= listings_asked(start, events));
        }
    }
}

} // verus!
