//! How files are fetched, said of the entries that were listed and of the outcomes of attempts.
use crate::error::AppError;
use crate::fetch::{advanced, FetchState, FetchStep, FetchTask, MirrorFallback, SubpathFetch};
use crate::github::GithubContentEntry;
use crate::skill::SkillSource;
use crate::text::contents;
use vstd::prelude::*;

verus! {

/// The paths of the directories among entries, in their order.
pub open spec fn dir_paths(entries: Seq<GithubContentEntry>) -> Seq<Seq<char>> {
    entries.filter(|e: GithubContentEntry| e.kind@ == "dir"@).map_values(
        |e: GithubContentEntry| e.path@,
    )
}

/// The first `k` entries are no files.
pub open spec fn no_file_before(entries: Seq<GithubContentEntry>, k: int) -> bool {
    &&& 0 <= k <= entries.len()
    &&& forall|i: int| 0 <= i < k ==> (#[trigger] entries[i]).kind@ != "file"@
}

/// What a walk holds once it has passed `k` entries that are no files.
spec fn passed(s: FetchState, k: int) -> FetchState {
    FetchState { pending: s.pending + dir_paths(s.queue.take(k)), queue: s.queue.skip(k), ..s }
}

proof fn lemma_passed(s: FetchState, k: int)
    requires
        no_file_before(s.queue, k),
    ensures
        advanced(s) == advanced(passed(s, k)),
    decreases k,
{
    reveal(Seq::filter);
    if k == 0 {
        assert(s.pending + dir_paths(s.queue.take(0)) =~= s.pending);
        assert(s.queue.skip(0) =~= s.queue);
    } else {
        lemma_passed(s, k - 1);
        let before = passed(s, k - 1);
        let entry = s.queue[k - 1];
        assert(before.queue[0] == entry);
        assert(before.queue.skip(1) =~= s.queue.skip(k));
        assert(s.queue.take(k).drop_last() =~= s.queue.take(k - 1));
        assert(s.queue.take(k).last() == entry);
        reveal_strlit("dir");
        reveal_strlit("file");
        if entry.kind@ == "dir"@ {
            assert(dir_paths(s.queue.take(k)) =~= dir_paths(s.queue.take(k - 1)).push(entry.path@));
            assert(before.pending.push(entry.path@) =~= passed(s, k).pending);
        } else {
            assert(dir_paths(s.queue.take(k)) =~= dir_paths(s.queue.take(k - 1)));
        }
    }
}

/// The step that a walk takes from `s` where the first file that is left has `k` entries before
/// it. The file is downloaded, and the directories before it are put off. Fewer than two thousand
/// files have to have been counted, what was fetched and the stated size have to stay within
/// sixty-four megabytes, and the file has to say where it is downloaded from.
pub open spec fn steps_on_file(
    s: FetchState,
    k: int,
    after: FetchState,
    r: Result<FetchStep, AppError>,
) -> bool {
    let entry = s.queue[k];
    let fits = entry.size is None || s.total_bytes + entry.size->Some_0 <= 67_108_864;
    let large = entry.size is Some && entry.size->Some_0 <= usize::MAX && s.total_bytes
        + entry.size->Some_0 > 67_108_864;
    &&& s.files < 2000 && fits && entry.download_url is Some ==> {
        &&& r matches Ok(FetchStep::Download { path, url })
        &&& path@ == entry.path@
        &&& url@ == entry.download_url->Some_0@
        &&& after.files == s.files + 1
        &&& after.total_bytes == s.total_bytes
        &&& after.queue == s.queue.skip(k + 1)
        &&& after.pending == s.pending + dir_paths(s.queue.take(k))
    }
    &&& s.files >= 2000 ==> (r matches Err(e) && e@ == "skill source contains too many files"@)
    &&& s.files < 2000 && large ==> (r matches Err(e) && e@ == "skill source is too large"@)
    &&& s.files < 2000 && fits && entry.download_url is None ==> (r matches Err(e) && e@
        == "GitHub file is missing a download URL"@)
}

/// A walk downloads the first file among the entries that are left, if there is one. Nothing
/// keeps it from being downloaded but the limits and a missing place to download it from.
pub proof fn law_first_file_is_downloaded(k: int)
    ensures
        forall|walk: &mut SubpathFetch, r: Result<FetchStep, AppError>| #[trigger]
            call_ensures(SubpathFetch::advance, (walk,), r) && no_file_before(walk@.queue, k) && k
                < walk@.queue.len() && walk@.queue[k].kind@ == "file"@ ==> steps_on_file(
                walk@,
                k,
                final(walk)@,
                r,
            ),
{
    assert forall|walk: &mut SubpathFetch, r: Result<FetchStep, AppError>| #[trigger]
        call_ensures(SubpathFetch::advance, (walk,), r) && no_file_before(walk@.queue, k) && k
            < walk@.queue.len() && walk@.queue[k].kind@ == "file"@ implies steps_on_file(
        walk@,
        k,
        final(walk)@,
        r,
    ) by {
        let s = walk@;
        lemma_passed(s, k);
        let p = passed(s, k);
        assert(p.queue[0] == s.queue[k]);
        assert(p.queue.skip(1) =~= s.queue.skip(k + 1));
        reveal_strlit("dir");
        reveal_strlit("file");
        assert("dir"@.len() == 3 && "file"@.len() == 4);
        match r {
            Ok(step) => {
                assert(advanced(s) == (final(walk)@, Ok::<FetchTask, Seq<char>>(step@)));
            },
            Err(e) => {
                assert(advanced(s) == (final(walk)@, Err::<FetchTask, Seq<char>>(e@)));
            },
        }
    }
}

/// The step that a walk takes from `s` where no file is left among the entries. The directory that
/// was put off last is listed next, the ones among the entries left included. Where none is left
/// either, the walk is done.
pub open spec fn steps_on_directory(
    s: FetchState,
    after: FetchState,
    r: Result<FetchStep, AppError>,
) -> bool {
    let left = s.pending + dir_paths(s.queue);
    &&& left.len() == 0 ==> (r matches Ok(FetchStep::Done) && after.pending.len() == 0)
    &&& left.len() > 0 ==> {
        &&& r matches Ok(FetchStep::List { path })
        &&& path@ == left[left.len() - 1]
        &&& after.pending == left.take(left.len() - 1)
    }
    &&& after.queue.len() == 0
    &&& after.files == s.files
    &&& after.total_bytes == s.total_bytes
}

/// Where no file is left to download, a walk lists what it put off last, and is done only where
/// nothing was put off.
pub proof fn law_directories_are_listed()
    ensures
        forall|walk: &mut SubpathFetch, r: Result<FetchStep, AppError>| #[trigger]
            call_ensures(SubpathFetch::advance, (walk,), r) && no_file_before(
                walk@.queue,
                walk@.queue.len() as int,
            ) ==> steps_on_directory(walk@, final(walk)@, r),
{
    assert forall|walk: &mut SubpathFetch, r: Result<FetchStep, AppError>| #[trigger]
        call_ensures(SubpathFetch::advance, (walk,), r) && no_file_before(
            walk@.queue,
            walk@.queue.len() as int,
        ) implies steps_on_directory(walk@, final(walk)@, r) by {
        let s = walk@;
        let n = s.queue.len() as int;
        lemma_passed(s, n);
        assert(s.queue.take(n) =~= s.queue);
        match r {
            Ok(step) => {
                assert(advanced(s) == (final(walk)@, Ok::<FetchTask, Seq<char>>(step@)));
            },
            Err(e) => {
                assert(advanced(s) == (final(walk)@, Err::<FetchTask, Seq<char>>(e@)));
            },
        }
        let left = s.pending + dir_paths(s.queue);
        if left.len() > 0 {
            assert(left.drop_last() =~= left.take(left.len() - 1));
        }
    }
}

/// A walk starts with the subpath of its source and has fetched nothing. A source without one has
/// no walk.
pub proof fn law_walk_starts_at_the_subpath(source: SkillSource, r: Result<SubpathFetch, AppError>)
    requires
        call_ensures(SubpathFetch::start, (&source,), r),
    ensures
        source.subpath is Some ==> {
            &&& r matches Ok(walk)
            &&& walk@.pending.len() == 1
            &&& walk@.pending[0] == source.subpath->Some_0@
            &&& walk@.queue.len() == 0
            &&& walk@.files == 0
            &&& walk@.total_bytes == 0
        },
        source.subpath is None ==> (r matches Err(e) && e@
            == "GitHub tree URL is missing a subpath"@),
{
}

/// The entries of a listing are all left to be taken, in their order, and nothing else changes.
pub proof fn law_listing_is_taken_whole(entries: Vec<GithubContentEntry>)
    ensures
        forall|walk: &mut SubpathFetch, r: ()| #[trigger]
            call_ensures(SubpathFetch::listed, (walk, entries), r) ==> {
                &&& final(walk)@.queue == entries@
                &&& final(walk)@.pending == walk@.pending
                &&& final(walk)@.files == walk@.files
                &&& final(walk)@.total_bytes == walk@.total_bytes
            },
{
}

/// A download counts with its whole length, and is refused only where it takes what was fetched
/// over sixty-four megabytes.
pub proof fn law_download_is_counted(len: usize)
    ensures
        forall|walk: &mut SubpathFetch, r: Result<(), AppError>| #[trigger]
            call_ensures(SubpathFetch::downloaded, (walk, len), r) ==> {
                &&& r is Ok <==> walk@.total_bytes + len <= 67_108_864
                &&& r is Ok ==> final(walk)@.total_bytes == walk@.total_bytes + len
                &&& r matches Err(e) ==> e@ == "skill source is too large"@
                &&& r is Err ==> final(walk)@.total_bytes == walk@.total_bytes
                &&& final(walk)@.files == walk@.files
                &&& final(walk)@.queue == walk@.queue
                &&& final(walk)@.pending == walk@.pending
            },
{
}

/// A fallback begins with the first of its places, and keeps them all in their order. Without any
/// place it fails.
pub proof fn law_first_place_is_tried_first(
    urls: Vec<String>,
    failure: &str,
    r: Result<MirrorFallback, AppError>,
    first: &str,
)
    requires
        call_ensures(MirrorFallback::new, (urls, failure), r),
        r matches Ok(m) ==> call_ensures(MirrorFallback::url, (&m,), first),
    ensures
        r is Ok <==> urls@.len() > 0,
        r is Ok ==> first@ == urls@[0]@,
        r matches Ok(m) ==> m@.urls.len() == urls@.len() && forall|i: int|
            0 <= i < urls@.len() ==> #[trigger] m@.urls[i] == urls@[i]@,
        r matches Err(e) ==> e@ == failure@,
{
    assert(contents(urls@).len() == urls@.len());
}

/// The next place is tried exactly after a failure that another place may mend, at a place that is
/// not the last. Otherwise the outcome of the attempt is the outcome of the whole.
pub proof fn law_next_place_is_tried<T>(outcome: Result<T, AppError>, falls_back: bool)
    ensures
        forall|m: &mut MirrorFallback, r: Option<Result<T, AppError>>| #[trigger]
            call_ensures(MirrorFallback::attempted::<T>, (m, outcome, falls_back), r) ==> {
                let again = outcome is Err && falls_back && m@.at < m@.urls.len() - 1;
                &&& again ==> r is None && final(m)@.at == m@.at + 1
                &&& !again ==> r == Some(outcome) && final(m)@.at == m@.at
                &&& final(m)@.urls == m@.urls
            },
{
}

/// The place whose turn it is is the one that is tried.
pub proof fn law_place_in_turn(m: MirrorFallback, r: &str)
    requires
        call_ensures(MirrorFallback::url, (&m,), r),
    ensures
        r@ == m@.urls[m@.at],
{
}

} // verus!
