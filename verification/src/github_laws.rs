//! What is asked of GitHub and what is made of its replies, said of the names, paths and replies.
use crate::error::AppError;
use crate::github::{
    archive_url, contents_url, default_branch_once, discover_skill_source, encode_github_path,
    encoded_parts, fetch_github_json_once, github_contents, kept_parts, present_branch,
    repository_url, sanitize_github_path, DiscoveryStep, GithubContentEntry,
    GithubContentsResponse, Reply,
};
use crate::json::json_string_at;
use crate::outside::percent_encoded;
use crate::skill::SkillSource;
use crate::text::{contents, join, split};
use vstd::prelude::*;

verus! {

/// A part of a path that names something.
pub open spec fn names_something() -> spec_fn(Seq<char>) -> bool {
    |part: Seq<char>| part.len() > 0 && part != "."@
}

/// A part of a path that is not empty.
pub open spec fn holds_something() -> spec_fn(Seq<char>) -> bool {
    |part: Seq<char>| part.len() > 0
}

proof fn lemma_kept_parts_are_filtered(parts: Seq<Seq<char>>)
    ensures
        kept_parts(parts) == parts.filter(names_something()),
    decreases parts.len(),
{
    reveal(Seq::filter);
    if parts.len() > 0 {
        lemma_kept_parts_are_filtered(parts.drop_last());
    }
}

proof fn lemma_encoded_parts_are_filtered(parts: Seq<Seq<char>>)
    ensures
        encoded_parts(parts) == parts.filter(holds_something()).map_values(
            |part: Seq<char>| percent_encoded(part),
        ),
    decreases parts.len(),
{
    reveal(Seq::filter);
    let kept = parts.filter(holds_something());
    let encoded = kept.map_values(|part: Seq<char>| percent_encoded(part));
    if parts.len() > 0 {
        let before = parts.drop_last().filter(holds_something());
        lemma_encoded_parts_are_filtered(parts.drop_last());
        if parts.last().len() > 0 {
            assert(kept == before.push(parts.last()));
            assert(encoded =~= encoded_parts(parts.drop_last()).push(
                percent_encoded(parts.last()),
            ));
        }
    } else {
        assert(encoded =~= Seq::<Seq<char>>::empty());
    }
}

/// A path is rejected exactly if a part of it is `..` or holds a backslash, or if no part of it
/// names anything. Otherwise it keeps every part that names something, in its order.
pub proof fn law_sanitized_path(
    path: &str,
    parts: Vec<String>,
    kept: Vec<String>,
    whole: String,
    r: Result<String, AppError>,
)
    requires
        call_ensures(sanitize_github_path, (path,), r),
        call_ensures(split, (path, '/'), parts),
        contents(kept@) == contents(parts@).filter(names_something()),
        call_ensures(join, (&kept, "/"), whole),
    ensures
        ({
            let rejected = exists|i: int|
                0 <= i < parts@.len() && ((#[trigger] parts@[i])@ == ".."@ || parts@[i]@.contains(
                    '\\',
                ));
            &&& rejected ==> (r matches Err(e) && e@ == "GitHub path traversal rejected"@)
            &&& !rejected && kept@.len() == 0 ==> (r matches Err(e) && e@ == "GitHub path is empty"@)
            &&& !rejected && kept@.len() > 0 ==> (r matches Ok(relative) && relative@ == whole@)
        }),
{
    let all = contents(parts@);
    lemma_kept_parts_are_filtered(all);
    assert(contents(kept@).len() == kept@.len());
    if exists|i: int|
        0 <= i < parts@.len() && ((#[trigger] parts@[i])@ == ".."@ || parts@[i]@.contains('\\')) {
        let i = choose|i: int|
            0 <= i < parts@.len() && ((#[trigger] parts@[i])@ == ".."@ || parts@[i]@.contains('\\'));
        assert(crate::github::escaping(all[i]));
    } else {
        assert forall|i: int| 0 <= i < all.len() implies !crate::github::escaping(
            #[trigger] all[i],
        ) by {
            assert(all[i] == parts@[i]@);
        }
    }
}

/// An encoded path has every part of the path that is not empty, percent-encoded, in its order.
pub proof fn law_encoded_path(
    path: &str,
    parts: Vec<String>,
    encoded: Vec<String>,
    whole: String,
    r: String,
)
    requires
        call_ensures(encode_github_path, (path,), r),
        call_ensures(split, (path, '/'), parts),
        contents(encoded@) == contents(parts@).filter(holds_something()).map_values(
            |part: Seq<char>| percent_encoded(part),
        ),
        call_ensures(join, (&encoded, "/"), whole),
    ensures
        r@ == whole@,
{
    lemma_encoded_parts_are_filtered(contents(parts@));
}

/// The addresses name the owner, the repository, the path and the reference, each in its place.
/// The path and the reference are percent-encoded.
pub proof fn law_addresses(
    source: SkillSource,
    owner: &str,
    repo: &str,
    reference: &str,
    path: &str,
    archive: String,
    repository: String,
    listing: String,
    encoded: String,
)
    requires
        source.owner@ == owner@,
        source.repo@ == repo@,
        call_ensures(archive_url, (owner, repo, reference), archive),
        call_ensures(repository_url, (owner, repo), repository),
        call_ensures(contents_url, (&source, reference, path), listing),
        call_ensures(encode_github_path, (path,), encoded),
    ensures
        archive@ == "https://codeload.github.com/"@ + owner@ + "/"@ + repo@ + "/tar.gz/"@
            + percent_encoded(reference@),
        repository@ == "https://api.github.com/repos/"@ + owner@ + "/"@ + repo@,
        listing@ == "https://api.github.com/repos/"@ + owner@ + "/"@ + repo@ + "/contents/"@
            + encoded@ + "?ref="@ + percent_encoded(reference@),
{
}

/// The branch is looked up exactly where the source names no reference and none was looked up. A
/// reference of the source goes before the one that was looked up. A source with a subpath has
/// only that fetched, any other the archive of its repository at the reference.
pub proof fn law_discovery_steps(
    source: SkillSource,
    branch: Option<String>,
    r: DiscoveryStep,
    owner: &str,
    repo: &str,
    reference: &str,
    repository: String,
    archive: String,
)
    requires
        call_ensures(discover_skill_source, (&source, branch), r),
        source.owner@ == owner@,
        source.repo@ == repo@,
        source.reference matches Some(named) ==> reference@ == named@,
        source.reference is None && branch is Some ==> reference@ == branch->Some_0@,
        call_ensures(repository_url, (owner, repo), repository),
        call_ensures(archive_url, (owner, repo, reference), archive),
    ensures
        ({
            let known = source.reference is Some || branch is Some;
            &&& !known ==> (r matches DiscoveryStep::LookUpBranch { url } && url@ == repository@)
            &&& known && source.subpath is Some ==> (r matches DiscoveryStep::FetchSubpath {
                reference: at,
            } && at@ == reference@)
            &&& known && source.subpath is None ==> (r matches DiscoveryStep::FetchArchive {
                reference: at,
                url,
            } && at@ == reference@ && url@ == archive@)
        }),
{
}

/// A field that is present and not empty is the default branch, as it stands.
pub proof fn law_default_branch(field: Option<String>, r: Result<String, AppError>)
    requires
        call_ensures(present_branch, (field,), r),
    ensures
        ({
            let present = field is Some && field->Some_0@.len() > 0;
            &&& present ==> (r matches Ok(branch) && branch@ == field->Some_0@)
            &&& !present ==> (r matches Err(e) && e@
                == "GitHub response did not include a default branch"@)
        }),
{
}

/// The default branch is a field at the top of the description of a repository. Every other reply
/// is an error with its own text.
pub proof fn law_branch_reply(reply: Reply<String>, r: Result<String, AppError>)
    requires
        call_ensures(default_branch_once, (&reply,), r),
    ensures
        match reply {
            Reply::NoClient(e) => r matches Err(error) && error@ == "http client: "@ + e@,
            Reply::NotSent(e) => r matches Err(error) && error@ == "skill metadata request: "@ + e@,
            Reply::Refused(status) => r matches Err(error) && error@
                == "GitHub repository lookup failed: "@ + status@,
            Reply::Unreadable(e) => r matches Err(error) && error@ == "invalid GitHub response: "@
                + e@,
            Reply::Body(body) => match json_string_at(body@, "/default_branch"@) {
                Err(e) => r matches Err(error) && error@ == "invalid GitHub response: "@ + e,
                Ok(field) => {
                    &&& field is Some && field->Some_0.len() > 0 ==> (r matches Ok(branch)
                        && branch@ == field->Some_0)
                    &&& field is None || field->Some_0.len() == 0 ==> (r matches Err(error)
                        && error@ == "GitHub response did not include a default branch"@)
                },
            },
        },
{
}

/// A listing is what the body of a reply holds, and a single entry is a listing of one. Every other
/// reply is an error with its own text.
pub proof fn law_listing_reply(
    reply: Reply<GithubContentsResponse>,
    r: Result<GithubContentsResponse, AppError>,
    entries: Vec<GithubContentEntry>,
)
    requires
        call_ensures(fetch_github_json_once, (reply,), r),
        r matches Ok(listing) ==> call_ensures(github_contents, (listing,), entries),
    ensures
        match reply {
            Reply::NoClient(e) => r matches Err(error) && error@ == "http client: "@ + e@,
            Reply::NotSent(e) => r matches Err(error) && error@ == "skill contents request: "@ + e@,
            Reply::Refused(status) => r matches Err(error) && error@
                == "GitHub contents request failed: "@ + status@,
            Reply::Unreadable(e) => r matches Err(error) && error@
                == "invalid GitHub contents response: "@ + e@,
            Reply::Body(GithubContentsResponse::Entry(entry)) => r is Ok && entries@.len() == 1
                && entries@[0] == entry,
            Reply::Body(GithubContentsResponse::Entries(all)) => r is Ok && entries@ == all@,
        },
{
}

} // verus!
