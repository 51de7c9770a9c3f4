//! Skill sources on GitHub: the steps of a discovery, the URLs that are asked for, what the
//! replies hold, and where a file is put.
use crate::error::{outcome_text, AppError};
use crate::json::{json_string, json_string_at};
use crate::outside::{
    law_percent_encoded_is_url_safe, percent_encode, percent_encoded, url_safe,
};
use crate::skill::SkillSource;
use crate::text::{
    concat, contains_char, content, contents, join, joined, lemma_pieces_hold_no_separator,
    lemma_pieces_of_joined, pieces, same, split,
};
use vstd::prelude::*;

verus! {

/// The parts that make up a path that GitHub is asked for.
pub open spec fn encoded_parts(parts: Seq<Seq<char>>) -> Seq<Seq<char>>
    decreases parts.len(),
{
    if parts.len() == 0 {
        Seq::empty()
    } else {
        let before = encoded_parts(parts.drop_last());
        if parts.last().len() == 0 {
            before
        } else {
            before.push(percent_encoded(parts.last()))
        }
    }
}

/// A path with each of its parts percent-encoded.
pub open spec fn encoded_path(path: Seq<char>) -> Seq<char> {
    joined(encoded_parts(pieces(path, '/')), "/"@)
}

/// A path with each of its parts percent-encoded; empty parts are left out.
pub fn encode_github_path(path: &str) -> (r: String)
    ensures
        r@ == encoded_path(path@),
{
    let parts = split(path, '/');
    let ghost all = contents(parts@);
    let mut kept: Vec<String> = Vec::new();
    let mut i: usize = 0;
    assert(all.take(0) =~= Seq::<Seq<char>>::empty());
    assert(contents(kept@) =~= Seq::<Seq<char>>::empty());
    while i < parts.len()
        invariant
            i <= parts.len(),
            all == contents(parts@),
            contents(kept@) == encoded_parts(all.take(i as int)),
        decreases parts.len() - i,
    {
        let ghost before = kept@;
        assert(all.take(i + 1).drop_last() =~= all.take(i as int));
        assert(all[i as int] == parts@[i as int]@);
        if !parts[i].as_str().is_empty() {
            let part = percent_encode(parts[i].as_str());
            let ghost encoded = part@;
            kept.push(part);
            assert(contents(kept@) =~= contents(before).push(encoded));
        }
        i = i + 1;
    }
    assert(all.take(i as int) =~= all);
    join(&kept, "/")
}

/// The archive of a repository at a reference.
pub open spec fn archive_location(owner: Seq<char>, repo: Seq<char>, reference: Seq<char>) -> Seq<
    char,
> {
    "https://codeload.github.com/"@ + owner + "/"@ + repo + "/tar.gz/"@ + percent_encoded(reference)
}

/// The description of a repository.
pub open spec fn repository_location(owner: Seq<char>, repo: Seq<char>) -> Seq<char> {
    "https://api.github.com/repos/"@ + owner + "/"@ + repo
}

/// The listing of a path in a repository at a reference.
pub open spec fn contents_location(
    owner: Seq<char>,
    repo: Seq<char>,
    path: Seq<char>,
    reference: Seq<char>,
) -> Seq<char> {
    repository_location(owner, repo) + "/contents/"@ + encoded_path(path) + "?ref="@
        + percent_encoded(reference)
}

/// Where the archive of a repository is downloaded from.
pub fn archive_url(owner: &str, repo: &str, reference: &str) -> (r: String)
    ensures
        r@ == archive_location(owner@, repo@, reference@),
{
    let mut out = concat("https://codeload.github.com/", owner);
    out.append("/");
    out.append(repo);
    out.append("/tar.gz/");
    let encoded = percent_encode(reference);
    out.append(encoded.as_str());
    out
}

/// Where the default branch of a repository is looked up.
pub fn repository_url(owner: &str, repo: &str) -> (r: String)
    ensures
        r@ == repository_location(owner@, repo@),
{
    let mut out = concat("https://api.github.com/repos/", owner);
    out.append("/");
    out.append(repo);
    out
}

/// Where the entries of a path in the repository of a source are listed.
pub fn contents_url(source: &SkillSource, reference: &str, path: &str) -> (r: String)
    ensures
        r@ == contents_location(source.owner@, source.repo@, path@, reference@),
{
    let mut out = repository_url(source.owner.as_str(), source.repo.as_str());
    out.append("/contents/");
    let encoded_path = encode_github_path(path);
    out.append(encoded_path.as_str());
    out.append("?ref=");
    let encoded_reference = percent_encode(reference);
    out.append(encoded_reference.as_str());
    out
}

/// What is done next to discover the skills of a source.
#[derive(Debug, Clone, PartialEq, Eq)]
pub enum DiscoveryStep {
    /// Look up the default branch of the repository.
    LookUpBranch { url: String },
    /// Fetch the files under the subpath of the source, and nothing else.
    FetchSubpath { reference: String },
    /// Download the whole repository.
    FetchArchive { reference: String, url: String },
}

/// What is done next to discover the skills of a source. Its reference is the one it names, or
/// else the default branch of the repository: `branch`, once that was looked up.
pub fn discover_skill_source(source: &SkillSource, branch: Option<String>) -> (r: DiscoveryStep)
    ensures
        match (content(source.reference), content(branch)) {
            (None, None) => r matches DiscoveryStep::LookUpBranch { url } && url@
                == repository_location(source.owner@, source.repo@),
            (named, looked_up) => {
                let reference = match named {
                    Some(text) => text,
                    None => looked_up->Some_0,
                };
                match source.subpath {
                    Some(_) => r matches DiscoveryStep::FetchSubpath { reference: at } && at@
                        == reference,
                    None => r matches DiscoveryStep::FetchArchive { reference: at, url } && at@
                        == reference && url@ == archive_location(
                        source.owner@,
                        source.repo@,
                        reference,
                    ),
                }
            },
        },
{
    let reference = match (&source.reference, branch) {
        (Some(named), _) => named.clone(),
        (None, Some(looked_up)) => looked_up,
        (None, None) => {
            return DiscoveryStep::LookUpBranch {
                url: repository_url(source.owner.as_str(), source.repo.as_str()),
            };
        },
    };
    if source.subpath.is_some() {
        return DiscoveryStep::FetchSubpath { reference };
    }
    let url = archive_url(source.owner.as_str(), source.repo.as_str(), reference.as_str());
    DiscoveryStep::FetchArchive { reference, url }
}

/// What came back for a request. `B` is what a body is read as.
#[derive(Debug, Clone, PartialEq, Eq)]
pub enum Reply<B> {
    /// The client could not be made.
    NoClient(String),
    /// The request could not be sent.
    NotSent(String),
    /// The status is no success.
    Refused(String),
    /// The body could not be read.
    Unreadable(String),
    Body(B),
}

/// The default branch in the description of a repository, or why there is none.
pub open spec fn branch_outcome(field: Option<Seq<char>>) -> Result<Seq<char>, Seq<char>> {
    match field {
        Some(branch) if branch.len() > 0 => Ok(branch),
        _ => Err("GitHub response did not include a default branch"@),
    }
}

/// The default branch where the description of a repository has it in `field`.
pub fn present_branch(field: Option<String>) -> (r: Result<String, AppError>)
    ensures
        outcome_text(r) == branch_outcome(content(field)),
{
    if let Some(branch) = field {
        if !branch.as_str().is_empty() {
            return Ok(branch);
        }
    }
    Err(AppError::message("GitHub response did not include a default branch"))
}

/// The error that says `prefix` and then `cause`.
fn caused(prefix: &str, cause: &str) -> (r: AppError)
    ensures
        r@ == prefix@ + cause@,
{
    AppError { message: concat(prefix, cause) }
}

/// The default branch that a reply names.
pub fn default_branch_once(reply: &Reply<String>) -> (r: Result<String, AppError>)
    ensures
        outcome_text(r) == match reply {
            Reply::NoClient(e) => Err("http client: "@ + e@),
            Reply::NotSent(e) => Err("skill metadata request: "@ + e@),
            Reply::Refused(status) => Err("GitHub repository lookup failed: "@ + status@),
            Reply::Unreadable(e) => Err("invalid GitHub response: "@ + e@),
            Reply::Body(body) => match json_string_at(body@, "/default_branch"@) {
                Ok(field) => branch_outcome(field),
                Err(e) => Err("invalid GitHub response: "@ + e),
            },
        },
{
    match reply {
        Reply::NoClient(e) => Err(caused("http client: ", e.as_str())),
        Reply::NotSent(e) => Err(caused("skill metadata request: ", e.as_str())),
        Reply::Refused(status) => Err(caused("GitHub repository lookup failed: ", status.as_str())),
        Reply::Unreadable(e) => Err(caused("invalid GitHub response: ", e.as_str())),
        Reply::Body(body) => match json_string(body.as_str(), "/default_branch") {
            Ok(field) => present_branch(field),
            Err(e) => Err(caused("invalid GitHub response: ", e.as_str())),
        },
    }
}

/// An entry of a listing.
#[derive(Debug, Clone, PartialEq, Eq)]
pub struct GithubContentEntry {
    pub path: String,
    pub kind: String,
    pub download_url: Option<String>,
    pub size: Option<u64>,
}

/// A listing: GitHub answers with a single entry for the path of a file.
#[derive(Debug, Clone, PartialEq, Eq)]
pub enum GithubContentsResponse {
    Entry(GithubContentEntry),
    Entries(Vec<GithubContentEntry>),
}

/// The entries of a listing.
pub fn github_contents(response: GithubContentsResponse) -> (r: Vec<GithubContentEntry>)
    ensures
        match response {
            GithubContentsResponse::Entry(entry) => r@ == seq![entry],
            GithubContentsResponse::Entries(entries) => r == entries,
        },
{
    match response {
        GithubContentsResponse::Entry(entry) => {
            let mut out: Vec<GithubContentEntry> = Vec::new();
            out.push(entry);
            assert(out@ =~= seq![entry]);
            out
        },
        GithubContentsResponse::Entries(entries) => entries,
    }
}

/// The listing that a reply holds.
pub fn fetch_github_json_once(reply: Reply<GithubContentsResponse>) -> (r: Result<
    GithubContentsResponse,
    AppError,
>)
    ensures
        match reply {
            Reply::NoClient(e) => r matches Err(error) && error@ == "http client: "@ + e@,
            Reply::NotSent(e) => r matches Err(error) && error@ == "skill contents request: "@ + e@,
            Reply::Refused(status) => r matches Err(error) && error@
                == "GitHub contents request failed: "@ + status@,
            Reply::Unreadable(e) => r matches Err(error) && error@
                == "invalid GitHub contents response: "@ + e@,
            Reply::Body(listing) => r == Ok::<GithubContentsResponse, AppError>(listing),
        },
{
    match reply {
        Reply::NoClient(e) => Err(caused("http client: ", e.as_str())),
        Reply::NotSent(e) => Err(caused("skill contents request: ", e.as_str())),
        Reply::Refused(status) => Err(caused("GitHub contents request failed: ", status.as_str())),
        Reply::Unreadable(e) => Err(caused("invalid GitHub contents response: ", e.as_str())),
        Reply::Body(listing) => Ok(listing),
    }
}

/// The path of a file from GitHub inside the staging directory, or why there is none.
pub open spec fn sanitized(path: Seq<char>) -> Result<Seq<char>, Seq<char>> {
    let parts = pieces(path, '/');
    if exists|i: int| 0 <= i < parts.len() && escaping(#[trigger] parts[i]) {
        Err("GitHub path traversal rejected"@)
    } else if kept_parts(parts).len() == 0 {
        Err("GitHub path is empty"@)
    } else {
        Ok(joined(kept_parts(parts), "/"@))
    }
}

/// A part of a path that could lead out of the staging directory.
pub open spec fn escaping(part: Seq<char>) -> bool {
    part == ".."@ || part.contains('\\')
}

/// The parts of a path that name something.
pub open spec fn kept_parts(parts: Seq<Seq<char>>) -> Seq<Seq<char>>
    decreases parts.len(),
{
    if parts.len() == 0 {
        Seq::empty()
    } else {
        let before = kept_parts(parts.drop_last());
        if parts.last().len() == 0 || parts.last() == "."@ {
            before
        } else {
            before.push(parts.last())
        }
    }
}

/// The path of a file from GitHub inside the staging directory: empty parts and `.` are left
/// out, and a path that leads out of the directory or names nothing is rejected.
pub fn sanitize_github_path(path: &str) -> (r: Result<String, AppError>)
    ensures
        outcome_text(r) == sanitized(path@),
{
    let parts = split(path, '/');
    let ghost all = contents(parts@);
    let mut kept: Vec<String> = Vec::new();
    let mut i: usize = 0;
    assert(all.take(0) =~= Seq::<Seq<char>>::empty());
    assert(contents(kept@) =~= Seq::<Seq<char>>::empty());
    proof {
        reveal_strlit(".");
        reveal_strlit("..");
    }
    assert(!"."@.contains('\\')) by {
        assert("."@ =~= seq!['.']);
    }
    while i < parts.len()
        invariant
            i <= parts.len(),
            all == contents(parts@),
            all == pieces(path@, '/'),
            contents(kept@) == kept_parts(all.take(i as int)),
            forall|j: int| 0 <= j < i ==> !escaping(#[trigger] all[j]),
            !"."@.contains('\\'),
            "."@.len() == 1,
            ".."@.len() == 2,
        decreases parts.len() - i,
    {
        let ghost before = kept@;
        assert(all.take(i + 1).drop_last() =~= all.take(i as int));
        assert(all[i as int] == parts@[i as int]@);
        let part = parts[i].as_str();
        if !(part.is_empty() || same(part, ".")) {
            if same(part, "..") || contains_char(part, '\\') {
                assert(escaping(all[i as int]));
                return Err(AppError::message("GitHub path traversal rejected"));
            }
            kept.push(parts[i].clone());
            assert(contents(kept@) =~= contents(before).push(all[i as int]));
        }
        i = i + 1;
    }
    assert(all.take(i as int) =~= all);
    if kept.len() == 0 {
        return Err(AppError::message("GitHub path is empty"));
    }
    Ok(join(&kept, "/"))
}

proof fn lemma_kept_parts(parts: Seq<Seq<char>>)
    ensures
        forall|i: int| 0 <= i < kept_parts(parts).len() ==> {
            let part = #[trigger] kept_parts(parts)[i];
            &&& parts.contains(part)
            &&& part.len() > 0
            &&& part != "."@
        },
        (forall|i: int| 0 <= i < parts.len() ==> (#[trigger] parts[i]).len() > 0 && parts[i] != "."@)
            ==> kept_parts(parts) == parts,
    decreases parts.len(),
{
    if parts.len() > 0 {
        let shorter = parts.drop_last();
        let before = kept_parts(shorter);
        lemma_kept_parts(shorter);
        assert forall|i: int| 0 <= i < kept_parts(parts).len() implies {
            let part = #[trigger] kept_parts(parts)[i];
            &&& parts.contains(part)
            &&& part.len() > 0
            &&& part != "."@
        } by {
            if i < before.len() {
                let part = before[i];
                assert(kept_parts(parts)[i] == part);
                let j = choose|j: int| 0 <= j < shorter.len() && shorter[j] == part;
                assert(parts[j] == part);
            } else {
                assert(parts[parts.len() - 1] == parts.last());
            }
        }
        if forall|i: int|
            0 <= i < parts.len() ==> (#[trigger] parts[i]).len() > 0 && parts[i] != "."@ {
            assert forall|i: int| 0 <= i < shorter.len() implies (#[trigger] shorter[i]).len() > 0
                && shorter[i] != "."@ by {
                assert(shorter[i] == parts[i]);
            }
            assert(parts[parts.len() - 1] == parts.last());
            assert(parts =~= shorter.push(parts.last()));
        }
    }
}

/// A file from GitHub stays inside the staging directory: each part of its path there names
/// something below the part in front of it, and the path does not start at the root.
pub proof fn law_sanitized_path_stays_inside(path: Seq<char>)
    ensures
        sanitized(path) matches Ok(relative) ==> {
            let parts = pieces(relative, '/');
            &&& relative.len() > 0
            &&& relative[0] != '/'
            &&& forall|i: int| 0 <= i < parts.len() ==> {
                let part = #[trigger] parts[i];
                &&& part.len() > 0
                &&& part != "."@
                &&& part != ".."@
                &&& !part.contains('\\')
            }
        },
{
    if let Ok(relative) = sanitized(path) {
        lemma_parts_of_sanitized(path);
        let parts = pieces(relative, '/');
        let kept = kept_parts(pieces(path, '/'));
        reveal_strlit("/");
        lemma_joined_starts_with_first(kept, "/"@);
        let first = kept[0];
        assert(relative[0] == first[0]);
        lemma_pieces_hold_no_separator(relative, '/');
        assert(parts[0] == first);
        if first[0] == '/' {
            assert(parts[0].contains('/'));
        }
    }
}

proof fn lemma_joined_starts_with_first(parts: Seq<Seq<char>>, sep: Seq<char>)
    requires
        parts.len() > 0,
    ensures
        parts[0].is_prefix_of(joined(parts, sep)),
    decreases parts.len(),
{
    if parts.len() > 1 {
        lemma_joined_starts_with_first(parts.drop_last(), sep);
        assert(parts.drop_last()[0] == parts[0]);
    }
}

/// The parts of a sanitized path are those that were kept.
proof fn lemma_parts_of_sanitized(path: Seq<char>)
    requires
        sanitized(path) is Ok,
    ensures
        pieces(sanitized(path)->Ok_0, '/') == kept_parts(pieces(path, '/')),
        forall|i: int| 0 <= i < kept_parts(pieces(path, '/')).len() ==> {
            let part = #[trigger] kept_parts(pieces(path, '/'))[i];
            &&& part.len() > 0
            &&& part != "."@
            &&& !escaping(part)
        },
{
    let parts = pieces(path, '/');
    let kept = kept_parts(parts);
    lemma_kept_parts(parts);
    lemma_pieces_hold_no_separator(path, '/');
    assert forall|i: int| 0 <= i < kept.len() implies {
        let part = #[trigger] kept[i];
        &&& part.len() > 0
        &&& part != "."@
        &&& !escaping(part)
        &&& !part.contains('/')
    } by {
        let part = kept[i];
        let j = choose|j: int| 0 <= j < parts.len() && parts[j] == part;
        assert(parts.contains(part));
        assert(!escaping(parts[j]));
        assert(!parts[j].contains('/'));
    }
    reveal_strlit("/");
    assert("/"@ =~= seq!['/']);
    lemma_pieces_of_joined(kept, '/');
}

/// Sanitizing a path again changes nothing.
pub proof fn law_sanitizing_again_changes_nothing(path: Seq<char>)
    ensures
        sanitized(path) matches Ok(relative) ==> sanitized(relative) == Ok::<Seq<char>, Seq<char>>(
            relative,
        ),
{
    if let Ok(relative) = sanitized(path) {
        lemma_parts_of_sanitized(path);
        lemma_kept_parts(kept_parts(pieces(path, '/')));
    }
}

proof fn lemma_encoded_parts(parts: Seq<Seq<char>>)
    ensures
        forall|i: int| 0 <= i < encoded_parts(parts).len() ==> exists|j: int|
            0 <= j < parts.len() && parts[j].len() > 0 && #[trigger] encoded_parts(parts)[i]
                == percent_encoded(#[trigger] parts[j]),
    decreases parts.len(),
{
    if parts.len() > 0 {
        let shorter = parts.drop_last();
        let before = encoded_parts(shorter);
        lemma_encoded_parts(shorter);
        assert forall|i: int| 0 <= i < encoded_parts(parts).len() implies exists|j: int|
            0 <= j < parts.len() && parts[j].len() > 0 && #[trigger] encoded_parts(parts)[i]
                == percent_encoded(#[trigger] parts[j]) by {
            if i < before.len() {
                assert(encoded_parts(parts)[i] == before[i]);
                let j = choose|j: int|
                    0 <= j < shorter.len() && shorter[j].len() > 0 && before[i] == percent_encoded(
                        #[trigger] shorter[j],
                    );
                assert(parts[j] == shorter[j]);
            } else {
                assert(parts[parts.len() - 1] == parts.last());
            }
        }
    }
}

/// What follows the host of a listing's URL keeps its shape whatever the path and the reference
/// are: an encoded path has as many parts as the path has parts that are not empty, each of them
/// the percent-encoded part, and no character in it ends the path of a URL.
pub proof fn law_encoded_path_keeps_its_parts(path: Seq<char>)
    ensures
        encoded_parts(pieces(path, '/')).len() > 0 ==> pieces(encoded_path(path), '/')
            == encoded_parts(pieces(path, '/')),
        forall|i: int| 0 <= i < encoded_path(path).len() ==> url_safe(#[trigger] encoded_path(path)[i])
            || encoded_path(path)[i] == '/',
{
    let parts = pieces(path, '/');
    let encoded = encoded_parts(parts);
    lemma_encoded_parts(parts);
    assert forall|i: int, k: int| 0 <= i < encoded.len() && 0 <= k < encoded[i].len() implies url_safe(
        #[trigger] encoded[i][k],
    ) by {
        let j = choose|j: int|
            0 <= j < parts.len() && parts[j].len() > 0 && encoded[i] == percent_encoded(
                #[trigger] parts[j],
            );
        law_percent_encoded_is_url_safe(parts[j]);
    }
    reveal_strlit("/");
    assert("/"@ =~= seq!['/']);
    if encoded.len() > 0 {
        assert forall|i: int| 0 <= i < encoded.len() implies !(#[trigger] encoded[i]).contains('/') by {
            if encoded[i].contains('/') {
                let k = choose|k: int| 0 <= k < encoded[i].len() && encoded[i][k] == '/';
                assert(url_safe(encoded[i][k]));
            }
        }
        lemma_pieces_of_joined(encoded, '/');
    }
    lemma_joined_of_url_safe(encoded);
}

proof fn lemma_joined_of_url_safe(parts: Seq<Seq<char>>)
    requires
        forall|i: int, k: int| 0 <= i < parts.len() && 0 <= k < parts[i].len() ==> url_safe(
            #[trigger] parts[i][k],
        ),
        "/"@ == seq!['/'],
    ensures
        forall|i: int| 0 <= i < joined(parts, "/"@).len() ==> url_safe(
            #[trigger] joined(parts, "/"@)[i],
        ) || joined(parts, "/"@)[i] == '/',
    decreases parts.len(),
{
    if parts.len() > 1 {
        let shorter = parts.drop_last();
        assert forall|i: int, k: int| 0 <= i < shorter.len() && 0 <= k < shorter[i].len() implies url_safe(
            #[trigger] shorter[i][k],
        ) by {
            assert(shorter[i][k] == parts[i][k]);
        }
        lemma_joined_of_url_safe(shorter);
        let head = joined(shorter, "/"@);
        let whole = joined(parts, "/"@);
        assert forall|i: int| 0 <= i < whole.len() implies url_safe(#[trigger] whole[i]) || whole[i]
            == '/' by {
            if i < head.len() {
                assert(whole[i] == head[i]);
            } else if i > head.len() {
                assert(whole[i] == parts[parts.len() - 1][i - head.len() - 1]);
            }
        }
    } else if parts.len() == 1 {
        let whole = joined(parts, "/"@);
        assert forall|i: int| 0 <= i < whole.len() implies url_safe(#[trigger] whole[i]) || whole[i]
            == '/' by {
            assert(whole[i] == parts[0][i]);
        }
    }
}

} // verus!
