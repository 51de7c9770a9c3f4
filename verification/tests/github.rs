use agentero::error::AppError;
use agentero::fetch::{FetchStep, MirrorFallback, SubpathFetch};
use agentero::github::{
    archive_url, contents_url, default_branch_once, discover_skill_source, encode_github_path,
    fetch_github_json_once, github_contents, present_branch, repository_url, sanitize_github_path,
    DiscoveryStep, GithubContentEntry, GithubContentsResponse, Reply,
};
use agentero::skill::{SkillSource, MAX_ARCHIVE_BYTES, MAX_EXTRACTED_FILES};

fn source(reference: Option<&str>, subpath: Option<&str>) -> SkillSource {
    SkillSource {
        owner: "acme".to_string(),
        repo: "tools".to_string(),
        reference: reference.map(|s| s.to_string()),
        subpath: subpath.map(|s| s.to_string()),
        skill_names: Vec::new(),
        source: "https://github.com/acme/tools".to_string(),
    }
}

fn entry(path: &str, kind: &str, size: Option<u64>) -> GithubContentEntry {
    GithubContentEntry {
        path: path.to_string(),
        kind: kind.to_string(),
        download_url: Some(format!("https://raw/{path}")),
        size,
    }
}

#[test]
fn paths_are_percent_encoded_part_by_part() {
    assert_eq!(encode_github_path("skills/a b"), "skills/a%20b");
    assert_eq!(encode_github_path("/a//b/"), "a/b");
    assert_eq!(encode_github_path("研/a?b#c%"), "%E7%A0%94/a%3Fb%23c%25");
    assert_eq!(encode_github_path("A-z_0.9~"), "A-z_0.9~");
    assert_eq!(encode_github_path("//"), "");
    assert_eq!(encode_github_path(""), "");
}

#[test]
fn urls_hold_the_source_and_the_reference() {
    assert_eq!(
        archive_url("acme", "tools", "feat/x"),
        "https://codeload.github.com/acme/tools/tar.gz/feat%2Fx"
    );
    assert_eq!(repository_url("acme", "tools"), "https://api.github.com/repos/acme/tools");
    assert_eq!(
        contents_url(&source(None, None), "v1&2", "a/b c"),
        "https://api.github.com/repos/acme/tools/contents/a/b%20c?ref=v1%262"
    );
}

#[test]
fn discovery_looks_up_a_branch_only_where_none_is_named() {
    assert_eq!(
        discover_skill_source(&source(None, None), None),
        DiscoveryStep::LookUpBranch { url: "https://api.github.com/repos/acme/tools".to_string() }
    );
    assert_eq!(
        discover_skill_source(&source(None, None), Some("main".to_string())),
        DiscoveryStep::FetchArchive {
            reference: "main".to_string(),
            url: "https://codeload.github.com/acme/tools/tar.gz/main".to_string(),
        }
    );
    assert_eq!(
        discover_skill_source(&source(Some("v1"), Some("skills")), None),
        DiscoveryStep::FetchSubpath { reference: "v1".to_string() }
    );
    assert_eq!(
        discover_skill_source(&source(Some("v1"), None), Some("main".to_string())),
        DiscoveryStep::FetchArchive {
            reference: "v1".to_string(),
            url: "https://codeload.github.com/acme/tools/tar.gz/v1".to_string(),
        }
    );
}

#[test]
fn default_branch_is_read_from_the_reply() {
    let body = |s: &str| Reply::Body(s.to_string());
    assert_eq!(default_branch_once(&body(r#"{"default_branch":"dev"}"#)).unwrap(), "dev");
    let missing = "GitHub response did not include a default branch";
    for text in [r#"{}"#, r#"{"default_branch":""}"#, r#"{"default_branch":3}"#, "[]"] {
        assert_eq!(default_branch_once(&body(text)).unwrap_err().message, missing);
    }
    assert_eq!(present_branch(None).unwrap_err().message, missing);
    assert!(default_branch_once(&body("{"))
        .unwrap_err()
        .message
        .starts_with("invalid GitHub response: "));
    assert_eq!(
        default_branch_once(&Reply::NoClient("e".to_string())).unwrap_err().message,
        "http client: e"
    );
    assert_eq!(
        default_branch_once(&Reply::NotSent("e".to_string())).unwrap_err().message,
        "skill metadata request: e"
    );
    assert_eq!(
        default_branch_once(&Reply::Refused("404 Not Found".to_string())).unwrap_err().message,
        "GitHub repository lookup failed: 404 Not Found"
    );
    assert_eq!(
        default_branch_once(&Reply::Unreadable("e".to_string())).unwrap_err().message,
        "invalid GitHub response: e"
    );
}

#[test]
fn listings_are_read_from_the_reply() {
    let one = GithubContentsResponse::Entry(entry("a", "file", None));
    let listing = fetch_github_json_once(Reply::Body(one)).unwrap();
    assert_eq!(github_contents(listing), vec![entry("a", "file", None)]);
    let two = vec![entry("a", "dir", None), entry("b", "file", Some(1))];
    assert_eq!(github_contents(GithubContentsResponse::Entries(two.clone())), two);
    assert_eq!(
        fetch_github_json_once(Reply::NoClient("e".to_string())).unwrap_err().message,
        "http client: e"
    );
    assert_eq!(
        fetch_github_json_once(Reply::NotSent("e".to_string())).unwrap_err().message,
        "skill contents request: e"
    );
    assert_eq!(
        fetch_github_json_once(Reply::Refused("403 Forbidden".to_string())).unwrap_err().message,
        "GitHub contents request failed: 403 Forbidden"
    );
    assert_eq!(
        fetch_github_json_once(Reply::Unreadable("e".to_string())).unwrap_err().message,
        "invalid GitHub contents response: e"
    );
}

#[test]
fn sanitized_paths_stay_inside() {
    assert_eq!(sanitize_github_path("skills/a/SKILL.md").unwrap(), "skills/a/SKILL.md");
    assert_eq!(sanitize_github_path("/./skills//a/.").unwrap(), "skills/a");
    assert_eq!(sanitize_github_path("..a/b..").unwrap(), "..a/b..");
    let rejected = "GitHub path traversal rejected";
    for path in ["../a", "a/..", "a/../b", "a\\b", "./..", "a/b\\.."] {
        assert_eq!(sanitize_github_path(path).unwrap_err().message, rejected);
    }
    for path in ["", "/", ".", "././/"] {
        assert_eq!(sanitize_github_path(path).unwrap_err().message, "GitHub path is empty");
    }
}

#[test]
fn sanitizing_again_changes_nothing() {
    for path in ["a", "/./skills//a/.", "x/y/z"] {
        let once = sanitize_github_path(path).unwrap();
        assert_eq!(sanitize_github_path(&once).unwrap(), once);
    }
}

#[test]
fn mirrors_are_tried_until_one_answers() {
    let urls = vec!["a".to_string(), "b".to_string(), "c".to_string()];
    let error = || -> Result<u8, AppError> { Err(AppError::message("down")) };

    let mut mirrors = MirrorFallback::new(urls.clone(), "failed").ok().unwrap();
    assert_eq!(mirrors.url(), "a");
    assert_eq!(mirrors.attempted(error(), true), None);
    assert_eq!(mirrors.url(), "b");
    assert_eq!(mirrors.attempted(Ok(5), true), Some(Ok(5)));

    let mut mirrors = MirrorFallback::new(urls.clone(), "failed").ok().unwrap();
    assert_eq!(mirrors.attempted(error(), false), Some(error()));

    let mut mirrors = MirrorFallback::new(urls, "failed").ok().unwrap();
    assert_eq!(mirrors.attempted(error(), true), None);
    assert_eq!(mirrors.attempted(error(), true), None);
    assert_eq!(mirrors.url(), "c");
    assert_eq!(mirrors.attempted(error(), true), Some(error()));

    let none = MirrorFallback::new(Vec::new(), "GitHub file download failed").err().unwrap();
    assert_eq!(none.message, "GitHub file download failed");
}

#[test]
fn walk_lists_directories_last_first_and_downloads_files() {
    let mut walk = SubpathFetch::start(&source(None, Some("skills"))).ok().unwrap();
    assert_eq!(walk.advance(), Ok(FetchStep::List { path: "skills".to_string() }));
    walk.listed(vec![
        entry("skills/a", "dir", None),
        entry("skills/link", "symlink", None),
        entry("skills/x", "file", Some(10)),
        entry("skills/b", "dir", None),
    ]);
    assert_eq!(
        walk.advance(),
        Ok(FetchStep::Download {
            path: "skills/x".to_string(),
            url: "https://raw/skills/x".to_string(),
        })
    );
    walk.downloaded(12).unwrap();
    assert_eq!(walk.advance(), Ok(FetchStep::List { path: "skills/b".to_string() }));
    walk.listed(Vec::new());
    assert_eq!(walk.advance(), Ok(FetchStep::List { path: "skills/a".to_string() }));
    walk.listed(vec![entry("skills/a/y", "file", None)]);
    assert!(matches!(walk.advance(), Ok(FetchStep::Download { .. })));
    walk.downloaded(1).unwrap();
    assert_eq!(walk.advance(), Ok(FetchStep::Done));
    assert_eq!(walk.advance(), Ok(FetchStep::Done));
}

#[test]
fn walk_keeps_the_limits() {
    let refused = SubpathFetch::start(&source(None, None)).err().unwrap();
    assert_eq!(refused.message, "GitHub tree URL is missing a subpath");

    let mut walk = SubpathFetch::start(&source(None, Some("s"))).ok().unwrap();
    walk.advance().unwrap();
    walk.listed(vec![entry("s/x", "file", Some(MAX_ARCHIVE_BYTES as u64 + 1))]);
    assert_eq!(walk.advance().unwrap_err().message, "skill source is too large");

    let mut walk = SubpathFetch::start(&source(None, Some("s"))).ok().unwrap();
    walk.advance().unwrap();
    walk.listed(vec![entry("s/x", "file", Some(u64::MAX))]);
    assert_eq!(walk.advance().unwrap_err().message, "skill source is too large");

    let mut walk = SubpathFetch::start(&source(None, Some("s"))).ok().unwrap();
    walk.advance().unwrap();
    walk.listed(vec![entry("s/x", "file", None), entry("s/y", "file", Some(1))]);
    walk.advance().unwrap();
    assert_eq!(
        walk.downloaded(MAX_ARCHIVE_BYTES + 1).unwrap_err().message,
        "skill source is too large"
    );
    walk.downloaded(MAX_ARCHIVE_BYTES).unwrap();
    assert_eq!(walk.advance().unwrap_err().message, "skill source is too large");

    let mut walk = SubpathFetch::start(&source(None, Some("s"))).ok().unwrap();
    walk.advance().unwrap();
    let mut unlinked = entry("s/x", "file", None);
    unlinked.download_url = None;
    walk.listed(vec![unlinked]);
    assert_eq!(walk.advance().unwrap_err().message, "GitHub file is missing a download URL");

    let mut walk = SubpathFetch::start(&source(None, Some("s"))).ok().unwrap();
    walk.advance().unwrap();
    walk.listed((0..MAX_EXTRACTED_FILES + 1).map(|_| entry("s/x", "file", None)).collect());
    for _ in 0..MAX_EXTRACTED_FILES {
        walk.advance().unwrap();
        walk.downloaded(1).unwrap();
    }
    assert_eq!(walk.advance().unwrap_err().message, "skill source contains too many files");
}
