use agentero::skill::{
    accept_archive, decode_gzip, discover_candidates, discover_candidates_from_dir, discovery_dir,
    finish_discovery, install_from_archive, install_from_staged_dir, is_discovery_metadata,
    is_skill_manifest, parse_skill_metadata, present_reference, provenance, staged_reference,
    staged_source, truncate_chars, valid_skill_name, DiscoveryStage, SkillSource, StagedFile,
    MAX_ARCHIVE_BYTES, MAX_DESCRIPTION_LEN, MAX_EXTRACTED_FILES,
};
use std::io::Write;

fn source(subpath: Option<&str>, skill_names: &[&str]) -> SkillSource {
    SkillSource {
        owner: "acme".to_string(),
        repo: "repo".to_string(),
        reference: None,
        subpath: subpath.map(|s| s.to_string()),
        skill_names: skill_names.iter().map(|s| s.to_string()).collect(),
        source: "https://github.com/acme/repo".to_string(),
    }
}

fn staged(dir: &str, content: Option<&str>) -> StagedFile {
    StagedFile {
        id: dir.len(),
        is_file: true,
        file_name: "SKILL.md".to_string(),
        path: format!("{dir}/SKILL.md"),
        dir: dir.to_string(),
        content: content.map(|s| s.to_string()),
    }
}

fn skill(name: &str) -> String {
    format!("---\nname: {name}\ndescription: About {name}\n---\n# Body")
}

fn gzip(bytes: &[u8]) -> Vec<u8> {
    let mut encoder = flate2::write::GzEncoder::new(Vec::new(), flate2::Compression::default());
    encoder.write_all(bytes).unwrap();
    encoder.finish().unwrap()
}

#[test]
fn validates_skill_names() {
    assert!(valid_skill_name("frontend-design"));
    assert!(!valid_skill_name("Frontend Design"));
    assert!(!valid_skill_name("../escape"));
}

#[test]
fn parses_frontmatter() {
    let (name, description) = parse_skill_metadata(
        "---\nname: example-skill\ndescription: Useful instructions\n---\n# Body",
    )
    .unwrap();
    assert_eq!(name, "example-skill");
    assert_eq!(description, "Useful instructions");
}

#[test]
fn reads_folded_description() {
    let (_, description) = parse_skill_metadata(
        "---\nname: paper-reader\nversion: 2\ndescription: >-\n  Read and explain a\n  research paper.\n---\n# Body",
    )
    .unwrap();
    assert_eq!(description, "Read and explain a research paper.");
}

#[test]
fn truncates_long_description_instead_of_failing() {
    let long = "研究".repeat(MAX_DESCRIPTION_LEN);
    let content = format!("---\nname: deep-research\ndescription: \"{long}\"\n---\n# Body");
    let (name, description) = parse_skill_metadata(&content).unwrap();
    assert_eq!(name, "deep-research");
    assert_eq!(description.chars().count(), MAX_DESCRIPTION_LEN + 1);
    assert!(description.ends_with('…'));
}

#[test]
fn skill_names_are_bounded() {
    assert!(!valid_skill_name(""));
    assert!(!valid_skill_name("-a"));
    assert!(!valid_skill_name("a-"));
    assert!(!valid_skill_name("-"));
    assert!(valid_skill_name("a"));
    assert!(valid_skill_name("9-9"));
    assert!(valid_skill_name(&"a".repeat(64)));
    assert!(!valid_skill_name(&"a".repeat(65)));
    assert!(!valid_skill_name("naïve"));
}

#[test]
fn cut_text_loses_the_white_space_before_the_ellipsis() {
    assert_eq!(truncate_chars("abc", 3), "abc");
    assert_eq!(truncate_chars("abcd", 3), "abc…");
    assert_eq!(truncate_chars("ab cd", 3), "ab…");
    assert_eq!(truncate_chars("abc", 0), "…");
    assert_eq!(truncate_chars("", 0), "");
}

#[test]
fn unusable_skill_files_say_why() {
    assert_eq!(
        parse_skill_metadata("# Template").unwrap_err().message,
        "SKILL.md is missing YAML frontmatter"
    );
    let invalid = "SKILL.md has an invalid name; use lowercase letters, numbers, and hyphens";
    assert_eq!(
        parse_skill_metadata("---\nname: Bad Name\n---\n").unwrap_err().message,
        invalid
    );
    assert_eq!(
        parse_skill_metadata("---\ndescription: x\n---\n").unwrap_err().message,
        invalid
    );
    assert_eq!(
        parse_skill_metadata("---\nname: plain\n---\n").unwrap(),
        ("plain".to_string(), String::new())
    );
}

#[test]
fn bookkeeping_is_no_skill() {
    assert!(is_discovery_metadata("source.json"));
    assert!(is_discovery_metadata("sparse.json"));
    assert!(!is_discovery_metadata("a/source.json"));
    assert!(is_skill_manifest(true, "SKILL.md", "a/SKILL.md"));
    assert!(!is_skill_manifest(false, "SKILL.md", "a/SKILL.md"));
    assert!(!is_skill_manifest(true, "skill.md", "a/skill.md"));
    assert!(!is_skill_manifest(true, "SKILL.md", "source.json"));
}

#[test]
fn installs_monorepo_but_for_unusable_skills() {
    let long_description = format!("深度研究代理团队。Triggers: {}", "深度研究，".repeat(200));
    let files = vec![
        staged(
            "repo-main/deep-research",
            Some(&format!(
                "---\nname: deep-research\ndescription: \"{long_description}\"\n---\n# Body"
            )),
        ),
        staged(
            "repo-main/paper-reader",
            Some("---\nname: paper-reader\ndescription: >-\n  Read and explain a\n  research paper.\n---\n# Body"),
        ),
        staged("repo-main/templates", Some("# Template without frontmatter")),
        staged("repo-main/binary", None),
    ];
    let steps =
        install_from_staged_dir(&files, &source(None, &[]), &vec!["*".to_string()], &vec![])
            .unwrap();
    let names: Vec<&str> = steps.iter().map(|s| s.result.name.as_str()).collect();
    assert_eq!(names, ["deep-research", "paper-reader"]);
    assert_eq!(steps[0].file, "repo-main/deep-research".len());
    assert_eq!(steps[1].file, "repo-main/paper-reader".len());
    assert_eq!(steps[0].result.path, ".agents/skills/deep-research");
    assert_eq!(steps[0].result.source, "https://github.com/acme/repo");
    assert_eq!(steps[0].result.description, long_description);
    assert_eq!(steps[1].result.description, "Read and explain a research paper.");
    assert!(!steps[0].result.skipped && !steps[1].result.skipped);
}

#[test]
fn subpath_selects_its_own_skill() {
    let files = vec![
        staged("skills/nature-paper2ppt", Some(&skill("nature-paper2ppt"))),
        staged("other", Some(&skill("other"))),
        staged("repo\\skills\\nature-paper2ppt", Some(&skill("windows"))),
        staged("xskills/nature-paper2ppt", Some(&skill("near-miss"))),
    ];
    let found =
        discover_candidates_from_dir(&files, &source(Some("skills/nature-paper2ppt"), &[]))
            .unwrap();
    let names: Vec<&str> = found.iter().map(|c| c.name.as_str()).collect();
    assert_eq!(names, ["nature-paper2ppt", "windows"]);
    assert_eq!(found[1].dir, "repo\\skills\\nature-paper2ppt");
}

#[test]
fn names_select_skills() {
    let files = vec![staged("a", Some(&skill("a"))), staged("b", Some(&skill("b")))];
    let found = discover_candidates_from_dir(&files, &source(None, &["b"])).unwrap();
    assert_eq!(found.len(), 1);
    assert_eq!(found[0].name, "b");
    let all = discover_candidates_from_dir(&files, &source(None, &["x", "*"])).unwrap();
    assert_eq!(all.len(), 2);
    for offered in &all {
        let steps = install_from_staged_dir(
            &files,
            &source(None, &[]),
            &vec![offered.name.clone()],
            &vec![],
        )
        .unwrap();
        assert_eq!(steps.len(), 1);
        assert_eq!(steps[0].result.name, offered.name);
    }
    assert_eq!(
        install_from_staged_dir(&files, &source(None, &[]), &vec!["c".to_string()], &vec![])
            .unwrap_err()
            .message,
        "no selected Skill remains to install"
    );
}

#[test]
fn no_skill_is_installed_over_another() {
    let files = vec![
        staged("one", Some(&skill("a"))),
        staged("two", Some(&skill("b"))),
        staged("three", Some(&skill("a"))),
    ];
    let steps =
        install_from_staged_dir(&files, &source(None, &[]), &vec![], &vec!["b".to_string()])
            .unwrap();
    let skipped: Vec<bool> = steps.iter().map(|s| s.result.skipped).collect();
    assert_eq!(skipped, [false, true, true]);
}

#[test]
fn candidates_say_what_is_installed() {
    let files = vec![staged("x\\a", Some(&skill("a"))), staged("b", Some(&skill("b")))];
    let offered =
        discover_candidates(&files, &source(None, &[]), &vec!["b".to_string()]).unwrap();
    assert_eq!(offered.len(), 2);
    assert_eq!(offered[0].name, "a");
    assert_eq!(offered[0].description, "About a");
    assert_eq!(offered[0].relative_path, "x/a");
    assert!(!offered[0].already_installed);
    assert!(offered[1].already_installed);
    let stage = DiscoveryStage::begin();
    let id = stage.discovery_id().to_string();
    let discovery = finish_discovery(stage, &source(None, &[]), offered.clone()).unwrap();
    assert_eq!(discovery.discovery_id, id);
    assert_eq!(discovery.source, "https://github.com/acme/repo");
    assert_eq!(discovery.candidates, offered);
    assert_eq!(
        finish_discovery(DiscoveryStage::begin(), &source(None, &[]), vec![])
            .unwrap_err()
            .message,
        "no importable SKILL.md was found in this source"
    );
}

#[test]
fn too_many_skills_are_an_error() {
    let files: Vec<StagedFile> =
        (0..MAX_EXTRACTED_FILES + 1).map(|i| staged("d", Some(&skill(&format!("s{i}"))))).collect();
    let refused = discover_candidates_from_dir(&files, &source(None, &[])).unwrap_err();
    assert_eq!(refused.message, "skill archive contains too many files");
    let mut fewer = files;
    fewer.pop();
    let found = discover_candidates_from_dir(&fewer, &source(None, &["s0"])).unwrap();
    assert_eq!(found.len(), 1);
}

#[test]
fn archives_are_unpacked_within_the_limit() {
    assert_eq!(decode_gzip(&gzip(b"hello skill")).unwrap(), b"hello skill");
    assert_eq!(install_from_archive(&gzip(b"tar")).unwrap(), b"tar");
    let broken = decode_gzip(b"no gzip").unwrap_err().message;
    assert!(broken.starts_with("skill archive gzip: "));
    assert!(broken.len() > "skill archive gzip: ".len());
    assert_eq!(install_from_archive(b"no gzip").unwrap_err().message, broken);
    let bomb = gzip(&vec![0u8; MAX_ARCHIVE_BYTES + 1]);
    assert_eq!(
        install_from_archive(&bomb).unwrap_err().message,
        "unpacked skill archive is too large"
    );
    assert!(accept_archive(MAX_ARCHIVE_BYTES).is_ok());
    assert_eq!(
        accept_archive(MAX_ARCHIVE_BYTES + 1).unwrap_err().message,
        "skill archive is too large"
    );
}

#[test]
fn staging_directories_are_named_by_uuids() {
    let name = "agentero-skill-discovery-67e55044-10b1-426f-9247-bb680e5fe0c8";
    for id in [
        "67e55044-10b1-426f-9247-bb680e5fe0c8",
        "67E55044-10B1-426F-9247-BB680E5FE0C8",
        "67e5504410b1426f9247bb680e5fe0c8",
        "{67e55044-10b1-426f-9247-bb680e5fe0c8}",
        "urn:uuid:67e55044-10b1-426f-9247-bb680e5fe0c8",
        "URN:UUID:67e55044-10b1-426f-9247-bb680e5fe0c8",
    ] {
        assert_eq!(discovery_dir(id).unwrap(), name);
    }
    let id = name.strip_prefix("agentero-skill-discovery-").unwrap();
    assert_eq!(discovery_dir(id).unwrap(), name);
    for id in [
        "",
        "../../etc",
        "67e55044-10b1-426f-9247-bb680e5fe0c",
        "67e55044-10b1-426f-9247-bb680e5fe0cg",
        "67e55044+10b1-426f-9247-bb680e5fe0c8",
        "{67e5504410b1426f9247bb680e5fe0c8}",
        "urn:uuid:67e5504410b1426f9247bb680e5fe0c8",
        "{67e55044-10b1-426f-9247-bb680e5fe0c8",
        " 67e55044-10b1-426f-9247-bb680e5fe0c8",
        "é7e5504410b1426f9247bb680e5fe0c",
    ] {
        assert_eq!(discovery_dir(id).unwrap_err().message, "invalid skill discovery id");
    }
}

#[test]
fn bookkeeping_names_its_source_and_reference() {
    assert_eq!(staged_source(Some(7)), Ok(7));
    assert_eq!(
        staged_source::<u8>(None).unwrap_err().message,
        "skill discovery metadata is invalid"
    );
    assert_eq!(staged_reference(r#"{"source":{},"reference":"main"}"#).unwrap(), "main");
    let missing = "skill discovery reference is missing";
    assert_eq!(staged_reference("{}").unwrap_err().message, missing);
    assert_eq!(staged_reference(r#"{"reference":1}"#).unwrap_err().message, missing);
    assert_eq!(present_reference(None).unwrap_err().message, missing);
    assert_eq!(present_reference(Some("v1".to_string())).unwrap(), "v1");
    assert!(staged_reference("{").is_err());
}

#[test]
fn provenance_names_where_a_skill_came_from() {
    let p = provenance(&source(None, &[]), "main", "2026-01-02T03:04:05.006Z".to_string());
    assert_eq!(p.source, "https://github.com/acme/repo");
    assert_eq!(p.owner, "acme");
    assert_eq!(p.repo, "repo");
    assert_eq!(p.reference, "main");
    assert_eq!(p.installed_at, "2026-01-02T03:04:05.006Z");
}

#[test]
fn discovery_ids_are_random_uuids() {
    let stage = DiscoveryStage::begin();
    let id = stage.discovery_id().to_string();
    assert_eq!(id.len(), 36);
    assert_eq!(id.as_bytes()[14], b'4');
    assert!(b"89ab".contains(&id.as_bytes()[19]));
    assert_eq!(stage.dir(), format!("agentero-skill-discovery-{id}"));
    assert_eq!(discovery_dir(&id).unwrap(), stage.dir());
    assert_ne!(DiscoveryStage::begin().discovery_id(), id);
}
