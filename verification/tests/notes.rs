use agentero::frontmatter::parse_frontmatter_aliases;
use agentero::notes::{
    append_title_alias_best_effort, file_stem_from_url_or_path, has_user_notes,
    is_generic_placeholder, matches_old_title, patch_notes_title_and_alias,
    patch_notes_title_and_alias_with_report, strip_pdf_ext, sync_notes_title_and_alias, H1Action,
    NotesSync,
};

#[test]
fn test_patch_notes_title_and_alias_updates_h1_and_aliases() {
    let original = r#"---
aliases:
  - "2024-134-paper.pdf"
  - "21PP"
---
# 2024-134-paper.pdf

User notes here.
"#;
    let result = patch_notes_title_and_alias(
        original,
        "2024-134-paper.pdf",
        "ShapFuzz: Efficient Fuzzing via Shapley-Guided Byte Selection",
    );
    assert!(result.contains("ShapFuzz: Efficient Fuzzing via Shapley-Guided Byte Selection"));
    assert!(result.contains("# ShapFuzz: Efficient Fuzzing via Shapley-Guided Byte Selection"));
    assert!(!result.contains("# 2024-134-paper.pdf"));
    assert!(result.contains("- \"2024-134-paper.pdf\""));
    assert!(result.contains("User notes here."));
}

#[test]
fn test_patch_notes_raw_filename_without_h1_updates_to_h1() {
    let original = "2024-134-paper.pdf\n";
    let result = patch_notes_title_and_alias(
        original,
        "2024-134-paper.pdf",
        "ShapFuzz: Efficient Fuzzing via Shapley-Guided Byte Selection",
    );
    assert!(result.contains("# ShapFuzz: Efficient Fuzzing via Shapley-Guided Byte Selection"));
    assert!(!result.contains("\n2024-134-paper.pdf\n"));
    assert!(result.contains("- \"2024-134-paper.pdf\""));
}

#[test]
fn test_patch_notes_url_old_title_matches_stem() {
    let original = r#"---
aliases:
  - "2024-134-paper"
---
# 2024-134-paper.pdf
"#;
    let result = patch_notes_title_and_alias(
        original,
        "https://www.ndss-symposium.org/wp-content/uploads/2024-134-paper.pdf",
        "ShapFuzz: Efficient Fuzzing via Shapley-Guided Byte Selection",
    );
    assert!(result.contains("# ShapFuzz: Efficient Fuzzing via Shapley-Guided Byte Selection"));
    assert!(!result.contains("# 2024-134-paper.pdf"));
}

#[test]
fn test_patch_notes_preserves_custom_user_h1() {
    let original = r#"---
aliases:
  - "old title"
---
# My Custom Analysis Header

Notes.
"#;
    let result = patch_notes_title_and_alias(original, "old title", "New Title");
    assert!(result.contains("# My Custom Analysis Header"));
    assert!(result.contains("New Title"));
}

#[test]
fn test_patch_notes_untouched_note_replaces_any_h1() {
    let original = r#"---
aliases:
  - "placeholder"
---
# Untitled
"#;
    let result = patch_notes_title_and_alias(original, "", "Recognized Title");
    assert!(result.contains("# Recognized Title"));
    assert!(!result.contains("# Untitled"));
}

#[test]
fn test_patch_notes_with_abstract_blockquote_preserves_blockquote() {
    let original = r#"---
aliases:
  - "2024-134-paper.pdf"
---
# 2024-134-paper.pdf

> This paper introduces ShapFuzz, an efficient greybox fuzzer.
"#;
    let result = patch_notes_title_and_alias(
        original,
        "2024-134-paper.pdf",
        "ShapFuzz: Efficient Fuzzing via Shapley-Guided Byte Selection",
    );
    assert!(result.contains("# ShapFuzz: Efficient Fuzzing via Shapley-Guided Byte Selection"));
    assert!(result.contains("> This paper introduces ShapFuzz, an efficient greybox fuzzer."));
}

#[test]
fn stems_drop_the_extension_and_the_directories() {
    assert_eq!(strip_pdf_ext(" a.pdf "), "a");
    assert_eq!(strip_pdf_ext("a .PDF"), "a");
    assert_eq!(strip_pdf_ext("a.Pdf"), "a.Pdf");
    assert_eq!(strip_pdf_ext("a.pdf.pdf"), "a.pdf");
    assert_eq!(file_stem_from_url_or_path("https://x.org/up/b.pdf"), "b");
    assert_eq!(file_stem_from_url_or_path("C:\\papers\\c.PDF"), "c");
    assert_eq!(file_stem_from_url_or_path("a/b\\c"), "c");
    assert_eq!(file_stem_from_url_or_path("a/"), "");
}

#[test]
fn placeholders_and_old_titles_are_recognized() {
    for s in ["", " PDF ", "Untitled Paper", "notes", "未命名论文", "无标题"] {
        assert!(is_generic_placeholder(s));
    }
    assert!(!is_generic_placeholder("Attention"));
    assert!(matches_old_title("Old Title", "old title"));
    assert!(matches_old_title("paper.pdf", "PAPER"));
    assert!(matches_old_title("x", "https://host/x.pdf"));
    assert!(!matches_old_title("", ""));
    assert!(!matches_old_title("x", "y"));
}

#[test]
fn user_notes_are_lines_that_nothing_else_explains() {
    assert!(!has_user_notes("# A\n\n> quote\n---\n***\nUntitled\nold.pdf\n", "old"));
    assert!(has_user_notes("# A\nmine\n", "old"));
    assert!(has_user_notes("## Section\n", "old"));
}

#[test]
fn reports_say_what_happened_to_the_heading() {
    let (text, report) = patch_notes_title_and_alias_with_report("# Old\n\nmine\n", "Old", "New");
    assert_eq!(text, "---\naliases:\n  - \"Old\"\n  - \"New\"\n---\n# New\n\nmine\n");
    assert_eq!(report.alias_added.as_deref(), Some("New"));
    assert_eq!(
        report.h1_action,
        H1Action::Replaced {
            old_h1: "Old".to_string(),
            new_h1: "New".to_string(),
            reason: "exact match with old title",
        }
    );
    let reason = |body: &str, old: &str| {
        patch_notes_title_and_alias_with_report(body, old, "New").1.h1_action
    };
    assert!(matches!(
        reason("# old.pdf\nmine\n", "OLD"),
        H1Action::Replaced { reason: "stem / filename / URL match with old title", .. }
    ));
    assert!(matches!(
        reason("# Untitled\nmine\n", "Old"),
        H1Action::Replaced { reason: "generic placeholder heading", .. }
    ));
    assert!(matches!(
        reason("# Custom\n", "Old"),
        H1Action::Replaced { reason: "untouched placeholder note", .. }
    ));
    assert!(matches!(
        reason("Old.pdf\n", "Old"),
        H1Action::Replaced { reason: "raw placeholder line replaced", .. }
    ));
    assert_eq!(
        reason("# Custom\nmine\n", "Old"),
        H1Action::Preserved { h1: "Custom".to_string(), reason: "user custom heading preserved" }
    );
    assert_eq!(reason("", "Old"), H1Action::Inserted { new_h1: "New".to_string() });
    assert_eq!(reason("mine\n", "Old"), H1Action::Unchanged);
    assert_eq!(reason("# New\n", "Old"), H1Action::Unchanged);
}

#[test]
fn blank_new_title_changes_no_note() {
    let (text, report) = patch_notes_title_and_alias_with_report("# Old\n", "Old", " \t");
    assert_eq!(text, "# Old\n");
    assert_eq!(report.alias_added, None);
    assert_eq!(report.h1_action, H1Action::Unchanged);
}

#[test]
fn aliases_are_kept_and_both_titles_added() {
    let body = "---\naliases:\n  - \"A \\\"b\\\"\"\n  - Old\n---\n# Old\n";
    let patched = patch_notes_title_and_alias(body, "Old", "New");
    let (_, aliases) = parse_frontmatter_aliases(&patched);
    assert_eq!(aliases, ["A \"b\"", "Old", "New"]);
    let fresh = patch_notes_title_and_alias("text\n", "", "New");
    assert_eq!(parse_frontmatter_aliases(&fresh).1, ["New"]);
}

#[test]
fn patching_a_note_again_changes_nothing() {
    for body in [
        "",
        "# Untitled\n",
        "# Mine\n\nnotes\n",
        "---\naliases: [a, \"b\"]\n---\nold.pdf\n",
        "---\ntags: x\n---\n\nnotes",
        "---\r\naliases:\r\n  - a\r\n---\r\n# Untitled\r\n\r\nnotes\r\n",
        "---\naliases:\n  - a\n---",
    ] {
        let once = patch_notes_title_and_alias(body, "old", "New");
        assert_eq!(patch_notes_title_and_alias(&once, "old", "New"), once);
    }
}

#[test]
fn custom_heading_and_text_stay() {
    let body = "---\naliases:\n  - a\n---\n# Mine\n\nnotes\n\n  indented\n";
    let patched = patch_notes_title_and_alias(body, "old", "New");
    assert!(patched.ends_with("---\n# Mine\n\nnotes\n\n  indented\n"));
}

#[test]
fn notes_are_written_only_where_they_change() {
    assert_eq!(sync_notes_title_and_alias(None, "a", "b"), NotesSync::Unreadable);
    match sync_notes_title_and_alias(Some("# Old\n"), "Old", "New") {
        NotesSync::Write { updated, report } => {
            assert!(updated.contains("# New\n"));
            assert_eq!(report.alias_added.as_deref(), Some("New"));
        }
        other => panic!("{other:?}"),
    }
    let done = "---\naliases:\n  - \"New\"\n---\n# New\n";
    assert!(matches!(
        sync_notes_title_and_alias(Some(done), "", "New"),
        NotesSync::Unchanged { .. }
    ));
    assert_eq!(append_title_alias_best_effort(None, "New"), None);
    assert_eq!(append_title_alias_best_effort(Some(done), "New"), None);
    assert_eq!(
        append_title_alias_best_effort(Some("# Mine\ntext\n"), "New").as_deref(),
        Some("---\naliases:\n  - \"New\"\n---\n# Mine\ntext\n")
    );
}

#[test]
fn frontmatter_without_aliases_gets_the_new_title() {
    let body = "---\ntags: x\n---\n# Untitled\n";
    for old in ["", "New"] {
        let (text, report) = patch_notes_title_and_alias_with_report(body, old, "New");
        assert_eq!(text, "---\ntags: x\naliases:\n  - \"New\"\n---\n# New\n");
        assert_eq!(report.alias_added.as_deref(), Some("New"));
    }
    let appended = append_title_alias_best_effort(Some(body), "New").unwrap();
    assert_eq!(parse_frontmatter_aliases(&appended).1, ["New"]);
}

#[test]
fn heading_starts_a_line_behind_a_fence_at_the_end() {
    let body = "---\naliases: New\n---";
    let (text, report) = patch_notes_title_and_alias_with_report(body, "", "New");
    assert_eq!(text, "---\naliases: New\n---\n# New\n");
    assert_eq!(parse_frontmatter_aliases(&text).1, ["New"]);
    assert_eq!(report.alias_added, None);
    assert_eq!(append_title_alias_best_effort(Some(body), "New").as_deref(), Some(text.as_str()));
    assert_eq!(append_title_alias_best_effort(Some(&text), "New"), None);
}
