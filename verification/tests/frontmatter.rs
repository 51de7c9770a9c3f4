use agentero::frontmatter::{
    frontmatter_block, parse_frontmatter_aliases, patch_aliases, prepend_new_aliases, scalar_field,
};

fn aliases(list: &[&str]) -> Vec<String> {
    list.iter().map(|s| s.to_string()).collect()
}

#[test]
fn block_stands_between_the_fences() {
    assert_eq!(
        frontmatter_block("---\na: 1\nb: 2\n---\ntext").unwrap(),
        aliases(&["a: 1", "b: 2"])
    );
    assert!(frontmatter_block("---\n---").unwrap().is_empty());
    assert!(frontmatter_block("text\n---\na: 1\n---\n").is_none());
    assert!(frontmatter_block("---\na: 1\n").is_none());
    assert!(frontmatter_block("").is_none());
}

#[test]
fn aliases_are_read_in_every_style() {
    let read = |body: &str| parse_frontmatter_aliases(body).1;
    assert_eq!(read("---\naliases:\n  - a\n  - \"b c\"\n---\n"), aliases(&["a", "b c"]));
    assert_eq!(read("---\naliases: [a, \"b, c\"]\n---\n"), aliases(&["a", "b, c"]));
    assert_eq!(read("---\naliases: one\n---\n"), aliases(&["one"]));
    assert_eq!(read("---\ntags: x\n---\n"), aliases(&[]));
    assert_eq!(read("aliases: one\n"), aliases(&[]));
}

#[test]
fn length_counts_the_frontmatter() {
    assert_eq!(parse_frontmatter_aliases("---\na: ü\n---\ntext").0, 13);
    assert_eq!(parse_frontmatter_aliases("text").0, 0);
}

#[test]
fn written_aliases_read_back() {
    let list = aliases(&["plain", "with \"quotes\"", "back\\slash", "line\nfeed", ""]);
    let written = prepend_new_aliases("# Text\n", &list);
    assert!(written.ends_with("\n---\n# Text\n"));
    assert_eq!(parse_frontmatter_aliases(&written).1, list);

    let body = "---\ntags: x\naliases:\n  - old\nrest: y\n---\n# Text\n";
    let patched = patch_aliases(body, &list).unwrap();
    assert_eq!(parse_frontmatter_aliases(&patched).1, list);
    assert!(patched.starts_with("---\ntags: x\naliases:\n"));
    assert!(patched.ends_with("\nrest: y\n---\n# Text\n"));
    assert!(patch_aliases("# Text\n", &list).is_none());
}

#[test]
fn scalar_fields_are_read_in_every_style() {
    let block = frontmatter_block(
        "---\nname: plain\nquoted: \"a \\\"b\\\"\"\nfolded: >-\n  one\n  two\nliteral: |\n  one\n  two\nlast: end\n---\n",
    )
    .unwrap();
    assert_eq!(scalar_field(&block, "name").as_deref(), Some("plain"));
    assert_eq!(scalar_field(&block, "quoted").as_deref(), Some("a \"b\""));
    assert_eq!(scalar_field(&block, "folded").as_deref(), Some("one two"));
    assert_eq!(scalar_field(&block, "literal").as_deref(), Some("one\ntwo"));
    assert_eq!(scalar_field(&block, "last").as_deref(), Some("end"));
    assert_eq!(scalar_field(&block, "missing"), None);
}
