//! NOTES.md alias maintenance: title renames keep old `[[...]]` links
//! resolving by appending the new title to frontmatter aliases and updating
//! placeholder H1 titles.
use crate::frontmatter::{
    aliases_of, find_line, first_line, front_text, has_frontmatter, lemma_front_and_rest,
    line_ended, parse_frontmatter_aliases, patch_aliases, patched, prepend_new_aliases, prepended,
    rest_text,
};
use crate::text::{
    chars_of, concat, contents, ends_with, eq_ignore_ascii_case, join, joined, line_seq, lines,
    lowered, pieces, same, same_ignoring_case, split, starts_with, to_ascii_lowercase, trim,
    trimmed,
};
use vstd::prelude::*;

verus! {

/// What a patch did to a note.
#[derive(Debug, Clone, PartialEq, Eq)]
pub struct NotesPatchReport {
    pub alias_added: Option<String>,
    pub h1_action: H1Action,
}

/// What a patch did to the heading of a note.
#[derive(Debug, Clone, PartialEq, Eq)]
pub enum H1Action {
    Replaced { old_h1: String, new_h1: String, reason: &'static str },
    Inserted { new_h1: String },
    Preserved { h1: String, reason: &'static str },
    Unchanged,
}

/// `H1Action` over sequences of characters.
pub enum HeadingChange {
    Replaced { old_h1: Seq<char>, new_h1: Seq<char>, reason: Seq<char> },
    Inserted { new_h1: Seq<char> },
    Preserved { h1: Seq<char>, reason: Seq<char> },
    Unchanged,
}

impl View for H1Action {
    type V = HeadingChange;

    open spec fn view(&self) -> HeadingChange {
        match self {
            H1Action::Replaced { old_h1, new_h1, reason } => HeadingChange::Replaced {
                old_h1: old_h1@,
                new_h1: new_h1@,
                reason: reason@,
            },
            H1Action::Inserted { new_h1 } => HeadingChange::Inserted { new_h1: new_h1@ },
            H1Action::Preserved { h1, reason } => HeadingChange::Preserved {
                h1: h1@,
                reason: reason@,
            },
            H1Action::Unchanged => HeadingChange::Unchanged,
        }
    }
}

/// A name without the white space around it and without its PDF extension.
pub open spec fn pdf_stem(s: Seq<char>) -> Seq<char> {
    let t = trimmed(s);
    if ".pdf"@.is_suffix_of(t) || ".PDF"@.is_suffix_of(t) {
        trimmed(t.take(t.len() - 4))
    } else {
        t
    }
}

/// The last segment of a URL or a path, without its PDF extension.
pub open spec fn file_stem(s: Seq<char>) -> Seq<char> {
    pdf_stem(pieces(pieces(trimmed(s), '/').last(), '\\').last())
}

/// A heading that stands for a title that is not known yet.
pub open spec fn generic_placeholder(s: Seq<char>) -> bool {
    let lower = lowered(trimmed(s));
    ||| lower == ""@
    ||| lower == "pdf"@
    ||| lower == "untitled"@
    ||| lower == "untitled paper"@
    ||| lower == "placeholder"@
    ||| lower == "placeholder title"@
    ||| lower == "notes"@
    ||| lower == "paper"@
    ||| lower == "未命名"@
    ||| lower == "未命名论文"@
    ||| lower == "无标题"@
}

/// A heading that names the old title: as it stands, by its PDF stem or by its file stem, up to
/// the case of ASCII letters.
pub open spec fn names_old_title(h1: Seq<char>, old: Seq<char>) -> bool {
    &&& trimmed(h1).len() > 0
    &&& trimmed(old).len() > 0
    &&& {
        ||| same_ignoring_case(trimmed(h1), trimmed(old))
        ||| pdf_stem(trimmed(h1)).len() > 0 && same_ignoring_case(
            pdf_stem(trimmed(h1)),
            pdf_stem(trimmed(old)),
        )
        ||| file_stem(trimmed(h1)).len() > 0 && same_ignoring_case(
            file_stem(trimmed(h1)),
            file_stem(trimmed(old)),
        )
    }
}

/// A line that the user wrote: not blank, no heading, no quotation, no rule, and neither the old
/// title nor a placeholder.
pub open spec fn user_line(line: Seq<char>, old: Seq<char>) -> bool {
    let t = trimmed(line);
    &&& t.len() > 0
    &&& !"# "@.is_prefix_of(t)
    &&& t[0] != '>'
    &&& t != "---"@
    &&& t != "***"@
    &&& !names_old_title(t, old)
    &&& !generic_placeholder(t)
}

/// A line of `content` that the user wrote.
pub open spec fn user_notes(content: Seq<char>, old: Seq<char>) -> bool {
    exists|i: int| 0 <= i < line_seq(content).len() && user_line(#[trigger] line_seq(content)[i], old)
}

/// A level-one heading, as a predicate on lines.
pub open spec fn headings() -> spec_fn(Seq<char>) -> bool {
    |line: Seq<char>| "# "@.is_prefix_of(line)
}

/// A line that stands in for the title without being a heading.
pub open spec fn raw_placeholder(line: Seq<char>, old: Seq<char>) -> bool {
    let t = trimmed(line);
    t.len() > 0 && (names_old_title(t, old) || generic_placeholder(t) || pdf_stem(t) == pdf_stem(old))
}

/// `raw_placeholder` as a predicate on lines.
pub open spec fn raw_placeholders(old: Seq<char>) -> spec_fn(Seq<char>) -> bool {
    |line: Seq<char>| raw_placeholder(line, old)
}

/// Why a heading makes way for the new title; `None` where it stays.
pub open spec fn replacement_reason(h1: Seq<char>, old: Seq<char>, user: bool) -> Option<Seq<char>> {
    if old.len() > 0 && h1 == old {
        Some("exact match with old title"@)
    } else if old.len() > 0 && names_old_title(h1, old) {
        Some("stem / filename / URL match with old title"@)
    } else if generic_placeholder(h1) {
        Some("generic placeholder heading"@)
    } else if !user {
        Some("untouched placeholder note"@)
    } else {
        None
    }
}

/// The lines of a note under its new title, and what became of its heading.
///
/// The first level-one heading makes way for the new title where there is a reason for it. A
/// note without a heading in which the user wrote nothing gets one: in place of the first line
/// that stands in for the title, or in front of all lines.
pub open spec fn retitled_lines(content: Seq<char>, old: Seq<char>, new: Seq<char>) -> (
    Seq<Seq<char>>,
    HeadingChange,
) {
    let all = line_seq(content);
    let user = user_notes(content, old);
    let heading = "# "@ + new;
    let at = first_line(all, 0, headings());
    if at < all.len() {
        let h1 = trimmed(all[at].skip(2));
        match replacement_reason(h1, old, user) {
            Some(reason) => if h1 != new {
                (
                    all.update(at, heading),
                    HeadingChange::Replaced { old_h1: h1, new_h1: new, reason },
                )
            } else {
                (all, HeadingChange::Unchanged)
            },
            None => (
                all,
                HeadingChange::Preserved { h1, reason: "user custom heading preserved"@ },
            ),
        }
    } else if !user {
        let raw = first_line(all, 0, raw_placeholders(old));
        if raw < all.len() {
            (
                all.update(raw, heading),
                HeadingChange::Replaced {
                    old_h1: trimmed(all[raw]),
                    new_h1: new,
                    reason: "raw placeholder line replaced"@,
                },
            )
        } else {
            (seq![heading] + all, HeadingChange::Inserted { new_h1: new })
        }
    } else {
        (all, HeadingChange::Unchanged)
    }
}

/// The text of a note under its new title. It ends with a line feed where it did before, and
/// where there was no text before.
pub open spec fn retitled(content: Seq<char>, old: Seq<char>, new: Seq<char>) -> Seq<char> {
    let text = joined(retitled_lines(content, old, new).0, seq!['\n']);
    if (content.len() > 0 && content.last() == '\n') || (content.len() == 0 && text.len() > 0) {
        text.push('\n')
    } else {
        text
    }
}

/// The aliases with the old title among them.
pub open spec fn with_old_title(
    existing: Seq<Seq<char>>,
    old: Seq<char>,
    new: Seq<char>,
) -> Seq<Seq<char>> {
    if old.len() > 0 && !existing.contains(old) && old != new {
        existing.push(old)
    } else {
        existing
    }
}

/// The aliases of a note under its new title: those that it had, then the old title and the new
/// one, as far as they are missing.
pub open spec fn merged_aliases(
    existing: Seq<Seq<char>>,
    old: Seq<char>,
    new: Seq<char>,
) -> Seq<Seq<char>> {
    let kept = with_old_title(existing, old, new);
    if kept.contains(new) {
        kept
    } else {
        kept.push(new)
    }
}

/// A note with the merged aliases in its frontmatter, which is new where there was none.
pub open spec fn realiased(body: Seq<char>, old: Seq<char>, new: Seq<char>) -> Seq<char> {
    let merged = merged_aliases(aliases_of(body), old, new);
    if merged == aliases_of(body) {
        body
    } else if !has_frontmatter(pieces(body, '\n')) {
        prepended(body, merged)
    } else {
        patched(body, merged)
    }
}

/// A note under its new title. A blank title changes nothing. The text starts on a line of its
/// own behind the frontmatter.
pub open spec fn patched_note(body: Seq<char>, old_title: Seq<char>, new_title: Seq<char>) -> Seq<
    char,
> {
    let old = trimmed(old_title);
    let new = trimmed(new_title);
    let updated = realiased(body, old, new);
    if new.len() == 0 {
        body
    } else {
        let text = retitled(rest_text(updated), old, new);
        if text.len() > 0 {
            line_ended(front_text(updated)) + text
        } else {
            front_text(updated)
        }
    }
}

/// What a patch reports of the heading.
pub open spec fn heading_change(
    body: Seq<char>,
    old_title: Seq<char>,
    new_title: Seq<char>,
) -> HeadingChange {
    let old = trimmed(old_title);
    let new = trimmed(new_title);
    if new.len() == 0 {
        HeadingChange::Unchanged
    } else {
        retitled_lines(rest_text(realiased(body, old, new)), old, new).1
    }
}

/// The alias that a patch reports: the new title, where it was not among the aliases.
pub open spec fn alias_reported(
    body: Seq<char>,
    old_title: Seq<char>,
    new_title: Seq<char>,
) -> Option<Seq<char>> {
    let new = trimmed(new_title);
    if new.len() == 0 || aliases_of(body).contains(new) {
        None
    } else {
        Some(new)
    }
}

/// `s` without the white space around it and without its PDF extension.
pub fn strip_pdf_ext(s: &str) -> (r: &str)
    ensures
        r@ == pdf_stem(s@),
{
    let t = trim(s);
    if ends_with(t, ".pdf") || ends_with(t, ".PDF") {
        proof {
            reveal_strlit(".pdf");
            reveal_strlit(".PDF");
        }
        let n: usize = chars_of(t).len();
        let stem = t.substring_char(0, n - 4);
        assert(stem@ =~= t@.take(t@.len() - 4));
        trim(stem)
    } else {
        t
    }
}

/// The last piece of `s` behind the occurrences of `sep`.
fn last_piece(s: &str, sep: char) -> (r: String)
    ensures
        r@ == pieces(s@, sep).last(),
{
    let parts = split(s, sep);
    let n: usize = parts.len();
    assert(contents(parts@)[n - 1] == parts@[n - 1]@);
    parts[n - 1].clone()
}

/// The last segment of a URL or a path, without its PDF extension.
pub fn file_stem_from_url_or_path(s: &str) -> (r: String)
    ensures
        r@ == file_stem(s@),
{
    let segment = last_piece(last_piece(trim(s), '/').as_str(), '\\');
    strip_pdf_ext(segment.as_str()).to_owned()
}

/// Whether `s` stands for a title that is not known yet.
pub fn is_generic_placeholder(s: &str) -> (r: bool)
    ensures
        r == generic_placeholder(s@),
{
    let lower = to_ascii_lowercase(trim(s));
    let l = lower.as_str();
    same(l, "") || same(l, "pdf") || same(l, "untitled") || same(l, "untitled paper") || same(
        l,
        "placeholder",
    ) || same(l, "placeholder title") || same(l, "notes") || same(l, "paper") || same(l, "未命名")
        || same(l, "未命名论文") || same(l, "无标题")
}

/// Whether a heading names the old title.
pub fn matches_old_title(h1_text: &str, old_title: &str) -> (r: bool)
    ensures
        r == names_old_title(h1_text@, old_title@),
{
    let h1_trim = trim(h1_text);
    let old_trim = trim(old_title);
    if h1_trim.is_empty() || old_trim.is_empty() {
        return false;
    }
    if eq_ignore_ascii_case(h1_trim, old_trim) {
        return true;
    }
    let h1_stem = strip_pdf_ext(h1_trim);
    let old_stem = strip_pdf_ext(old_trim);
    if !h1_stem.is_empty() && eq_ignore_ascii_case(h1_stem, old_stem) {
        return true;
    }
    let h1_url_stem = file_stem_from_url_or_path(h1_trim);
    let old_url_stem = file_stem_from_url_or_path(old_trim);
    !h1_url_stem.as_str().is_empty() && eq_ignore_ascii_case(
        h1_url_stem.as_str(),
        old_url_stem.as_str(),
    )
}

/// Whether the user wrote `line`.
fn is_user_line(line: &str, old_title: &str) -> (r: bool)
    ensures
        r == user_line(line@, old_title@),
{
    let t = trim(line);
    let cs = chars_of(t);
    if cs.len() == 0 || starts_with(t, "# ") || cs[0] == '>' {
        return false;
    }
    if same(t, "---") || same(t, "***") {
        return false;
    }
    !(matches_old_title(t, old_title) || is_generic_placeholder(t))
}

/// Whether a note holds a line that the user wrote.
pub fn has_user_notes(content_part: &str, old_title: &str) -> (r: bool)
    ensures
        r == user_notes(content_part@, old_title@),
{
    let all = lines(content_part);
    let ghost views = contents(all@);
    let mut i: usize = 0;
    while i < all.len()
        invariant
            views == contents(all@),
            views == line_seq(content_part@),
            i <= all.len(),
            forall|j: int| 0 <= j < i ==> !user_line(#[trigger] views[j], old_title@),
        decreases all.len() - i,
    {
        assert(views[i as int] == all@[i as int]@);
        if is_user_line(all[i].as_str(), old_title) {
            return true;
        }
        i = i + 1;
    }
    false
}

/// Whether `line` stands in for the title without being a heading.
fn is_raw_placeholder(line: &str, old: &str) -> (r: bool)
    ensures
        r == raw_placeholder(line@, old@),
{
    let t = trim(line);
    !t.is_empty() && (matches_old_title(t, old) || is_generic_placeholder(t) || same(
        strip_pdf_ext(t),
        strip_pdf_ext(old),
    ))
}

/// Why a heading makes way for the new title.
fn reason_to_replace(h1: &str, old: &str, user: bool) -> (r: Option<&'static str>)
    ensures
        match r {
            Some(reason) => replacement_reason(h1@, old@, user) == Some(reason@),
            None => replacement_reason(h1@, old@, user) is None,
        },
{
    if !old.is_empty() && same(h1, old) {
        Some("exact match with old title")
    } else if !old.is_empty() && matches_old_title(h1, old) {
        Some("stem / filename / URL match with old title")
    } else if is_generic_placeholder(h1) {
        Some("generic placeholder heading")
    } else if !user {
        Some("untouched placeholder note")
    } else {
        None
    }
}

/// Puts `line` in the place of `all[at]`.
fn set_line(all: &mut Vec<String>, at: usize, line: String)
    requires
        at < old(all).len(),
    ensures
        contents(final(all)@) == contents(old(all)@).update(at as int, line@),
{
    let ghost before = all@;
    all.set(at, line);
    assert(contents(all@) =~= contents(before).update(at as int, line@));
}

/// The lines of a note under its new title, and what became of its heading.
fn retitle_lines(content_part: &str, old: &str, new: &str) -> (r: (Vec<String>, H1Action))
    ensures
        contents(r.0@) == retitled_lines(content_part@, old@, new@).0,
        r.1@ == retitled_lines(content_part@, old@, new@).1,
{
    let user = has_user_notes(content_part, old);
    let mut all = lines(content_part);
    let ghost views = contents(all@);
    let heading = concat("# ", new);
    let accepts = |line: &str| -> (b: bool)
        ensures b == "# "@.is_prefix_of(line@)
    {
        starts_with(line, "# ")
    };
    let at: usize = find_line(&all, 0, accepts, Ghost(headings()));
    if at < all.len() {
        assert(views[at as int] == all@[at as int]@);
        proof {
            reveal_strlit("# ");
        }
        let line = all[at].clone();
        let n: usize = chars_of(line.as_str()).len();
        let behind = line.as_str().substring_char(2, n);
        assert(behind@ =~= views[at as int].skip(2));
        let h1 = trim(behind);
        match reason_to_replace(h1, old, user) {
            Some(reason) => {
                if !same(h1, new) {
                    set_line(&mut all, at, heading);
                    (
                        all,
                        H1Action::Replaced { old_h1: h1.to_owned(), new_h1: new.to_owned(), reason },
                    )
                } else {
                    (all, H1Action::Unchanged)
                }
            },
            None => (
                all,
                H1Action::Preserved {
                    h1: h1.to_owned(),
                    reason: "user custom heading preserved",
                },
            ),
        }
    } else if !user {
        let accepts = |line: &str| -> (b: bool)
            ensures b == raw_placeholder(line@, old@)
        {
            is_raw_placeholder(line, old)
        };
        let raw: usize = find_line(&all, 0, accepts, Ghost(raw_placeholders(old@)));
        if raw < all.len() {
            assert(views[raw as int] == all@[raw as int]@);
            let line = all[raw].clone();
            set_line(&mut all, raw, heading);
            (
                all,
                H1Action::Replaced {
                    old_h1: trim(line.as_str()).to_owned(),
                    new_h1: new.to_owned(),
                    reason: "raw placeholder line replaced",
                },
            )
        } else {
            let ghost before = all@;
            all.insert(0, heading);
            assert(contents(all@) =~= seq![heading@] + contents(before));
            (all, H1Action::Inserted { new_h1: new.to_owned() })
        }
    } else {
        (all, H1Action::Unchanged)
    }
}

/// The text of a note under its new title, and what became of its heading.
fn retitle(content_part: &str, old: &str, new: &str) -> (r: (String, H1Action))
    ensures
        r.0@ == retitled(content_part@, old@, new@),
        r.1@ == retitled_lines(content_part@, old@, new@).1,
{
    let (all, action) = retitle_lines(content_part, old, new);
    proof {
        reveal_strlit("\n");
        assert("\n"@ =~= seq!['\n']);
    }
    let mut text = join(&all, "\n");
    let cs = chars_of(content_part);
    let n: usize = cs.len();
    if (n > 0 && cs[n - 1] == '\n') || (n == 0 && !text.as_str().is_empty()) {
        text.push('\n');
    }
    (text, action)
}

/// Whether `all` holds `s`.
fn holds(all: &Vec<String>, s: &str) -> (r: bool)
    ensures
        r == contents(all@).contains(s@),
{
    let ghost views = contents(all@);
    let mut i: usize = 0;
    while i < all.len()
        invariant
            views == contents(all@),
            i <= all.len(),
            forall|j: int| 0 <= j < i ==> views[j] != s@,
        decreases all.len() - i,
    {
        assert(views[i as int] == all@[i as int]@);
        if same(all[i].as_str(), s) {
            assert(views[i as int] == s@);
            return true;
        }
        i = i + 1;
    }
    false
}

/// Appends `s` to `all`.
fn push_copy(all: &mut Vec<String>, s: &str)
    ensures
        contents(final(all)@) == contents(old(all)@).push(s@),
{
    let ghost before = all@;
    all.push(s.to_owned());
    assert(contents(all@) =~= contents(before).push(s@));
}

/// A note under its new title, and what was done to it.
pub fn patch_notes_title_and_alias_with_report(
    body: &str,
    old_title: &str,
    new_title: &str,
) -> (r: (String, NotesPatchReport))
    ensures
        r.0@ == patched_note(body@, old_title@, new_title@),
        crate::text::content(r.1.alias_added) == alias_reported(body@, old_title@, new_title@),
        r.1.h1_action@ == heading_change(body@, old_title@, new_title@),
{
    let new = trim(new_title);
    if new.is_empty() {
        return (
            body.to_owned(),
            NotesPatchReport { alias_added: None, h1_action: H1Action::Unchanged },
        );
    }
    let old = trim(old_title);
    let (end, existing) = parse_frontmatter_aliases(body);
    let ghost known = contents(existing@);
    let mut merged = existing;
    let mut changed = false;
    let mut alias_added: Option<String> = None;
    if !old.is_empty() && !holds(&merged, old) && !same(old, new) {
        push_copy(&mut merged, old);
        changed = true;
    }
    assert(contents(merged@) == with_old_title(known, old@, new@));
    assert(contents(merged@).contains(new@) == known.contains(new@)) by {
        let kept = contents(merged@);
        if known.contains(new@) {
            let j = choose|j: int| 0 <= j < known.len() && known[j] == new@;
            assert(kept[j] == new@);
        }
        if kept.contains(new@) {
            let j = choose|j: int| 0 <= j < kept.len() && kept[j] == new@;
            assert(known[j] == new@);
        }
    }
    if !holds(&merged, new) {
        push_copy(&mut merged, new);
        changed = true;
        alias_added = Some(new.to_owned());
    }
    let mut updated = body.to_owned();
    assert(changed == (contents(merged@).len() != known.len()));
    proof {
        if has_frontmatter(pieces(body@, '\n')) {
            lemma_front_and_rest(body@);
        }
        if !changed {
            assert(contents(merged@) == known);
        }
    }
    if changed {
        if end == 0 {
            updated = prepend_new_aliases(body, &merged);
        } else {
            match patch_aliases(body, &merged) {
                Some(next) => {
                    updated = next;
                },
                None => {},
            }
        }
    }
    assert(updated@ == realiased(body@, old@, new@));
    let (front_end, _aliases) = parse_frontmatter_aliases(updated.as_str());
    proof {
        if has_frontmatter(pieces(updated@, '\n')) {
            lemma_front_and_rest(updated@);
        }
    }
    let total: usize = chars_of(updated.as_str()).len();
    let front = updated.as_str().substring_char(0, front_end);
    let rest = updated.as_str().substring_char(front_end, total);
    assert(front@ =~= front_text(updated@));
    assert(rest@ =~= rest_text(updated@));
    let (text, h1_action) = retitle(rest, old, new);
    let mut note = front.to_owned();
    if !text.as_str().is_empty() {
        let cs = chars_of(front);
        if front_end > 0 && cs[front_end - 1] != '\n' {
            note.push('\n');
        }
        note.append(text.as_str());
    }
    (note, NotesPatchReport { alias_added, h1_action })
}

/// A note under its new title.
pub fn patch_notes_title_and_alias(body: &str, old_title: &str, new_title: &str) -> (r: String)
    ensures
        r@ == patched_note(body@, old_title@, new_title@),
{
    let (updated, _report) = patch_notes_title_and_alias_with_report(body, old_title, new_title);
    updated
}

/// What becomes of a note on disk.
#[derive(Debug, Clone, PartialEq, Eq)]
pub enum NotesSync {
    /// There is no note to read; nothing is done.
    Unreadable,
    /// The note is written back.
    Write { updated: String, report: NotesPatchReport },
    /// The note stays as it is.
    Unchanged { report: NotesPatchReport },
}

/// Synchronize NOTES.md when a paper's title changes, given what was read of it:
/// 1. Appends `new_title` to YAML frontmatter aliases (keeps old aliases for wiki links).
/// 2. If the note heading matches `old_title` or is a placeholder, replaces it with `# {new_title}`.
///
/// A note is written only where the patch changed it.
pub fn sync_notes_title_and_alias(body: Option<&str>, old_title: &str, new_title: &str) -> (r:
    NotesSync)
    ensures
        match body {
            None => r is Unreadable,
            Some(text) => {
                let now = patched_note(text@, old_title@, new_title@);
                &&& now != text@ <==> r is Write
                &&& now == text@ <==> r is Unchanged
                &&& r matches NotesSync::Write { updated, report } ==> {
                    &&& updated@ == now
                    &&& crate::text::content(report.alias_added) == alias_reported(
                        text@,
                        old_title@,
                        new_title@,
                    )
                    &&& report.h1_action@ == heading_change(text@, old_title@, new_title@)
                }
                &&& r matches NotesSync::Unchanged { report } ==> {
                    &&& crate::text::content(report.alias_added) == alias_reported(
                        text@,
                        old_title@,
                        new_title@,
                    )
                    &&& report.h1_action@ == heading_change(text@, old_title@, new_title@)
                }
            },
        },
{
    match body {
        None => NotesSync::Unreadable,
        Some(text) => {
            let (updated, report) = patch_notes_title_and_alias_with_report(
                text,
                old_title,
                new_title,
            );
            if same(updated.as_str(), text) {
                NotesSync::Unchanged { report }
            } else {
                NotesSync::Write { updated, report }
            }
        },
    }
}

/// Append the new title to NOTES.md frontmatter aliases (best-effort; keeps
/// old aliases so existing `[[...]]` links keep resolving), given what was read of it.
/// The text to write back, where there is any.
pub fn append_title_alias_best_effort(body: Option<&str>, title: &str) -> (r: Option<String>)
    ensures
        match (body, r) {
            (None, r) => r is None,
            (Some(text), Some(updated)) => {
                &&& updated@ == patched_note(text@, Seq::empty(), title@)
                &&& updated@ != text@
            },
            (Some(text), None) => patched_note(text@, Seq::empty(), title@) == text@,
        },
{
    proof {
        reveal_strlit("");
        assert(""@ =~= Seq::<char>::empty());
    }
    match sync_notes_title_and_alias(body, "", title) {
        NotesSync::Write { updated, report: _ } => Some(updated),
        _ => None,
    }
}

} // verus!
