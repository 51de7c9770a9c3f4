//! What becomes of the aliases of a note and of its frontmatter, said of what is read of the note
//! before and after.
use crate::frontmatter::{
    aliases_of, front_text, has_frontmatter, law_patched_reads_back, law_prepended_reads_back,
    lemma_front_and_rest, parse_frontmatter_aliases, patch_aliases, prepend_new_aliases,
};
use crate::notes::{
    append_title_alias_best_effort, merged_aliases, patch_notes_title_and_alias,
    patch_notes_title_and_alias_with_report, realiased, sync_notes_title_and_alias, with_old_title,
    H1Action, NotesPatchReport, NotesSync,
};
use crate::notes_laws::{law_patched_note_aliases, lemma_patched_text};
use crate::text::{content, contents, pieces, trim};
use vstd::prelude::*;

verus! {

/// A patched note has the aliases that it had, in their order. Behind them stands the old title and
/// then the new one, each only if it is missing; an old title that is blank or is the new one is
/// not added. The new title is reported as added exactly if it was missing.
pub proof fn law_titles_become_aliases(
    body: &str,
    old_title: &str,
    new_title: &str,
    r: (String, NotesPatchReport),
    before: (usize, Vec<String>),
    old: &str,
    new: &str,
    note: &str,
    now: (usize, Vec<String>),
)
    requires
        call_ensures(
            patch_notes_title_and_alias_with_report,
            (body, old_title, new_title),
            r,
        ),
        call_ensures(parse_frontmatter_aliases, (body,), before),
        call_ensures(trim, (old_title,), old),
        call_ensures(trim, (new_title,), new),
        new@.len() > 0,
        note@ == r.0@,
        call_ensures(parse_frontmatter_aliases, (note,), now),
    ensures
        ({
            let had = contents(before.1@);
            let has = contents(now.1@);
            let old_is_new = old@.len() > 0 && old@ != new@ && !had.contains(old@);
            let new_is_new = !had.contains(new@);
            &&& old_is_new && new_is_new ==> has == had + seq![old@, new@]
            &&& old_is_new && !new_is_new ==> has == had + seq![old@]
            &&& !old_is_new && new_is_new ==> has == had + seq![new@]
            &&& !old_is_new && !new_is_new ==> has == had
            &&& new_is_new ==> r.1.alias_added is Some && r.1.alias_added->Some_0@ == new@
            &&& !new_is_new ==> r.1.alias_added is None
        }),
{
    let had = contents(before.1@);
    law_patched_note_aliases(body@, old_title@, new_title@);
    let kept = with_old_title(had, old@, new@);
    let merged = merged_aliases(had, old@, new@);
    assert(kept.contains(new@) == had.contains(new@)) by {
        if had.contains(new@) {
            let j = choose|j: int| 0 <= j < had.len() && had[j] == new@;
            assert(kept[j] == new@);
        }
        if kept.contains(new@) {
            let j = choose|j: int| 0 <= j < kept.len() && kept[j] == new@;
            assert(had[j] == new@);
        }
    }
    assert(had.push(old@) =~= had + seq![old@]);
    assert(had.push(new@) =~= had + seq![new@]);
    assert(had.push(old@).push(new@) =~= had + seq![old@, new@]);
    assert(contents(now.1@) == merged);
}

/// The frontmatter of a note under its new title is the one that it had, where no alias is missing.
/// Otherwise it is the one that the aliases are written into, which is new where there was none.
pub proof fn law_frontmatter_of_patched_note(
    body: &str,
    old_title: &str,
    new_title: &str,
    r: (String, NotesPatchReport),
    before: (usize, Vec<String>),
    new: &str,
    note: &str,
    now: (usize, Vec<String>),
    prepended: String,
    patched: Option<String>,
)
    requires
        call_ensures(
            patch_notes_title_and_alias_with_report,
            (body, old_title, new_title),
            r,
        ),
        call_ensures(parse_frontmatter_aliases, (body,), before),
        call_ensures(trim, (new_title,), new),
        new@.len() > 0,
        note@ == r.0@,
        call_ensures(parse_frontmatter_aliases, (note,), now),
        call_ensures(prepend_new_aliases, (body, &now.1), prepended),
        call_ensures(patch_aliases, (body, &now.1), patched),
    ensures
        ({
            let front = note@.take(now.0 as int);
            let had = body@.take(before.0 as int);
            &&& now.0 > 0
            &&& contents(now.1@) == contents(before.1@) ==> {
                &&& before.0 > 0
                &&& had.len() > 0 && had.last() == '\n' ==> front == had
                &&& !(had.len() > 0 && had.last() == '\n') ==> front == had.push('\n')
            }
            &&& contents(now.1@) != contents(before.1@) && before.0 == 0 ==> front.is_prefix_of(
                prepended@,
            ) && prepended@ == front + body@
            &&& contents(now.1@) != contents(before.1@) && before.0 > 0 ==> {
                &&& patched is Some
                &&& patched->Some_0@ == front + body@.skip(before.0 as int)
            }
        }),
{
    let trimmed_old = crate::text::trimmed(old_title@);
    law_patched_note_aliases(body@, old_title@, new_title@);
    lemma_patched_text(body@, old_title@, new_title@);
    let had = aliases_of(body@);
    let merged = merged_aliases(had, trimmed_old, new@);
    let updated = realiased(body@, trimmed_old, new@);
    assert(contents(now.1@) == merged);
    let framed = has_frontmatter(pieces(body@, '\n'));
    assert(note@.take(now.0 as int) == front_text(note@)) by {
        if has_frontmatter(pieces(note@, '\n')) {
            lemma_front_and_rest(note@);
        }
        assert(note@.take(now.0 as int) =~= front_text(note@));
    }
    if framed {
        lemma_front_and_rest(body@);
        assert(body@.take(before.0 as int) =~= front_text(body@));
        if merged != had {
            law_patched_reads_back(body@, merged);
            lemma_front_and_rest(updated);
        }
    } else {
        crate::notes_laws::law_merging_keeps_aliases(had, trimmed_old, new@);
        assert(crate::frontmatter::block_of(pieces(body@, '\n')) =~= Seq::<Seq<char>>::empty());
        assert(had.len() == 0);
        law_prepended_reads_back(body@, merged);
        lemma_front_and_rest(updated);
    }
}

/// A blank new title leaves a note as it is, and nothing is reported.
pub proof fn law_blank_title(
    body: &str,
    old_title: &str,
    new_title: &str,
    r: (String, NotesPatchReport),
    new: &str,
)
    requires
        call_ensures(
            patch_notes_title_and_alias_with_report,
            (body, old_title, new_title),
            r,
        ),
        call_ensures(trim, (new_title,), new),
        new@.len() == 0,
    ensures
        r.0@ == body@,
        r.1.alias_added is None,
        r.1.h1_action is Unchanged,
{
}

/// The note is patched in the same way with a report and without one, and on disk. It is written
/// exactly where it was read and the patch changed it. An appended title is the new title of a note
/// without an old one.
pub proof fn law_notes_are_patched_alike(
    body: &str,
    old_title: &str,
    new_title: &str,
    patch: (String, NotesPatchReport),
    alone: String,
    synced: NotesSync,
    untitled: (String, NotesPatchReport),
    appended: Option<String>,
)
    requires
        call_ensures(
            patch_notes_title_and_alias_with_report,
            (body, old_title, new_title),
            patch,
        ),
        call_ensures(patch_notes_title_and_alias, (body, old_title, new_title), alone),
        call_ensures(sync_notes_title_and_alias, (Some(body), old_title, new_title), synced),
        call_ensures(patch_notes_title_and_alias_with_report, (body, "", new_title), untitled),
        call_ensures(append_title_alias_best_effort, (Some(body), new_title), appended),
    ensures
        alone@ == patch.0@,
        match synced {
            NotesSync::Unreadable => false,
            NotesSync::Write { updated, report } => {
                &&& patch.0@ != body@
                &&& updated@ == patch.0@
                &&& content(report.alias_added) == content(patch.1.alias_added)
                &&& report.h1_action@ == patch.1.h1_action@
            },
            NotesSync::Unchanged { report } => {
                &&& patch.0@ == body@
                &&& content(report.alias_added) == content(patch.1.alias_added)
                &&& report.h1_action@ == patch.1.h1_action@
            },
        },
        appended is None ==> untitled.0@ == body@,
        appended matches Some(text) ==> text@ == untitled.0@ && text@ != body@,
{
    reveal_strlit("");
    assert(""@ =~= Seq::<char>::empty());
}

/// A note that cannot be read is left alone.
pub proof fn law_unreadable_note(
    old_title: &str,
    new_title: &str,
    synced: NotesSync,
    appended: Option<String>,
)
    requires
        call_ensures(sync_notes_title_and_alias, (None::<&str>, old_title, new_title), synced),
        call_ensures(append_title_alias_best_effort, (None::<&str>, new_title), appended),
    ensures
        synced is Unreadable,
        appended is None,
{
}

/// Two reports of a heading that look alike say the same, text for text.
pub proof fn law_heading_reports(a: H1Action, b: H1Action)
    requires
        a@ == b@,
    ensures
        match (a, b) {
            (
                H1Action::Replaced { old_h1: o, new_h1: n, reason: w },
                H1Action::Replaced { old_h1, new_h1, reason },
            ) => o@ == old_h1@ && n@ == new_h1@ && w@ == reason@,
            (H1Action::Inserted { new_h1: n }, H1Action::Inserted { new_h1 }) => n@ == new_h1@,
            (
                H1Action::Preserved { h1: h, reason: w },
                H1Action::Preserved { h1, reason },
            ) => h@ == h1@ && w@ == reason@,
            (H1Action::Unchanged, H1Action::Unchanged) => true,
            _ => false,
        },
{
}

} // verus!
