//! What becomes of the heading of a note, said of the characters of its lines and of its titles.
use crate::frontmatter::{
    front_text, has_frontmatter, lemma_first_line_is, parse_frontmatter_aliases,
};
use crate::notes::{
    file_stem_from_url_or_path, generic_placeholder, has_user_notes, headings,
    is_generic_placeholder, matches_old_title, names_old_title,
    patch_notes_title_and_alias_with_report, pdf_stem, raw_placeholders, strip_pdf_ext, user_line,
    H1Action, NotesPatchReport,
};
use crate::notes_laws::{lemma_patched_text, note_text};
use crate::text::{
    contents, eq_ignore_ascii_case, joined, lemma_pieces_around_separator,
    lemma_pieces_hold_no_separator, lemma_pieces_nonempty, lemma_pieces_single,
    lemma_trimmed_again, line_seq, lines, lowered, pieces, to_ascii_lowercase, trim, trimmed,
    trimmed_start, white_space,
};
use crate::text_laws::{lemma_trimmed_end_bounds, lemma_trimmed_start_bounds};
use vstd::prelude::*;

verus! {

/// A name loses the white space around it. Then it loses the extension of a PDF file, in lower or
/// in upper case, and the white space before that; any other name loses nothing more.
pub proof fn law_pdf_extension(s: &str, t: &str, stem: &str, stem_trimmed: &str, r: &str)
    requires
        call_ensures(strip_pdf_ext, (s,), r),
        call_ensures(trim, (s,), t),
        call_ensures(trim, (stem,), stem_trimmed),
    ensures
        t@ == stem@ + ".pdf"@ || t@ == stem@ + ".PDF"@ ==> r@ == stem_trimmed@,
        (forall|a: Seq<char>| t@ != #[trigger] (a + ".pdf"@) && t@ != a + ".PDF"@) ==> r@ == t@,
{
    reveal_strlit(".pdf");
    reveal_strlit(".PDF");
    assert(".pdf"@.len() == 4 && ".PDF"@.len() == 4);
    if t@ == stem@ + ".pdf"@ || t@ == stem@ + ".PDF"@ {
        assert(t@.take(t@.len() - 4) =~= stem@);
        assert(t@.skip(t@.len() - 4) =~= ".pdf"@ || t@.skip(t@.len() - 4) =~= ".PDF"@);
    }
    if t@.len() >= 4 {
        let a = t@.take(t@.len() - 4);
        if ".pdf"@.is_suffix_of(t@) {
            assert(t@ =~= a + ".pdf"@);
        }
        if ".PDF"@.is_suffix_of(t@) {
            assert(t@ =~= a + ".PDF"@);
        }
    }
}

/// The last piece of a text is what stands behind the last separator.
proof fn lemma_last_piece(s: Seq<char>, sep: char)
    ensures
        ({
            let p = pieces(s, sep).last();
            let at = s.len() - p.len();
            &&& at >= 0
            &&& p == s.skip(at)
            &&& !p.contains(sep)
            &&& at > 0 ==> s[at - 1] == sep
        }),
    decreases s.len(),
{
    lemma_pieces_nonempty(s, sep);
    lemma_pieces_hold_no_separator(s, sep);
    let all = pieces(s, sep);
    assert(!all[all.len() - 1].contains(sep));
    if s.len() > 0 {
        lemma_last_piece(s.drop_last(), sep);
        lemma_pieces_nonempty(s.drop_last(), sep);
        let p = all.last();
        assert(p =~= s.skip(s.len() - p.len()));
    } else {
        assert(all.last() =~= s.skip(0));
    }
}

proof fn lemma_last_piece_is(dir: Seq<char>, name: Seq<char>, sep: char)
    requires
        !name.contains(sep),
        dir.len() > 0 ==> dir.last() == sep,
    ensures
        pieces(dir + name, sep).last() == name,
{
    lemma_pieces_single(name, sep);
    if dir.len() > 0 {
        let head = dir.drop_last();
        lemma_pieces_around_separator(head, name, sep);
        assert(dir + name =~= head + seq![sep] + name);
    } else {
        assert(dir + name =~= name);
    }
}

/// The stem of a URL or a path is that of the name behind its last slash or backslash.
pub proof fn law_file_stem(s: &str, t: &str, dir: Seq<char>, name: &str, stem: &str, r: String)
    requires
        call_ensures(file_stem_from_url_or_path, (s,), r),
        call_ensures(trim, (s,), t),
        t@ == dir + name@,
        !name@.contains('/'),
        !name@.contains('\\'),
        dir.len() > 0 ==> dir.last() == '/' || dir.last() == '\\',
        call_ensures(strip_pdf_ext, (name,), stem),
    ensures
        r@ == stem@,
{
    let p = pieces(t@, '/').last();
    lemma_last_piece(t@, '/');
    let at = t@.len() - p.len();
    if p.len() < name@.len() {
        assert(t@[at - 1] == name@[at - 1 - dir.len()]);
        assert(name@.contains('/'));
    }
    let e = p.take(p.len() - name@.len());
    assert(p =~= e + name@);
    if e.len() > 0 {
        assert(e.last() == t@[dir.len() - 1]);
        assert(e.last() == dir.last());
        if e.last() == '/' {
            assert(p[e.len() - 1] == '/');
            assert(p.contains('/'));
        }
    }
    lemma_last_piece_is(e, name@, '\\');
}

/// A heading stands for a title that is not known yet exactly if it is blank or one of ten words,
/// in whatever case and with whatever white space around them.
pub proof fn law_generic_placeholder(s: &str, t: &str, lower: String, r: bool)
    requires
        call_ensures(is_generic_placeholder, (s,), r),
        call_ensures(trim, (s,), t),
        call_ensures(to_ascii_lowercase, (t,), lower),
    ensures
        t@.len() == 0 ==> r,
        lower@ == "pdf"@ || lower@ == "untitled"@ || lower@ == "untitled paper"@ || lower@
            == "placeholder"@ || lower@ == "placeholder title"@ || lower@ == "notes"@ || lower@
            == "paper"@ || lower@ == "未命名"@ || lower@ == "未命名论文"@ || lower@ == "无标题"@ ==> r,
        r ==> t@.len() == 0 || lower@ == "pdf"@ || lower@ == "untitled"@ || lower@
            == "untitled paper"@ || lower@ == "placeholder"@ || lower@ == "placeholder title"@
            || lower@ == "notes"@ || lower@ == "paper"@ || lower@ == "未命名"@ || lower@
            == "未命名论文"@ || lower@ == "无标题"@,
{
    reveal_strlit("");
    assert(lower@.len() == t@.len());
    assert(t@.len() == 0 ==> lower@ =~= ""@);
}

/// A heading names the old title exactly if neither is blank and they agree, up to the case of
/// ASCII letters, as they stand, without their PDF extensions, or by the names of their files. An
/// empty stem agrees with nothing.
pub proof fn law_old_title_is_matched(
    h1: &str,
    old: &str,
    r: bool,
    h1_trimmed: &str,
    old_trimmed: &str,
    h1_stem: &str,
    old_stem: &str,
    h1_file: String,
    old_file: String,
    h1_file_text: &str,
    old_file_text: &str,
    same_text: bool,
    same_stem: bool,
    same_file: bool,
)
    requires
        call_ensures(matches_old_title, (h1, old), r),
        call_ensures(trim, (h1,), h1_trimmed),
        call_ensures(trim, (old,), old_trimmed),
        call_ensures(strip_pdf_ext, (h1_trimmed,), h1_stem),
        call_ensures(strip_pdf_ext, (old_trimmed,), old_stem),
        call_ensures(file_stem_from_url_or_path, (h1_trimmed,), h1_file),
        call_ensures(file_stem_from_url_or_path, (old_trimmed,), old_file),
        h1_file_text@ == h1_file@,
        old_file_text@ == old_file@,
        call_ensures(eq_ignore_ascii_case, (h1_trimmed, old_trimmed), same_text),
        call_ensures(eq_ignore_ascii_case, (h1_stem, old_stem), same_stem),
        call_ensures(eq_ignore_ascii_case, (h1_file_text, old_file_text), same_file),
    ensures
        r <==> h1_trimmed@.len() > 0 && old_trimmed@.len() > 0 && (same_text || (h1_stem@.len() > 0
            && same_stem) || (h1_file@.len() > 0 && same_file)),
{
}

/// A text, without white space around it, that is not empty, does not start with a hash and a
/// space, does not start with `>`, and is not exactly three hyphens or three asterisks.
pub open spec fn prose(t: Seq<char>) -> bool {
    &&& t.len() > 0
    &&& !(t.len() >= 2 && t[0] == '#' && t[1] == ' ')
    &&& t[0] != '>'
    &&& t != seq!['-', '-', '-']
    &&& t != seq!['*', '*', '*']
}

pub proof fn lemma_user_line(line: Seq<char>, old: Seq<char>)
    ensures
        user_line(line, old) <==> prose(trimmed(line)) && !names_old_title(trimmed(line), old)
            && !generic_placeholder(trimmed(line)),
{
    let t = trimmed(line);
    reveal_strlit("# ");
    reveal_strlit("---");
    reveal_strlit("***");
    assert("---"@ =~= seq!['-', '-', '-']);
    assert("***"@ =~= seq!['*', '*', '*']);
    if t.len() >= 2 && t[0] == '#' && t[1] == ' ' {
        assert(t.take(2) =~= "# "@);
    }
    if "# "@.is_prefix_of(t) {
        assert(t.take(2)[0] == t[0] && t.take(2)[1] == t[1]);
    }
}

/// The user wrote in a note exactly if one of its lines is prose that neither matches the old title
/// nor is a placeholder.
pub proof fn law_user_notes(
    content_part: &str,
    old_title: &str,
    r: bool,
    all: Vec<String>,
    texts: Seq<&str>,
    matching: Seq<bool>,
    generic: Seq<bool>,
)
    requires
        call_ensures(has_user_notes, (content_part, old_title), r),
        call_ensures(lines, (content_part,), all),
        texts.len() == all@.len(),
        matching.len() == all@.len(),
        generic.len() == all@.len(),
        forall|i: int| 0 <= i < all@.len() ==> (#[trigger] texts[i])@ == trimmed(all@[i]@),
        forall|i: int|
            0 <= i < all@.len() ==> call_ensures(
                matches_old_title,
                (texts[i], old_title),
                #[trigger] matching[i],
            ),
        forall|i: int|
            0 <= i < all@.len() ==> call_ensures(
                is_generic_placeholder,
                (texts[i],),
                #[trigger] generic[i],
            ),
    ensures
        r <==> exists|i: int|
            0 <= i < all@.len() && prose((#[trigger] texts[i])@) && !matching[i] && !generic[i],
{
    let seen = line_seq(content_part@);
    assert forall|i: int| 0 <= i < all@.len() implies user_line(seen[i], old_title@) == (prose(
        (#[trigger] texts[i])@,
    ) && !matching[i] && !generic[i]) by {
        assert(contents(all@)[i] == all@[i]@);
        lemma_user_line(seen[i], old_title@);
    }
    if r {
        let i = choose|i: int| 0 <= i < seen.len() && user_line(#[trigger] seen[i], old_title@);
        assert(prose(texts[i]@));
    }
    if exists|i: int|
        0 <= i < all@.len() && prose((#[trigger] texts[i])@) && !matching[i] && !generic[i] {
        let i = choose|i: int|
            0 <= i < all@.len() && prose((#[trigger] texts[i])@) && !matching[i] && !generic[i];
        assert(user_line(seen[i], old_title@));
    }
}

/// A bullet is a line that the user wrote, whatever it says, unless it matches the old title.
pub proof fn law_bullet_is_a_user_note(
    content_part: &str,
    old_title: &str,
    r: bool,
    all: Vec<String>,
    i: int,
    t: Seq<char>,
    text: &str,
)
    requires
        call_ensures(has_user_notes, (content_part, old_title), r),
        call_ensures(lines, (content_part,), all),
        0 <= i < all@.len(),
        all@[i]@ == seq!['-', ' '] + t,
        text@ == trimmed(all@[i]@),
        call_ensures(matches_old_title, (text, old_title), false),
    ensures
        r,
{
    let line = all@[i]@;
    assert(contents(all@)[i] == line);
    lemma_bullet(t);
    lemma_user_line(line, old_title@);
    assert(user_line(line_seq(content_part@)[i], old_title@));
}

/// No placeholder starts with a hyphen.
proof fn lemma_no_placeholder(l: Seq<char>)
    requires
        l.len() > 0,
        l[0] == '-',
    ensures
        l != ""@,
        l != "pdf"@,
        l != "untitled"@,
        l != "untitled paper"@,
        l != "placeholder"@,
        l != "placeholder title"@,
        l != "notes"@,
        l != "paper"@,
        l != "未命名"@,
        l != "未命名论文"@,
        l != "无标题"@,
{
    reveal_strlit("");
    reveal_strlit("pdf");
    reveal_strlit("untitled");
    reveal_strlit("untitled paper");
    reveal_strlit("placeholder");
    reveal_strlit("placeholder title");
    reveal_strlit("notes");
    reveal_strlit("paper");
    reveal_strlit("未命名");
    reveal_strlit("未命名论文");
    reveal_strlit("无标题");
    assert("pdf"@[0] == 'p');
    assert("untitled"@[0] == 'u');
    assert("untitled paper"@[0] == 'u');
    assert("placeholder"@[0] == 'p');
    assert("placeholder title"@[0] == 'p');
    assert("notes"@[0] == 'n');
    assert("paper"@[0] == 'p');
    assert("未命名"@[0] == '未');
    assert("未命名论文"@[0] == '未');
    assert("无标题"@[0] == '无');
}

/// A bullet is prose and no placeholder.
pub proof fn lemma_bullet(t: Seq<char>)
    ensures
        prose(trimmed(seq!['-', ' '] + t)),
        !generic_placeholder(trimmed(seq!['-', ' '] + t)),
{
    let line = seq!['-', ' '] + t;
    let kept = trimmed(line);
    assert(line[0] == '-');
    lemma_trimmed_start_bounds(line);
    lemma_trimmed_end_bounds(line);
    assert(trimmed_start(line) == line);
    if kept.len() == 0 {
        assert(white_space(line[0]));
    }
    assert(kept[0] == '-');
    assert(kept.len() >= 2 ==> kept[1] == ' ');
    lemma_trimmed_again(line);
    let l = lowered(trimmed(kept));
    assert(l[0] == '-');
    lemma_no_placeholder(l);
}

/// A line that starts with a hash and a space.
pub open spec fn heading_line(line: Seq<char>) -> bool {
    line.len() >= 2 && line[0] == '#' && line[1] == ' '
}

pub proof fn lemma_heading_lines(lines: Seq<Seq<char>>)
    ensures
        forall|i: int| 0 <= i < lines.len() ==> headings()(#[trigger] lines[i]) == heading_line(
            lines[i],
        ),
{
    reveal_strlit("# ");
    assert forall|i: int| 0 <= i < lines.len() implies headings()(#[trigger] lines[i])
        == heading_line(lines[i]) by {
        let line = lines[i];
        if line.len() >= 2 {
            assert(line.take(2)[0] == line[0] && line.take(2)[1] == line[1]);
            if heading_line(line) {
                assert(line.take(2) =~= "# "@);
            }
        }
    }
}

/// `note` is `front` followed by `lines`, each but the last with a line feed behind it. The last
/// has one where `text` ends with one or is empty.
pub open spec fn written_behind(
    note: Seq<char>,
    front: int,
    lines: Seq<Seq<char>>,
    text: Seq<char>,
) -> bool {
    let glued = joined(lines, seq!['\n']);
    note.skip(front) == if text.len() == 0 || text[text.len() - 1] == '\n' {
        glued.push('\n')
    } else {
        glued
    }
}

/// The first heading of a note is kept exactly if the user wrote in the note and the heading is
/// neither the old title nor a placeholder. Otherwise the new title takes its place. Every other
/// line of the text stays as it is.
pub proof fn law_first_heading(
    body: &str,
    old_title: &str,
    new_title: &str,
    r: (String, NotesPatchReport),
    front: (usize, Vec<String>),
    text: &str,
    all: Vec<String>,
    old: &str,
    new: &str,
    user: bool,
    note: &str,
    now: (usize, Vec<String>),
    k: int,
)
    requires
        call_ensures(
            patch_notes_title_and_alias_with_report,
            (body, old_title, new_title),
            r,
        ),
        call_ensures(parse_frontmatter_aliases, (body,), front),
        text@ == body@.skip(front.0 as int),
        call_ensures(lines, (text,), all),
        call_ensures(trim, (old_title,), old),
        call_ensures(trim, (new_title,), new),
        new@.len() > 0,
        call_ensures(has_user_notes, (text, old), user),
        note@ == r.0@,
        call_ensures(parse_frontmatter_aliases, (note,), now),
        0 <= k < all@.len(),
        heading_line(all@[k]@),
        forall|j: int| 0 <= j < k ==> !heading_line((#[trigger] all@[j])@),
    ensures
        ({
            let h1 = trimmed(all@[k]@.skip(2));
            let before = contents(all@);
            let exact = h1 == old@ && old@.len() > 0;
            let named = names_old_title(h1, old@);
            let generic = generic_placeholder(h1);
            if user && !exact && !named && !generic {
                &&& r.1.h1_action matches H1Action::Preserved { h1: kept, reason }
                &&& kept@ == h1
                &&& reason@ == "user custom heading preserved"@
                &&& written_behind(note@, now.0 as int, before, text@)
            } else if h1 == new@ {
                &&& r.1.h1_action is Unchanged
                &&& written_behind(note@, now.0 as int, before, text@)
            } else {
                &&& r.1.h1_action matches H1Action::Replaced { old_h1, new_h1, reason }
                &&& old_h1@ == h1
                &&& new_h1@ == new@
                &&& exact ==> reason@ == "exact match with old title"@
                &&& !exact && named ==> reason@ == "stem / filename / URL match with old title"@
                &&& !exact && !named && generic ==> reason@ == "generic placeholder heading"@
                &&& !exact && !named && !generic ==> reason@ == "untouched placeholder note"@
                &&& written_behind(
                    note@,
                    now.0 as int,
                    before.update(k, seq!['#', ' '] + new@),
                    text@,
                )
            }
        }),
{
    let before = contents(all@);
    lemma_heading_lines(before);
    assert(before[k] == all@[k]@);
    assert forall|j: int| 0 <= j < k implies !headings()(#[trigger] before[j]) by {
        assert(before[j] == all@[j]@);
    }
    lemma_first_line_is(before, 0, headings(), k);
    reveal_strlit("# ");
    assert("# "@ =~= seq!['#', ' ']);
    lemma_parsed_text(body@, front.0 as int, text@);
    lemma_patched_text(body@, old_title@, new_title@);
    if text@.len() == 0 {
        lemma_no_lines();
    }
}

/// A note without a heading in which the user wrote gets none. One in which the user wrote nothing
/// gets the new title: in place of the first line that matches the old title, is a placeholder or
/// has the stem of the old title, and where there is no such line, in front of all lines. Every
/// other line of the text stays as it is.
pub proof fn law_note_without_heading(
    body: &str,
    old_title: &str,
    new_title: &str,
    r: (String, NotesPatchReport),
    front: (usize, Vec<String>),
    text: &str,
    all: Vec<String>,
    old: &str,
    new: &str,
    user: bool,
    note: &str,
    now: (usize, Vec<String>),
    k: int,
)
    requires
        call_ensures(
            patch_notes_title_and_alias_with_report,
            (body, old_title, new_title),
            r,
        ),
        call_ensures(parse_frontmatter_aliases, (body,), front),
        text@ == body@.skip(front.0 as int),
        call_ensures(lines, (text,), all),
        call_ensures(trim, (old_title,), old),
        call_ensures(trim, (new_title,), new),
        new@.len() > 0,
        call_ensures(has_user_notes, (text, old), user),
        note@ == r.0@,
        call_ensures(parse_frontmatter_aliases, (note,), now),
        forall|j: int| 0 <= j < all@.len() ==> !heading_line((#[trigger] all@[j])@),
        0 <= k <= all@.len(),
        forall|j: int| 0 <= j < k ==> !stands_for_title((#[trigger] all@[j])@, old@),
        k < all@.len() ==> stands_for_title(all@[k]@, old@),
    ensures
        ({
            let before = contents(all@);
            let heading = seq!['#', ' '] + new@;
            if user {
                &&& r.1.h1_action is Unchanged
                &&& written_behind(note@, now.0 as int, before, text@)
            } else if k < all@.len() {
                &&& r.1.h1_action matches H1Action::Replaced { old_h1, new_h1, reason }
                &&& old_h1@ == trimmed(all@[k]@)
                &&& new_h1@ == new@
                &&& reason@ == "raw placeholder line replaced"@
                &&& written_behind(note@, now.0 as int, before.update(k, heading), text@)
            } else {
                &&& r.1.h1_action matches H1Action::Inserted { new_h1 }
                &&& new_h1@ == new@
                &&& written_behind(note@, now.0 as int, seq![heading] + before, text@)
            }
        }),
{
    let before = contents(all@);
    lemma_heading_lines(before);
    assert forall|j: int| 0 <= j < before.len() implies !headings()(#[trigger] before[j]) by {
        assert(before[j] == all@[j]@);
    }
    lemma_first_line_is(before, 0, headings(), before.len() as int);
    assert forall|j: int| 0 <= j < k implies !raw_placeholders(old@)(#[trigger] before[j]) by {
        assert(before[j] == all@[j]@);
    }
    if k < all@.len() {
        assert(before[k] == all@[k]@);
    }
    lemma_first_line_is(before, 0, raw_placeholders(old@), k);
    reveal_strlit("# ");
    assert("# "@ =~= seq!['#', ' ']);
    lemma_parsed_text(body@, front.0 as int, text@);
    lemma_patched_text(body@, old_title@, new_title@);
    if text@.len() == 0 {
        lemma_no_lines();
    }
}

/// A line that matches the old title, is a placeholder, or has the stem of the old title.
pub open spec fn stands_for_title(line: Seq<char>, old: Seq<char>) -> bool {
    let t = trimmed(line);
    &&& t.len() > 0
    &&& names_old_title(t, old) || generic_placeholder(t) || pdf_stem(t) == pdf_stem(old)
}

proof fn lemma_no_lines()
    ensures
        line_seq(Seq::empty()) == Seq::<Seq<char>>::empty(),
{
    assert(pieces(Seq::empty(), '\n') =~= seq![Seq::<char>::empty()]);
    assert(line_seq(Seq::empty()) =~= Seq::<Seq<char>>::empty());
}

/// What follows the frontmatter is the text of a note.
proof fn lemma_parsed_text(body: Seq<char>, end: int, text: Seq<char>)
    requires
        end == front_text(body).len(),
        text == body.skip(end),
    ensures
        text == note_text(body),
{
    if !has_frontmatter(pieces(body, '\n')) {
        assert(body.skip(0) =~= body);
    }
}

} // verus!
