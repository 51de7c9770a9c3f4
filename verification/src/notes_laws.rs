//! What holds of every note that is patched for a new title.
use crate::frontmatter::{
    aliases_of, first_line, front_text, has_frontmatter, law_patched_reads_back,
    law_prepended_reads_back, lemma_first_line, lemma_first_line_is, lemma_front_is_read_alone,
    line_ended, rest_text,
};
use crate::heading_laws::{heading_line, lemma_bullet, lemma_heading_lines, lemma_user_line};
use crate::notes::{
    alias_reported, generic_placeholder, heading_change, headings, merged_aliases,
    names_old_title, patched_note, raw_placeholders, realiased, retitled, retitled_lines,
    user_notes, with_old_title, HeadingChange,
};
use crate::text::{
    joined, lemma_joined_halves, lemma_joined_pieces, lemma_pieces_hold_no_separator,
    lemma_pieces_nonempty, lemma_pieces_of_joined, lemma_trimmed_again, line_seq, pieces, trimmed,
    without_cr,
};
use vstd::prelude::*;

verus! {

/// A blank new title changes nothing.
pub proof fn law_blank_title_changes_nothing(
    body: Seq<char>,
    old_title: Seq<char>,
    new_title: Seq<char>,
)
    requires
        trimmed(new_title).len() == 0,
    ensures
        patched_note(body, old_title, new_title) == body,
{
}

/// Merging keeps every alias, in its place, and adds both titles.
pub proof fn law_merging_keeps_aliases(existing: Seq<Seq<char>>, old: Seq<char>, new: Seq<char>)
    ensures
        existing.is_prefix_of(merged_aliases(existing, old, new)),
        merged_aliases(existing, old, new).contains(new),
        old.len() > 0 ==> merged_aliases(existing, old, new).contains(old),
{
    let kept = with_old_title(existing, old, new);
    let merged = merged_aliases(existing, old, new);
    assert(existing.is_prefix_of(kept));
    assert(kept.is_prefix_of(merged));
    assert(existing.is_prefix_of(merged));
    if !kept.contains(new) {
        assert(merged.last() == new);
    }
    if old.len() > 0 && old != new {
        if existing.contains(old) {
            let j = choose|j: int| 0 <= j < existing.len() && existing[j] == old;
            assert(merged[j] == old);
        } else {
            assert(kept[existing.len() as int] == old);
            assert(merged[existing.len() as int] == old);
        }
    }
}

/// Merging again adds nothing.
proof fn lemma_merging_again(existing: Seq<Seq<char>>, old: Seq<char>, new: Seq<char>)
    ensures
        merged_aliases(merged_aliases(existing, old, new), old, new) == merged_aliases(
            existing,
            old,
            new,
        ),
{
    law_merging_keeps_aliases(existing, old, new);
}

/// With the aliases written, a note has frontmatter, and what follows it is what it was.
proof fn lemma_realiased(body: Seq<char>, old: Seq<char>, new: Seq<char>)
    ensures
        ({
            let merged = merged_aliases(aliases_of(body), old, new);
            let now = realiased(body, old, new);
            let framed = has_frontmatter(pieces(body, '\n'));
            &&& has_frontmatter(pieces(now, '\n'))
            &&& framed ==> rest_text(now) == rest_text(body)
            &&& !framed ==> rest_text(now) == body
            &&& aliases_of(now) == merged
        }),
{
    let existing = aliases_of(body);
    let merged = merged_aliases(existing, old, new);
    law_merging_keeps_aliases(existing, old, new);
    if !has_frontmatter(pieces(body, '\n')) {
        assert(crate::frontmatter::block_of(pieces(body, '\n')) =~= Seq::<Seq<char>>::empty());
        assert(existing.len() == 0);
        law_prepended_reads_back(body, merged);
    } else {
        law_patched_reads_back(body, merged);
    }
}

/// The aliases of a patched note are those that it had, followed by the old title and the new
/// one as far as they were missing. The alias that is reported is one that was added.
pub proof fn law_patched_note_aliases(body: Seq<char>, old_title: Seq<char>, new_title: Seq<char>)
    requires
        trimmed(new_title).len() > 0,
    ensures
        aliases_of(patched_note(body, old_title, new_title)) == merged_aliases(
            aliases_of(body),
            trimmed(old_title),
            trimmed(new_title),
        ),
        aliases_of(body).is_prefix_of(aliases_of(patched_note(body, old_title, new_title))),
        alias_reported(body, old_title, new_title) matches Some(alias) ==> {
            &&& !aliases_of(body).contains(alias)
            &&& aliases_of(patched_note(body, old_title, new_title)).contains(alias)
        },
{
    let old = trimmed(old_title);
    let new = trimmed(new_title);
    let now = realiased(body, old, new);
    lemma_realiased(body, old, new);
    law_merging_keeps_aliases(aliases_of(body), old, new);
    lemma_retitled_is_not_empty(rest_text(now), old, new);
    lemma_front_is_read_alone(now, retitled(rest_text(now), old, new));
}

/// No line ends with a carriage return, but for a last one without a line feed.
pub open spec fn cleanly_broken(lines: Seq<Seq<char>>, ended: bool) -> bool {
    forall|i: int| #![trigger lines[i]]
        0 <= i < lines.len() && (ended || i < lines.len() - 1) ==> !(lines[i].len() > 0
            && lines[i].last() == '\r')
}

/// The text ends with a line feed, or is empty.
pub open spec fn line_fed(s: Seq<char>) -> bool {
    s.len() == 0 || s.last() == '\n'
}

/// The lines of a text hold no line feeds. They are its pieces, where no piece ends with a
/// carriage return.
proof fn lemma_lines_hold_no_line_feeds(s: Seq<char>)
    ensures
        forall|i: int| #![trigger line_seq(s)[i]]
            0 <= i < line_seq(s).len() ==> !line_seq(s)[i].contains('\n'),
        cleanly_broken(pieces(s, '\n'), false) ==> line_seq(s) == if pieces(s, '\n').last().len()
            > 0 {
            pieces(s, '\n')
        } else {
            pieces(s, '\n').drop_last()
        },
{
    let all = pieces(s, '\n');
    lemma_pieces_hold_no_separator(s, '\n');
    lemma_pieces_nonempty(s, '\n');
    let ended = all.drop_last().map_values(|line: Seq<char>| without_cr(line));
    assert forall|i: int| #![trigger line_seq(s)[i]] 0 <= i < line_seq(s).len() implies !line_seq(
        s,
    )[i].contains('\n') by {
        let line = line_seq(s)[i];
        assert(!all[i].contains('\n'));
        if line.contains('\n') {
            let j = choose|j: int| 0 <= j < line.len() && line[j] == '\n';
            assert(all[i][j] == '\n');
        }
    }
    if cleanly_broken(all, false) {
        assert forall|i: int| 0 <= i < ended.len() implies ended[i] == all[i] by {
            assert(!(all[i].len() > 0 && all[i].last() == '\r'));
        }
        assert(ended =~= all.drop_last());
        if all.last().len() > 0 {
            assert(line_seq(s) =~= all);
        }
    }
}

/// Lines, written out, read back as they are.
proof fn lemma_lines_of_joined(all: Seq<Seq<char>>, ended: bool)
    requires
        all.len() > 0,
        forall|i: int| #![trigger all[i]] 0 <= i < all.len() ==> !all[i].contains('\n'),
        cleanly_broken(all, ended),
        !ended ==> all.last().len() > 0,
    ensures
        ({
            let text = joined(all, seq!['\n']);
            line_seq(if ended {
                text.push('\n')
            } else {
                text
            }) == all
        }),
{
    let text = joined(all, seq!['\n']);
    let whole = if ended {
        text.push('\n')
    } else {
        text
    };
    lemma_pieces_of_joined(all, '\n');
    if ended {
        assert(whole.drop_last() =~= text);
        assert(pieces(whole, '\n') == all.push(Seq::<char>::empty()));
    }
    let found = pieces(whole, '\n');
    let stripped = found.drop_last().map_values(|line: Seq<char>| without_cr(line));
    assert forall|i: int| 0 <= i < stripped.len() implies stripped[i] == all[i] by {
        assert(found[i] == all[i]);
        assert(!(all[i].len() > 0 && all[i].last() == '\r'));
    }
    assert(line_seq(whole) =~= all);
}

/// A text that is not empty has lines, and its last line is not empty where the text does not
/// end with a line feed. A text whose lines end with line feeds alone is its lines with line
/// feeds between them, and one more where it ends with one.
proof fn lemma_joined_lines(s: Seq<char>)
    requires
        s.len() > 0,
    ensures
        line_seq(s).len() > 0,
        s.last() != '\n' ==> line_seq(s).last().len() > 0,
        cleanly_broken(pieces(s, '\n'), false) ==> s == if s.last() == '\n' {
            joined(line_seq(s), seq!['\n']).push('\n')
        } else {
            joined(line_seq(s), seq!['\n'])
        },
{
    let all = pieces(s, '\n');
    lemma_lines_hold_no_line_feeds(s);
    lemma_joined_pieces(s, '\n');
    lemma_pieces_nonempty(s.drop_last(), '\n');
    if s.last() == '\n' {
        let head = all.drop_last();
        assert(all =~= head + seq![Seq::<char>::empty()]);
        assert(head.len() > 0);
        lemma_joined_halves(head, seq![Seq::<char>::empty()], seq!['\n']);
        assert(s =~= joined(head, seq!['\n']).push('\n'));
    }
}

/// The lines of a retitled text are those that the new title was put into.
proof fn lemma_retitled_lines_read_back(content: Seq<char>, old: Seq<char>, new: Seq<char>)
    requires
        !new.contains('\n'),
        cleanly_broken(retitled_lines(content, old, new).0, line_fed(content)),
    ensures
        line_seq(retitled(content, old, new)) == retitled_lines(content, old, new).0,
        content.len() > 0 ==> retitled(content, old, new).len() > 0 && (content.last() == '\n'
            <==> retitled(content, old, new).last() == '\n'),
        content.len() == 0 ==> retitled(content, old, new).len() > 0 && retitled(
            content,
            old,
            new,
        ).last() == '\n',
{
    let all = line_seq(content);
    let now = retitled_lines(content, old, new).0;
    let heading = "# "@ + new;
    lemma_lines_hold_no_line_feeds(content);
    lemma_first_line(all, 0, headings());
    lemma_first_line(all, 0, raw_placeholders(old));
    reveal_strlit("# ");
    assert(!heading.contains('\n')) by {
        if heading.contains('\n') {
            let j = choose|j: int| 0 <= j < heading.len() && heading[j] == '\n';
            assert(new[j - 2] == '\n');
        }
    }
    assert forall|i: int| #![trigger now[i]] 0 <= i < now.len() implies !now[i].contains('\n') by {
        if now[i] != heading {
            if now.len() == all.len() {
                assert(now[i] == all[i]);
            } else {
                assert(now[i] == all[i - 1]);
            }
        }
    }
    if content.len() > 0 {
        lemma_joined_lines(content);
        let ended = content.last() == '\n';
        assert(now.len() > 0);
        assert(!ended ==> now.last().len() > 0) by {
            if now.last() != heading {
                assert(now.last() == all.last());
            }
        }
        lemma_lines_of_joined(now, ended);
        let text = joined(now, seq!['\n']);
        if !ended {
            lemma_joined_last(now, seq!['\n']);
        }
    } else {
        assert(pieces(content, '\n') =~= seq![Seq::<char>::empty()]);
        assert(all =~= Seq::<Seq<char>>::empty());
        assert(!user_notes(content, old));
        assert(now =~= seq![heading]);
        lemma_lines_of_joined(now, true);
    }
}

/// What is joined ends as its last part does.
proof fn lemma_joined_last(parts: Seq<Seq<char>>, sep: Seq<char>)
    requires
        parts.len() > 0,
        parts.last().len() > 0,
        !parts.last().contains('\n'),
    ensures
        joined(parts, sep).len() > 0,
        joined(parts, sep).last() == parts.last().last(),
        joined(parts, sep).last() != '\n',
{
    let last = parts.last();
    assert(last[last.len() - 1] != '\n');
}

/// A heading reads back as the title that it was made from.
proof fn lemma_heading(new_title: Seq<char>)
    ensures
        headings()("# "@ + trimmed(new_title)),
        trimmed(("# "@ + trimmed(new_title)).skip(2)) == trimmed(new_title),
{
    reveal_strlit("# ");
    let new = trimmed(new_title);
    assert(("# "@ + new).skip(2) =~= new);
    assert("# "@.is_prefix_of("# "@ + new)) by {
        assert(("# "@ + new).take(2) =~= "# "@);
    }
    lemma_trimmed_again(new_title);
}

/// Where retitling changed the lines, the new heading is the first heading among them.
proof fn lemma_new_heading_is_first(content: Seq<char>, old: Seq<char>, new_title: Seq<char>)
    requires
        retitled_lines(content, old, trimmed(new_title)).0 != line_seq(content),
    ensures
        ({
            let now = retitled_lines(content, old, trimmed(new_title)).0;
            let place = first_line(now, 0, headings());
            place < now.len() && now[place] == "# "@ + trimmed(new_title)
        }),
{
    let new = trimmed(new_title);
    let heading = "# "@ + new;
    let all = line_seq(content);
    let now = retitled_lines(content, old, new).0;
    lemma_heading(new_title);
    lemma_first_line(all, 0, headings());
    lemma_first_line(all, 0, raw_placeholders(old));
    let at = first_line(all, 0, headings());
    let place = if at < all.len() {
        at
    } else if now.len() == all.len() {
        first_line(all, 0, raw_placeholders(old))
    } else {
        0
    };
    assert(now[place] == heading);
    assert forall|i: int| 0 <= i < place implies !headings()(#[trigger] now[i]) by {
        assert(now[i] == all[i]);
    }
    lemma_first_line_is(now, 0, headings(), place);
}

/// Retitling again changes nothing.
proof fn lemma_retitling_again(content: Seq<char>, old: Seq<char>, new_title: Seq<char>)
    requires
        !trimmed(new_title).contains('\n'),
        cleanly_broken(retitled_lines(content, old, trimmed(new_title)).0, line_fed(content)),
    ensures
        ({
            let new = trimmed(new_title);
            retitled(retitled(content, old, new), old, new) == retitled(content, old, new)
        }),
{
    let new = trimmed(new_title);
    let once = retitled(content, old, new);
    let now = retitled_lines(content, old, new).0;
    lemma_retitled_lines_read_back(content, old, new);
    if now != line_seq(content) {
        lemma_new_heading_is_first(content, old, new_title);
        lemma_heading(new_title);
    } else {
        assert(user_notes(once, old) == user_notes(content, old));
    }
    assert(retitled_lines(once, old, new).0 == now);
}

/// A retitled text is not empty.
proof fn lemma_retitled_is_not_empty(content: Seq<char>, old: Seq<char>, new: Seq<char>)
    ensures
        retitled(content, old, new).len() > 0,
{
    let all = line_seq(content);
    let now = retitled_lines(content, old, new).0;
    lemma_first_line(all, 0, headings());
    lemma_first_line(all, 0, raw_placeholders(old));
    reveal_strlit("# ");
    if content.len() == 0 {
        assert(pieces(content, '\n') =~= seq![Seq::<char>::empty()]);
        assert(all =~= Seq::<Seq<char>>::empty());
        assert(!user_notes(content, old));
        assert(now =~= seq!["# "@ + new]);
    } else if content.last() != '\n' {
        lemma_joined_lines(content);
        assert(now.len() > 0);
        assert(now.last().len() > 0) by {
            if now.last() != "# "@ + new {
                assert(now.last() == all.last());
            }
        }
    }
}

/// The text of a note: what follows its frontmatter, or all of it where it has none.
pub open spec fn note_text(body: Seq<char>) -> Seq<char> {
    if has_frontmatter(pieces(body, '\n')) {
        rest_text(body)
    } else {
        body
    }
}

/// The text of a patched note can be read again line by line: the new title is one line, and no
/// line ends with a carriage return that stands before the line feed once the note is written.
pub open spec fn reads_back(body: Seq<char>, old_title: Seq<char>, new_title: Seq<char>) -> bool {
    let old = trimmed(old_title);
    let new = trimmed(new_title);
    &&& !new.contains('\n')
    &&& cleanly_broken(retitled_lines(note_text(body), old, new).0, line_fed(note_text(body)))
}

/// Where a patch reports that it replaced or inserted the heading, the first level-one heading
/// of the note reads the new title, and every other line of the text is one that was there
/// before.
pub proof fn law_new_title_is_the_heading(
    body: Seq<char>,
    old_title: Seq<char>,
    new_title: Seq<char>,
)
    requires
        trimmed(new_title).len() > 0,
        reads_back(body, old_title, new_title),
        heading_change(body, old_title, new_title) is Replaced || heading_change(
            body,
            old_title,
            new_title,
        ) is Inserted,
    ensures
        ({
            let before = line_seq(note_text(body));
            let now = line_seq(rest_text(patched_note(body, old_title, new_title)));
            let place = first_line(now, 0, headings());
            &&& place < now.len()
            &&& now[place] == "# "@ + trimmed(new_title)
            &&& now.remove(place) == before || (now.len() == before.len() && now.remove(place)
                == before.remove(place))
        }),
{
    let old = trimmed(old_title);
    let new = trimmed(new_title);
    let now = realiased(body, old, new);
    let rest = rest_text(now);
    lemma_realiased(body, old, new);
    let text = retitled(rest, old, new);
    lemma_retitled_is_not_empty(rest, old, new);
    lemma_front_is_read_alone(now, text);
    lemma_retitled_lines_read_back(rest, old, new);
    let all = line_seq(rest);
    let lines = retitled_lines(rest, old, new).0;
    lemma_first_line(all, 0, headings());
    lemma_first_line(all, 0, raw_placeholders(old));
    lemma_heading(new_title);
    let at = first_line(all, 0, headings());
    let raw = first_line(all, 0, raw_placeholders(old));
    if lines == all {
        // A heading that is replaced reads differently before and after.
        if at < all.len() {
            assert(lines[at] == "# "@ + new);
            assert(false);
        } else {
            if lines.len() == all.len() {
                assert(lines[raw] == "# "@ + new);
                assert(headings()(all[raw]));
            }
            assert(false);
        }
    }
    lemma_new_heading_is_first(rest, old, new_title);
    let place = first_line(lines, 0, headings());
    lemma_first_line(lines, 0, headings());
    if lines.len() == all.len() {
        if at < all.len() {
            assert(headings()(lines[at]));
            assert(place <= at);
            if place < at {
                assert(lines[place] == all[place]);
            }
            assert(place == at);
        } else {
            assert(headings()(lines[raw]));
            if place < raw {
                assert(lines[place] == all[place]);
            }
            assert(place == raw);
        }
        assert(lines.remove(place) =~= all.remove(place));
    } else {
        assert(headings()(lines[0]));
        assert(place == 0);
        assert(lines.remove(0) =~= all);
    }
}

/// Patching a note again with the same titles changes nothing, where the patched note can be
/// read again.
pub proof fn law_patching_again_changes_nothing(
    body: Seq<char>,
    old_title: Seq<char>,
    new_title: Seq<char>,
)
    requires
        trimmed(new_title).len() > 0 ==> reads_back(body, old_title, new_title),
    ensures
        ({
            let once = patched_note(body, old_title, new_title);
            patched_note(once, old_title, new_title) == once
        }),
{
    let old = trimmed(old_title);
    let new = trimmed(new_title);
    let once = patched_note(body, old_title, new_title);
    if new.len() > 0 {
        let merged = merged_aliases(aliases_of(body), old, new);
        let now = realiased(body, old, new);
        let rest = rest_text(now);
        lemma_realiased(body, old, new);
        let text = retitled(rest, old, new);
        lemma_retitled_is_not_empty(rest, old, new);
        lemma_front_is_read_alone(now, text);
        assert(once == line_ended(front_text(now)) + text);
        lemma_merging_again(aliases_of(body), old, new);
        assert(realiased(once, old, new) == once);
        lemma_retitling_again(rest, old, new_title);
    }
}

/// What follows the frontmatter of a patched note is the text of the note, retitled.
pub proof fn lemma_patched_text(body: Seq<char>, old_title: Seq<char>, new_title: Seq<char>)
    requires
        trimmed(new_title).len() > 0,
    ensures
        ({
            let old = trimmed(old_title);
            let new = trimmed(new_title);
            let now = patched_note(body, old_title, new_title);
            &&& rest_text(now) == retitled(note_text(body), old, new)
            &&& front_text(now) == line_ended(front_text(realiased(body, old, new)))
            &&& heading_change(body, old_title, new_title) == retitled_lines(
                note_text(body),
                old,
                new,
            ).1
        }),
{
    let old = trimmed(old_title);
    let new = trimmed(new_title);
    let now = realiased(body, old, new);
    lemma_realiased(body, old, new);
    lemma_retitled_is_not_empty(rest_text(now), old, new);
    lemma_front_is_read_alone(now, retitled(rest_text(now), old, new));
}

/// Where a note has a first level-one heading, the line at `at`, that is neither the old title nor
/// a placeholder, and a line, the one at `i`, that the user wrote, the lines behind the frontmatter
/// stay as they are. So does the text itself, where its lines end with line feeds alone.
///
/// The user wrote a line that, without the white space around it, is not empty, is no level-one
/// heading, does not start with `>`, is not exactly three hyphens or three asterisks, is no
/// placeholder and does not match the old title.
pub proof fn law_custom_heading_is_preserved(
    body: Seq<char>,
    old_title: Seq<char>,
    new_title: Seq<char>,
    at: int,
    i: int,
)
    requires
        trimmed(new_title).len() > 0,
        ({
            let old = trimmed(old_title);
            let all = line_seq(note_text(body));
            let h1 = trimmed(all[at].skip(2));
            &&& 0 <= at < all.len()
            &&& all[at].len() >= 2 && all[at][0] == '#' && all[at][1] == ' '
            &&& forall|j: int|
                0 <= j < at ==> !((#[trigger] all[j]).len() >= 2 && all[j][0] == '#' && all[j][1]
                    == ' ')
            &&& h1 != old
            &&& !names_old_title(h1, old)
            &&& !generic_placeholder(h1)
        }),
        ({
            let old = trimmed(old_title);
            let all = line_seq(note_text(body));
            let t = trimmed(all[i]);
            &&& 0 <= i < all.len()
            &&& t.len() > 0
            &&& !(t.len() >= 2 && t[0] == '#' && t[1] == ' ')
            &&& t[0] != '>'
            &&& t != seq!['-', '-', '-']
            &&& t != seq!['*', '*', '*']
            &&& !generic_placeholder(t)
            &&& !names_old_title(t, old)
        }),
    ensures
        ({
            let text = note_text(body);
            let written = joined(line_seq(text), seq!['\n']);
            &&& heading_change(body, old_title, new_title) == (HeadingChange::Preserved {
                h1: trimmed(line_seq(text)[at].skip(2)),
                reason: "user custom heading preserved"@,
            })
            &&& patched_note(body, old_title, new_title) == front_text(
                realiased(body, trimmed(old_title), trimmed(new_title)),
            ) + if text.last() == '\n' {
                written.push('\n')
            } else {
                written
            }
            &&& cleanly_broken(pieces(text, '\n'), false) ==> patched_note(
                body,
                old_title,
                new_title,
            ) == front_text(realiased(body, trimmed(old_title), trimmed(new_title))) + text
        }),
{
    let old = trimmed(old_title);
    let new = trimmed(new_title);
    let text = note_text(body);
    let all = line_seq(text);
    lemma_heading_lines(all);
    assert forall|j: int| 0 <= j < at implies !headings()(#[trigger] all[j]) by {
        assert(!heading_line(all[j]));
    }
    lemma_first_line_is(all, 0, headings(), at);
    lemma_user_line(all[i], old);
    assert(user_notes(text, old));
    lemma_realiased(body, old, new);
    if text.len() == 0 {
        assert(pieces(text, '\n') =~= seq![Seq::<char>::empty()]);
        assert(line_seq(text) =~= Seq::<Seq<char>>::empty());
    }
    lemma_joined_lines(text);
    let now = realiased(body, old, new);
    lemma_retitled_is_not_empty(text, old, new);
    lemma_front_is_read_alone(now, text);
    lemma_patched_text(body, old_title, new_title);
}

/// A note that holds a bullet keeps a first level-one heading that is neither the old title nor a
/// placeholder, whatever the bullet says, unless it matches the old title.
pub proof fn law_note_with_a_bullet_keeps_its_heading(
    body: Seq<char>,
    old_title: Seq<char>,
    new_title: Seq<char>,
    at: int,
    i: int,
    t: Seq<char>,
)
    requires
        trimmed(new_title).len() > 0,
        ({
            let old = trimmed(old_title);
            let all = line_seq(note_text(body));
            let h1 = trimmed(all[at].skip(2));
            &&& 0 <= at < all.len()
            &&& all[at].len() >= 2 && all[at][0] == '#' && all[at][1] == ' '
            &&& forall|j: int|
                0 <= j < at ==> !((#[trigger] all[j]).len() >= 2 && all[j][0] == '#' && all[j][1]
                    == ' ')
            &&& h1 != old
            &&& !names_old_title(h1, old)
            &&& !generic_placeholder(h1)
            &&& 0 <= i < all.len()
            &&& all[i] == seq!['-', ' '] + t
            &&& !names_old_title(trimmed(all[i]), old)
        }),
    ensures
        heading_change(body, old_title, new_title) == (HeadingChange::Preserved {
            h1: trimmed(line_seq(note_text(body))[at].skip(2)),
            reason: "user custom heading preserved"@,
        }),
{
    lemma_bullet(t);
    law_custom_heading_is_preserved(body, old_title, new_title, at, i);
}

} // verus!
