//! What the text operations give back, said of their arguments and results character by
//! character.
use crate::text::{
    concat, contains, contains_char, contents, ends_with, eq_ignore_ascii_case, is_white_space,
    join, joined, lemma_joined_pieces, lemma_pieces_around_separator,
    lemma_pieces_hold_no_separator, lemma_pieces_nonempty, lemma_pieces_single, line_seq, lines,
    lowered_char, occurs, occurs_at, pieces, replace, replaced, same, split, starts_with,
    to_ascii_lowercase, trim, trim_end, trim_end_of, trimmed_end, trimmed_end_of, trimmed_start,
    white_space, without_cr,
};
use vstd::prelude::*;

verus! {

/// White space is the 25 code points of that Unicode property.
pub proof fn law_white_space(c: char, r: bool)
    requires
        call_ensures(is_white_space, (c,), r),
    ensures
        r == white_space(c),
        r <==> {
            let n = c as u32;
            ||| 9 <= n <= 13
            ||| n == 32
            ||| n == 133
            ||| n == 160
            ||| n == 5760
            ||| 8192 <= n <= 8202
            ||| n == 8232
            ||| n == 8233
            ||| n == 8239
            ||| n == 8287
            ||| n == 12288
        },
{
}

/// Where leading white space ends.
pub proof fn lemma_trimmed_start_bounds(s: Seq<char>)
    ensures
        ({
            let t = trimmed_start(s);
            let k = s.len() - t.len();
            &&& 0 <= k
            &&& t == s.skip(k)
            &&& forall|i: int| 0 <= i < k ==> white_space(#[trigger] s[i])
            &&& t.len() > 0 ==> !white_space(t[0])
        }),
    decreases s.len(),
{
    if s.len() > 0 && white_space(s[0]) {
        let rest = s.skip(1);
        lemma_trimmed_start_bounds(rest);
        let k = s.len() - trimmed_start(s).len();
        assert(trimmed_start(s) =~= s.skip(k));
        assert forall|i: int| 0 <= i < k implies white_space(#[trigger] s[i]) by {
            if i > 0 {
                assert(rest[i - 1] == s[i]);
            }
        }
    } else {
        assert(trimmed_start(s) =~= s.skip(0));
    }
}

/// Where trailing white space starts.
pub proof fn lemma_trimmed_end_bounds(s: Seq<char>)
    ensures
        ({
            let t = trimmed_end(s);
            &&& t.len() <= s.len()
            &&& t == s.take(t.len() as int)
            &&& forall|i: int| t.len() <= i < s.len() ==> white_space(#[trigger] s[i])
            &&& t.len() > 0 ==> !white_space(t.last())
        }),
    decreases s.len(),
{
    if s.len() > 0 && white_space(s.last()) {
        let rest = s.drop_last();
        lemma_trimmed_end_bounds(rest);
        let t = trimmed_end(s);
        assert(t =~= s.take(t.len() as int));
        assert forall|i: int| t.len() <= i < s.len() implies white_space(#[trigger] s[i]) by {
            if i < s.len() - 1 {
                assert(rest[i] == s[i]);
            }
        }
    } else {
        assert(trimmed_end(s) =~= s.take(s.len() as int));
    }
}

/// Trimming cuts the white space off both ends, all of it and nothing else.
pub proof fn law_trim(s: &str, r: &str)
    requires
        call_ensures(trim, (s,), r),
    ensures
        exists|k: int| #![trigger s@.skip(k)]
            {
                &&& 0 <= k
                &&& k + r@.len() <= s@.len()
                &&& r@ == s@.skip(k).take(r@.len() as int)
                &&& forall|i: int| 0 <= i < k ==> white_space(#[trigger] s@[i])
                &&& forall|i: int| k + r@.len() <= i < s@.len() ==> white_space(#[trigger] s@[i])
            },
        r@.len() > 0 ==> !white_space(r@[0]) && !white_space(r@.last()),
{
    let t = trimmed_start(s@);
    let k = s@.len() - t.len();
    lemma_trimmed_start_bounds(s@);
    lemma_trimmed_end_bounds(t);
    assert(r@ == s@.skip(k).take(r@.len() as int));
    assert forall|i: int| k + r@.len() <= i < s@.len() implies white_space(#[trigger] s@[i]) by {
        assert(t[i - k] == s@[i]);
    }
}

/// Trimming the end cuts the white space off the end, all of it and nothing else.
pub proof fn law_trim_end(s: &str, r: &str)
    requires
        call_ensures(trim_end, (s,), r),
    ensures
        r@.len() <= s@.len(),
        r@ == s@.take(r@.len() as int),
        forall|i: int| r@.len() <= i < s@.len() ==> white_space(#[trigger] s@[i]),
        r@.len() > 0 ==> !white_space(r@.last()),
{
    lemma_trimmed_end_bounds(s@);
}

/// What is cut off a text with its trailing run of a character.
pub proof fn lemma_trimmed_end_of_bounds(s: Seq<char>, c: char)
    ensures
        ({
            let t = trimmed_end_of(s, c);
            &&& t.len() <= s.len()
            &&& t == s.take(t.len() as int)
            &&& forall|i: int| t.len() <= i < s.len() ==> #[trigger] s[i] == c
            &&& t.len() > 0 ==> t.last() != c
        }),
    decreases s.len(),
{
    if s.len() > 0 && s.last() == c {
        let rest = s.drop_last();
        lemma_trimmed_end_of_bounds(rest, c);
        let t = trimmed_end_of(s, c);
        assert(t =~= s.take(t.len() as int));
        assert forall|i: int| t.len() <= i < s.len() implies #[trigger] s[i] == c by {
            if i < s.len() - 1 {
                assert(rest[i] == s[i]);
            }
        }
    } else {
        assert(trimmed_end_of(s, c) =~= s.take(s.len() as int));
    }
}

/// Trimming a character off the end cuts its trailing run, all of it and nothing else.
pub proof fn law_trim_end_of(s: &str, c: char, r: &str)
    requires
        call_ensures(trim_end_of, (s, c), r),
    ensures
        r@.len() <= s@.len(),
        r@ == s@.take(r@.len() as int),
        forall|i: int| r@.len() <= i < s@.len() ==> #[trigger] s@[i] == c,
        r@.len() > 0 ==> r@.last() != c,
{
    lemma_trimmed_end_of_bounds(s@, c);
}

/// Lower-casing moves the letters from A to Z, each on its own, and leaves every other character
/// alone.
pub proof fn law_lower_case(s: &str, r: String)
    requires
        call_ensures(to_ascii_lowercase, (s,), r),
    ensures
        r@.len() == s@.len(),
        forall|i: int| #![trigger r@[i]]
            0 <= i < s@.len() ==> if 65 <= s@[i] as u32 <= 90 {
                r@[i] as u32 == s@[i] as u32 + 32
            } else {
                r@[i] == s@[i]
            },
{
    assert forall|i: int| #![trigger r@[i]] 0 <= i < s@.len() implies if 65 <= s@[i] as u32 <= 90 {
        r@[i] as u32 == s@[i] as u32 + 32
    } else {
        r@[i] == s@[i]
    } by {
        assert(r@[i] == lowered_char(s@[i]));
    }
}

/// The two characters are the same, or one is the upper-case form of the other in ASCII.
pub open spec fn one_letter(a: char, b: char) -> bool {
    ||| a == b
    ||| 65 <= a as u32 <= 90 && b as u32 == a as u32 + 32
    ||| 65 <= b as u32 <= 90 && a as u32 == b as u32 + 32
}

/// Two texts are the same up to case where they are so place by place.
pub proof fn law_same_up_to_case(a: &str, b: &str, r: bool)
    requires
        call_ensures(eq_ignore_ascii_case, (a, b), r),
    ensures
        r <==> a@.len() == b@.len() && forall|i: int|
            0 <= i < a@.len() ==> one_letter(#[trigger] a@[i], b@[i]),
{
    lemma_same_up_to_case(a@, b@);
}

pub proof fn lemma_same_up_to_case(a: Seq<char>, b: Seq<char>)
    ensures
        crate::text::same_ignoring_case(a, b) <==> a.len() == b.len() && forall|i: int|
            0 <= i < a.len() ==> one_letter(#[trigger] a[i], b[i]),
{
    let low = crate::text::lowered(a);
    let other = crate::text::lowered(b);
    if low == other {
        assert(low.len() == other.len());
        assert forall|i: int| 0 <= i < a.len() implies one_letter(#[trigger] a[i], b[i]) by {
            assert(low[i] == lowered_char(a[i]));
            assert(other[i] == lowered_char(b[i]));
        }
    }
    if a.len() == b.len() && forall|i: int| 0 <= i < a.len() ==> one_letter(#[trigger] a[i], b[i]) {
        assert forall|i: int| 0 <= i < low.len() implies #[trigger] low[i] == other[i] by {
            assert(one_letter(a[i], b[i]));
            assert(low[i] == lowered_char(a[i]));
            assert(other[i] == lowered_char(b[i]));
        }
        assert(low =~= other);
    }
}

/// The pattern stands somewhere in the text.
pub open spec fn holds_text(s: Seq<char>, pat: Seq<char>) -> bool {
    exists|at: int| 0 <= at <= s.len() && pat.is_prefix_of(#[trigger] s.skip(at))
}

pub proof fn lemma_holds_text(s: Seq<char>, pat: Seq<char>)
    ensures
        occurs(s, pat) <==> holds_text(s, pat),
{
    if occurs(s, pat) {
        let at = choose|at: int| occurs_at(s, pat, at);
        assert(s.skip(at).take(pat.len() as int) =~= s.subrange(at, at + pat.len()));
        assert(pat.is_prefix_of(s.skip(at)));
    }
    if holds_text(s, pat) {
        let at = choose|at: int| 0 <= at <= s.len() && pat.is_prefix_of(#[trigger] s.skip(at));
        assert(s.skip(at).take(pat.len() as int) =~= s.subrange(at, at + pat.len()));
        assert(occurs_at(s, pat, at));
    }
}

/// A text holds another where that stands in it at some place.
pub proof fn law_contains(s: &str, pat: &str, r: bool)
    requires
        call_ensures(contains, (s, pat), r),
    ensures
        r <==> holds_text(s@, pat@),
{
    lemma_holds_text(s@, pat@);
}

/// Searching for one character, comparing the ends, and comparing as a whole go by characters.
pub proof fn law_comparisons(s: &str, pat: &str, c: char, one: bool, start: bool, end: bool, eq: bool)
    requires
        call_ensures(contains_char, (s, c), one),
        call_ensures(starts_with, (s, pat), start),
        call_ensures(ends_with, (s, pat), end),
        call_ensures(same, (s, pat), eq),
    ensures
        one <==> exists|i: int| 0 <= i < s@.len() && #[trigger] s@[i] == c,
        start <==> pat@.len() <= s@.len() && forall|i: int|
            0 <= i < pat@.len() ==> #[trigger] pat@[i] == s@[i],
        end <==> pat@.len() <= s@.len() && forall|i: int|
            0 <= i < pat@.len() ==> #[trigger] pat@[i] == s@[s@.len() - pat@.len() + i],
        eq <==> pat@ == s@,
{
    if pat@.len() <= s@.len() {
        let k = s@.len() - pat@.len();
        assert(s@.take(pat@.len() as int).len() == pat@.len());
        if pat@.is_prefix_of(s@) {
            assert(pat@ == s@.take(pat@.len() as int));
        } else if forall|i: int| 0 <= i < pat@.len() ==> #[trigger] pat@[i] == s@[i] {
            assert(pat@ =~= s@.take(pat@.len() as int));
        }
        if pat@.is_suffix_of(s@) {
            assert(pat@ == s@.subrange(k, s@.len() as int));
        } else if forall|i: int| 0 <= i < pat@.len() ==> #[trigger] pat@[i] == s@[k + i] {
            assert(pat@ =~= s@.subrange(k, s@.len() as int));
        }
    }
}

/// Splitting cuts at every separator and nowhere else: no piece holds one, and joining the pieces
/// again with the separator gives the text back.
pub proof fn law_split(s: &str, sep: char, r: Vec<String>, glue: &str, back: String)
    requires
        call_ensures(split, (s, sep), r),
        glue@ == seq![sep],
        call_ensures(join, (&r, glue), back),
    ensures
        r@.len() > 0,
        forall|i: int| 0 <= i < r@.len() ==> !(#[trigger] r@[i])@.contains(sep),
        back@ == s@,
{
    lemma_pieces_hold_no_separator(s@, sep);
    assert forall|i: int| 0 <= i < r@.len() implies !(#[trigger] r@[i])@.contains(sep) by {
        assert(contents(r@)[i] == r@[i]@);
    }
    lemma_joined_pieces(s@, sep);
}

/// Joining one part more puts the separator and that part behind what was joined before.
pub proof fn law_join(parts: Vec<String>, more: Vec<String>, sep: &str, a: String, b: String)
    requires
        call_ensures(join, (&parts, sep), a),
        call_ensures(join, (&more, sep), b),
        more@.len() == parts@.len() + 1,
        forall|i: int| 0 <= i < parts@.len() ==> (#[trigger] more@[i])@ == parts@[i]@,
    ensures
        parts@.len() == 0 ==> a@.len() == 0 && b@ == more@[0]@,
        parts@.len() > 0 ==> b@ == a@ + sep@ + more@.last()@,
{
    let before = contents(parts@);
    let now = contents(more@);
    assert forall|i: int| 0 <= i < before.len() implies before[i] == now[i] by {
        assert(more@[i]@ == parts@[i]@);
    }
    assert(now.drop_last() =~= before);
    assert(now.last() == more@.last()@);
}

/// The lines of a text are its first line, without the carriage return that ends it, and then the
/// lines of what follows the line feed.
pub proof fn lemma_lines_of_first(l: Seq<char>, rest: Seq<char>)
    requires
        !l.contains('\n'),
    ensures
        line_seq(l + seq!['\n'] + rest) == seq![without_cr(l)] + line_seq(rest),
{
    let whole = l + seq!['\n'] + rest;
    lemma_pieces_around_separator(l, rest, '\n');
    lemma_pieces_single(l, '\n');
    lemma_pieces_nonempty(rest, '\n');
    let all = pieces(whole, '\n');
    let tail = pieces(rest, '\n');
    assert(all =~= seq![l] + tail);
    assert(all.last() == tail.last());
    let ended = all.drop_last().map_values(|line: Seq<char>| without_cr(line));
    let tail_ended = tail.drop_last().map_values(|line: Seq<char>| without_cr(line));
    assert(ended =~= seq![without_cr(l)] + tail_ended) by {
        assert forall|i: int| 0 <= i < ended.len() implies #[trigger] ended[i] == (seq![
            without_cr(l),
        ] + tail_ended)[i] by {
            if i > 0 {
                assert(all[i] == tail[i - 1]);
            }
        }
    }
    assert(line_seq(whole) =~= seq![without_cr(l)] + line_seq(rest));
}

/// The lines of a text end at its line feeds. One carriage return before a line feed is no part
/// of the line. A last line without a line feed is kept as it stands, unless it is empty.
pub proof fn law_lines(s: &str, r: Vec<String>, l: Seq<char>, rest: &str, behind: Vec<String>)
    requires
        call_ensures(lines, (s,), r),
        call_ensures(lines, (rest,), behind),
    ensures
        s@.len() == 0 ==> r@.len() == 0,
        s@.len() > 0 && !s@.contains('\n') ==> r@.len() == 1 && r@[0]@ == s@,
        !l.contains('\n') && s@ == l + seq!['\n'] + rest@ ==> {
            &&& r@.len() == 1 + behind@.len()
            &&& l.len() > 0 && l.last() == '\r' ==> r@[0]@ == l.drop_last()
            &&& !(l.len() > 0 && l.last() == '\r') ==> r@[0]@ == l
            &&& forall|i: int| 0 <= i < behind@.len() ==> r@[1 + i]@ == (#[trigger] behind@[i])@
        },
{
    if !s@.contains('\n') {
        lemma_pieces_single(s@, '\n');
        assert(contents(r@) == line_seq(s@));
        if s@.len() > 0 {
            assert(line_seq(s@) =~= seq![s@]);
            assert(contents(r@)[0] == r@[0]@);
        } else {
            assert(line_seq(s@) =~= Seq::<Seq<char>>::empty());
        }
    }
    if s@.len() == 0 && s@.contains('\n') {
        let j = choose|j: int| 0 <= j < s@.len() && s@[j] == '\n';
        assert(false);
    }
    if !l.contains('\n') && s@ == l + seq!['\n'] + rest@ {
        lemma_lines_of_first(l, rest@);
        let all = contents(r@);
        assert(all == seq![without_cr(l)] + contents(behind@));
        assert(all[0] == r@[0]@);
        assert forall|i: int| 0 <= i < behind@.len() implies r@[1 + i]@ == (#[trigger] behind@[i])@ by {
            assert(all[1 + i] == r@[1 + i]@);
            assert(contents(behind@)[i] == behind@[i]@);
        }
    }
}

/// A text without the pattern stays as it is.
pub proof fn lemma_replaced_none(s: Seq<char>, from: Seq<char>, to: Seq<char>)
    requires
        !holds_text(s, from) || from.len() == 0,
    ensures
        replaced(s, from, to) == s,
    decreases s.len(),
{
    if from.len() > 0 && s.len() >= from.len() {
        assert(s.skip(0) =~= s);
        assert(!from.is_prefix_of(s.skip(0)));
        let rest = s.skip(1);
        if holds_text(rest, from) {
            let at = choose|at: int|
                0 <= at <= rest.len() && from.is_prefix_of(#[trigger] rest.skip(at));
            assert(rest.skip(at) =~= s.skip(at + 1));
            assert(from.is_prefix_of(s.skip(at + 1)));
        }
        lemma_replaced_none(rest, from, to);
        assert(seq![s[0]] + rest =~= s);
    }
}

/// The first occurrence of the pattern makes way, and what follows it is treated likewise.
pub proof fn lemma_replaced_first(a: Seq<char>, b: Seq<char>, from: Seq<char>, to: Seq<char>)
    requires
        from.len() > 0,
        !holds_text((a + from).drop_last(), from),
    ensures
        replaced(a + from + b, from, to) == a + to + replaced(b, from, to),
    decreases a.len(),
{
    let whole = a + from + b;
    if a.len() == 0 {
        assert(whole.take(from.len() as int) =~= from);
        assert(whole.skip(from.len() as int) =~= b);
        assert(from.is_prefix_of(whole));
        assert(a + to + replaced(b, from, to) =~= to + replaced(b, from, to));
    } else {
        let head = (a + from).drop_last();
        if from.is_prefix_of(whole) {
            assert(head.skip(0).take(from.len() as int) =~= whole.take(from.len() as int));
            assert(from.is_prefix_of(head.skip(0)));
            assert(false);
        }
        let rest = a.skip(1);
        assert(whole.skip(1) =~= rest + from + b);
        let shorter = (rest + from).drop_last();
        assert(shorter =~= head.skip(1));
        if holds_text(shorter, from) {
            let at = choose|at: int|
                0 <= at <= shorter.len() && from.is_prefix_of(#[trigger] shorter.skip(at));
            assert(shorter.skip(at) =~= head.skip(at + 1));
            assert(from.is_prefix_of(head.skip(at + 1)));
        }
        lemma_replaced_first(rest, b, from, to);
        assert(seq![whole[0]] + (rest + to + replaced(b, from, to)) =~= a + to + replaced(
            b,
            from,
            to,
        ));
    }
}

/// Replacing leaves a text alone where it does not hold the pattern. Otherwise the first
/// occurrence makes way, what stands in front of it stays, and what follows it is treated
/// likewise.
pub proof fn law_replace(
    s: &str,
    from: &str,
    to: &str,
    r: String,
    a: Seq<char>,
    b: &str,
    behind: String,
)
    requires
        call_ensures(replace, (s, from, to), r),
        call_ensures(replace, (b, from, to), behind),
        from@.len() > 0,
    ensures
        !holds_text(s@, from@) ==> r@ == s@,
        s@ == a + from@ + b@ && !holds_text((a + from@).drop_last(), from@) ==> r@ == a + to@
            + behind@,
{
    if !holds_text(s@, from@) {
        lemma_replaced_none(s@, from@, to@);
    }
    if s@ == a + from@ + b@ && !holds_text((a + from@).drop_last(), from@) {
        lemma_replaced_first(a, b@, from@, to@);
    }
}

/// Appending keeps both texts whole and in order.
pub proof fn law_concat(a: &str, b: &str, r: String)
    requires
        call_ensures(concat, (a, b), r),
    ensures
        r@.len() == a@.len() + b@.len(),
        r@.take(a@.len() as int) == a@,
        r@.skip(a@.len() as int) == b@,
{
    assert(r@.take(a@.len() as int) =~= a@);
    assert(r@.skip(a@.len() as int) =~= b@);
}

} // verus!
