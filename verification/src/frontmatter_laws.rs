//! What frontmatter is and what it says, stated on its lines.
use crate::frontmatter::{
    block_aliases, block_of, escaped, fence, fences, field_value, first_line, flow_scan,
    flow_values, front_text, frontmatter_block, has_frontmatter, key_lines, lemma_first_line,
    lemma_first_line_is, lemma_front_and_rest, list_ends, list_item, outdents,
    parse_frontmatter_aliases, patch_aliases, prepend_new_aliases, scalar_field, scalar_value,
    text_lines, unescaped, FlowScan,
};
use crate::text::{
    content, contents, join, lemma_pieces_nonempty, replaced, split, trimmed, trimmed_end,
};
use vstd::prelude::*;

verus! {

/// Three hyphens, with nothing but white space behind them.
pub open spec fn hyphens(line: Seq<char>) -> bool {
    trimmed_end(line) == seq!['-', '-', '-']
}

/// The lines open with frontmatter that the line at `k` closes: three hyphens stand on the first
/// line and on that one, and on no line between them.
pub open spec fn framed_until(lines: Seq<Seq<char>>, k: int) -> bool {
    &&& 1 <= k < lines.len()
    &&& hyphens(lines[0])
    &&& hyphens(lines[k])
    &&& forall|i: int| 1 <= i < k ==> !hyphens(#[trigger] lines[i])
}

/// The lines do not open with frontmatter: three hyphens stand not on the first line, or on no
/// other.
pub open spec fn unframed(lines: Seq<Seq<char>>) -> bool {
    !hyphens(lines[0]) || forall|i: int| 1 <= i < lines.len() ==> !hyphens(#[trigger] lines[i])
}

proof fn lemma_hyphens(line: Seq<char>)
    ensures
        fence(line) == hyphens(line),
{
    reveal_strlit("---");
    assert("---"@ =~= seq!['-', '-', '-']);
}

proof fn lemma_framed(lines: Seq<Seq<char>>, k: int)
    requires
        lines.len() > 0,
    ensures
        framed_until(lines, k) ==> has_frontmatter(lines) && crate::frontmatter::closing(lines) == k
            && block_of(lines) == lines.subrange(1, k),
        unframed(lines) ==> !has_frontmatter(lines) && block_of(lines).len() == 0,
{
    assert forall|i: int| 0 <= i < lines.len() implies fences()(#[trigger] lines[i]) == hyphens(
        lines[i],
    ) by {
        lemma_hyphens(lines[i]);
    }
    assert(fence(lines[0]) == hyphens(lines[0])) by {
        lemma_hyphens(lines[0]);
    }
    if framed_until(lines, k) {
        lemma_first_line_is(lines, 1, fences(), k);
    }
    if unframed(lines) {
        if hyphens(lines[0]) {
            lemma_first_line_is(lines, 1, fences(), lines.len() as int);
        }
        assert(block_of(lines) =~= Seq::<Seq<char>>::empty());
    }
}

/// A text has frontmatter exactly if three hyphens stand on its first line and on another one. The
/// first such line closes it. Its block are the lines between the two.
pub proof fn law_frontmatter_block(
    text: &str,
    lines: Vec<String>,
    k: int,
    r: Option<Vec<String>>,
)
    requires
        call_ensures(frontmatter_block, (text,), r),
        call_ensures(split, (text, '\n'), lines),
    ensures
        framed_until(contents(lines@), k) ==> {
            &&& r matches Some(block)
            &&& contents(block@) == contents(lines@).subrange(1, k)
        },
        unframed(contents(lines@)) ==> r is None,
{
    lemma_pieces_nonempty(text@, '\n');
    lemma_framed(contents(lines@), k);
}

/// The length of frontmatter takes in both its fences and the line feed behind the second, so that
/// what follows it are the lines behind the second fence. A text without frontmatter has length
/// zero and no aliases.
pub proof fn law_frontmatter_length(
    body: &str,
    lines: Vec<String>,
    k: int,
    behind: Vec<String>,
    rest: String,
    r: (usize, Vec<String>),
)
    requires
        call_ensures(parse_frontmatter_aliases, (body,), r),
        call_ensures(split, (body, '\n'), lines),
        framed_until(contents(lines@), k) ==> contents(behind@) == contents(lines@).skip(k + 1),
        call_ensures(join, (&behind, "\n"), rest),
    ensures
        framed_until(contents(lines@), k) && k + 1 < lines@.len() ==> {
            &&& body@.skip(r.0 as int) == rest@
            &&& 0 < r.0 <= body@.len()
            &&& body@[r.0 - 1] == '\n'
        },
        framed_until(contents(lines@), k) && k + 1 == lines@.len() ==> r.0 == body@.len(),
        unframed(contents(lines@)) ==> r.0 == 0 && r.1@.len() == 0,
{
    let all = contents(lines@);
    lemma_pieces_nonempty(body@, '\n');
    lemma_framed(all, k);
    reveal_strlit("\n");
    assert("\n"@ =~= seq!['\n']);
    if framed_until(all, k) {
        lemma_front_and_rest(body@);
        if k + 1 < all.len() {
            assert(front_text(body@).last() == '\n');
            assert(body@[r.0 - 1] == front_text(body@)[r.0 - 1]);
        }
    }
    if unframed(all) {
        lemma_first_line(block_of(all), 0, key_lines("aliases"@));
        assert(contents(r.1@).len() == r.1@.len());
    }
}

/// The first line of a block that opens with a key and a colon is the one at `k`, or there is none
/// and `k` is the number of lines.
pub open spec fn key_stands_at(block: Seq<Seq<char>>, key: Seq<char>, k: int) -> bool {
    &&& 0 <= k <= block.len()
    &&& forall|i: int|
        0 <= i < k ==> !((#[trigger] block[i]).len() > key.len() && block[i].take(key.len() as int)
            == key && block[i][key.len() as int] == ':')
    &&& k < block.len() ==> block[k].len() > key.len() && block[k].take(key.len() as int) == key
        && block[k][key.len() as int] == ':'
}

proof fn lemma_key_stands_at(block: Seq<Seq<char>>, key: Seq<char>, k: int)
    requires
        key_stands_at(block, key, k),
    ensures
        first_line(block, 0, key_lines(key)) == k,
{
    let n = key.len() as int;
    assert forall|i: int| 0 <= i < block.len() implies key_lines(key)(#[trigger] block[i]) == (
    block[i].len() > key.len() && block[i].take(n) == key && block[i][n] == ':') by {
        let line = block[i];
        let head = key.push(':');
        if head.is_prefix_of(line) {
            assert(line.take(n) =~= head.take(n));
            assert(head.take(n) =~= key);
            assert(line[n] == line.take(n + 1)[n]);
        }
        if line.len() > key.len() && line.take(n) == key && line[n] == ':' {
            assert(line.take(n + 1) =~= head);
        }
    }
    lemma_first_line_is(block, 0, key_lines(key), k);
}

/// A line of a block list starts with a hyphen that is alone or has a space behind it, apart from
/// the white space around the line.
pub open spec fn bullet(line: Seq<char>) -> bool {
    let t = trimmed(line);
    t == seq!['-'] || (t.len() >= 2 && t[0] == '-' && t[1] == ' ')
}

proof fn lemma_bullet_line(line: Seq<char>)
    ensures
        list_item(line) == bullet(line),
{
    let t = trimmed(line);
    if t.len() == 1 && t[0] == '-' {
        assert(t =~= seq!['-']);
    }
}

/// Aliases stand under the first line that opens with `aliases:`, and there are none without it.
/// Where nothing follows the colon they are the bullets directly below. Otherwise they are the
/// entries between brackets, or what follows the colon is the one alias.
pub proof fn law_aliases(
    body: &str,
    block: Vec<String>,
    k: int,
    end: int,
    r: (usize, Vec<String>),
)
    requires
        call_ensures(parse_frontmatter_aliases, (body,), r),
        call_ensures(frontmatter_block, (body,), Some(block)),
        key_stands_at(contents(block@), seq!['a', 'l', 'i', 'a', 's', 'e', 's'], k),
        k < end <= block@.len() || (k == end && k == block@.len()),
        forall|i: int| k < i < end ==> bullet((#[trigger] block@[i])@),
        end < block@.len() ==> !bullet(block@[end]@),
    ensures
        k == block@.len() ==> r.1@.len() == 0,
        k < block@.len() ==> {
            let v = trimmed(block@[k]@.skip(8));
            let bracketed = v.len() >= 2 && v[0] == '[' && v[v.len() - 1] == ']';
            &&& v.len() == 0 ==> r.1@.len() == end - k - 1 && forall|i: int|
                0 <= i < r.1@.len() ==> (#[trigger] r.1@[i])@ == scalar_value(
                    trimmed(trimmed(block@[k + 1 + i]@).skip(1)),
                )
            &&& bracketed ==> contents(r.1@) == flow_values(v.subrange(1, v.len() - 1))
            &&& v.len() > 0 && !bracketed ==> r.1@.len() == 1 && r.1@[0]@ == scalar_value(v)
        },
{
    let all = contents(block@);
    reveal_strlit("aliases");
    assert("aliases"@ =~= seq!['a', 'l', 'i', 'a', 's', 'e', 's']);
    lemma_key_stands_at(all, "aliases"@, k);
    assert("aliases"@.len() == 7);
    let got = contents(r.1@);
    assert(got == block_aliases(all));
    assert(got.len() == r.1@.len());
    if k < block@.len() {
        assert(all[k] == block@[k]@);
        let v = trimmed(all[k].skip(8));
        assert forall|i: int| k < i < all.len() implies list_ends()(#[trigger] all[i]) == !bullet(
            block@[i]@,
        ) by {
            lemma_bullet_line(all[i]);
        }
        lemma_first_line_is(all, k + 1, list_ends(), end);
        if v.len() == 0 {
            let items = all.subrange(k + 1, end);
            assert forall|i: int| 0 <= i < r.1@.len() implies (#[trigger] r.1@[i])@ == scalar_value(
                trimmed(trimmed(block@[k + 1 + i]@).skip(1)),
            ) by {
                assert(got[i] == r.1@[i]@);
                assert(items[i] == block@[k + 1 + i]@);
                assert(got[i] == crate::frontmatter::item_value(items[i]));
            }
        } else if !(v.len() >= 2 && v[0] == '[' && v[v.len() - 1] == ']') {
            assert(got[0] == r.1@[0]@);
        }
    }
}

/// A scalar between double quotes is what its escape sequences stand for. One between single quotes
/// has each pair of them for one. Any other scalar is itself.
pub proof fn law_scalar(v: Seq<char>, inner: Seq<char>)
    ensures
        v == seq!['"'] + inner + seq!['"'] ==> scalar_value(v) == unescaped(inner),
        v == seq!['\''] + inner + seq!['\''] ==> scalar_value(v) == replaced(
            inner,
            seq!['\'', '\''],
            seq!['\''],
        ),
        !(v.len() >= 2 && v[0] == v[v.len() - 1] && (v[0] == '"' || v[0] == '\'')) ==> scalar_value(
            v,
        ) == v,
{
    if v == seq!['"'] + inner + seq!['"'] || v == seq!['\''] + inner + seq!['\''] {
        assert(v.subrange(1, v.len() - 1) =~= inner);
    }
}

/// Text without a backslash stands for itself. A backslash and the character behind it stand for
/// that character, for a line feed, a carriage return or a tab, or for themselves.
pub proof fn law_unescaping(a: Seq<char>, c: char, b: Seq<char>)
    requires
        !a.contains('\\'),
    ensures
        unescaped(a) == a,
        unescaped(a.push('\\')) == a.push('\\'),
        unescaped(a + seq!['\\', c] + b) == a + (if c == '\\' || c == '"' {
            seq![c]
        } else if c == 'n' {
            seq!['\n']
        } else if c == 'r' {
            seq!['\r']
        } else if c == 't' {
            seq!['\t']
        } else {
            seq!['\\', c]
        }) + unescaped(b),
    decreases a.len(),
{
    reveal_with_fuel(unescaped, 3);
    if a.len() == 0 {
        assert(a.push('\\') =~= seq!['\\']);
        assert(seq!['\\'].skip(1) =~= Seq::<char>::empty());
        assert(unescaped(seq!['\\']) =~= seq!['\\']);
        let whole = a + seq!['\\', c] + b;
        assert(whole.skip(2) =~= b);
        assert(whole[0] == '\\' && whole[1] == c);
    } else {
        let rest = a.skip(1);
        assert(a[0] != '\\');
        assert forall|i: int| 0 <= i < rest.len() implies rest[i] != '\\' by {
            assert(rest[i] == a[i + 1]);
        }
        law_unescaping(rest, c, b);
        assert(seq![a[0]] + rest =~= a);
        assert(a.push('\\').skip(1) =~= rest.push('\\'));
        assert(seq![a[0]] + rest.push('\\') =~= a.push('\\'));
        let whole = a + seq!['\\', c] + b;
        assert(whole.skip(1) =~= rest + seq!['\\', c] + b);
        assert(whole[0] == a[0]);
        assert(unescaped(whole) == seq![a[0]] + unescaped(whole.skip(1)));
        assert(unescaped(whole) =~= a + crate::frontmatter::escape_meaning(c) + unescaped(b));
    }
}

/// Escaping goes character by character. Quotes and backslashes get a backslash in front of them,
/// line feeds and carriage returns become `\n` and `\r`, and any other character stays.
pub proof fn law_escaping(a: Seq<char>, b: Seq<char>, c: char)
    ensures
        escaped(a + b) == escaped(a) + escaped(b),
        escaped(Seq::empty()) == Seq::<char>::empty(),
        c == '"' || c == '\\' ==> escaped(seq![c]) == seq!['\\', c],
        escaped(seq!['\n']) == seq!['\\', 'n'],
        escaped(seq!['\r']) == seq!['\\', 'r'],
        c != '"' && c != '\\' && c != '\n' && c != '\r' ==> escaped(seq![c]) == seq![c],
    decreases a.len(),
{
    reveal_with_fuel(escaped, 2);
    assert(seq![c].skip(1) =~= Seq::<char>::empty());
    assert(seq!['\n'].skip(1) =~= Seq::<char>::empty());
    assert(seq!['\r'].skip(1) =~= Seq::<char>::empty());
    assert(escaped(seq![c]) =~= crate::frontmatter::escape_sequence(c));
    assert(escaped(seq!['\n']) =~= seq!['\\', 'n']);
    assert(escaped(seq!['\r']) =~= seq!['\\', 'r']);
    if a.len() == 0 {
        assert(a + b =~= b);
        assert(escaped(a) + escaped(b) =~= escaped(b));
    } else {
        law_escaping(a.skip(1), b, c);
        assert((a + b).skip(1) =~= a.skip(1) + b);
        assert((a + b)[0] == a[0]);
        assert(escaped(a + b) =~= escaped(a) + escaped(b));
    }
}

/// A flow list is read on behind a comma as it is read from its start, where no quote is open before
/// the comma.
proof fn lemma_flow_behind_comma(a: Seq<char>, b: Seq<char>)
    requires
        flow_scan(a) == (FlowScan {
            done: Seq::empty(),
            current: a,
            quote: None,
            escape: false,
        }),
    ensures
        ({
            let behind = flow_scan(b);
            let whole = flow_scan(a + seq![','] + b);
            &&& whole.done == seq![a] + behind.done
            &&& whole.current == behind.current
            &&& whole.quote == behind.quote
            &&& whole.escape == behind.escape
        }),
    decreases b.len(),
{
    let whole = a + seq![','] + b;
    if b.len() == 0 {
        assert(whole.drop_last() =~= a);
        assert(whole.last() == ',');
        assert(Seq::<Seq<char>>::empty().push(a) =~= seq![a] + flow_scan(b).done);
    } else {
        lemma_flow_behind_comma(a, b.drop_last());
        assert(whole.drop_last() =~= a + seq![','] + b.drop_last());
        assert(whole.last() == b.last());
        let before = flow_scan(b.drop_last());
        assert(seq![a] + before.done.push(before.current) =~= (seq![a] + before.done).push(
            before.current,
        ));
    }
}

/// Characters that are neither quotes nor commas.
pub open spec fn unquoted(s: Seq<char>) -> bool {
    forall|i: int| 0 <= i < s.len() ==> (#[trigger] s[i]) != ',' && s[i] != '"' && s[i] != '\''
}

proof fn lemma_flow_unquoted(s: Seq<char>)
    requires
        unquoted(s),
    ensures
        flow_scan(s) == (FlowScan {
            done: Seq::empty(),
            current: s,
            quote: None,
            escape: false,
        }),
    decreases s.len(),
{
    if s.len() > 0 {
        assert forall|i: int| 0 <= i < s.drop_last().len() implies (#[trigger] s.drop_last()[i])
            != ',' && s.drop_last()[i] != '"' && s.drop_last()[i] != '\'' by {
            assert(s.drop_last()[i] == s[i]);
        }
        lemma_flow_unquoted(s.drop_last());
        assert(s[s.len() - 1] == s.last());
        assert(s.drop_last().push(s.last()) =~= s);
    }
}

/// A quoted entry, up to a place between its quotes.
proof fn lemma_flow_in_quotes(pad: Seq<char>, q: char, x: Seq<char>)
    requires
        unquoted(pad),
        q == '"' || q == '\'',
        !x.contains(q),
        q == '"' ==> !x.contains('\\'),
    ensures
        flow_scan(pad + seq![q] + x) == (FlowScan {
            done: Seq::empty(),
            current: pad + seq![q] + x,
            quote: Some(q),
            escape: false,
        }),
    decreases x.len(),
{
    let whole = pad + seq![q] + x;
    if x.len() == 0 {
        lemma_flow_unquoted(pad);
        assert(whole.drop_last() =~= pad);
        assert(whole =~= pad.push(q));
    } else {
        let shorter = x.drop_last();
        assert forall|i: int| 0 <= i < shorter.len() implies shorter[i] != q && (q == '"'
            ==> shorter[i] != '\\') by {
            assert(shorter[i] == x[i]);
        }
        lemma_flow_in_quotes(pad, q, shorter);
        assert(whole.drop_last() =~= pad + seq![q] + shorter);
        assert(x[x.len() - 1] != q && (q == '"' ==> x[x.len() - 1] != '\\'));
        assert(whole.drop_last().push(whole.last()) =~= whole);
    }
}

proof fn lemma_flow_quoted(pad: Seq<char>, q: char, x: Seq<char>, behind: Seq<char>)
    requires
        unquoted(behind),
        flow_scan(pad + seq![q] + x) == (FlowScan {
            done: Seq::empty(),
            current: pad + seq![q] + x,
            quote: Some(q),
            escape: false,
        }),
    ensures
        ({
            let entry = pad + seq![q] + x + seq![q] + behind;
            flow_scan(entry) == (FlowScan {
                done: Seq::empty(),
                current: entry,
                quote: None,
                escape: false,
            })
        }),
    decreases behind.len(),
{
    let entry = pad + seq![q] + x + seq![q] + behind;
    if behind.len() == 0 {
        assert(entry.drop_last() =~= pad + seq![q] + x);
        assert(entry.drop_last().push(q) =~= entry);
    } else {
        let shorter = behind.drop_last();
        assert forall|i: int| 0 <= i < shorter.len() implies (#[trigger] shorter[i]) != ','
            && shorter[i] != '"' && shorter[i] != '\'' by {
            assert(shorter[i] == behind[i]);
        }
        lemma_flow_quoted(pad, q, x, shorter);
        assert(entry.drop_last() =~= pad + seq![q] + x + seq![q] + shorter);
        assert(behind[behind.len() - 1] == entry.last());
        assert(entry.drop_last().push(entry.last()) =~= entry);
    }
}

/// A comma ends an entry of a flow list, unless it stands between quotes or behind a quote that is
/// never closed. What follows it is read as a list of its own.
pub proof fn law_flow_list(
    plain: Seq<char>,
    q: char,
    x: Seq<char>,
    behind: Seq<char>,
    rest: Seq<char>,
)
    requires
        unquoted(plain),
        unquoted(behind),
        q == '"' || q == '\'',
        !x.contains(q),
        q == '"' ==> !x.contains('\\'),
    ensures
        flow_values(plain + seq![','] + rest) == seq![scalar_value(trimmed(plain))] + flow_values(
            rest,
        ),
        trimmed(plain).len() > 0 ==> flow_values(plain) == seq![scalar_value(trimmed(plain))],
        trimmed(plain).len() == 0 ==> flow_values(plain).len() == 0,
        trimmed(plain + seq![q] + x).len() > 0 ==> flow_values(plain + seq![q] + x) == seq![
            scalar_value(trimmed(plain + seq![q] + x)),
        ],
        ({
            let entry = plain + seq![q] + x + seq![q] + behind;
            &&& flow_values(entry + seq![','] + rest) == seq![scalar_value(trimmed(entry))]
                + flow_values(rest)
            &&& trimmed(entry).len() > 0 ==> flow_values(entry) == seq![
                scalar_value(trimmed(entry)),
            ]
        }),
{
    let entry = plain + seq![q] + x + seq![q] + behind;
    lemma_flow_unquoted(plain);
    lemma_flow_in_quotes(plain, q, x);
    lemma_flow_quoted(plain, q, x, behind);
    lemma_flow_behind_comma(plain, rest);
    lemma_flow_behind_comma(entry, rest);
    lemma_flow_values_behind(plain, rest);
    lemma_flow_values_behind(entry, rest);
    let open = plain + seq![q] + x;
    if trimmed(open).len() > 0 {
        assert(flow_values(open) =~= seq![scalar_value(trimmed(open))]);
    }
    if trimmed(plain).len() > 0 {
        assert(flow_values(plain) =~= seq![scalar_value(trimmed(plain))]);
    }
    if trimmed(entry).len() > 0 {
        assert(flow_values(entry) =~= seq![scalar_value(trimmed(entry))]);
    }
}

/// A comma between double quotes ends no entry, nor does an escaped quote end the quotes.
pub proof fn law_flow_list_of_escaped(
    plain: Seq<char>,
    x: Seq<char>,
    behind: Seq<char>,
    rest: Seq<char>,
)
    requires
        unquoted(plain),
        unquoted(behind),
    ensures
        ({
            let entry = plain + seq!['"'] + escaped(x) + seq!['"'] + behind;
            &&& flow_values(entry + seq![','] + rest) == seq![scalar_value(trimmed(entry))]
                + flow_values(rest)
            &&& trimmed(entry).len() > 0 ==> flow_values(entry) == seq![
                scalar_value(trimmed(entry)),
            ]
        }),
{
    let entry = plain + seq!['"'] + escaped(x) + seq!['"'] + behind;
    lemma_flow_in_double_quotes(plain, x);
    lemma_flow_quoted(plain, '"', escaped(x), behind);
    lemma_flow_behind_comma(entry, rest);
    lemma_flow_values_behind(entry, rest);
    if trimmed(entry).len() > 0 {
        assert(flow_values(entry) =~= seq![scalar_value(trimmed(entry))]);
    }
}

/// An entry between double quotes, up to a place between them where no escape sequence is open.
proof fn lemma_flow_in_double_quotes(pad: Seq<char>, x: Seq<char>)
    requires
        unquoted(pad),
    ensures
        flow_scan(pad + seq!['"'] + escaped(x)) == (FlowScan {
            done: Seq::empty(),
            current: pad + seq!['"'] + escaped(x),
            quote: Some('"'),
            escape: false,
        }),
    decreases x.len(),
{
    let whole = pad + seq!['"'] + escaped(x);
    if x.len() == 0 {
        lemma_flow_unquoted(pad);
        assert(whole.drop_last() =~= pad);
        assert(whole =~= pad.push('"'));
    } else {
        let shorter = x.drop_last();
        let c = x.last();
        lemma_flow_in_double_quotes(pad, shorter);
        assert(x =~= shorter + seq![c]);
        law_escaping(shorter, seq![c], c);
        let before = pad + seq!['"'] + escaped(shorter);
        let last = escaped(seq![c]);
        assert(whole =~= before + last);
        if last.len() == 1 {
            assert(whole.drop_last() =~= before);
            assert(whole =~= before.push(whole.last()));
        } else {
            assert(last.len() == 2 && last[0] == '\\');
            let middle = before.push('\\');
            assert(middle.drop_last() =~= before);
            assert(whole.drop_last() =~= middle);
            assert(whole =~= middle.push(whole.last()));
            assert(flow_scan(middle) == (FlowScan {
                done: Seq::empty(),
                current: middle,
                quote: Some('"'),
                escape: true,
            }));
        }
    }
}

proof fn lemma_flow_values_behind(a: Seq<char>, b: Seq<char>)
    requires
        ({
            let behind = flow_scan(b);
            let whole = flow_scan(a + seq![','] + b);
            &&& whole.done == seq![a] + behind.done
            &&& whole.current == behind.current
        }),
    ensures
        flow_values(a + seq![','] + b) == seq![scalar_value(trimmed(a))] + flow_values(b),
{
    assert(flow_values(a + seq![','] + b) =~= seq![scalar_value(trimmed(a))] + flow_values(b));
}

/// A line that is not blank and starts with neither a space nor a tab.
pub open spec fn starts_at_margin(line: Seq<char>) -> bool {
    trimmed(line).len() > 0 && line[0] != ' ' && line[0] != '\t'
}

/// A text that is not empty.
pub open spec fn some_text() -> spec_fn(Seq<char>) -> bool {
    |t: Seq<char>| t.len() > 0
}

proof fn lemma_text_lines(lines: Seq<Seq<char>>)
    ensures
        text_lines(lines) == lines.map_values(|line: Seq<char>| trimmed(line)).filter(some_text()),
    decreases lines.len(),
{
    reveal(Seq::filter);
    let all = lines.map_values(|line: Seq<char>| trimmed(line));
    if lines.len() > 0 {
        lemma_text_lines(lines.drop_last());
        assert(all.drop_last() =~= lines.drop_last().map_values(|line: Seq<char>| trimmed(line)));
        assert(all.last() == trimmed(lines.last()));
    }
}

/// A field has the value that follows the colon on the first line that opens with its key. Behind one
/// of the six marks of a block scalar the value is made of the lines below, up to one that starts at
/// the margin: those that are not blank, without the white space around them, with spaces between
/// them behind `>`, and with line feeds behind `|`.
pub proof fn law_field(
    block: Vec<String>,
    key: &str,
    k: int,
    end: int,
    kept: Vec<String>,
    glue: &str,
    glued: String,
    r: Option<String>,
)
    requires
        call_ensures(scalar_field, (&block, key), r),
        key_stands_at(contents(block@), key@, k),
        k < end <= block@.len() || (k == end && k == block@.len()),
        forall|i: int| k < i < end ==> !starts_at_margin((#[trigger] block@[i])@),
        end < block@.len() ==> starts_at_margin(block@[end]@),
        k < block@.len() ==> contents(kept@) == contents(block@).subrange(k + 1, end).map_values(
            |line: Seq<char>| trimmed(line),
        ).filter(some_text()),
        call_ensures(join, (&kept, glue), glued),
    ensures
        k == block@.len() ==> r is None,
        k < block@.len() ==> {
            let v = trimmed(block@[k]@.skip(key@.len() as int + 1));
            let folded = v == seq!['>'] || v == seq!['>', '-'] || v == seq!['>', '+'];
            let literal = v == seq!['|'] || v == seq!['|', '-'] || v == seq!['|', '+'];
            &&& r is Some
            &&& folded && glue@ == seq![' '] ==> r->Some_0@ == glued@
            &&& literal && glue@ == seq!['\n'] ==> r->Some_0@ == glued@
            &&& !folded && !literal ==> r->Some_0@ == scalar_value(v)
        },
{
    let all = contents(block@);
    lemma_key_stands_at(all, key@, k);
    assert(content(r) == field_value(all, key@));
    if k < block@.len() {
        assert(all[k] == block@[k]@);
        assert forall|i: int| k < i < all.len() implies outdents()(#[trigger] all[i])
            == starts_at_margin(block@[i]@) by {
            assert(all[i] == block@[i]@);
        }
        lemma_first_line_is(all, k + 1, outdents(), end);
        lemma_text_lines(all.subrange(k + 1, end));
        reveal_strlit(">");
        reveal_strlit(">-");
        reveal_strlit(">+");
        reveal_strlit("|");
        reveal_strlit("|-");
        reveal_strlit("|+");
        assert(">"@ =~= seq!['>']);
        assert(">-"@ =~= seq!['>', '-']);
        assert(">+"@ =~= seq!['>', '+']);
        assert("|"@ =~= seq!['|']);
        assert("|-"@ =~= seq!['|', '-']);
        assert("|+"@ =~= seq!['|', '+']);
        assert(seq!['>'][0] == '>' && seq!['>', '-'][0] == '>' && seq!['>', '+'][0] == '>');
        assert(seq!['|'][0] == '|' && seq!['|', '-'][0] == '|' && seq!['|', '+'][0] == '|');
    }
}

/// The lines that list aliases: the key, and then each alias on a line of its own, indented, behind a
/// hyphen and between double quotes.
pub open spec fn listed(aliases: Seq<Seq<char>>) -> Seq<Seq<char>> {
    seq!["aliases:"@] + aliases.map_values(
        |a: Seq<char>| seq![' ', ' ', '-', ' ', '"'] + escaped(a) + seq!['"'],
    )
}

proof fn lemma_listed(aliases: Seq<Seq<char>>)
    ensures
        crate::frontmatter::alias_lines(aliases) == listed(aliases),
{
    reveal_strlit("  - ");
    assert forall|i: int| 0 <= i < aliases.len() implies "  - "@ + crate::frontmatter::quoted(
        #[trigger] aliases[i],
    ) == seq![' ', ' ', '-', ' ', '"'] + escaped(aliases[i]) + seq!['"'] by {
        assert("  - "@ + crate::frontmatter::quoted(aliases[i]) =~= seq![' ', ' ', '-', ' ', '"']
            + escaped(aliases[i]) + seq!['"']);
    }
    assert(crate::frontmatter::alias_lines(aliases) =~= listed(aliases));
}

/// New frontmatter stands between two fences in front of the whole text, and lists the aliases and
/// nothing else.
pub proof fn law_new_frontmatter(
    body: &str,
    aliases: Vec<String>,
    lines: Vec<String>,
    all: Vec<String>,
    glued: String,
    r: String,
)
    requires
        call_ensures(prepend_new_aliases, (body, &aliases), r),
        call_ensures(split, (body, '\n'), lines),
        contents(all@) == seq![seq!['-', '-', '-']] + listed(contents(aliases@)) + seq![
            seq!['-', '-', '-'],
        ] + contents(lines@),
        call_ensures(join, (&all, "\n"), glued),
    ensures
        r@ == glued@,
{
    reveal_strlit("---");
    assert("---"@ =~= seq!['-', '-', '-']);
    reveal_strlit("\n");
    assert("\n"@ =~= seq!['\n']);
    lemma_listed(contents(aliases@));
}

/// Where frontmatter closes at line `c`, the alias list takes the place of the line that opens with
/// `aliases:`, the one at `k` of the block, and of the bullets directly below it, up to `end`. Where
/// there is no such line, it stands last in the block. Every other line stays as it is, and the
/// closing fence ends with a line feed. Without frontmatter nothing is written.
pub proof fn law_aliases_are_replaced(
    body: &str,
    aliases: Vec<String>,
    lines: Vec<String>,
    c: int,
    k: int,
    end: int,
    all: Vec<String>,
    glued: String,
    r: Option<String>,
)
    requires
        call_ensures(patch_aliases, (body, &aliases), r),
        call_ensures(split, (body, '\n'), lines),
        framed_until(contents(lines@), c) ==> {
            let block = contents(lines@).subrange(1, c);
            let tail = contents(lines@).skip(1 + end);
            &&& key_stands_at(block, seq!['a', 'l', 'i', 'a', 's', 'e', 's'], k)
            &&& k < end <= block.len() || (k == end && k == block.len())
            &&& forall|i: int| k < i < end ==> bullet(#[trigger] block[i])
            &&& end < block.len() ==> !bullet(block[end])
            &&& contents(all@) == contents(lines@).take(1 + k) + listed(contents(aliases@)) + (if c
                + 1 < lines@.len() {
                tail
            } else {
                tail + seq![Seq::<char>::empty()]
            })
        },
        call_ensures(join, (&all, "\n"), glued),
    ensures
        framed_until(contents(lines@), c) ==> r is Some && r->Some_0@ == glued@,
        unframed(contents(lines@)) ==> r is None,
{
    let ls = contents(lines@);
    lemma_pieces_nonempty(body@, '\n');
    lemma_framed(ls, c);
    reveal_strlit("\n");
    assert("\n"@ =~= seq!['\n']);
    if framed_until(ls, c) {
        let block = ls.subrange(1, c);
        reveal_strlit("aliases");
        assert("aliases"@ =~= seq!['a', 'l', 'i', 'a', 's', 'e', 's']);
        lemma_key_stands_at(block, "aliases"@, k);
        assert forall|i: int| 0 <= i < block.len() implies list_ends()(#[trigger] block[i])
            == !bullet(block[i]) by {
            lemma_bullet_line(block[i]);
        }
        if k < block.len() {
            lemma_first_line_is(block, k + 1, list_ends(), end);
        }
        lemma_listed(contents(aliases@));
        let tail = ls.skip(1 + end);
        assert(tail.push(Seq::<char>::empty()) =~= tail + seq![Seq::<char>::empty()]);
    }
}

} // verus!
