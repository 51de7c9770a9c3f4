//! YAML frontmatter of Markdown notes: the fenced block at the head of a file, its scalar
//! fields and its list of aliases.
use crate::text::{
    chars_of, concat, contents, join, joined, lemma_joined_halves, lemma_joined_pieces,
    lemma_pieces_around_separator, lemma_pieces_hold_no_separator, lemma_pieces_nonempty,
    lemma_pieces_of_joined, pieces, replace, replaced, same, split, starts_with, trim, trim_end,
    trimmed, trimmed_end, trimmed_start,
};
use vstd::prelude::*;

verus! {

/// The position of the first line from `from` on that satisfies `p`; the number of lines where
/// none does.
pub open spec fn first_line(lines: Seq<Seq<char>>, from: int, p: spec_fn(Seq<char>) -> bool) -> int
    decreases lines.len() - from,
{
    if from >= lines.len() {
        lines.len() as int
    } else if p(lines[from]) {
        from
    } else {
        first_line(lines, from + 1, p)
    }
}

/// What `first_line` finds.
pub proof fn lemma_first_line(lines: Seq<Seq<char>>, from: int, p: spec_fn(Seq<char>) -> bool)
    requires
        0 <= from <= lines.len(),
    ensures
        from <= first_line(lines, from, p) <= lines.len(),
        forall|i: int| from <= i < first_line(lines, from, p) ==> !p(#[trigger] lines[i]),
        first_line(lines, from, p) < lines.len() ==> p(lines[first_line(lines, from, p)]),
    decreases lines.len() - from,
{
    if from < lines.len() && !p(lines[from]) {
        lemma_first_line(lines, from + 1, p);
    }
}

/// A position with no earlier match, where the line matches or the lines end, is the one that
/// `first_line` finds.
pub proof fn lemma_first_line_is(
    lines: Seq<Seq<char>>,
    from: int,
    p: spec_fn(Seq<char>) -> bool,
    at: int,
)
    requires
        0 <= from <= at <= lines.len(),
        forall|i: int| from <= i < at ==> !p(#[trigger] lines[i]),
        at == lines.len() || p(lines[at]),
    ensures
        first_line(lines, from, p) == at,
    decreases at - from,
{
    if from < at {
        assert(!p(lines[from]));
        lemma_first_line_is(lines, from + 1, p, at);
    }
}

/// The first of `lines` from `from` on that `f` accepts; their number where it accepts none.
pub(crate) fn find_line<F: Fn(&str) -> bool>(
    lines: &Vec<String>,
    from: usize,
    f: F,
    Ghost(p): Ghost<spec_fn(Seq<char>) -> bool>,
) -> (r: usize)
    requires
        from <= lines.len(),
        forall|s: &str| #[trigger] f.requires((s,)),
        forall|s: &str, b: bool| #[trigger] f.ensures((s,), b) ==> b == p(s@),
    ensures
        r == first_line(contents(lines@), from as int, p),
        from <= r <= lines.len(),
        r < lines.len() ==> p(lines@[r as int]@),
{
    let ghost all = contents(lines@);
    let mut i: usize = from;
    while i < lines.len()
        invariant
            all == contents(lines@),
            from <= i <= lines.len(),
            forall|s: &str| #[trigger] f.requires((s,)),
            forall|s: &str, b: bool| #[trigger] f.ensures((s,), b) ==> b == p(s@),
            first_line(all, from as int, p) == first_line(all, i as int, p),
        decreases lines.len() - i,
    {
        assert(all[i as int] == lines@[i as int]@);
        if f(lines[i].as_str()) {
            return i;
        }
        i = i + 1;
    }
    i
}

/// A fence: three hyphens, with nothing but white space behind them.
pub open spec fn fence(line: Seq<char>) -> bool {
    trimmed_end(line) == "---"@
}

/// `fence` as a predicate on lines.
pub open spec fn fences() -> spec_fn(Seq<char>) -> bool {
    |line: Seq<char>| fence(line)
}

/// The position of the fence that closes the frontmatter; the number of lines where there is
/// no frontmatter. The frontmatter opens with a fence on the first line.
pub open spec fn closing(lines: Seq<Seq<char>>) -> int {
    if lines.len() > 0 && fence(lines[0]) {
        first_line(lines, 1, fences())
    } else {
        lines.len() as int
    }
}

pub open spec fn has_frontmatter(lines: Seq<Seq<char>>) -> bool {
    closing(lines) < lines.len()
}

/// The lines between the fences; none where there is no frontmatter.
pub open spec fn block_of(lines: Seq<Seq<char>>) -> Seq<Seq<char>> {
    if has_frontmatter(lines) {
        lines.subrange(1, closing(lines))
    } else {
        Seq::empty()
    }
}

/// The frontmatter of a text with both its fences and the line feed behind them; empty where
/// there is none.
pub open spec fn front_text(body: Seq<char>) -> Seq<char> {
    let lines = pieces(body, '\n');
    let head = joined(lines.take(closing(lines) + 1), seq!['\n']);
    if !has_frontmatter(lines) {
        Seq::empty()
    } else if closing(lines) + 1 < lines.len() {
        head.push('\n')
    } else {
        head
    }
}

/// A text with a line feed at its end, where it is not empty.
pub open spec fn line_ended(s: Seq<char>) -> Seq<char> {
    if s.len() > 0 && s.last() != '\n' {
        s.push('\n')
    } else {
        s
    }
}

/// What follows the frontmatter of a text.
pub open spec fn rest_text(body: Seq<char>) -> Seq<char> {
    body.skip(front_text(body).len() as int)
}

/// The text with quotes, backslashes and line breaks written as escape sequences.
pub open spec fn escaped(s: Seq<char>) -> Seq<char>
    decreases s.len(),
{
    if s.len() == 0 {
        Seq::empty()
    } else {
        escape_sequence(s[0]) + escaped(s.skip(1))
    }
}

/// How one character is written between double quotes.
pub open spec fn escape_sequence(c: char) -> Seq<char> {
    if c == '\\' {
        seq!['\\', '\\']
    } else if c == '"' {
        seq!['\\', '"']
    } else if c == '\n' {
        seq!['\\', 'n']
    } else if c == '\r' {
        seq!['\\', 'r']
    } else {
        seq![c]
    }
}

/// What a backslash and the character behind it stand for; an unknown pair stands for itself.
pub open spec fn escape_meaning(c: char) -> Seq<char> {
    if c == '\\' || c == '"' {
        seq![c]
    } else if c == 'n' {
        seq!['\n']
    } else if c == 'r' {
        seq!['\r']
    } else if c == 't' {
        seq!['\t']
    } else {
        seq!['\\', c]
    }
}

/// The text that escape sequences stand for.
pub open spec fn unescaped(s: Seq<char>) -> Seq<char>
    decreases s.len(),
{
    if s.len() == 0 {
        Seq::empty()
    } else if s[0] == '\\' && s.len() > 1 {
        escape_meaning(s[1]) + unescaped(s.skip(2))
    } else {
        seq![s[0]] + unescaped(s.skip(1))
    }
}

/// A scalar between double quotes.
pub open spec fn quoted(s: Seq<char>) -> Seq<char> {
    seq!['"'] + escaped(s) + seq!['"']
}

/// The value of a scalar: double-quoted, single-quoted or plain.
pub open spec fn scalar_value(v: Seq<char>) -> Seq<char> {
    if v.len() >= 2 && v[0] == '"' && v.last() == '"' {
        unescaped(v.subrange(1, v.len() - 1))
    } else if v.len() >= 2 && v[0] == '\'' && v.last() == '\'' {
        replaced(v.subrange(1, v.len() - 1), seq!['\'', '\''], seq!['\''])
    } else {
        v
    }
}

/// A line of a block list: a hyphen, alone or with a space behind it.
pub open spec fn list_item(line: Seq<char>) -> bool {
    let t = trimmed(line);
    t.len() > 0 && t[0] == '-' && (t.len() == 1 || t[1] == ' ')
}

/// The value of a line of a block list.
pub open spec fn item_value(line: Seq<char>) -> Seq<char> {
    scalar_value(trimmed(trimmed(line).skip(1)))
}

/// The complement of `list_item` as a predicate on lines.
pub open spec fn list_ends() -> spec_fn(Seq<char>) -> bool {
    |line: Seq<char>| !list_item(line)
}

/// A line that opens with `key` and a colon, as a predicate on lines.
pub open spec fn key_lines(key: Seq<char>) -> spec_fn(Seq<char>) -> bool {
    |line: Seq<char>| key.push(':').is_prefix_of(line)
}

/// What stands behind the key and its colon.
pub open spec fn inline_value(key: Seq<char>, line: Seq<char>) -> Seq<char> {
    trimmed(line.skip((key.len() + 1) as int))
}

/// How far a flow list has been read.
#[verifier::ext_equal]
pub struct FlowScan {
    /// The entries that ended with a comma.
    pub done: Seq<Seq<char>>,
    /// The entry that is being read.
    pub current: Seq<char>,
    /// The quote that the entry stands in.
    pub quote: Option<char>,
    /// The next character is escaped.
    pub escape: bool,
}

/// Reads one character of a flow list. A comma ends an entry unless it stands between quotes.
pub open spec fn flow_step(scan: FlowScan, c: char) -> FlowScan {
    if c == ',' && scan.quote is None {
        FlowScan {
            done: scan.done.push(scan.current),
            current: Seq::empty(),
            quote: None,
            escape: false,
        }
    } else {
        FlowScan {
            done: scan.done,
            current: scan.current.push(c),
            quote: match scan.quote {
                None => if c == '"' || c == '\'' {
                    Some(c)
                } else {
                    None
                },
                Some(q) => if c == q && !scan.escape {
                    None
                } else {
                    Some(q)
                },
            },
            escape: scan.quote == Some('"') && c == '\\' && !scan.escape,
        }
    }
}

/// Reads a flow list from its first character on.
pub open spec fn flow_scan(s: Seq<char>) -> FlowScan
    decreases s.len(),
{
    if s.len() == 0 {
        FlowScan { done: Seq::empty(), current: Seq::empty(), quote: None, escape: false }
    } else {
        flow_step(flow_scan(s.drop_last()), s.last())
    }
}

/// The values of a flow list, without its brackets. Nothing behind the last comma is no entry.
pub open spec fn flow_values(s: Seq<char>) -> Seq<Seq<char>> {
    let scan = flow_scan(s);
    let entries = if trimmed(scan.current).len() > 0 {
        scan.done.push(scan.current)
    } else {
        scan.done
    };
    entries.map_values(|e: Seq<char>| scalar_value(trimmed(e)))
}

/// The aliases that a frontmatter block lists: under the first `aliases:` key, as a block list,
/// as a flow list, or as a single scalar.
pub open spec fn block_aliases(block: Seq<Seq<char>>) -> Seq<Seq<char>> {
    let at = first_line(block, 0, key_lines("aliases"@));
    if at >= block.len() {
        Seq::empty()
    } else {
        let v = inline_value("aliases"@, block[at]);
        if v.len() == 0 {
            block.subrange(at + 1, first_line(block, at + 1, list_ends())).map_values(
                |line: Seq<char>| item_value(line),
            )
        } else if v.len() >= 2 && v[0] == '[' && v.last() == ']' {
            flow_values(v.subrange(1, v.len() - 1))
        } else {
            seq![scalar_value(v)]
        }
    }
}

/// The aliases in the frontmatter of a text.
pub open spec fn aliases_of(body: Seq<char>) -> Seq<Seq<char>> {
    block_aliases(block_of(pieces(body, '\n')))
}

/// The lines that list `aliases`.
pub open spec fn alias_lines(aliases: Seq<Seq<char>>) -> Seq<Seq<char>> {
    seq!["aliases:"@] + aliases.map_values(|a: Seq<char>| "  - "@ + quoted(a))
}

/// A text with a new frontmatter in front of it that lists `aliases`.
pub open spec fn prepended(body: Seq<char>, aliases: Seq<Seq<char>>) -> Seq<char> {
    joined(
        seq!["---"@] + alias_lines(aliases) + seq!["---"@] + pieces(body, '\n'),
        seq!['\n'],
    )
}

/// The lines of a text with the alias list of its frontmatter replaced. Where the block has no
/// alias list, the new one stands last in it. The closing fence ends with a line feed.
pub open spec fn patched_lines(lines: Seq<Seq<char>>, aliases: Seq<Seq<char>>) -> Seq<Seq<char>> {
    let block = block_of(lines);
    let at = first_line(block, 0, key_lines("aliases"@));
    let end = if at < block.len() {
        first_line(block, at + 1, list_ends())
    } else {
        at
    };
    let tail = lines.skip(1 + end);
    let ended = if closing(lines) + 1 < lines.len() {
        tail
    } else {
        tail.push(Seq::empty())
    };
    lines.take(1 + at) + alias_lines(aliases) + ended
}

/// A text with the alias list of its frontmatter replaced.
pub open spec fn patched(body: Seq<char>, aliases: Seq<Seq<char>>) -> Seq<char> {
    joined(patched_lines(pieces(body, '\n'), aliases), seq!['\n'])
}

/// Whether `line` is a fence.
fn is_fence(line: &str) -> (r: bool)
    ensures
        r == fence(line@),
{
    same(trim_end(line), "---")
}

/// The position of the closing fence, if `lines` open with frontmatter.
fn find_closing(lines: &Vec<String>) -> (r: Option<usize>)
    ensures
        match r {
            Some(at) => {
                &&& has_frontmatter(contents(lines@))
                &&& at == closing(contents(lines@))
                &&& 1 <= at < lines.len()
            },
            None => !has_frontmatter(contents(lines@)),
        },
{
    if lines.len() == 0 {
        return None;
    }
    assert(contents(lines@)[0] == lines@[0]@);
    if !is_fence(lines[0].as_str()) {
        return None;
    }
    let accepts = |line: &str| -> (b: bool)
        ensures b == fence(line@)
    {
        is_fence(line)
    };
    let at: usize = find_line(lines, 1, accepts, Ghost(fences()));
    if at < lines.len() {
        Some(at)
    } else {
        None
    }
}

/// A copy of `lines[from..to]`.
fn slice_lines(lines: &Vec<String>, from: usize, to: usize) -> (r: Vec<String>)
    requires
        from <= to <= lines.len(),
    ensures
        contents(r@) == contents(lines@).subrange(from as int, to as int),
{
    let mut out: Vec<String> = Vec::new();
    let mut i: usize = from;
    while i < to
        invariant
            from <= i <= to <= lines.len(),
            contents(out@) == contents(lines@).subrange(from as int, i as int),
        decreases to - i,
    {
        let ghost before = out@;
        out.push(lines[i].clone());
        assert(contents(out@) =~= contents(before).push(lines@[i as int]@));
        assert(contents(out@) =~= contents(lines@).subrange(from as int, i + 1));
        i = i + 1;
    }
    out
}

/// Appends the strings of `more` to `out`.
fn extend_lines(out: &mut Vec<String>, more: &Vec<String>)
    ensures
        contents(final(out)@) == contents(old(out)@) + contents(more@),
{
    let ghost start = contents(out@);
    let mut i: usize = 0;
    while i < more.len()
        invariant
            i <= more.len(),
            contents(out@) == start + contents(more@).take(i as int),
        decreases more.len() - i,
    {
        let ghost before = out@;
        out.push(more[i].clone());
        assert(contents(out@) =~= contents(before).push(more@[i as int]@));
        assert(contents(out@) =~= start + contents(more@).take(i + 1));
        i = i + 1;
    }
    assert(contents(more@).take(i as int) =~= contents(more@));
}

/// The lines between the fences of the frontmatter, if there is any.
pub fn frontmatter_block(content: &str) -> (r: Option<Vec<String>>)
    ensures
        match r {
            Some(block) => {
                &&& has_frontmatter(pieces(content@, '\n'))
                &&& contents(block@) == block_of(pieces(content@, '\n'))
            },
            None => !has_frontmatter(pieces(content@, '\n')),
        },
{
    let lines = split(content, '\n');
    match find_closing(&lines) {
        Some(at) => Some(slice_lines(&lines, 1, at)),
        None => None,
    }
}

/// The text with quotes, backslashes and line breaks written as escape sequences.
fn escape(s: &str) -> (r: String)
    ensures
        r@ == escaped(s@),
{
    let v = chars_of(s);
    let mut out = String::new();
    let mut i: usize = 0;
    assert(out@ + escaped(s@.skip(0)) =~= escaped(s@)) by {
        assert(s@.skip(0) =~= s@);
    }
    while i < v.len()
        invariant
            v@ == s@,
            i <= v.len(),
            escaped(s@) == out@ + escaped(s@.skip(i as int)),
        decreases v.len() - i,
    {
        let ghost before = out@;
        let c = v[i];
        assert(s@.skip(i as int).skip(1) =~= s@.skip(i + 1));
        if c == '\\' || c == '"' {
            out.push('\\');
            out.push(c);
        } else if c == '\n' {
            out.push('\\');
            out.push('n');
        } else if c == '\r' {
            out.push('\\');
            out.push('r');
        } else {
            out.push(c);
        }
        assert(out@ =~= before + escape_sequence(c));
        assert(before + (escape_sequence(c) + escaped(s@.skip(i + 1))) =~= out@ + escaped(
            s@.skip(i + 1),
        ));
        i = i + 1;
    }
    assert(s@.skip(i as int) =~= Seq::<char>::empty());
    assert(out@ + Seq::<char>::empty() =~= out@);
    out
}

/// The text that escape sequences stand for.
fn unescape(s: &str) -> (r: String)
    ensures
        r@ == unescaped(s@),
{
    let v = chars_of(s);
    let mut out = String::new();
    let mut i: usize = 0;
    assert(out@ + unescaped(s@.skip(0)) =~= unescaped(s@)) by {
        assert(s@.skip(0) =~= s@);
    }
    while i < v.len()
        invariant
            v@ == s@,
            i <= v.len(),
            unescaped(s@) == out@ + unescaped(s@.skip(i as int)),
        decreases v.len() - i,
    {
        let ghost before = out@;
        let ghost rest = s@.skip(i as int);
        let c = v[i];
        if c == '\\' && v.len() - i > 1 {
            let d = v[i + 1];
            if d == '\\' || d == '"' {
                out.push(d);
            } else if d == 'n' {
                out.push('\n');
            } else if d == 'r' {
                out.push('\r');
            } else if d == 't' {
                out.push('\t');
            } else {
                out.push(c);
                out.push(d);
            }
            assert(rest[1] == d);
            assert(rest.skip(2) =~= s@.skip(i + 2));
            assert(out@ =~= before + escape_meaning(d));
            assert(before + (escape_meaning(d) + unescaped(s@.skip(i + 2))) =~= out@ + unescaped(
                s@.skip(i + 2),
            ));
            i = i + 2;
        } else {
            out.push(c);
            assert(rest.skip(1) =~= s@.skip(i + 1));
            assert(before + (seq![c] + unescaped(s@.skip(i + 1))) =~= out@ + unescaped(
                s@.skip(i + 1),
            ));
            i = i + 1;
        }
    }
    assert(s@.skip(i as int) =~= Seq::<char>::empty());
    assert(out@ + Seq::<char>::empty() =~= out@);
    out
}

/// The value of a scalar.
fn read_scalar(v: &str) -> (r: String)
    ensures
        r@ == scalar_value(v@),
{
    let cs = chars_of(v);
    let n: usize = cs.len();
    if n >= 2 && cs[0] == '"' && cs[n - 1] == '"' {
        unescape(v.substring_char(1, n - 1))
    } else if n >= 2 && cs[0] == '\'' && cs[n - 1] == '\'' {
        proof {
            reveal_strlit("''");
            reveal_strlit("'");
            assert("''"@ =~= seq!['\'', '\'']);
            assert("'"@ =~= seq!['\'']);
        }
        replace(v.substring_char(1, n - 1), "''", "'")
    } else {
        v.to_owned()
    }
}

/// What follows the first `n` characters of `s`.
fn behind(s: &str, n: usize) -> (r: &str)
    requires
        n <= s@.len(),
    ensures
        r@ == s@.skip(n as int),
{
    let len: usize = chars_of(s).len();
    let r = s.substring_char(n, len);
    assert(r@ =~= s@.skip(n as int));
    r
}

/// Whether `line` belongs to a block list.
fn is_list_item(line: &str) -> (r: bool)
    ensures
        r == list_item(line@),
{
    let t = chars_of(trim(line));
    t.len() > 0 && t[0] == '-' && (t.len() == 1 || t[1] == ' ')
}

/// The values of a flow list, without its brackets.
fn read_flow(s: &str) -> (r: Vec<String>)
    ensures
        contents(r@) == flow_values(s@),
{
    let v = chars_of(s);
    let mut done: Vec<String> = Vec::new();
    let mut current = String::new();
    let mut quote: Option<char> = None;
    let mut escape: bool = false;
    let mut i: usize = 0;
    assert(s@.take(0) =~= Seq::<char>::empty());
    assert(contents(done@) =~= Seq::<Seq<char>>::empty());
    while i < v.len()
        invariant
            v@ == s@,
            i <= v.len(),
            flow_scan(s@.take(i as int)) == (FlowScan {
                done: contents(done@),
                current: current@,
                quote,
                escape,
            }),
        decreases v.len() - i,
    {
        let ghost scan = flow_scan(s@.take(i as int));
        assert(s@.take(i + 1).drop_last() =~= s@.take(i as int));
        let c = v[i];
        if c == ',' && quote.is_none() {
            let ghost before = done@;
            done.push(current);
            assert(contents(done@) =~= contents(before).push(scan.current));
            current = String::new();
            escape = false;
        } else {
            current.push(c);
            let in_double = match quote {
                Some(q) => q == '"',
                None => false,
            };
            let next_quote = match quote {
                None => if c == '"' || c == '\'' {
                    Some(c)
                } else {
                    None
                },
                Some(q) => if c == q && !escape {
                    None
                } else {
                    Some(q)
                },
            };
            escape = in_double && c == '\\' && !escape;
            quote = next_quote;
        }
        i = i + 1;
    }
    assert(s@.take(i as int) =~= s@);
    let ghost scan = flow_scan(s@);
    let ghost finished = done@;
    if !trim(current.as_str()).is_empty() {
        done.push(current);
        assert(contents(done@) =~= contents(finished).push(scan.current));
    }
    let ghost entries = contents(done@);
    let mut out: Vec<String> = Vec::new();
    let mut j: usize = 0;
    let ghost values = entries.map_values(|e: Seq<char>| scalar_value(trimmed(e)));
    while j < done.len()
        invariant
            j <= done.len(),
            entries == contents(done@),
            values == entries.map_values(|e: Seq<char>| scalar_value(trimmed(e))),
            contents(out@) == values.take(j as int),
        decreases done.len() - j,
    {
        let ghost before = out@;
        assert(entries[j as int] == done@[j as int]@);
        out.push(read_scalar(trim(done[j].as_str())));
        assert(contents(out@) =~= contents(before).push(values[j as int]));
        assert(contents(out@) =~= values.take(j + 1));
        j = j + 1;
    }
    assert(values.take(j as int) =~= values);
    out
}

/// The position of the first line of `block` that opens with `key` and a colon.
fn find_key(block: &Vec<String>, key: &str) -> (r: usize)
    ensures
        r == first_line(contents(block@), 0, key_lines(key@)),
        r <= block.len(),
        r < block.len() ==> key@.push(':').is_prefix_of(block@[r as int]@),
{
    let mut opening = key.to_owned();
    opening.push(':');
    let head = opening.as_str();
    let accepts = |line: &str| -> (b: bool)
        ensures b == head@.is_prefix_of(line@)
    {
        starts_with(line, head)
    };
    find_line(block, 0, accepts, Ghost(key_lines(key@)))
}

/// The end of the block list that begins at line `from`.
fn find_list_end(block: &Vec<String>, from: usize) -> (r: usize)
    requires
        from <= block.len(),
    ensures
        r == first_line(contents(block@), from as int, list_ends()),
        from <= r <= block.len(),
{
    let accepts = |line: &str| -> (b: bool)
        ensures b == !list_item(line@)
    {
        !is_list_item(line)
    };
    find_line(block, from, accepts, Ghost(list_ends()))
}

/// The aliases that a frontmatter block lists.
fn read_aliases(block: &Vec<String>) -> (r: Vec<String>)
    ensures
        contents(r@) == block_aliases(contents(block@)),
{
    let ghost all = contents(block@);
    let at: usize = find_key(block, "aliases");
    if at >= block.len() {
        let none: Vec<String> = Vec::new();
        assert(contents(none@) =~= Seq::<Seq<char>>::empty());
        return none;
    }
    assert(all[at as int] == block@[at as int]@);
    proof {
        reveal_strlit("aliases");
    }
    let v = trim(behind(block[at].as_str(), 8));
    let cs = chars_of(v);
    let n: usize = cs.len();
    if n == 0 {
        let end: usize = find_list_end(block, at + 1);
        let mut out: Vec<String> = Vec::new();
        let mut i: usize = at + 1;
        let ghost items = all.subrange(at + 1, end as int);
        let ghost values = items.map_values(|line: Seq<char>| item_value(line));
        proof {
            lemma_first_line(all, at + 1, list_ends());
        }
        while i < end
            invariant
                at + 1 <= i <= end <= block.len(),
                all == contents(block@),
                items == all.subrange(at + 1, end as int),
                values == items.map_values(|line: Seq<char>| item_value(line)),
                contents(out@) == values.take(i - at - 1),
                forall|k: int| at + 1 <= k < end ==> list_item(#[trigger] all[k]),
            decreases end - i,
        {
            let ghost before = out@;
            assert(all[i as int] == block@[i as int]@);
            assert(items[i - at - 1] == all[i as int]);
            assert(list_item(all[i as int]));
            out.push(read_scalar(trim(behind(trim(block[i].as_str()), 1))));
            assert(contents(out@) =~= contents(before).push(values[i - at - 1]));
            assert(contents(out@) =~= values.take(i - at));
            i = i + 1;
        }
        assert(values.take(end - at - 1) =~= values);
        out
    } else if n >= 2 && cs[0] == '[' && cs[n - 1] == ']' {
        read_flow(v.substring_char(1, n - 1))
    } else {
        let mut out: Vec<String> = Vec::new();
        out.push(read_scalar(v));
        assert(contents(out@) =~= seq![scalar_value(v@)]);
        out
    }
}

/// The length of the frontmatter in characters, and the aliases that it lists. The length is 0
/// where there is no frontmatter.
pub fn parse_frontmatter_aliases(body: &str) -> (r: (usize, Vec<String>))
    ensures
        r.0 == front_text(body@).len(),
        contents(r.1@) == aliases_of(body@),
{
    let lines = split(body, '\n');
    let ghost all = contents(lines@);
    match find_closing(&lines) {
        Some(at) => {
            let head_lines = slice_lines(&lines, 0, at + 1);
            proof {
                reveal_strlit("\n");
                assert("\n"@ =~= seq!['\n']);
                assert(all.subrange(0, at + 1) =~= all.take(at + 1));
            }
            let mut head = join(&head_lines, "\n");
            if at + 1 < lines.len() {
                head.push('\n');
            }
            let block = slice_lines(&lines, 1, at);
            (chars_of(head.as_str()).len(), read_aliases(&block))
        },
        None => {
            let block: Vec<String> = Vec::new();
            assert(contents(block@) =~= Seq::<Seq<char>>::empty());
            (0, read_aliases(&block))
        },
    }
}

/// The lines that list `aliases`.
fn write_alias_lines(aliases: &Vec<String>) -> (r: Vec<String>)
    ensures
        contents(r@) == alias_lines(contents(aliases@)),
{
    let mut out: Vec<String> = Vec::new();
    out.push("aliases:".to_owned());
    let ghost all = contents(aliases@);
    let ghost items = all.map_values(|a: Seq<char>| "  - "@ + quoted(a));
    assert(contents(out@) =~= seq!["aliases:"@] + items.take(0));
    let mut i: usize = 0;
    while i < aliases.len()
        invariant
            i <= aliases.len(),
            all == contents(aliases@),
            items == all.map_values(|a: Seq<char>| "  - "@ + quoted(a)),
            contents(out@) == seq!["aliases:"@] + items.take(i as int),
        decreases aliases.len() - i,
    {
        let ghost before = out@;
        assert(all[i as int] == aliases@[i as int]@);
        let mut line = "  - ".to_owned();
        line.push('"');
        let inner = escape(aliases[i].as_str());
        line.append(inner.as_str());
        line.push('"');
        assert(line@ =~= items[i as int]);
        out.push(line);
        assert(contents(out@) =~= contents(before).push(items[i as int]));
        assert(contents(out@) =~= seq!["aliases:"@] + items.take(i + 1));
        i = i + 1;
    }
    assert(items.take(i as int) =~= items);
    out
}

/// Puts a new frontmatter that lists `aliases` in front of `body`.
pub fn prepend_new_aliases(body: &str, aliases: &Vec<String>) -> (r: String)
    ensures
        r@ == prepended(body@, contents(aliases@)),
{
    let mut out: Vec<String> = Vec::new();
    out.push("---".to_owned());
    assert(contents(out@) =~= seq!["---"@]);
    let list = write_alias_lines(aliases);
    extend_lines(&mut out, &list);
    let ghost before = out@;
    out.push("---".to_owned());
    assert(contents(out@) =~= contents(before) + seq!["---"@]);
    let rest = split(body, '\n');
    extend_lines(&mut out, &rest);
    proof {
        reveal_strlit("\n");
        assert("\n"@ =~= seq!['\n']);
    }
    join(&out, "\n")
}

/// Replaces the alias list in the frontmatter of `body`; there is nothing to replace where
/// `body` has no frontmatter.
pub fn patch_aliases(body: &str, aliases: &Vec<String>) -> (r: Option<String>)
    ensures
        match r {
            Some(s) => has_frontmatter(pieces(body@, '\n')) && s@ == patched(
                body@,
                contents(aliases@),
            ),
            None => !has_frontmatter(pieces(body@, '\n')),
        },
{
    let lines = split(body, '\n');
    let ghost all = contents(lines@);
    let closing_at: usize = match find_closing(&lines) {
        Some(at) => at,
        None => return None,
    };
    let block = slice_lines(&lines, 1, closing_at);
    let at: usize = find_key(&block, "aliases");
    let end: usize = if at < block.len() {
        find_list_end(&block, at + 1)
    } else {
        at
    };
    assert(contents(block@).len() == closing_at - 1);
    let mut out = slice_lines(&lines, 0, at + 1);
    assert(all.subrange(0, at + 1) =~= all.take(1 + at));
    let list = write_alias_lines(aliases);
    extend_lines(&mut out, &list);
    let tail = slice_lines(&lines, end + 1, lines.len());
    assert(all.subrange(end + 1, all.len() as int) =~= all.skip(1 + end));
    extend_lines(&mut out, &tail);
    if closing_at + 1 >= lines.len() {
        let ghost before = out@;
        out.push(String::new());
        assert(contents(out@) =~= contents(before).push(Seq::<char>::empty()));
    }
    proof {
        reveal_strlit("\n");
        assert("\n"@ =~= seq!['\n']);
        assert(contents(out@) =~= patched_lines(all, contents(aliases@)));
    }
    Some(join(&out, "\n"))
}

/// The marks that open a block scalar.
pub open spec fn folds(v: Seq<char>) -> bool {
    v == ">"@ || v == ">-"@ || v == ">+"@
}

pub open spec fn literal(v: Seq<char>) -> bool {
    v == "|"@ || v == "|-"@ || v == "|+"@
}

/// A line that is neither blank nor indented ends a block scalar.
pub open spec fn outdented(line: Seq<char>) -> bool {
    trimmed(line).len() > 0 && line[0] != ' ' && line[0] != '\t'
}

/// `outdented` as a predicate on lines.
pub open spec fn outdents() -> spec_fn(Seq<char>) -> bool {
    |line: Seq<char>| outdented(line)
}

/// The lines that are not blank, without the white space around them.
pub open spec fn text_lines(lines: Seq<Seq<char>>) -> Seq<Seq<char>>
    decreases lines.len(),
{
    if lines.len() == 0 {
        Seq::empty()
    } else {
        let before = text_lines(lines.drop_last());
        let t = trimmed(lines.last());
        if t.len() > 0 {
            before.push(t)
        } else {
            before
        }
    }
}

/// The value of a scalar field of a frontmatter block. A folded block scalar is one line of its
/// text lines; a literal one keeps its lines, without their indentation.
pub open spec fn field_value(block: Seq<Seq<char>>, key: Seq<char>) -> Option<Seq<char>> {
    let at = first_line(block, 0, key_lines(key));
    if at >= block.len() {
        None
    } else {
        let v = inline_value(key, block[at]);
        let scalar = block.subrange(at + 1, first_line(block, at + 1, outdents()));
        if folds(v) {
            Some(joined(text_lines(scalar), seq![' ']))
        } else if literal(v) {
            Some(joined(text_lines(scalar), seq!['\n']))
        } else {
            Some(scalar_value(v))
        }
    }
}

/// Whether `line` ends a block scalar.
fn is_outdented(line: &str) -> (r: bool)
    ensures
        r == outdented(line@),
{
    if trim(line).is_empty() {
        return false;
    }
    let v = chars_of(line);
    if v.len() == 0 {
        assert(trimmed(line@) =~= Seq::<char>::empty());
        return false;
    }
    v[0] != ' ' && v[0] != '\t'
}

/// The lines of `block[from..to]` that are not blank, without the white space around them.
fn read_text_lines(block: &Vec<String>, from: usize, to: usize) -> (r: Vec<String>)
    requires
        from <= to <= block.len(),
    ensures
        contents(r@) == text_lines(contents(block@).subrange(from as int, to as int)),
{
    let ghost all = contents(block@);
    let mut out: Vec<String> = Vec::new();
    let mut i: usize = from;
    assert(all.subrange(from as int, from as int) =~= Seq::<Seq<char>>::empty());
    assert(contents(out@) =~= Seq::<Seq<char>>::empty());
    while i < to
        invariant
            from <= i <= to <= block.len(),
            all == contents(block@),
            contents(out@) == text_lines(all.subrange(from as int, i as int)),
        decreases to - i,
    {
        let ghost before = out@;
        assert(all.subrange(from as int, i + 1).drop_last() =~= all.subrange(from as int, i as int));
        assert(all[i as int] == block@[i as int]@);
        let t = trim(block[i].as_str());
        if !t.is_empty() {
            out.push(t.to_owned());
            assert(contents(out@) =~= contents(before).push(t@));
        }
        i = i + 1;
    }
    out
}

/// The value of the scalar field `key` of a frontmatter block.
pub fn scalar_field(block: &Vec<String>, key: &str) -> (r: Option<String>)
    ensures
        crate::text::content(r) == field_value(contents(block@), key@),
{
    let ghost all = contents(block@);
    let at: usize = find_key(block, key);
    if at >= block.len() {
        return None;
    }
    assert(all[at as int] == block@[at as int]@);
    let key_len: usize = chars_of(concat(key, ":").as_str()).len();
    proof {
        reveal_strlit(":");
    }
    let v = trim(behind(block[at].as_str(), key_len));
    let folded = same(v, ">") || same(v, ">-") || same(v, ">+");
    let kept = same(v, "|") || same(v, "|-") || same(v, "|+");
    if folded || kept {
        let accepts = |line: &str| -> (b: bool)
            ensures b == outdented(line@)
        {
            is_outdented(line)
        };
        let end: usize = find_line(block, at + 1, accepts, Ghost(outdents()));
        let texts = read_text_lines(block, at + 1, end);
        proof {
            reveal_strlit(" ");
            reveal_strlit("\n");
            assert(" "@ =~= seq![' ']);
            assert("\n"@ =~= seq!['\n']);
        }
        if folded {
            Some(join(&texts, " "))
        } else {
            Some(join(&texts, "\n"))
        }
    } else {
        Some(read_scalar(v))
    }
}

/// Escape sequences stand for the text that they were made from.
pub proof fn lemma_unescaped_escaped(s: Seq<char>)
    ensures
        unescaped(escaped(s)) == s,
    decreases s.len(),
{
    if s.len() > 0 {
        lemma_unescaped_escaped(s.skip(1));
        let seq = escape_sequence(s[0]);
        let whole = seq + escaped(s.skip(1));
        assert(whole.skip(seq.len() as int) =~= escaped(s.skip(1)));
        assert(unescaped(whole) =~= seq![s[0]] + unescaped(escaped(s.skip(1))));
        assert(seq![s[0]] + s.skip(1) =~= s);
    }
}

/// Escaped text stands on one line.
proof fn lemma_escaped_holds_no_line_feed(s: Seq<char>)
    ensures
        !escaped(s).contains('\n'),
    decreases s.len(),
{
    if s.len() > 0 {
        lemma_escaped_holds_no_line_feed(s.skip(1));
        let seq = escape_sequence(s[0]);
        let whole = seq + escaped(s.skip(1));
        if whole.contains('\n') {
            let j = choose|j: int| 0 <= j < whole.len() && whole[j] == '\n';
            if j < seq.len() {
                assert(seq[j] == '\n');
            } else {
                assert(escaped(s.skip(1))[j - seq.len()] == '\n');
            }
        }
    }
}

/// A quoted scalar reads back as the text that it was made from.
pub proof fn lemma_scalar_value_of_quoted(s: Seq<char>)
    ensures
        scalar_value(quoted(s)) == s,
{
    let q = quoted(s);
    assert(q.subrange(1, q.len() - 1) =~= escaped(s));
    lemma_unescaped_escaped(s);
}

/// A line that `alias_lines` writes for an alias: it belongs to a block list, reads back as the
/// alias, and is neither a fence nor more than one line.
proof fn lemma_alias_line(a: Seq<char>)
    ensures
        list_item("  - "@ + quoted(a)),
        item_value("  - "@ + quoted(a)) == a,
        !fence("  - "@ + quoted(a)),
        !("  - "@ + quoted(a)).contains('\n'),
{
    reveal_strlit("  - ");
    reveal_strlit("---");
    let q = quoted(a);
    let line = "  - "@ + q;
    let t = seq!['-', ' '] + q;
    assert(line.skip(1).skip(1) =~= t);
    reveal_with_fuel(trimmed_start, 3);
    assert(trimmed_start(line) == t);
    assert(trimmed_end(t) == t);
    assert(trimmed(line) == t);
    assert(t.skip(1).skip(1) =~= q);
    assert(trimmed_start(t.skip(1)) == q);
    assert(trimmed_end(q) == q);
    lemma_scalar_value_of_quoted(a);
    assert(trimmed_end(line) == line);
    assert(line[0] == ' ');
    lemma_escaped_holds_no_line_feed(a);
    if line.contains('\n') {
        let j = choose|j: int| 0 <= j < line.len() && line[j] == '\n';
        if 5 <= j < line.len() - 1 {
            assert(escaped(a)[j - 5] == '\n');
        }
    }
}

/// The `aliases:` line opens the alias list and is neither a fence nor more than one line.
proof fn lemma_key_line()
    ensures
        key_lines("aliases"@)("aliases:"@),
        inline_value("aliases"@, "aliases:"@).len() == 0,
        !fence("aliases:"@),
        !"aliases:"@.contains('\n'),
{
    reveal_strlit("aliases");
    reveal_strlit("aliases:");
    reveal_strlit("---");
    assert("aliases"@.push(':') =~= "aliases:"@);
    assert("aliases:"@.skip(8) =~= Seq::<char>::empty());
    assert(trimmed_end("aliases:"@) == "aliases:"@);
}

/// An alias list with any lines around it that do not belong to it reads back as the aliases
/// that it was written from.
proof fn lemma_block_aliases(before: Seq<Seq<char>>, aliases: Seq<Seq<char>>, after: Seq<Seq<char>>)
    requires
        forall|i: int| 0 <= i < before.len() ==> !key_lines("aliases"@)(#[trigger] before[i]),
        after.len() > 0 ==> !list_item(after[0]),
    ensures
        block_aliases(before + alias_lines(aliases) + after) == aliases,
{
    let block = before + alias_lines(aliases) + after;
    let at = before.len() as int;
    let end = at + 1 + aliases.len();
    lemma_key_line();
    assert(block[at] == "aliases:"@);
    lemma_first_line_is(block, 0, key_lines("aliases"@), at);
    assert forall|i: int| at + 1 <= i < end implies !list_ends()(#[trigger] block[i]) by {
        assert(block[i] == "  - "@ + quoted(aliases[i - at - 1]));
        lemma_alias_line(aliases[i - at - 1]);
    }
    if after.len() > 0 {
        assert(block[end] == after[0]);
    }
    lemma_first_line_is(block, at + 1, list_ends(), end);
    let values = block.subrange(at + 1, end).map_values(|line: Seq<char>| item_value(line));
    assert forall|i: int| 0 <= i < aliases.len() implies values[i] == aliases[i] by {
        assert(block[at + 1 + i] == "  - "@ + quoted(aliases[i]));
        lemma_alias_line(aliases[i]);
    }
    assert(values =~= aliases);
}

/// A text with frontmatter is that frontmatter followed by the lines behind its closing fence.
pub proof fn lemma_front_and_rest(body: Seq<char>)
    requires
        has_frontmatter(pieces(body, '\n')),
    ensures
        body == front_text(body) + rest_text(body),
        front_text(body).len() > 0,
        ({
            let lines = pieces(body, '\n');
            let behind = lines.skip(closing(lines) + 1);
            &&& behind.len() > 0 ==> rest_text(body) == joined(behind, seq!['\n'])
            &&& behind.len() == 0 ==> rest_text(body).len() == 0
        }),
{
    let lines = pieces(body, '\n');
    let c = closing(lines);
    lemma_first_line(lines, 1, fences());
    let head = lines.take(c + 1);
    let behind = lines.skip(c + 1);
    assert(lines =~= head + behind);
    lemma_joined_pieces(body, '\n');
    reveal_strlit("---");
    if behind.len() > 0 {
        lemma_joined_halves(head, behind, seq!['\n']);
        assert(front_text(body) =~= joined(head, seq!['\n']) + seq!['\n']);
        assert(body =~= front_text(body) + joined(behind, seq!['\n']));
        assert(rest_text(body) =~= joined(behind, seq!['\n']));
    } else {
        assert(head =~= lines);
        assert(front_text(body) == body);
        assert(rest_text(body) =~= Seq::<char>::empty());
        assert(body =~= front_text(body) + rest_text(body));
        assert(lines.drop_last() =~= lines.take(c));
        assert(lines.len() > 1);
    }
}

/// Where the first line is a fence and the next fence stands at `c`, the frontmatter ends there.
proof fn lemma_closing_is(lines: Seq<Seq<char>>, c: int)
    requires
        1 <= c < lines.len(),
        fence(lines[0]),
        fence(lines[c]),
        forall|i: int| 1 <= i < c ==> !fence(#[trigger] lines[i]),
    ensures
        closing(lines) == c,
{
    assert forall|i: int| 1 <= i < c implies !fences()(#[trigger] lines[i]) by {
        assert(!fence(lines[i]));
    }
    lemma_first_line_is(lines, 1, fences(), c);
}

/// The lines that list aliases are no fences and hold no line feeds.
proof fn lemma_alias_lines(aliases: Seq<Seq<char>>)
    ensures
        alias_lines(aliases).len() == aliases.len() + 1,
        forall|i: int| #![trigger alias_lines(aliases)[i]]
            0 <= i < alias_lines(aliases).len() ==> !fence(alias_lines(aliases)[i])
                && !alias_lines(aliases)[i].contains('\n'),
{
    assert forall|i: int| #![trigger alias_lines(aliases)[i]]
        0 <= i < alias_lines(aliases).len() implies !fence(alias_lines(aliases)[i])
        && !alias_lines(aliases)[i].contains('\n') by {
        if i == 0 {
            lemma_key_line();
        } else {
            assert(alias_lines(aliases)[i] == "  - "@ + quoted(aliases[i - 1]));
            lemma_alias_line(aliases[i - 1]);
        }
    }
}

/// A new frontmatter reads back as the aliases that it was written from, and the text behind it
/// is the text that it was put in front of.
pub proof fn law_prepended_reads_back(body: Seq<char>, aliases: Seq<Seq<char>>)
    ensures
        has_frontmatter(pieces(prepended(body, aliases), '\n')),
        aliases_of(prepended(body, aliases)) == aliases,
        rest_text(prepended(body, aliases)) == body,
        front_text(prepended(body, aliases)).last() == '\n',
{
    let list = alias_lines(aliases);
    let rest = pieces(body, '\n');
    let lines = seq!["---"@] + list + seq!["---"@] + rest;
    let c = 1 + list.len() as int;
    reveal_strlit("---");
    lemma_alias_lines(aliases);
    lemma_pieces_hold_no_separator(body, '\n');
    lemma_pieces_nonempty(body, '\n');
    assert forall|i: int| 0 <= i < lines.len() implies !(#[trigger] lines[i]).contains('\n') by {
        if 1 <= i < c {
            assert(lines[i] == list[i - 1]);
        } else if i > c {
            assert(lines[i] == rest[i - c - 1]);
        } else {
            assert(lines[i] == "---"@);
        }
    }
    lemma_pieces_of_joined(lines, '\n');
    assert(trimmed_end("---"@) == "---"@);
    assert forall|i: int| 1 <= i < c implies !fence(#[trigger] lines[i]) by {
        assert(lines[i] == list[i - 1]);
    }
    lemma_closing_is(lines, c);
    assert(block_of(lines) =~= Seq::<Seq<char>>::empty() + list + Seq::<Seq<char>>::empty());
    lemma_block_aliases(Seq::empty(), aliases, Seq::empty());
    lemma_front_and_rest(prepended(body, aliases));
    assert(lines.skip(c + 1) =~= rest);
    lemma_joined_pieces(body, '\n');
}

/// A replaced alias list reads back as the aliases that it was written from, and the text behind
/// the frontmatter stays as it is.
pub proof fn law_patched_reads_back(body: Seq<char>, aliases: Seq<Seq<char>>)
    requires
        has_frontmatter(pieces(body, '\n')),
    ensures
        has_frontmatter(pieces(patched(body, aliases), '\n')),
        aliases_of(patched(body, aliases)) == aliases,
        rest_text(patched(body, aliases)) == rest_text(body),
        front_text(patched(body, aliases)).last() == '\n',
{
    let lines = pieces(body, '\n');
    let c = closing(lines);
    let block = block_of(lines);
    let at = first_line(block, 0, key_lines("aliases"@));
    let end = if at < block.len() {
        first_line(block, at + 1, list_ends())
    } else {
        at
    };
    lemma_first_line(lines, 1, fences());
    lemma_first_line(block, 0, key_lines("aliases"@));
    if at < block.len() {
        lemma_first_line(block, at + 1, list_ends());
    }
    let list = alias_lines(aliases);
    let now = patched_lines(lines, aliases);
    let tail = lines.skip(1 + end);
    let d = 1 + at + list.len() + (c - 1 - end);
    lemma_alias_lines(aliases);
    lemma_pieces_hold_no_separator(body, '\n');
    assert forall|i: int| 0 <= i < now.len() implies !(#[trigger] now[i]).contains('\n') by {
        if i < 1 + at {
            assert(now[i] == lines[i]);
        } else if i < 1 + at + list.len() {
            assert(now[i] == list[i - 1 - at]);
        } else if i < 1 + at + list.len() + tail.len() {
            assert(now[i] == lines[i - list.len() - at + end]);
        } else {
            assert(now[i] == Seq::<char>::empty());
        }
    }
    lemma_pieces_of_joined(now, '\n');
    assert(now[0] == lines[0]);
    assert(now[d] == lines[c]);
    assert forall|i: int| 1 <= i < d implies !fence(#[trigger] now[i]) by {
        if i < 1 + at {
            assert(now[i] == lines[i]);
            assert(!fences()(lines[i]));
        } else if i < 1 + at + list.len() {
            assert(now[i] == list[i - 1 - at]);
        } else {
            assert(now[i] == lines[i - list.len() - at + end]);
            assert(!fences()(lines[i - list.len() - at + end]));
        }
    }
    lemma_closing_is(now, d);
    let before = block.take(at);
    let after = block.skip(end);
    assert forall|i: int| 0 <= i < before.len() implies !key_lines("aliases"@)(
        #[trigger] before[i],
    ) by {
        assert(before[i] == block[i]);
    }
    if after.len() > 0 {
        assert(after[0] == block[end]);
        assert(list_ends()(block[end]));
    }
    assert(block_of(now) =~= before + list + after);
    lemma_block_aliases(before, aliases, after);
    lemma_front_and_rest(patched(body, aliases));
    lemma_front_and_rest(body);
    if c + 1 < lines.len() {
        assert(now.skip(d + 1) =~= lines.skip(c + 1));
    } else {
        assert(now.skip(d + 1) =~= seq![Seq::<char>::empty()]);
        assert(rest_text(patched(body, aliases)) =~= rest_text(body));
    }
}

/// The frontmatter of a text, closed with a line feed, is read the same whatever follows it.
pub proof fn lemma_front_is_read_alone(body: Seq<char>, rest: Seq<char>)
    requires
        has_frontmatter(pieces(body, '\n')),
    ensures
        has_frontmatter(pieces(line_ended(front_text(body)) + rest, '\n')),
        aliases_of(line_ended(front_text(body)) + rest) == aliases_of(body),
        front_text(line_ended(front_text(body)) + rest) == line_ended(front_text(body)),
        rest_text(line_ended(front_text(body)) + rest) == rest,
        rest_text(body).len() > 0 ==> line_ended(front_text(body)) == front_text(body),
{
    let lines = pieces(body, '\n');
    let c = closing(lines);
    lemma_first_line(lines, 1, fences());
    let head = lines.take(c + 1);
    let front = line_ended(front_text(body));
    lemma_pieces_hold_no_separator(body, '\n');
    assert forall|i: int| 0 <= i < head.len() implies !(#[trigger] head[i]).contains('\n') by {
        assert(head[i] == lines[i]);
    }
    lemma_pieces_of_joined(head, '\n');
    if c + 1 == lines.len() {
        assert(head =~= lines);
        lemma_joined_pieces(body, '\n');
        assert(front_text(body) == body);
        if body.len() > 0 && body.last() == '\n' {
            assert(lines == pieces(body.drop_last(), '\n').push(Seq::<char>::empty()));
            assert(lines[c] == Seq::<char>::empty());
            reveal_strlit("---");
            assert(fences()(lines[c]));
            assert(false);
        }
    }
    let text = joined(head, seq!['\n']);
    assert(front == text.push('\n'));
    assert(front + rest =~= text + seq!['\n'] + rest);
    lemma_pieces_around_separator(text, rest, '\n');
    let now = pieces(front + rest, '\n');
    lemma_pieces_nonempty(rest, '\n');
    assert(now == head + pieces(rest, '\n'));
    assert forall|i: int| 1 <= i < c implies !fence(#[trigger] now[i]) by {
        assert(now[i] == lines[i]);
        assert(!fences()(lines[i]));
    }
    assert(now[0] == lines[0] && now[c] == lines[c]);
    assert(fences()(lines[c]));
    lemma_closing_is(now, c);
    assert(block_of(now) =~= block_of(lines));
    assert(now.take(c + 1) =~= head);
    assert(rest_text(front + rest) =~= rest);
}

} // verus!
