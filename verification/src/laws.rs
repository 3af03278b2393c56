//! General laws of the two transforms, stated over the same spec functions
//! that the executable contracts use.

use vstd::prelude::*;

use crate::text::{
    find_from,
    is_ws,
    lemma_find_from,
    lemma_find_from_exact,
    lemma_trim_end,
    lemma_trim_spec,
    lemma_trim_start,
    split_lines,
    split_lines_from,
    trim_end_spec,
    trim_spec,
    trim_start_spec,
};
use crate::flatten::{
    flatten_lines,
    flatten_spec,
    lemma_strip_bullets,
    line_effect,
    strip_bullets,
};
use crate::render::{escape_char, render_from, render_spec};

verus! {

/// `s` holds no occurrence of `c`.
pub open spec fn free_of(s: Seq<char>, c: char) -> bool {
    forall|i: int| 0 <= i < s.len() ==> s[i] != c
}

/// A line without a `*` leaves the buffer as it is: it is blank, a bullet,
/// a marker for nothing, or unmarked prose, and only the first of these
/// needs no star.
proof fn lemma_line_effect_no_star(buf: Seq<char>, raw: Seq<char>)
    requires
        free_of(raw, '*'),
    ensures
        line_effect(buf, raw) == buf,
{
    let line = trim_end_spec(raw);
    let t = trim_start_spec(line);
    lemma_trim_end(raw);
    lemma_trim_start(line);
    assert(free_of(line, '*')) by {
        assert(forall|k: int|
            0 <= k < line.len() ==> line[k] == raw.subrange(0, line.len() as int)[k]);
    }
    lemma_find_from(line, 0, '*');
    if find_from(line, 0, '*') < line.len() {
        assert(line[find_from(line, 0, '*')] == '*');
    }
    if t.len() > 0 {
        assert(t[0] == line.skip(line.len() - t.len())[0]);
        assert(t[0] == line[line.len() - t.len()]);
        assert(t[0] != '*');
    }
}

/// Folding star-free lines onto a buffer returns the buffer unchanged.
proof fn lemma_flatten_from_no_star(s: Seq<char>, i: int, buf: Seq<char>)
    requires
        free_of(s, '*'),
        0 <= i <= s.len(),
    ensures
        flatten_lines(split_lines_from(s, i), buf) == buf,
    decreases s.len() - i,
{
    lemma_find_from(s, i, '\n');
    let j = find_from(s, i, '\n');
    let lines = split_lines_from(s, i);
    if i <= j && j < s.len() {
        let raw = s.subrange(i, j);
        assert(free_of(raw, '*'));
        lemma_line_effect_no_star(buf, raw);
        assert(lines[0] == raw);
        assert(lines.skip(1) =~= split_lines_from(s, j + 1));
        assert(flatten_lines(lines, buf) == flatten_lines(lines.skip(1), line_effect(buf, raw)));
        lemma_flatten_from_no_star(s, j + 1, buf);
    } else {
        let raw = s.subrange(i, s.len() as int);
        assert(free_of(raw, '*'));
        lemma_line_effect_no_star(buf, raw);
        assert(lines[0] == raw);
        assert(lines.skip(1) =~= Seq::<Seq<char>>::empty());
        assert(flatten_lines(lines, buf) == flatten_lines(lines.skip(1), line_effect(buf, raw)));
        assert(flatten_lines(lines.skip(1), buf) == buf);
    }
}

/// Once no `*` remains in a text, flattening discards every line: so
/// re-flattening already-flattened text that kept no markers drops all of
/// its content.
pub proof fn lemma_flatten_no_star_drops_all(s: Seq<char>)
    requires
        free_of(s, '*'),
    ensures
        flatten_spec(s) == Seq::<char>::empty(),
{
    lemma_flatten_from_no_star(s, 0, Seq::empty());
}

/// The HTML escape of the text of `s` from position `i` on, with each
/// newline replaced by a line break.
pub open spec fn escape_with_breaks_from(s: Seq<char>, i: int) -> Seq<char>
    decreases s.len() - i,
        when 0 <= i <= s.len()
{
    if i >= s.len() {
        Seq::empty()
    } else if s[i] == '\n' {
        "<br>"@ + escape_with_breaks_from(s, i + 1)
    } else {
        escape_char(s[i]) + escape_with_breaks_from(s, i + 1)
    }
}

/// The HTML escape of `s` with each newline replaced by a line break.
pub open spec fn escape_with_breaks(s: Seq<char>) -> Seq<char> {
    escape_with_breaks_from(s, 0)
}

proof fn lemma_render_from_no_star(s: Seq<char>, i: int)
    requires
        free_of(s, '*'),
        0 <= i <= s.len(),
    ensures
        render_from(s, i) == escape_with_breaks_from(s, i),
    decreases s.len() - i,
{
    if i < s.len() {
        lemma_render_from_no_star(s, i + 1);
    }
}

/// Text with no `*` renders as itself, HTML-escaped, with each newline
/// replaced by a line break and nothing else changed.
pub proof fn lemma_render_no_star(s: Seq<char>)
    requires
        free_of(s, '*'),
    ensures
        render_spec(s) == escape_with_breaks(s),
{
    lemma_render_from_no_star(s, 0);
}

/// A line that is empty or holds at least one non-whitespace character: the
/// only kinds of line the flattener is meant to emit.
pub open spec fn blank_free_line(l: Seq<char>) -> bool {
    l.len() == 0 || exists|i: int| 0 <= i < l.len() && !is_ws(l[i])
}

/// Every line of `t` is empty or holds a non-whitespace character: no line
/// consists of whitespace alone.
pub open spec fn no_blank_lines(t: Seq<char>) -> bool {
    forall|k: int| 0 <= k < split_lines(t).len() ==> blank_free_line(#[trigger] split_lines(t)[k])
}

/// If `raw` is a continuation line — indented, with a `*` somewhere — then
/// something non-blank follows its first `*`.
pub open spec fn continuation_has_content(raw: Seq<char>) -> bool {
    let line = trim_end_spec(raw);
    (trim_start_spec(line).len() > 0 && line.len() > 0 && line[0] == ' ' && find_from(line, 0, '*')
        < line.len()) ==> trim_spec(line.skip(find_from(line, 0, '*') + 1)).len() > 0
}

/// Splitting never yields an empty sequence of lines.
proof fn lemma_split_len(s: Seq<char>, i: int)
    requires
        0 <= i <= s.len(),
    ensures
        split_lines_from(s, i).len() >= 1,
    decreases s.len() - i,
{
    lemma_find_from(s, i, '\n');
    let j = find_from(s, i, '\n');
    if i <= j && j < s.len() {
        lemma_split_len(s, j + 1);
    }
}

/// Appending newline-free text extends the last line and leaves every other
/// line as it was.
proof fn lemma_split_append_free(a: Seq<char>, b: Seq<char>, i: int)
    requires
        free_of(b, '\n'),
        0 <= i <= a.len(),
    ensures
        split_lines_from(a + b, i).len() == split_lines_from(a, i).len(),
        split_lines_from(a + b, i).last() == split_lines_from(a, i).last() + b,
        forall|k: int|
            0 <= k < split_lines_from(a, i).len() - 1 ==> #[trigger] split_lines_from(a + b, i)[k]
                == split_lines_from(a, i)[k],
    decreases a.len() - i,
{
    let u = a + b;
    lemma_find_from(a, i, '\n');
    let j = find_from(a, i, '\n');
    if j < a.len() {
        assert(u[j] == a[j]);
        assert(forall|k: int| i <= k < j ==> u[k] == a[k]);
        lemma_find_from_exact(u, i, '\n', j);
        assert(u.subrange(i, j) =~= a.subrange(i, j));
        lemma_split_append_free(a, b, j + 1);
        lemma_split_len(a, j + 1);
        lemma_split_len(u, j + 1);
        let la = split_lines_from(a, i);
        let lu = split_lines_from(u, i);
        assert(la == seq![a.subrange(i, j)] + split_lines_from(a, j + 1));
        assert(lu == seq![u.subrange(i, j)] + split_lines_from(u, j + 1));
        assert(lu.last() == split_lines_from(u, j + 1).last());
        assert(la.last() == split_lines_from(a, j + 1).last());
        assert forall|k: int| 0 <= k < la.len() - 1 implies lu[k] == la[k] by {
            if k > 0 {
                assert(lu[k] == split_lines_from(u, j + 1)[k - 1]);
                assert(la[k] == split_lines_from(a, j + 1)[k - 1]);
            }
        }
    } else {
        assert forall|k: int| i <= k < u.len() implies u[k] != '\n' by {
            if k < a.len() {
                assert(u[k] == a[k]);
            } else {
                assert(u[k] == b[k - a.len()]);
            }
        }
        lemma_find_from_exact(u, i, '\n', u.len() as int);
        assert(split_lines_from(u, i) == seq![u.subrange(i, u.len() as int)]);
        assert(split_lines_from(a, i) == seq![a.subrange(i, a.len() as int)]);
        assert(u.subrange(i, u.len() as int) =~= a.subrange(i, a.len() as int) + b);
    }
}

/// Appending a single newline closes the lines with one more, empty line.
proof fn lemma_split_append_nl(a: Seq<char>, i: int)
    requires
        0 <= i <= a.len(),
    ensures
        split_lines_from(a + seq!['\n'], i) == split_lines_from(a, i).push(Seq::<char>::empty()),
    decreases a.len() - i,
{
    let u = a + seq!['\n'];
    lemma_find_from(a, i, '\n');
    let j = find_from(a, i, '\n');
    if j < a.len() {
        assert(u[j] == a[j]);
        assert(forall|k: int| i <= k < j ==> u[k] == a[k]);
        lemma_find_from_exact(u, i, '\n', j);
        assert(u.subrange(i, j) =~= a.subrange(i, j));
        lemma_split_append_nl(a, j + 1);
        let la = split_lines_from(a, i);
        let lu = split_lines_from(u, i);
        assert(la == seq![a.subrange(i, j)] + split_lines_from(a, j + 1));
        assert(lu == seq![u.subrange(i, j)] + split_lines_from(u, j + 1));
        assert(seq![a.subrange(i, j)] + split_lines_from(a, j + 1).push(Seq::<char>::empty())
            =~= (seq![a.subrange(i, j)] + split_lines_from(a, j + 1)).push(Seq::<char>::empty()));
    } else {
        assert(u[a.len() as int] == '\n');
        assert forall|k: int| i <= k < a.len() implies u[k] != '\n' by {
            assert(u[k] == a[k]);
        }
        lemma_find_from_exact(u, i, '\n', a.len() as int);
        assert(split_lines_from(u, i) == seq![u.subrange(i, a.len() as int)] + split_lines_from(
            u,
            a.len() as int + 1,
        ));
        assert(split_lines_from(u, a.len() as int + 1) == seq![
            u.subrange(a.len() as int + 1, u.len() as int),
        ]);
        assert(u.subrange(a.len() as int + 1, u.len() as int) =~= Seq::<char>::empty());
        assert(u.subrange(i, a.len() as int) =~= a.subrange(i, a.len() as int));
        assert(split_lines_from(a, i) == seq![a.subrange(i, a.len() as int)]);
        assert(split_lines_from(u, i) =~= split_lines_from(a, i).push(Seq::<char>::empty()));
    }
}

/// `trim_end_spec` keeps no character the input did not hold.
proof fn lemma_free_trim_end(s: Seq<char>, c: char)
    requires
        free_of(s, c),
    ensures
        free_of(trim_end_spec(s), c),
{
    lemma_trim_end(s);
    assert forall|k: int| 0 <= k < trim_end_spec(s).len() implies trim_end_spec(s)[k] != c by {
        assert(trim_end_spec(s)[k] == s.subrange(0, trim_end_spec(s).len() as int)[k]);
    }
}

/// `trim_start_spec` keeps no character the input did not hold.
proof fn lemma_free_trim_start(s: Seq<char>, c: char)
    requires
        free_of(s, c),
    ensures
        free_of(trim_start_spec(s), c),
{
    lemma_trim_start(s);
    let d = s.len() - trim_start_spec(s).len();
    assert forall|k: int| 0 <= k < trim_start_spec(s).len() implies trim_start_spec(s)[k] != c by {
        assert(trim_start_spec(s)[k] == s.skip(d)[k]);
        assert(s.skip(d)[k] == s[k + d]);
    }
}

/// `trim_spec` keeps no character the input did not hold.
proof fn lemma_free_trim_spec(s: Seq<char>, c: char)
    requires
        free_of(s, c),
    ensures
        free_of(trim_spec(s), c),
{
    lemma_free_trim_end(s, c);
    lemma_free_trim_start(trim_end_spec(s), c);
}

/// `strip_bullets` keeps no character the input did not hold.
proof fn lemma_free_strip(s: Seq<char>, c: char)
    requires
        free_of(s, c),
    ensures
        free_of(strip_bullets(s), c),
{
    lemma_strip_bullets(s);
    let d = s.len() - strip_bullets(s).len();
    assert forall|k: int| 0 <= k < strip_bullets(s).len() implies strip_bullets(s)[k] != c by {
        assert(strip_bullets(s)[k] == s.skip(d)[k]);
        assert(s.skip(d)[k] == s[k + d]);
    }
}

/// Appending newline-free, non-blank (or empty) text to the buffer extends
/// its last line without making any line blank.
proof fn lemma_append_keeps_good(buf: Seq<char>, b: Seq<char>)
    requires
        no_blank_lines(buf),
        free_of(b, '\n'),
        blank_free_line(b),
    ensures
        no_blank_lines(buf + b),
{
    if b.len() == 0 {
        assert(buf + b =~= buf);
    } else {
        lemma_split_append_free(buf, b, 0);
        lemma_split_len(buf, 0);
        let lb = split_lines(buf);
        let lo = split_lines(buf + b);
        let w = choose|i: int| 0 <= i < b.len() && !is_ws(b[i]);
        assert forall|k: int| 0 <= k < lo.len() implies blank_free_line(lo[k]) by {
            if k < lo.len() - 1 {
                assert(lo[k] == lb[k]);
                assert(blank_free_line(lb[k]));
            } else {
                assert(lo[k] == lb.last() + b);
                let m = lb.last().len() as int + w;
                assert((lb.last() + b)[m] == b[w]);
                assert(0 <= m < lo[k].len() && !is_ws(lo[k][m]));
            }
        }
    }
}

/// Appending one newline to the buffer adds one empty line and makes no
/// line blank.
proof fn lemma_push_nl_keeps_good(buf: Seq<char>)
    requires
        no_blank_lines(buf),
    ensures
        no_blank_lines(buf + seq!['\n']),
{
    lemma_split_append_nl(buf, 0);
    let lb = split_lines(buf);
    let lo = split_lines(buf + seq!['\n']);
    assert(lo == lb.push(Seq::<char>::empty()));
    assert forall|k: int| 0 <= k < lo.len() implies blank_free_line(lo[k]) by {
        if k < lo.len() - 1 {
            assert(lo[k] == lb[k]);
            assert(blank_free_line(lb[k]));
        } else {
            assert(lo[k] =~= Seq::<char>::empty());
        }
    }
}

/// One line keeps the buffer free of blank lines: what a continuation or a
/// bullet appends is trimmed, so it is empty or starts with ink, and a bare
/// marker adds only an empty line.
proof fn lemma_line_effect_good(buf: Seq<char>, raw: Seq<char>)
    requires
        free_of(raw, '\n'),
        no_blank_lines(buf),
        continuation_has_content(raw),
    ensures
        no_blank_lines(line_effect(buf, raw)),
{
    let line = trim_end_spec(raw);
    let t = trim_start_spec(line);
    lemma_trim_end(raw);
    lemma_trim_start(line);
    lemma_free_trim_end(raw, '\n');
    let out = line_effect(buf, raw);
    if t.len() == 0 {
    } else if line[0] == ' ' && find_from(line, 0, '*') < line.len() {
        lemma_find_from(line, 0, '*');
        let f = find_from(line, 0, '*');
        let tail = line.skip(f + 1);
        let c = trim_spec(tail);
        lemma_trim_spec(tail);
        assert(c.len() > 0);
        assert(!is_ws(c[0]));
        let b = seq![' '] + c;
        assert(free_of(c, '\n')) by {
            assert(free_of(tail, '\n')) by {
                assert(forall|k: int| 0 <= k < tail.len() ==> tail[k] == line[k + f + 1]);
            }
            lemma_free_trim_spec(tail, '\n');
        }
        assert(free_of(b, '\n')) by {
            assert(forall|k: int| 1 <= k < b.len() ==> b[k] == c[k - 1]);
        }
        assert(b[1] == c[0]);
        assert(blank_free_line(b));
        lemma_append_keeps_good(buf, b);
        assert(out =~= buf + b);
    } else if t.len() >= 2 && t[0] == '*' && t[1] == ' ' {
        let content = trim_spec(strip_bullets(t));
        lemma_trim_spec(strip_bullets(t));
        assert(content.len() > 0 ==> !is_ws(content[0]));
        assert(blank_free_line(content));
        lemma_free_trim_start(line, '\n');
        lemma_free_strip(t, '\n');
        lemma_free_trim_spec(strip_bullets(t), '\n');
        assert(free_of(content, '\n'));
        if buf.len() > 0 {
            lemma_push_nl_keeps_good(buf);
            lemma_append_keeps_good(buf + seq!['\n'], content);
            assert(out == buf + seq!['\n'] + content);
        } else {
            lemma_append_keeps_good(buf, content);
            assert(out == buf + content);
        }
    } else if t.len() == 1 && t[0] == '*' {
        lemma_push_nl_keeps_good(buf);
        assert(out == buf + seq!['\n']);
    } else {
    }
}

/// Folding the remaining lines keeps the buffer free of blank lines.
proof fn lemma_flatten_from_good(s: Seq<char>, i: int, buf: Seq<char>)
    requires
        0 <= i <= s.len(),
        no_blank_lines(buf),
        forall|k: int|
            0 <= k < split_lines_from(s, i).len() ==> continuation_has_content(
                #[trigger] split_lines_from(s, i)[k],
            ),
    ensures
        no_blank_lines(flatten_lines(split_lines_from(s, i), buf)),
    decreases s.len() - i,
{
    lemma_find_from(s, i, '\n');
    let j = find_from(s, i, '\n');
    let lines = split_lines_from(s, i);
    if i <= j && j < s.len() {
        let raw = s.subrange(i, j);
        assert(free_of(raw, '\n'));
        assert(lines[0] == raw);
        assert(continuation_has_content(raw));
        lemma_line_effect_good(buf, raw);
        let rest = split_lines_from(s, j + 1);
        assert(lines.skip(1) =~= rest);
        assert forall|k: int| 0 <= k < rest.len() implies continuation_has_content(
            #[trigger] rest[k],
        ) by {
            assert(rest[k] == lines[k + 1]);
            assert(continuation_has_content(lines[k + 1]));
        }
        lemma_flatten_from_good(s, j + 1, line_effect(buf, raw));
        assert(flatten_lines(lines, buf) == flatten_lines(lines.skip(1), line_effect(buf, raw)));
    } else {
        let raw = s.subrange(i, s.len() as int);
        assert(free_of(raw, '\n')) by {
            assert(forall|k: int| 0 <= k < raw.len() ==> raw[k] == s[k + i]);
        }
        assert(lines[0] == raw);
        assert(continuation_has_content(raw));
        lemma_line_effect_good(buf, raw);
        assert(lines.skip(1) =~= Seq::<Seq<char>>::empty());
        assert(flatten_lines(lines, buf) == flatten_lines(lines.skip(1), line_effect(buf, raw)));
        assert(flatten_lines(lines.skip(1), line_effect(buf, raw)) == line_effect(buf, raw));
    }
}

/// Whitespace-only lines never stand in the flattened output: every output
/// line is empty — inserted by a bare `*` marker or by the break before a
/// bullet — or carries a non-whitespace character; provided every
/// continuation line of the input has content after its `*`.
pub proof fn lemma_flatten_no_blank_lines(s: Seq<char>)
    requires
        forall|k: int|
            0 <= k < split_lines(s).len() ==> continuation_has_content(
                #[trigger] split_lines(s)[k],
            ),
    ensures
        no_blank_lines(flatten_spec(s)),
{
    let e = Seq::<char>::empty();
    assert(no_blank_lines(e)) by {
        assert(split_lines(e) == seq![e.subrange(0, 0)]);
        assert(e.subrange(0, 0).len() == 0);
    }
    assert forall|k: int| 0 <= k < split_lines_from(s, 0).len() implies continuation_has_content(
        #[trigger] split_lines_from(s, 0)[k],
    ) by {
        assert(split_lines_from(s, 0)[k] == split_lines(s)[k]);
    }
    lemma_flatten_from_good(s, 0, e);
}

} // verus!
