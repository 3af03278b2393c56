//! The bullet flattener: each input line is classified as blank, top-level
//! bullet, continuation, bare marker, or other, and the bullets are joined
//! with their continuations into logical lines.

use vstd::prelude::*;

use crate::text::{
    find_char,
    find_from,
    chars_of,
    push_all,
    push_vec,
    sub_vec,
    trim_chars,
    trim_end_chars,
    trim_end_spec,
    trim_spec,
    trim_start_chars,
    trim_start_spec,
    split_lines,
    split_lines_from,
};

verus! {

/// `s` with every leading `"* "` pair removed, one after the other.
pub open spec fn strip_bullets(s: Seq<char>) -> Seq<char>
    decreases s.len(),
{
    if s.len() >= 2 && s[0] == '*' && s[1] == ' ' {
        strip_bullets(s.skip(2))
    } else {
        s
    }
}

/// What one input line adds to the output buffer `buf`.
///
/// The line is first trimmed of trailing whitespace. A blank line adds
/// nothing. A line that starts with a space and holds a `*` anywhere is a
/// continuation: a single space and the trimmed remainder after the first
/// `*` are appended, without a line break. Otherwise the line is trimmed of
/// leading whitespace too: a `"* "` bullet appends a line break (only if the
/// buffer already has content) and then its content, with every leading
/// `"* "` removed and the rest trimmed; a bare `"*"` appends just a line
/// break; anything else is discarded.
pub open spec fn line_effect(buf: Seq<char>, raw: Seq<char>) -> Seq<char> {
    let line = trim_end_spec(raw);
    let t = trim_start_spec(line);
    if t.len() == 0 {
        buf
    } else if line[0] == ' ' && find_from(line, 0, '*') < line.len() {
        buf + seq![' '] + trim_spec(line.skip(find_from(line, 0, '*') + 1))
    } else if t.len() >= 2 && t[0] == '*' && t[1] == ' ' {
        let content = trim_spec(strip_bullets(t));
        if buf.len() > 0 {
            buf + seq!['\n'] + content
        } else {
            buf + content
        }
    } else if t.len() == 1 && t[0] == '*' {
        buf + seq!['\n']
    } else {
        buf
    }
}

/// The buffer after the remaining `lines` are folded onto `buf`.
pub open spec fn flatten_lines(lines: Seq<Seq<char>>, buf: Seq<char>) -> Seq<char>
    decreases lines.len(),
{
    if lines.len() == 0 {
        buf
    } else {
        flatten_lines(lines.skip(1), line_effect(buf, lines[0]))
    }
}

/// The flattened form of `s`: its lines folded onto an empty buffer.
pub open spec fn flatten_spec(s: Seq<char>) -> Seq<char> {
    flatten_lines(split_lines(s), Seq::empty())
}

/// `strip_bullets` keeps a suffix of its input.
pub proof fn lemma_strip_bullets(s: Seq<char>)
    ensures
        strip_bullets(s).len() <= s.len(),
        strip_bullets(s) == s.skip(s.len() - strip_bullets(s).len()),
    decreases s.len(),
{
    if s.len() >= 2 && s[0] == '*' && s[1] == ' ' {
        lemma_strip_bullets(s.skip(2));
        let t = strip_bullets(s);
        let d = s.len() - t.len();
        assert(t =~= s.skip(d)) by {
            assert(t =~= s.skip(2).skip(d - 2));
        }
    } else {
        assert(strip_bullets(s) =~= s.skip(0));
    }
}

/// `v` with every leading `"* "` pair removed, one after the other.
fn strip_bullets_chars(v: &Vec<char>) -> (r: Vec<char>)
    ensures
        r@ == strip_bullets(v@),
{
    let mut i: usize = 0;
    assert(v@.skip(0) =~= v@);
    while v.len() - i >= 2 && v[i] == '*' && v[i + 1] == ' '
        invariant
            i <= v@.len(),
            strip_bullets(v@) == strip_bullets(v@.skip(i as int)),
        decreases v@.len() - i,
    {
        proof {
            let s = v@.skip(i as int);
            assert(s[0] == v@[i as int]);
            assert(s[1] == v@[i + 1]);
            assert(s.skip(2) =~= v@.skip(i + 2));
        }
        i = i + 2;
    }
    proof {
        let s = v@.skip(i as int);
        if v@.len() - i >= 2 {
            assert(s[0] == v@[i as int]);
            assert(s[1] == v@[i + 1]);
        }
        assert(s =~= v@.subrange(i as int, v@.len() as int));
    }
    sub_vec(v, i, v.len())
}

/// Applies one input line to the output buffer, as `line_effect` says.
fn apply_line(buf: &mut Vec<char>, line: &Vec<char>)
    ensures
        final(buf)@ == line_effect(old(buf)@, line@),
{
    let te = trim_end_chars(line);
    let ts = trim_start_chars(&te);
    if ts.len() == 0 {
        return ;
    }
    proof {
        crate::text::lemma_trim_start(te@);
    }
    if te[0] == ' ' {
        let j = find_char(&te, 0, '*');
        if j < te.len() {
            buf.push(' ');
            let tail = sub_vec(&te, j + 1, te.len());
            let tt = trim_chars(&tail);
            push_vec(buf, &tt);
            proof {
                assert(tail@ =~= te@.skip(j as int + 1));
                assert(old(buf)@.push(' ') + tt@ =~= old(buf)@ + seq![' '] + tt@);
            }
            return ;
        }
    }
    if ts.len() >= 2 && ts[0] == '*' && ts[1] == ' ' {
        let had_content = buf.len() > 0;
        if had_content {
            buf.push('\n');
        }
        let stripped = strip_bullets_chars(&ts);
        let content = trim_chars(&stripped);
        push_vec(buf, &content);
        proof {
            if had_content {
                assert(old(buf)@.push('\n') + content@ =~= old(buf)@ + seq!['\n'] + content@);
            } else {
                assert(old(buf)@ + content@ =~= line_effect(old(buf)@, line@));
            }
        }
    } else if ts.len() == 1 && ts[0] == '*' {
        buf.push('\n');
        assert(old(buf)@.push('\n') =~= old(buf)@ + seq!['\n']);
    }
}

/// Flattens bulleted note text into logical lines.
///
/// Each `"* "` bullet opens a logical line; indented lines holding a `*`
/// are joined onto the current logical line with a single space; a bare
/// `"*"` line inserts an empty logical line; blank and unmarked lines are
/// dropped.
pub fn convert_text(input: &str) -> (r: String)
    ensures
        r@ == flatten_spec(input@),
{
    let v = chars_of(input);
    let mut buf: Vec<char> = Vec::new();
    let mut pos: usize = 0;
    loop
        invariant_except_break
            pos <= v@.len(),
            flatten_lines(split_lines_from(v@, pos as int), buf@) == flatten_spec(v@),
        ensures
            buf@ == flatten_spec(v@),
        decreases v@.len() - pos,
    {
        let j = find_char(&v, pos, '\n');
        let line = sub_vec(&v, pos, j);
        let ghost rest = split_lines_from(v@, pos as int);
        let ghost buf0 = buf@;
        apply_line(&mut buf, &line);
        if j < v.len() {
            proof {
                assert(rest == seq![v@.subrange(pos as int, j as int)] + split_lines_from(
                    v@,
                    j as int + 1,
                ));
                assert(rest[0] == line@);
                assert(rest.skip(1) =~= split_lines_from(v@, j as int + 1));
                assert(flatten_lines(rest, buf0) == flatten_lines(
                    rest.skip(1),
                    line_effect(buf0, rest[0]),
                ));
            }
            pos = j + 1;
        } else {
            proof {
                assert(rest =~= seq![line@]);
                assert(rest[0] == line@);
                assert(rest.skip(1) =~= Seq::<Seq<char>>::empty());
                assert(flatten_lines(rest, buf0) == flatten_lines(
                    rest.skip(1),
                    line_effect(buf0, rest[0]),
                ));
                assert(flatten_lines(rest, buf0) == buf@);
            }
            break ;
        }
    }
    let mut out = String::new();
    push_all(&mut out, &buf);
    assert(Seq::<char>::empty() + buf@ =~= buf@);
    out
}

} // verus!
