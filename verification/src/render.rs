//! The inline markup lexer and HTML wrapper: a single left-to-right scan
//! turns `**bold**` and `*italic*` spans into tags, newlines into line
//! breaks, and escapes everything else; the fragment is then embedded in a
//! fixed document skeleton.

use vstd::prelude::*;
use vstd::string::StringExecFns;

use crate::text::{chars_of, push_char};

verus! {

/// The HTML escape of one character: each of the five reserved characters
/// becomes its entity, every other character stays itself.
pub open spec fn escape_char(c: char) -> Seq<char> {
    if c == '&' {
        "&amp;"@
    } else if c == '<' {
        "&lt;"@
    } else if c == '>' {
        "&gt;"@
    } else if c == '"' {
        "&quot;"@
    } else if c == '\'' {
        "&#39;"@
    } else {
        seq![c]
    }
}

/// The HTML escape of a character sequence, character by character.
pub open spec fn escape_seq(s: Seq<char>) -> Seq<char>
    decreases s.len(),
{
    if s.len() == 0 {
        Seq::empty()
    } else {
        escape_char(s[0]) + escape_seq(s.skip(1))
    }
}

/// The index of the first lone `*` in `s` at or after `i`, or `s.len()` if
/// there is none. The scan works with one character of lookahead: a `"**"`
/// pair on the way is stepped over as ordinary content, so neither of its
/// stars can close an italic span.
pub open spec fn italic_close(s: Seq<char>, i: int) -> int
    decreases s.len() - i,
        when 0 <= i <= s.len()
{
    if i >= s.len() {
        s.len() as int
    } else if s[i] == '*' {
        if i + 1 < s.len() && s[i + 1] == '*' {
            italic_close(s, i + 2)
        } else {
            i
        }
    } else {
        italic_close(s, i + 1)
    }
}

/// The index of the first `"**"` pair in `s` at or after `i`, or `s.len()`
/// if there is none.
pub open spec fn bold_close(s: Seq<char>, i: int) -> int
    decreases s.len() - i,
        when 0 <= i <= s.len()
{
    if i + 1 >= s.len() {
        s.len() as int
    } else if s[i] == '*' && s[i + 1] == '*' {
        i
    } else {
        bold_close(s, i + 1)
    }
}

/// The HTML fragment for the text of `s` from position `i` on.
///
/// A `"**"` at the cursor opens a bold span, closed by the next `"**"`; a
/// single `"*"` opens an italic span, closed by the next lone `"*"` — a
/// `"**"` pair met on the way rides along as span content — provided the
/// span is not empty; a span whose closer never comes, and an empty italic
/// span, degrade to the literal marker followed by the escaped remainder.
/// Newlines become `"<br>"`; all span content and plain text is escaped.
pub open spec fn render_from(s: Seq<char>, i: int) -> Seq<char>
    decreases s.len() - i,
        when 0 <= i <= s.len()
{
    if i >= s.len() {
        Seq::empty()
    } else if s[i] == '*' {
        if i + 1 < s.len() && s[i + 1] == '*' {
            let j = bold_close(s, i + 2);
            if i + 2 <= j && j + 1 < s.len() {
                "<strong>"@ + escape_seq(s.subrange(i + 2, j)) + "</strong>"@ + render_from(
                    s,
                    j + 2,
                )
            } else {
                "**"@ + escape_seq(s.subrange(i + 2, s.len() as int))
            }
        } else {
            let j = italic_close(s, i + 1);
            if i + 1 <= j && j < s.len() {
                if j > i + 1 {
                    "<em>"@ + escape_seq(s.subrange(i + 1, j)) + "</em>"@ + render_from(s, j + 1)
                } else {
                    seq!['*'] + render_from(s, j + 1)
                }
            } else {
                seq!['*'] + escape_seq(s.subrange(i + 1, s.len() as int))
            }
        }
    } else if s[i] == '\n' {
        "<br>"@ + render_from(s, i + 1)
    } else {
        escape_char(s[i]) + render_from(s, i + 1)
    }
}

/// The HTML fragment for the whole of `s`.
pub open spec fn render_spec(s: Seq<char>) -> Seq<char> {
    render_from(s, 0)
}

/// The fragment embedded in the fixed document skeleton.
pub open spec fn html_doc(fragment: Seq<char>) -> Seq<char> {
    "\n<html><body>\r\n<div>"@ + fragment + "</div>\r\n</body></html>"@
}

/// Escaping distributes over appending one character at the end.
pub proof fn lemma_escape_snoc(s: Seq<char>, c: char)
    ensures
        escape_seq(s.push(c)) == escape_seq(s) + escape_char(c),
    decreases s.len(),
{
    if s.len() == 0 {
        assert(s.push(c)[0] == c);
        assert(s.push(c).skip(1) =~= Seq::<char>::empty());
        assert(escape_seq(s.push(c)) == escape_char(c) + escape_seq(Seq::<char>::empty()));
        assert(escape_char(c) + Seq::<char>::empty() =~= escape_char(c));
        assert(escape_seq(s) + escape_char(c) =~= escape_char(c));
    } else {
        lemma_escape_snoc(s.skip(1), c);
        assert(s.push(c)[0] == s[0]);
        assert(s.push(c).skip(1) =~= s.skip(1).push(c));
        assert(escape_char(s[0]) + (escape_seq(s.skip(1)) + escape_char(c)) =~= (escape_char(s[0])
            + escape_seq(s.skip(1))) + escape_char(c));
    }
}

/// Appends the HTML escape of one character to `out`.
pub fn push_escape_char(out: &mut String, c: char)
    ensures
        final(out)@ == old(out)@ + escape_char(c),
{
    if c == '&' {
        out.append("&amp;");
    } else if c == '<' {
        out.append("&lt;");
    } else if c == '>' {
        out.append("&gt;");
    } else if c == '"' {
        out.append("&quot;");
    } else if c == '\'' {
        out.append("&#39;");
    } else {
        push_char(out, c);
        assert(old(out)@.push(c) =~= old(out)@ + seq![c]);
    }
}

/// Appends the HTML escape of `v[lo..hi]` to `out`.
pub fn push_escaped_range(out: &mut String, v: &Vec<char>, lo: usize, hi: usize)
    requires
        lo <= hi <= v@.len(),
    ensures
        final(out)@ == old(out)@ + escape_seq(v@.subrange(lo as int, hi as int)),
{
    let mut k: usize = lo;
    proof {
        assert(v@.subrange(lo as int, lo as int) =~= Seq::<char>::empty());
        assert(old(out)@ + escape_seq(v@.subrange(lo as int, lo as int)) =~= old(out)@);
    }
    while k < hi
        invariant
            lo <= k <= hi <= v@.len(),
            out@ == old(out)@ + escape_seq(v@.subrange(lo as int, k as int)),
        decreases hi - k,
    {
        push_escape_char(out, v[k]);
        proof {
            assert(v@.subrange(lo as int, k + 1 as int) =~= v@.subrange(lo as int, k as int).push(
                v@[k as int],
            ));
            lemma_escape_snoc(v@.subrange(lo as int, k as int), v@[k as int]);
            assert((old(out)@ + escape_seq(v@.subrange(lo as int, k as int))) + escape_char(
                v@[k as int],
            ) =~= old(out)@ + (escape_seq(v@.subrange(lo as int, k as int)) + escape_char(
                v@[k as int],
            )));
        }
        k = k + 1;
    }
}

/// The index of the first lone `*` in `v` at or after `from`, stepping over
/// `"**"` pairs, or `v.len()` if there is none.
fn find_lone_star(v: &Vec<char>, from: usize) -> (r: usize)
    requires
        from <= v@.len(),
    ensures
        r as int == italic_close(v@, from as int),
        from <= r <= v@.len(),
        r < v@.len() ==> v@[r as int] == '*',
{
    let mut k: usize = from;
    loop
        invariant
            from <= k <= v@.len(),
            italic_close(v@, from as int) == italic_close(v@, k as int),
        decreases v@.len() - k,
    {
        if k == v.len() {
            return k;
        }
        if v[k] == '*' {
            if k + 1 < v.len() && v[k + 1] == '*' {
                k = k + 2;
            } else {
                return k;
            }
        } else {
            k = k + 1;
        }
    }
}

/// The index of the first `"**"` pair in `v` at or after `from`, or
/// `v.len()` if there is none.
fn find_pair(v: &Vec<char>, from: usize) -> (r: usize)
    requires
        from <= v@.len(),
    ensures
        r as int == bold_close(v@, from as int),
        from <= r <= v@.len(),
        r < v@.len() ==> r + 1 < v@.len() && v@[r as int] == '*' && v@[r as int + 1] == '*',
{
    let mut k: usize = from;
    loop
        invariant
            from <= k <= v@.len(),
            bold_close(v@, from as int) == bold_close(v@, k as int),
        decreases v@.len() - k,
    {
        if v.len() - k < 2 {
            return v.len();
        }
        if v[k] == '*' && v[k + 1] == '*' {
            return k;
        }
        k = k + 1;
    }
}

/// Renders flattened text as an HTML fragment: `**bold**` and `*italic*`
/// spans become tags, newlines become `"<br>"`, everything is HTML-escaped,
/// and unterminated or empty markers are kept literally.
pub fn render_fragment(input: &str) -> (r: String)
    ensures
        r@ == render_spec(input@),
{
    let v = chars_of(input);
    let mut out = String::new();
    let mut i: usize = 0;
    proof {
        assert(Seq::<char>::empty() + render_from(v@, 0) =~= render_from(v@, 0));
    }
    while i < v.len()
        invariant
            i <= v@.len(),
            out@ + render_from(v@, i as int) == render_from(v@, 0),
        decreases v@.len() - i,
    {
        let ghost out0 = out@;
        let c = v[i];
        if c == '*' {
            if i + 1 < v.len() && v[i + 1] == '*' {
                let j = find_pair(&v, i + 2);
                if j < v.len() {
                    out.append("<strong>");
                    push_escaped_range(&mut out, &v, i + 2, j);
                    out.append("</strong>");
                    proof {
                        let chunk = "<strong>"@ + escape_seq(v@.subrange(i + 2, j as int))
                            + "</strong>"@;
                        assert(out@ =~= out0 + chunk);
                        assert(render_from(v@, i as int) == chunk + render_from(v@, j + 2));
                        assert(out0 + (chunk + render_from(v@, j + 2)) =~= (out0 + chunk)
                            + render_from(v@, j + 2));
                    }
                    i = j + 2;
                } else {
                    out.append("**");
                    push_escaped_range(&mut out, &v, i + 2, v.len());
                    proof {
                        let chunk = "**"@ + escape_seq(v@.subrange(i + 2, v@.len() as int));
                        assert(out@ =~= out0 + chunk);
                        assert(render_from(v@, i as int) == chunk);
                        assert(render_from(v@, v@.len() as int) =~= Seq::<char>::empty());
                        assert(out0 + (chunk + render_from(v@, v@.len() as int)) =~= (out0 + chunk)
                            + render_from(v@, v@.len() as int));
                    }
                    i = v.len();
                }
            } else {
                let j = find_lone_star(&v, i + 1);
                if j < v.len() {
                    if j > i + 1 {
                        out.append("<em>");
                        push_escaped_range(&mut out, &v, i + 1, j);
                        out.append("</em>");
                        proof {
                            let chunk = "<em>"@ + escape_seq(v@.subrange(i + 1, j as int))
                                + "</em>"@;
                            assert(out@ =~= out0 + chunk);
                            assert(render_from(v@, i as int) == chunk + render_from(v@, j + 1));
                            assert(out0 + (chunk + render_from(v@, j + 1)) =~= (out0 + chunk)
                                + render_from(v@, j + 1));
                        }
                    } else {
                        push_char(&mut out, '*');
                        proof {
                            assert(out@ =~= out0 + seq!['*']);
                            assert(render_from(v@, i as int) == seq!['*'] + render_from(
                                v@,
                                j + 1,
                            ));
                            assert(out0 + (seq!['*'] + render_from(v@, j + 1)) =~= (out0
                                + seq!['*']) + render_from(v@, j + 1));
                        }
                    }
                    i = j + 1;
                } else {
                    push_char(&mut out, '*');
                    push_escaped_range(&mut out, &v, i + 1, v.len());
                    proof {
                        let chunk = seq!['*'] + escape_seq(v@.subrange(i + 1, v@.len() as int));
                        assert(out@ =~= out0 + chunk);
                        assert(render_from(v@, i as int) == chunk);
                        assert(render_from(v@, v@.len() as int) =~= Seq::<char>::empty());
                        assert(out0 + (chunk + render_from(v@, v@.len() as int)) =~= (out0 + chunk)
                            + render_from(v@, v@.len() as int));
                    }
                    i = v.len();
                }
            }
        } else if c == '\n' {
            out.append("<br>");
            proof {
                assert(render_from(v@, i as int) == "<br>"@ + render_from(v@, i + 1));
                assert(out0 + ("<br>"@ + render_from(v@, i + 1)) =~= (out0 + "<br>"@)
                    + render_from(v@, i + 1));
            }
            i = i + 1;
        } else {
            push_escape_char(&mut out, c);
            proof {
                assert(render_from(v@, i as int) == escape_char(v@[i as int]) + render_from(
                    v@,
                    i + 1,
                ));
                assert(out0 + (escape_char(v@[i as int]) + render_from(v@, i + 1)) =~= (out0
                    + escape_char(v@[i as int])) + render_from(v@, i + 1));
            }
            i = i + 1;
        }
    }
    proof {
        assert(render_from(v@, v@.len() as int) =~= Seq::<char>::empty());
        assert(out@ + Seq::<char>::empty() =~= out@);
    }
    out
}

/// HTML-escapes `text`: each of the five reserved characters becomes its
/// entity, every other character stays itself.
pub fn html_escape(text: &str) -> (r: String)
    ensures
        r@ == escape_seq(text@),
{
    let v = chars_of(text);
    let mut out = String::new();
    push_escaped_range(&mut out, &v, 0, v.len());
    proof {
        assert(v@.subrange(0, v@.len() as int) =~= v@);
        assert(Seq::<char>::empty() + escape_seq(v@) =~= escape_seq(v@));
    }
    out
}

/// Wraps a pre-escaped HTML fragment in the fixed document skeleton.
pub fn wrap_html(fragment: &str) -> (r: String)
    ensures
        r@ == html_doc(fragment@),
{
    let mut out = String::new();
    out.append("\n<html><body>\r\n<div>");
    out.append(fragment);
    out.append("</div>\r\n</body></html>");
    proof {
        assert(Seq::<char>::empty() + "\n<html><body>\r\n<div>"@ =~= "\n<html><body>\r\n<div>"@);
        assert((("\n<html><body>\r\n<div>"@ + fragment@) + "</div>\r\n</body></html>"@) =~= (
        "\n<html><body>\r\n<div>"@ + fragment@ + "</div>\r\n</body></html>"@));
    }
    out
}

/// Renders flattened text as a complete HTML clipboard document: the
/// rendered fragment of `input`, embedded in the fixed skeleton.
pub fn convert_to_html(input: &str) -> (r: String)
    ensures
        r@ == html_doc(render_spec(input@)),
{
    let frag = render_fragment(input);
    wrap_html(frag.as_str())
}

} // verus!
