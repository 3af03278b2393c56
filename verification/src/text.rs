//! Character-level ground work: the whitespace predicate that trimming goes
//! by, trimming of a character sequence at either end, first-occurrence
//! search, and splitting a text into its lines.

use vstd::prelude::*;

verus! {

/// A character with the Unicode `White_Space` property: the set that string
/// trimming and the blank-line test go by.
pub open spec fn is_ws(c: char) -> bool {
    c == ' ' || c == '\t' || c == '\n' || c == '\u{B}' || c == '\u{C}' || c == '\r'
        || c == '\u{85}' || c == '\u{A0}' || c == '\u{1680}' || c == '\u{2000}'
        || c == '\u{2001}' || c == '\u{2002}' || c == '\u{2003}' || c == '\u{2004}'
        || c == '\u{2005}' || c == '\u{2006}' || c == '\u{2007}' || c == '\u{2008}'
        || c == '\u{2009}' || c == '\u{200A}' || c == '\u{2028}' || c == '\u{2029}'
        || c == '\u{202F}' || c == '\u{205F}' || c == '\u{3000}'
}

/// `s` without its trailing whitespace.
pub open spec fn trim_end_spec(s: Seq<char>) -> Seq<char>
    decreases s.len(),
{
    if s.len() == 0 {
        s
    } else if is_ws(s.last()) {
        trim_end_spec(s.drop_last())
    } else {
        s
    }
}

/// `s` without its leading whitespace.
pub open spec fn trim_start_spec(s: Seq<char>) -> Seq<char>
    decreases s.len(),
{
    if s.len() == 0 {
        s
    } else if is_ws(s[0]) {
        trim_start_spec(s.skip(1))
    } else {
        s
    }
}

/// `s` without leading or trailing whitespace.
pub open spec fn trim_spec(s: Seq<char>) -> Seq<char> {
    trim_start_spec(trim_end_spec(s))
}

/// The index of the first occurrence of `c` in `s` at or after `i`, or
/// `s.len()` if there is none.
pub open spec fn find_from(s: Seq<char>, i: int, c: char) -> int
    decreases s.len() - i,
        when 0 <= i <= s.len()
{
    if i == s.len() {
        i
    } else if s[i] == c {
        i
    } else {
        find_from(s, i + 1, c)
    }
}

/// The lines of `s` from position `i` on, split at `'\n'`; the final line has
/// no terminator, so a trailing `'\n'` yields a final empty line.
pub open spec fn split_lines_from(s: Seq<char>, i: int) -> Seq<Seq<char>>
    decreases s.len() - i,
        when 0 <= i <= s.len()
{
    let j = find_from(s, i, '\n');
    if i <= j && j < s.len() {
        seq![s.subrange(i, j)] + split_lines_from(s, j + 1)
    } else {
        seq![s.subrange(i, s.len() as int)]
    }
}

/// The lines of `s`, split at `'\n'`.
pub open spec fn split_lines(s: Seq<char>) -> Seq<Seq<char>> {
    split_lines_from(s, 0)
}

/// `find_from` returns the first occurrence: `c` stands there and nowhere
/// earlier in the searched range.
pub proof fn lemma_find_from(s: Seq<char>, i: int, c: char)
    requires
        0 <= i <= s.len(),
    ensures
        i <= find_from(s, i, c) <= s.len(),
        find_from(s, i, c) < s.len() ==> s[find_from(s, i, c)] == c,
        forall|k: int| i <= k < find_from(s, i, c) ==> s[k] != c,
    decreases s.len() - i,
{
    if i == s.len() {
    } else if s[i] == c {
    } else {
        lemma_find_from(s, i + 1, c);
    }
}

/// Any position with `c` on it and no occurrence of `c` before it in the
/// range is the one `find_from` returns; `s.len()` is returned exactly when
/// the range holds no `c` at all.
pub proof fn lemma_find_from_exact(s: Seq<char>, i: int, c: char, r: int)
    requires
        0 <= i <= r <= s.len(),
        r < s.len() ==> s[r] == c,
        forall|k: int| i <= k < r ==> s[k] != c,
    ensures
        find_from(s, i, c) == r,
    decreases r - i,
{
    if i == r {
    } else {
        lemma_find_from_exact(s, i + 1, c, r);
    }
}

/// Trimming the end keeps a prefix: the result is `s.subrange(0, L)` for its
/// own length `L`, it does not end in whitespace, and everything cut off was
/// whitespace.
pub proof fn lemma_trim_end(s: Seq<char>)
    ensures
        trim_end_spec(s).len() <= s.len(),
        trim_end_spec(s) == s.subrange(0, trim_end_spec(s).len() as int),
        trim_end_spec(s).len() > 0 ==> !is_ws(trim_end_spec(s)[trim_end_spec(s).len() - 1]),
        forall|k: int| trim_end_spec(s).len() <= k < s.len() ==> is_ws(s[k]),
    decreases s.len(),
{
    if s.len() == 0 {
        assert(trim_end_spec(s) =~= s.subrange(0, 0));
    } else if is_ws(s.last()) {
        lemma_trim_end(s.drop_last());
        let t = trim_end_spec(s);
        assert(t == trim_end_spec(s.drop_last()));
        assert(t =~= s.subrange(0, t.len() as int));
        assert forall|k: int| t.len() <= k < s.len() implies is_ws(s[k]) by {
            if k < s.len() - 1 {
                assert(s.drop_last()[k] == s[k]);
            }
        }
    } else {
        assert(trim_end_spec(s) =~= s.subrange(0, s.len() as int));
    }
}

/// Trimming the start keeps a suffix: the result is `s.skip(d)` for the
/// number `d` of characters cut off, it does not begin with whitespace, and
/// everything cut off was whitespace.
pub proof fn lemma_trim_start(s: Seq<char>)
    ensures
        trim_start_spec(s).len() <= s.len(),
        trim_start_spec(s) == s.skip(s.len() - trim_start_spec(s).len()),
        trim_start_spec(s).len() > 0 ==> !is_ws(trim_start_spec(s)[0]),
        forall|k: int| 0 <= k < s.len() - trim_start_spec(s).len() ==> is_ws(s[k]),
    decreases s.len(),
{
    if s.len() == 0 {
        assert(trim_start_spec(s) =~= s.skip(0));
    } else if is_ws(s[0]) {
        lemma_trim_start(s.skip(1));
        let t = trim_start_spec(s);
        assert(t == trim_start_spec(s.skip(1)));
        let d = s.len() - t.len();
        assert(t =~= s.skip(d)) by {
            assert(t =~= s.skip(1).skip(d - 1));
        }
        assert forall|k: int| 0 <= k < d implies is_ws(s[k]) by {
            if k > 0 {
                assert(s.skip(1)[k - 1] == s[k]);
            }
        }
    } else {
        assert(trim_start_spec(s) =~= s.skip(0));
    }
}

/// What `trim_spec` keeps: a trimmed sequence is empty or starts and ends
/// with a non-whitespace character, and every kept character stands in `s`.
pub proof fn lemma_trim_spec(s: Seq<char>)
    ensures
        trim_spec(s).len() <= s.len(),
        trim_spec(s).len() > 0 ==> !is_ws(trim_spec(s)[0]),
        trim_spec(s).len() > 0 ==> !is_ws(trim_spec(s)[trim_spec(s).len() - 1]),
        forall|k: int|
            0 <= k < trim_spec(s).len() ==> trim_spec(s)[k] == s[k + trim_end_spec(s).len()
                - trim_spec(s).len()],
{
    lemma_trim_end(s);
    lemma_trim_start(trim_end_spec(s));
    let e = trim_end_spec(s);
    let t = trim_spec(s);
    let d = e.len() - t.len();
    if t.len() > 0 {
        assert(t[t.len() - 1] == e.skip(d)[t.len() - 1]);
        assert(e.skip(d)[t.len() - 1] == e[e.len() - 1]);
    }
    assert forall|k: int| 0 <= k < t.len() implies t[k] == s[k + d] by {
        assert(t[k] == e.skip(d)[k]);
        assert(e[k + d] == s[k + d]);
    }
}

/// The characters of `s`, one by one.
pub fn chars_of(s: &str) -> (v: Vec<char>)
    ensures
        v@ == s@,
{
    let n = s.unicode_len();
    let mut v: Vec<char> = Vec::new();
    assert(v@ =~= s@.subrange(0, 0));
    let mut i: usize = 0;
    while i < n
        invariant
            n == s@.len(),
            i <= n,
            v@ == s@.subrange(0, i as int),
        decreases n - i,
    {
        let c = s.get_char(i);
        v.push(c);
        assert(v@ =~= s@.subrange(0, i + 1 as int));
        i = i + 1;
    }
    assert(s@.subrange(0, n as int) =~= s@);
    v
}

/// The characters of `v` from `lo` (inclusive) to `hi` (exclusive).
pub fn sub_vec(v: &Vec<char>, lo: usize, hi: usize) -> (r: Vec<char>)
    requires
        lo <= hi <= v@.len(),
    ensures
        r@ == v@.subrange(lo as int, hi as int),
{
    let mut r: Vec<char> = Vec::new();
    assert(r@ =~= v@.subrange(lo as int, lo as int));
    let mut i: usize = lo;
    while i < hi
        invariant
            lo <= i <= hi <= v@.len(),
            r@ == v@.subrange(lo as int, i as int),
        decreases hi - i,
    {
        r.push(v[i]);
        assert(r@ =~= v@.subrange(lo as int, i + 1 as int));
        i = i + 1;
    }
    r
}

/// Whether `c` has the Unicode `White_Space` property.
pub fn is_ws_exec(c: char) -> (r: bool)
    ensures
        r == is_ws(c),
{
    c == ' ' || c == '\t' || c == '\n' || c == '\u{B}' || c == '\u{C}' || c == '\r'
        || c == '\u{85}' || c == '\u{A0}' || c == '\u{1680}' || c == '\u{2000}'
        || c == '\u{2001}' || c == '\u{2002}' || c == '\u{2003}' || c == '\u{2004}'
        || c == '\u{2005}' || c == '\u{2006}' || c == '\u{2007}' || c == '\u{2008}'
        || c == '\u{2009}' || c == '\u{200A}' || c == '\u{2028}' || c == '\u{2029}'
        || c == '\u{202F}' || c == '\u{205F}' || c == '\u{3000}'
}

/// `v` without its trailing whitespace.
pub fn trim_end_chars(v: &Vec<char>) -> (r: Vec<char>)
    ensures
        r@ == trim_end_spec(v@),
{
    let mut j: usize = v.len();
    assert(v@.subrange(0, v@.len() as int) =~= v@);
    while j > 0 && is_ws_exec(v[j - 1])
        invariant
            j <= v@.len(),
            trim_end_spec(v@) == trim_end_spec(v@.subrange(0, j as int)),
        decreases j,
    {
        proof {
            let s = v@.subrange(0, j as int);
            assert(s.last() == v@[j - 1]);
            assert(s.drop_last() =~= v@.subrange(0, j - 1));
        }
        j = j - 1;
    }
    proof {
        if j == 0 {
            assert(v@.subrange(0, 0) =~= Seq::<char>::empty());
        } else {
            let s = v@.subrange(0, j as int);
            assert(!is_ws(s.last()));
        }
    }
    sub_vec(v, 0, j)
}

/// `v` without its leading whitespace.
pub fn trim_start_chars(v: &Vec<char>) -> (r: Vec<char>)
    ensures
        r@ == trim_start_spec(v@),
{
    let mut i: usize = 0;
    assert(v@.skip(0) =~= v@);
    while i < v.len() && is_ws_exec(v[i])
        invariant
            i <= v@.len(),
            trim_start_spec(v@) == trim_start_spec(v@.skip(i as int)),
        decreases v@.len() - i,
    {
        proof {
            let s = v@.skip(i as int);
            assert(s[0] == v@[i as int]);
            assert(s.skip(1) =~= v@.skip(i + 1));
        }
        i = i + 1;
    }
    proof {
        let s = v@.skip(i as int);
        if i < v@.len() {
            assert(s[0] == v@[i as int]);
        }
        assert(s =~= v@.subrange(i as int, v@.len() as int));
    }
    sub_vec(v, i, v.len())
}

/// `v` without leading or trailing whitespace.
pub fn trim_chars(v: &Vec<char>) -> (r: Vec<char>)
    ensures
        r@ == trim_spec(v@),
{
    let e = trim_end_chars(v);
    trim_start_chars(&e)
}

/// The index of the first occurrence of `c` in `v` at or after `from`, or
/// `v.len()` if there is none.
pub fn find_char(v: &Vec<char>, from: usize, c: char) -> (r: usize)
    requires
        from <= v@.len(),
    ensures
        r as int == find_from(v@, from as int, c),
        from <= r <= v@.len(),
        r < v@.len() ==> v@[r as int] == c,
{
    let mut k: usize = from;
    loop
        invariant
            from <= k <= v@.len(),
            find_from(v@, from as int, c) == find_from(v@, k as int, c),
        decreases v@.len() - k,
    {
        if k == v.len() {
            return k;
        }
        if v[k] == c {
            return k;
        }
        k = k + 1;
    }
}

/// Appends the characters of `src` to `out`.
pub fn push_vec(out: &mut Vec<char>, src: &Vec<char>)
    ensures
        final(out)@ == old(out)@ + src@,
{
    let mut i: usize = 0;
    assert(old(out)@ + src@.subrange(0, 0) =~= old(out)@);
    while i < src.len()
        invariant
            i <= src@.len(),
            out@ == old(out)@ + src@.subrange(0, i as int),
        decreases src@.len() - i,
    {
        out.push(src[i]);
        assert(old(out)@ + src@.subrange(0, i + 1 as int) =~= (old(out)@ + src@.subrange(
            0,
            i as int,
        )).push(src@[i as int]));
        i = i + 1;
    }
    assert(src@.subrange(0, src@.len() as int) =~= src@);
}

/// Relies on `String::push`: appends the given character to the end of the
/// string.
#[verifier::external_body]
pub fn push_char(s: &mut String, c: char)
    ensures
        final(s)@ == old(s)@.push(c),
{
    s.push(c);
}

/// Appends the characters of `v` to the string `out`.
pub fn push_all(out: &mut String, v: &Vec<char>)
    ensures
        final(out)@ == old(out)@ + v@,
{
    let mut i: usize = 0;
    assert(old(out)@ + v@.subrange(0, 0) =~= old(out)@);
    while i < v.len()
        invariant
            i <= v@.len(),
            out@ == old(out)@ + v@.subrange(0, i as int),
        decreases v@.len() - i,
    {
        push_char(out, v[i]);
        assert(old(out)@ + v@.subrange(0, i + 1 as int) =~= (old(out)@ + v@.subrange(
            0,
            i as int,
        )).push(v@[i as int]));
        i = i + 1;
    }
    assert(v@.subrange(0, v@.len() as int) =~= v@);
}

} // verus!
