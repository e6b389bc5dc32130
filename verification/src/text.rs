//! Character-level helpers shared by every analyzer: whitespace, trimming,
//! line splitting and preview truncation.

use vstd::prelude::*;
use vstd::std_specs::iter::IteratorSpec;

verus! {

broadcast use vstd::string::group_string_axioms;

/// `String::push` appends one character to the end of the string.
pub assume_specification[ String::push ](string: &mut String, ch: char)
    ensures
        final(string)@ == old(string)@.push(ch),
;

/// The Unicode `White_Space` property, which is what `char::is_whitespace` tests.
pub open spec fn is_ws(c: char) -> bool {
    ||| ('\u{9}' <= c && c <= '\u{d}')
    ||| c == ' '
    ||| c == '\u{85}'
    ||| c == '\u{a0}'
    ||| c == '\u{1680}'
    ||| ('\u{2000}' <= c && c <= '\u{200a}')
    ||| c == '\u{2028}'
    ||| c == '\u{2029}'
    ||| c == '\u{202f}'
    ||| c == '\u{205f}'
    ||| c == '\u{3000}'
}

/// `s` without its leading whitespace.
pub open spec fn trim_start(s: Seq<char>) -> Seq<char>
    decreases s.len(),
{
    if s.len() > 0 && is_ws(s[0]) {
        trim_start(s.drop_first())
    } else {
        s
    }
}

/// `s` without its trailing whitespace.
pub open spec fn trim_end(s: Seq<char>) -> Seq<char>
    decreases s.len(),
{
    if s.len() > 0 && is_ws(s.last()) {
        trim_end(s.drop_last())
    } else {
        s
    }
}

/// `s` without leading and trailing whitespace.
pub open spec fn trim(s: Seq<char>) -> Seq<char> {
    trim_end(trim_start(s))
}

/// `s` begins with `p`.
pub open spec fn starts_with(s: Seq<char>, p: Seq<char>) -> bool {
    p.len() <= s.len() && s.take(p.len() as int) == p
}

/// `s` ends with `p`.
pub open spec fn ends_with(s: Seq<char>, p: Seq<char>) -> bool {
    p.len() <= s.len() && s.skip(s.len() - p.len()) == p
}

/// `p` occurs somewhere in `s`.
pub open spec fn contains(s: Seq<char>, p: Seq<char>) -> bool {
    exists|i: int| 0 <= i && i + p.len() <= s.len() && #[trigger] s.subrange(i, i + p.len()) == p
}

/// Position of the first `c` in `s`, or `s.len()` when there is none.
pub open spec fn index_of(s: Seq<char>, c: char) -> nat
    decreases s.len(),
{
    if s.len() == 0 {
        0
    } else if s[0] == c {
        0
    } else {
        1 + index_of(s.drop_first(), c)
    }
}

/// `l` without one trailing carriage return.
pub open spec fn strip_cr(l: Seq<char>) -> Seq<char> {
    if l.len() > 0 && l.last() == '\r' {
        l.drop_last()
    } else {
        l
    }
}

/// The lines of `s`, as `str::lines` yields them: split at each `\n`, one
/// `\r` before it dropped, and no empty line after a final `\n`.
pub open spec fn lines(s: Seq<char>) -> Seq<Seq<char>>
    decreases s.len(),
{
    if s.len() == 0 {
        seq![]
    } else {
        let k = index_of(s, '\n');
        if k >= s.len() {
            seq![s]
        } else {
            seq![strip_cr(s.take(k as int))] + lines(s.skip(k + 1 as int))
        }
    }
}

/// A preview of `s` holding at most `max` characters (at least one when
/// it is cut): the text itself when it fits, else its first `max - 1`
/// characters and an ellipsis.
pub open spec fn truncated(s: Seq<char>, max: nat) -> Seq<char> {
    if s.len() <= max {
        s
    } else {
        s.take(if max == 0 { 0 } else { max - 1 }) + seq!['…']
    }
}

pub proof fn lemma_index_of_bound(s: Seq<char>, c: char)
    ensures
        index_of(s, c) <= s.len(),
        index_of(s, c) < s.len() ==> s[index_of(s, c) as int] == c,
        forall|j: int| 0 <= j < index_of(s, c) ==> s[j] != c,
    decreases s.len(),
{
    if s.len() > 0 && s[0] != c {
        lemma_index_of_bound(s.drop_first(), c);
        assert forall|j: int| 0 <= j < index_of(s, c) implies s[j] != c by {
            if j > 0 {
                assert(s[j] == s.drop_first()[j - 1]);
            }
        }
    }
}

/// A text has no more lines than characters.
pub proof fn lemma_lines_len(s: Seq<char>)
    ensures
        lines(s).len() <= s.len(),
    decreases s.len(),
{
    if s.len() > 0 {
        lemma_index_of_bound(s, '\n');
        let k = index_of(s, '\n');
        if k < s.len() {
            lemma_lines_len(s.skip(k + 1 as int));
        }
    }
}

proof fn lemma_index_of_at(s: Seq<char>, c: char, k: int)
    requires
        0 <= k <= s.len(),
        k < s.len() ==> s[k] == c,
        forall|j: int| 0 <= j < k ==> s[j] != c,
    ensures
        index_of(s, c) == k,
    decreases k,
{
    if k > 0 {
        lemma_index_of_at(s.drop_first(), c, k - 1);
    }
}

/// Whether `c` is whitespace.
pub fn is_whitespace(c: char) -> (r: bool)
    ensures
        r == is_ws(c),
{
    ('\u{9}' <= c && c <= '\u{d}') || c == ' ' || c == '\u{85}' || c == '\u{a0}' || c == '\u{1680}'
        || ('\u{2000}' <= c && c <= '\u{200a}') || c == '\u{2028}' || c == '\u{2029}' || c
        == '\u{202f}' || c == '\u{205f}' || c == '\u{3000}'
}

/// The characters of a string slice, in order.
pub fn chars_of(s: &str) -> (r: Vec<char>)
    ensures
        r@ == s@,
{
    let mut out: Vec<char> = Vec::new();
    for c in iter: s.chars()
        invariant
            out@ == iter.seq().take(iter.index() as int),
    {
        out.push(c);
    }
    out
}

/// The string made of `s[from..to]`.
pub fn string_of(s: &[char], from: usize, to: usize) -> (r: String)
    requires
        from <= to <= s@.len(),
    ensures
        r@ == s@.subrange(from as int, to as int),
{
    let mut out = String::new();
    let mut i = from;
    while i < to
        invariant
            from <= i <= to <= s@.len(),
            out@ == s@.subrange(from as int, i as int),
        decreases to - i,
    {
        out.push(s[i]);
        i = i + 1;
        assert(out@ =~= s@.subrange(from as int, i as int));
    }
    out
}

/// The vector holding `s[from..to]`.
pub fn chars_between(s: &[char], from: usize, to: usize) -> (r: Vec<char>)
    requires
        from <= to <= s@.len(),
    ensures
        r@ == s@.subrange(from as int, to as int),
{
    let mut out: Vec<char> = Vec::new();
    let mut i = from;
    while i < to
        invariant
            from <= i <= to <= s@.len(),
            out@ == s@.subrange(from as int, i as int),
        decreases to - i,
    {
        out.push(s[i]);
        i = i + 1;
        assert(out@ =~= s@.subrange(from as int, i as int));
    }
    out
}

proof fn lemma_trim_start_step(s: Seq<char>, i: int)
    requires
        0 <= i < s.len(),
        is_ws(s[i]),
    ensures
        trim_start(s.skip(i)) == trim_start(s.skip(i + 1)),
{
    assert(s.skip(i).drop_first() =~= s.skip(i + 1));
}

proof fn lemma_trim_end_step(s: Seq<char>, j: int)
    requires
        0 < j <= s.len(),
        is_ws(s[j - 1]),
    ensures
        trim_end(s.take(j)) == trim_end(s.take(j - 1)),
{
    assert(s.take(j).drop_last() =~= s.take(j - 1));
}

/// The number of leading whitespace characters of `s[from..]`.
pub fn skip_whitespace(s: &[char], from: usize) -> (i: usize)
    requires
        from <= s@.len(),
    ensures
        from <= i <= s@.len(),
        trim_start(s@.skip(from as int)) == s@.skip(i as int),
        forall|j: int| from <= j < i ==> is_ws(#[trigger] s@[j]),
{
    let mut i = from;
    while i < s.len() && is_whitespace(s[i])
        invariant
            from <= i <= s@.len(),
            trim_start(s@.skip(from as int)) == trim_start(s@.skip(i as int)),
            forall|j: int| from <= j < i ==> is_ws(#[trigger] s@[j]),
        decreases s@.len() - i,
    {
        proof {
            lemma_trim_start_step(s@, i as int);
        }
        i = i + 1;
    }
    proof {
        if i < s@.len() {
            assert(s@.skip(i as int)[0] == s@[i as int]);
        }
    }
    i
}

/// The end of `s[from..to]` without its trailing whitespace.
pub fn trim_end_index(s: &[char], from: usize, to: usize) -> (j: usize)
    requires
        from <= to <= s@.len(),
    ensures
        from <= j <= to,
        trim_end(s@.subrange(from as int, to as int)) == s@.subrange(from as int, j as int),
        forall|k: int| j <= k < to ==> is_ws(#[trigger] s@[k]),
{
    let ghost t = s@.subrange(from as int, to as int);
    let mut j = to;
    proof {
        assert(t.take(j - from) =~= t);
    }
    while j > from && is_whitespace(s[j - 1])
        invariant
            from <= j <= to <= s@.len(),
            t == s@.subrange(from as int, to as int),
            trim_end(t) == trim_end(t.take(j - from)),
            forall|k: int| j <= k < to ==> is_ws(#[trigger] s@[k]),
        decreases j,
    {
        proof {
            lemma_trim_end_step(t, j - from);
        }
        j = j - 1;
    }
    proof {
        assert(t.take(j - from) =~= s@.subrange(from as int, j as int));
        if j > from {
            assert(t.take(j - from).last() == s@[j - 1]);
        }
    }
    j
}

/// The bounds of `s[from..to]` without surrounding whitespace.
pub fn trim_bounds(s: &[char], from: usize, to: usize) -> (r: (usize, usize))
    requires
        from <= to <= s@.len(),
    ensures
        from <= r.0 <= r.1 <= to,
        trim(s@.subrange(from as int, to as int)) == s@.subrange(r.0 as int, r.1 as int),
{
    let ghost t = s@.subrange(from as int, to as int);
    let i = skip_whitespace_until(s, from, to);
    let j = trim_end_index(s, i, to);
    proof {
        assert(t.skip(i - from) =~= s@.subrange(i as int, to as int));
    }
    (i, j)
}

/// The first position in `s[from..to]` that is not whitespace (or `to`).
pub fn skip_whitespace_until(s: &[char], from: usize, to: usize) -> (i: usize)
    requires
        from <= to <= s@.len(),
    ensures
        from <= i <= to,
        trim_start(s@.subrange(from as int, to as int)) == s@.subrange(i as int, to as int),
        forall|j: int| from <= j < i ==> is_ws(#[trigger] s@[j]),
{
    let ghost t = s@.subrange(from as int, to as int);
    let mut i = from;
    proof {
        assert(t.skip(i - from) =~= t);
    }
    while i < to && is_whitespace(s[i])
        invariant
            from <= i <= to <= s@.len(),
            t == s@.subrange(from as int, to as int),
            trim_start(t) == trim_start(t.skip(i - from)),
            forall|j: int| from <= j < i ==> is_ws(#[trigger] s@[j]),
        decreases to - i,
    {
        proof {
            lemma_trim_start_step(t, i - from);
        }
        i = i + 1;
    }
    proof {
        assert(t.skip(i - from) =~= s@.subrange(i as int, to as int));
        if i < to {
            assert(t.skip(i - from)[0] == s@[i as int]);
        }
    }
    i
}

/// Whether `s[from..]` begins with `p`.
pub fn starts_with_at(s: &[char], from: usize, p: &[char]) -> (r: bool)
    requires
        from <= s@.len(),
    ensures
        r == starts_with(s@.skip(from as int), p@),
{
    if p.len() > s.len() - from {
        return false;
    }
    let mut k: usize = 0;
    while k < p.len()
        invariant
            from + p@.len() <= s@.len(),
            s@.len() <= usize::MAX,
            k <= p@.len(),
            forall|m: int| 0 <= m < k ==> s@[from + m] == p@[m],
        decreases p@.len() - k,
    {
        assert(from + k < s@.len());
        if s[from + k] != p[k] {
            proof {
                assert(s@.skip(from as int).take(p@.len() as int)[k as int] != p@[k as int]);
            }
            return false;
        }
        k = k + 1;
    }
    proof {
        assert(s@.skip(from as int).take(p@.len() as int) =~= p@);
    }
    true
}

/// Whether `p` occurs in `s`.
pub fn contains_chars(s: &[char], p: &[char]) -> (r: bool)
    ensures
        r == contains(s@, p@),
{
    if p.len() > s.len() {
        return false;
    }
    if p.len() == 0 {
        proof {
            assert(s@.subrange(0int, 0int + p@.len()) =~= p@);
        }
        return true;
    }
    let mut i: usize = 0;
    while i <= s.len() - p.len()
        invariant
            1 <= p@.len() <= s@.len(),
            s@.len() <= usize::MAX,
            i <= s@.len() - p@.len() + 1,
            forall|j: int| 0 <= j < i ==> #[trigger] s@.subrange(j, j + p@.len()) != p@,
        decreases s@.len() - p@.len() + 1 - i,
    {
        if starts_with_at(s, i, p) {
            proof {
                assert(s@.skip(i as int).take(p@.len() as int) =~= s@.subrange(
                    i as int,
                    i + p@.len(),
                ));
            }
            return true;
        }
        proof {
            assert(s@.skip(i as int).take(p@.len() as int) =~= s@.subrange(
                i as int,
                i + p@.len(),
            ));
        }
        i = i + 1;
    }
    false
}

/// The character sequences held by a list of lines.
pub open spec fn line_views(v: Seq<Vec<char>>) -> Seq<Seq<char>> {
    v.map_values(|l: Vec<char>| l@)
}

/// The lines of `s`, as `str::lines` yields them.
pub fn split_lines(s: &[char]) -> (r: Vec<Vec<char>>)
    ensures
        line_views(r@) == lines(s@),
{
    let mut out: Vec<Vec<char>> = Vec::new();
    let mut start: usize = 0;
    let mut i: usize = 0;
    proof {
        assert(s@.skip(0) =~= s@);
        assert(line_views(out@) + lines(s@) =~= lines(s@));
    }
    while i < s.len()
        invariant
            start <= i <= s@.len(),
            lines(s@) == line_views(out@) + lines(s@.skip(start as int)),
            forall|j: int| start <= j < i ==> s@[j] != '\n',
        decreases s@.len() - i,
    {
        if s[i] == '\n' {
            let mut end = i;
            if end > start && s[end - 1] == '\r' {
                end = end - 1;
            }
            let line = chars_between(s, start, end);
            proof {
                let t = s@.skip(start as int);
                lemma_index_of_at(t, '\n', i - start);
                assert(t.take(i - start) =~= s@.subrange(start as int, i as int));
                assert(t.skip(i - start + 1) =~= s@.skip(i + 1));
                assert(strip_cr(t.take(i - start)) =~= line@);
                assert(line_views(out@).push(line@) + lines(s@.skip(i + 1)) =~= line_views(out@)
                    + lines(t));
            }
            let ghost before = line_views(out@);
            out.push(line);
            proof {
                assert(line_views(out@) =~= before.push(line@));
            }
            start = i + 1;
        }
        i = i + 1;
    }
    if start < s.len() {
        let line = chars_between(s, start, s.len());
        proof {
            let t = s@.skip(start as int);
            lemma_index_of_at(t, '\n', t.len() as int);
            assert(t =~= line@);
        }
        let ghost before = line_views(out@);
        out.push(line);
        proof {
            assert(line_views(out@) =~= before.push(line@));
            assert(before + lines(s@.skip(start as int)) =~= before.push(line@));
        }
    } else {
        proof {
            assert(s@.skip(start as int) =~= Seq::<char>::empty());
            assert(line_views(out@) + Seq::<Seq<char>>::empty() =~= line_views(out@));
        }
    }
    out
}

/// The preview of `s[from..to]` holding at most `max` characters.
pub fn truncate_range(s: &[char], from: usize, to: usize, max: usize) -> (r: String)
    requires
        from <= to <= s@.len(),
    ensures
        r@ == truncated(s@.subrange(from as int, to as int), max as nat),
{
    if to - from <= max {
        string_of(s, from, to)
    } else {
        let keep = if max == 0 {
            0
        } else {
            max - 1
        };
        let mut out = string_of(s, from, from + keep);
        out.push('…');
        proof {
            assert(out@ =~= s@.subrange(from as int, to as int).take(keep as int) + seq!['…']);
        }
        out
    }
}

/// Shortens `value` to at most `max_chars` characters, cutting on a
/// character boundary and marking the cut with an ellipsis.
///
/// A value that fits is returned unchanged; otherwise its first
/// `max_chars - 1` characters are kept (none when `max_chars` is 0) and
/// `…` is appended.
pub fn truncate_preview(value: &str, max_chars: usize) -> (r: String)
    ensures
        r@ == truncated(value@, max_chars as nat),
{
    let cs = chars_of(value);
    let r = truncate_range(cs.as_slice(), 0, cs.len(), max_chars);
    proof {
        assert(cs@.subrange(0, cs@.len() as int) =~= value@);
    }
    r
}

/// The trimmed preview of a line, truncated to `max` characters.
pub fn line_preview(line: &[char], max: usize) -> (r: String)
    ensures
        r@ == truncated(trim(line@), max as nat),
{
    let (a, b) = trim_bounds(line, 0, line.len());
    proof {
        assert(line@.subrange(0, line@.len() as int) =~= line@);
    }
    truncate_range(line, a, b, max)
}

/// Whether a line holds only whitespace.
pub fn is_blank_line(line: &[char]) -> (r: bool)
    ensures
        r == (trim(line@).len() == 0),
{
    let (a, b) = trim_bounds(line, 0, line.len());
    proof {
        assert(line@.subrange(0, line@.len() as int) =~= line@);
    }
    a == b
}

/// The first line of `ls` at or after `i` that is not blank.
pub open spec fn first_filled(ls: Seq<Seq<char>>, i: int) -> Option<Seq<char>>
    decreases ls.len() - i,
{
    if i < 0 || i >= ls.len() {
        None
    } else if trim(ls[i]).len() != 0 {
        Some(trim(ls[i]))
    } else {
        first_filled(ls, i + 1)
    }
}

/// The preview of the first non-blank line of `s`.
pub open spec fn first_preview(s: Seq<char>, max: nat) -> Option<Seq<char>> {
    match first_filled(lines(s), 0) {
        Some(l) => Some(truncated(l, max)),
        None => None,
    }
}

/// The preview of the first non-blank line, trimmed and truncated.
pub fn first_non_empty_preview(source: &[char], preview_len: usize) -> (r: Option<String>)
    ensures
        match r {
            Some(p) => first_preview(source@, preview_len as nat) == Some(p@),
            None => first_preview(source@, preview_len as nat) is None,
        },
{
    let ls = split_lines(source);
    let mut i: usize = 0;
    while i < ls.len()
        invariant
            i <= ls@.len(),
            line_views(ls@) == lines(source@),
            first_filled(lines(source@), 0) == first_filled(lines(source@), i as int),
        decreases ls@.len() - i,
    {
        let line = &ls[i];
        assert(line@ == lines(source@)[i as int]);
        if !is_blank_line(line.as_slice()) {
            return Some(line_preview(line.as_slice(), preview_len));
        }
        i = i + 1;
    }
    None
}

/// A component of a `/`-separated path that names something: not empty
/// and not `.`.
pub open spec fn is_named_component(c: Seq<char>) -> bool {
    c.len() != 0 && c != seq!['.']
}

/// The last `/`-separated component of `p` that names something, if any.
pub open spec fn last_component(p: Seq<char>) -> Option<Seq<char>>
    decreases p.len(),
{
    if p.len() == 0 {
        None
    } else {
        let k = last_slash(p);
        let tail = p.skip(k + 1);
        if is_named_component(tail) {
            Some(tail)
        } else if k < 0 || k >= p.len() {
            None
        } else {
            last_component(p.take(k))
        }
    }
}

/// Position of the last `/` in `p`, or -1.
pub open spec fn last_slash(p: Seq<char>) -> int
    decreases p.len(),
{
    if p.len() == 0 {
        -1
    } else if p.last() == '/' {
        p.len() - 1
    } else {
        last_slash(p.drop_last())
    }
}

pub proof fn lemma_last_slash(p: Seq<char>)
    ensures
        -1 <= last_slash(p) < p.len(),
        last_slash(p) >= 0 ==> p[last_slash(p)] == '/',
        forall|j: int| last_slash(p) < j < p.len() ==> p[j] != '/',
    decreases p.len(),
{
    if p.len() > 0 && p.last() != '/' {
        lemma_last_slash(p.drop_last());
        assert forall|j: int| last_slash(p) < j < p.len() implies p[j] != '/' by {
            if j < p.len() - 1 {
                assert(p[j] == p.drop_last()[j]);
            }
        }
    }
}

/// The file name shown for a path: its final named component, unless that
/// is `..` or there is none, in which case the path itself.
pub open spec fn file_name_of(p: Seq<char>) -> Seq<char> {
    match last_component(p) {
        Some(c) => if c == seq!['.', '.'] {
            p
        } else {
            c
        },
        None => p,
    }
}

/// The bounds of the last named component of a path.
pub fn last_component_range(cs: &[char]) -> (r: Option<(usize, usize)>)
    ensures
        match r {
            Some((a, b)) => a <= b <= cs@.len() && last_component(cs@) == Some(cs@.subrange(a as int, b as int)),
            None => last_component(cs@) is None,
        },
{
    let mut end = cs.len();
    let ghost p = cs@;
    proof {
        assert(p.take(end as int) =~= p);
    }
    loop
        invariant
            end <= cs@.len(),
            p == cs@,
            last_component(p) == last_component(p.take(end as int)),
        decreases end,
    {
        if end == 0 {
            proof {
                assert(p.take(0) =~= Seq::<char>::empty());
            }
            return None;
        }
        let ghost q = p.take(end as int);
        let mut k = end;
        proof {
            assert(q.take(k as int) =~= q);
        }
        while k > 0 && cs[k - 1] != '/'
            invariant
                k <= end <= cs@.len(),
                q == cs@.take(end as int),
                last_slash(q) == last_slash(q.take(k as int)),
            decreases k,
        {
            proof {
                assert(q.take(k as int).drop_last() =~= q.take(k - 1));
            }
            k = k - 1;
        }
        proof {
            if k > 0 {
                assert(q.take(k as int).last() == '/');
            } else {
                assert(q.take(0) =~= Seq::<char>::empty());
            }
            lemma_last_slash(q);
        }
        let len = end - k;
        let single_dot = len == 1 && cs[k] == '.';
        proof {
            assert(q.len() == end);
            assert(q.skip(last_slash(q) + 1) =~= cs@.subrange(k as int, end as int));
        }
        if len != 0 && !single_dot {
            proof {
                if len == 1 {
                    assert(cs@.subrange(k as int, end as int)[0] == cs@[k as int]);
                }
                assert(is_named_component(cs@.subrange(k as int, end as int)));
            }
            return Some((k, end));
        }
        proof {
            if len == 1 {
                assert(cs@.subrange(k as int, end as int) =~= seq!['.']);
            }
        }
        if k == 0 {
            return None;
        }
        proof {
            assert(q.take(k - 1) =~= p.take(k - 1));
        }
        end = k - 1;
    }
}

/// The file name shown for a path.
pub fn file_name(path: &str) -> (r: String)
    ensures
        r@ == file_name_of(path@),
{
    let cs = chars_of(path);
    match last_component_range(cs.as_slice()) {
        Some((a, b)) => {
            if b - a == 2 && cs[a] == '.' && cs[a + 1] == '.' {
                proof {
                    assert(cs@.subrange(a as int, b as int) =~= seq!['.', '.']);
                }
                return path.to_owned();
            }
            proof {
                let t = cs@.subrange(a as int, b as int);
                if t =~= seq!['.', '.'] {
                    assert(t[0] == cs@[a as int] && t[1] == cs@[a + 1]);
                }
            }
            string_of(cs.as_slice(), a, b)
        },
        None => path.to_owned(),
    }
}

/// Whether `s[from..to]` equals `p`.
pub fn chars_equal(s: &[char], from: usize, to: usize, p: &[char]) -> (r: bool)
    requires
        from <= to <= s@.len(),
    ensures
        r == (s@.subrange(from as int, to as int) == p@),
{
    if to - from != p.len() {
        return false;
    }
    let mut k: usize = 0;
    while k < p.len()
        invariant
            to - from == p@.len(),
            from <= to <= s@.len(),
            k <= p@.len(),
            forall|m: int| 0 <= m < k ==> s@[from + m] == p@[m],
        decreases p@.len() - k,
    {
        if s[from + k] != p[k] {
            proof {
                assert(s@.subrange(from as int, to as int)[k as int] != p@[k as int]);
            }
            return false;
        }
        k = k + 1;
    }
    proof {
        assert(s@.subrange(from as int, to as int) =~= p@);
    }
    true
}

/// A preview never holds more than `max` characters (one, the ellipsis,
/// when `max` is 0); a text that fits is kept whole, and a cut text keeps
/// its beginning and ends with `…`.
pub proof fn law_truncated_preview(s: Seq<char>, max: nat)
    ensures
        truncated(s, max).len() <= if max == 0 { 1 } else { max },
        s.len() <= max ==> truncated(s, max) == s,
        s.len() > max ==> truncated(s, max).last() == '…' && truncated(s, max).drop_last()
            == s.take(truncated(s, max).len() - 1),
{
    if s.len() > max {
        let t = truncated(s, max);
        assert(t.drop_last() =~= s.take(t.len() - 1));
    }
}

} // verus!
