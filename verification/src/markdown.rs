//! Line-oriented Markdown outlines: frontmatter, headings (nested by
//! level), fenced code blocks and list regions.

use vstd::prelude::*;
use crate::model::{Node, NodeView, leaf, nodes_view, opt_view, new_leaf};
use crate::text::{
    trim_start, trim, trim_end, starts_with, index_of, truncated, lines, is_ws, chars_of, split_lines,
    line_views, string_of, skip_whitespace_until, trim_bounds, lemma_index_of_bound,
};
use crate::tree::{
    FlatItem, FlatItemView, outline_of, items_view, flat_view, build_tree, range_in, items_nested,
    lemma_forest_ranges, levels_deepen, items_deepen, lemma_forest_levels,
    parents_precede, lemma_outline_parents_first, forest_size, law_outline_keeps_every_item,
    descends, contiguous, preorder, item_heads, head_of, law_preorder_of_contiguous, forest,
};

verus! {

/// Number of `c` characters at the start of `s`.
pub open spec fn leading_count(s: Seq<char>, c: char) -> nat
    decreases s.len(),
{
    if s.len() > 0 && s[0] == c {
        1 + leading_count(s.drop_first(), c)
    } else {
        0
    }
}

/// `s` without any trailing `c` characters.
pub open spec fn trim_end_char(s: Seq<char>, c: char) -> Seq<char>
    decreases s.len(),
{
    if s.len() > 0 && s.last() == c {
        trim_end_char(s.drop_last(), c)
    } else {
        s
    }
}

/// An ATX heading line: one to six `#` after optional indentation, then a
/// space, then a title that is not empty once closing `#`s are removed.
/// Yields the level and the title.
pub open spec fn heading_of(line: Seq<char>) -> Option<(usize, Seq<char>)> {
    let t = trim_start(line);
    let level = leading_count(t, '#');
    if !(1 <= level <= 6) || !(level < t.len() && t[level as int] == ' ') {
        None
    } else {
        let name = trim(trim_end_char(trim(t.skip(level as int)), '#'));
        if name.len() == 0 {
            None
        } else {
            Some((level as usize, name))
        }
    }
}

/// An ASCII decimal digit.
pub open spec fn is_digit(c: char) -> bool {
    '0' <= c && c <= '9'
}

/// A bullet (`- `, `* `, `+ `) or numbered (`12. `) list item line.
pub open spec fn list_item(line: Seq<char>) -> bool {
    let t = trim_start(line);
    if t.len() >= 2 && (t[0] == '-' || t[0] == '*' || t[0] == '+') && t[1] == ' ' {
        true
    } else {
        let k = index_of(t, '.');
        &&& k < t.len()
        &&& k > 0
        &&& forall|i: int| 0 <= i < k ==> is_digit(#[trigger] t[i])
        &&& k + 1 < t.len()
        &&& t[k + 1int] == ' '
    }
}

/// The fence (three backticks or three tildes) that opens a code block on
/// this line, after optional indentation.
pub open spec fn fence_of(line: Seq<char>) -> Option<Seq<char>> {
    let t = trim_start(line);
    if t.len() >= 3 && ((t[0] == '`' && t[1] == '`' && t[2] == '`') || (t[0] == '~' && t[1]
        == '~' && t[2] == '~')) {
        Some(t.take(3))
    } else {
        None
    }
}

/// The info string after an opening fence, if there is one.
pub open spec fn code_info(line: Seq<char>) -> Option<Seq<char>> {
    let info = trim(trim_start(line).skip(3));
    if info.len() == 0 {
        None
    } else {
        Some(info)
    }
}

/// The first line at or after `j` that starts (after indentation) with
/// `fence`, or the number of lines when there is none.
pub open spec fn closing_fence(lines: Seq<Seq<char>>, j: int, fence: Seq<char>) -> int
    decreases lines.len() - j,
{
    if j < 0 || j >= lines.len() {
        lines.len() as int
    } else if starts_with(trim_start(lines[j]), fence) {
        j
    } else {
        closing_fence(lines, j + 1, fence)
    }
}

/// The first line at or after `j` that is neither a list item nor blank,
/// or the number of lines when there is none.
pub open spec fn list_end(lines: Seq<Seq<char>>, j: int) -> int
    decreases lines.len() - j,
{
    if j < 0 || j >= lines.len() {
        lines.len() as int
    } else if list_item(lines[j]) || trim(lines[j]).len() == 0 {
        list_end(lines, j + 1)
    } else {
        j
    }
}

pub proof fn lemma_closing_fence_bounds(lines: Seq<Seq<char>>, j: int, fence: Seq<char>)
    requires
        0 <= j <= lines.len(),
    ensures
        j <= closing_fence(lines, j, fence) <= lines.len(),
    decreases lines.len() - j,
{
    if j < lines.len() && !starts_with(trim_start(lines[j]), fence) {
        lemma_closing_fence_bounds(lines, j + 1, fence);
    }
}

pub proof fn lemma_list_end_bounds(lines: Seq<Seq<char>>, j: int)
    requires
        0 <= j <= lines.len(),
    ensures
        j <= list_end(lines, j) <= lines.len(),
    decreases lines.len() - j,
{
    if j < lines.len() && (list_item(lines[j]) || trim(lines[j]).len() == 0) {
        lemma_list_end_bounds(lines, j + 1);
    }
}

/// An outline entry under construction: heading entries remember their level.
pub struct MarkdownItemView {
    pub parent: Option<usize>,
    pub heading_level: Option<usize>,
    pub node: NodeView,
}

/// The open headings, innermost last, with the given level removed from
/// the top along with every deeper-or-equal one.
pub open spec fn pop_headings(stack: Seq<(usize, usize)>, level: usize) -> Seq<(usize, usize)>
    decreases stack.len(),
{
    if stack.len() > 0 && stack.last().0 >= level {
        pop_headings(stack.drop_last(), level)
    } else {
        stack
    }
}

/// The index of the innermost open heading.
pub open spec fn stack_top(stack: Seq<(usize, usize)>) -> Option<usize> {
    if stack.len() > 0 {
        Some(stack.last().1)
    } else {
        None
    }
}

/// The entries found from line index `li` on, appended to `items`, with
/// `stack` the open headings as (level, item index).
pub open spec fn scan(
    lines: Seq<Seq<char>>,
    li: int,
    items: Seq<MarkdownItemView>,
    stack: Seq<(usize, usize)>,
    plen: nat,
) -> Seq<MarkdownItemView>
    decreases lines.len() - li,
{
    if li < 0 || li >= lines.len() {
        items
    } else {
        let line = lines[li];
        let n = lines.len();
        let preview = Some(truncated(trim(line), plen));
        match heading_of(line) {
            Some((level, name)) => {
                let st = pop_headings(stack, level);
                let item = MarkdownItemView {
                    parent: stack_top(st),
                    heading_level: Some(level),
                    node: leaf(
                        "heading"@,
                        Some(level),
                        Some(name),
                        (li + 1) as usize,
                        n as usize,
                        preview,
                    ),
                };
                scan(lines, li + 1, items.push(item), st.push((level, items.len() as usize)), plen)
            },
            None => {
                if fence_of(line) is Some {
                    let close = closing_fence(lines, li + 1, fence_of(line)->0);
                    proof {
                        lemma_closing_fence_bounds(lines, li + 1, fence_of(line)->0);
                    }
                    let next = if close < n {
                        close + 1
                    } else {
                        n as int
                    };
                    let item = MarkdownItemView {
                        parent: stack_top(stack),
                        heading_level: None,
                        node: leaf(
                            "code_block"@,
                            None,
                            code_info(line),
                            (li + 1) as usize,
                            next as usize,
                            preview,
                        ),
                    };
                    scan(lines, next, items.push(item), stack, plen)
                } else if list_item(line) {
                    let end = list_end(lines, li + 1);
                    proof {
                        lemma_list_end_bounds(lines, li + 1);
                    }
                    let item = MarkdownItemView {
                        parent: stack_top(stack),
                        heading_level: None,
                        node: leaf(
                            "list"@,
                            None,
                            Some("list"@),
                            (li + 1) as usize,
                            end as usize,
                            preview,
                        ),
                    };
                    scan(lines, end, items.push(item), stack, plen)
                } else {
                    scan(lines, li + 1, items, stack, plen)
                }
            },
        }
    }
}

/// The first line at or after `j` whose trimmed text is `---`.
pub open spec fn dash_line(lines: Seq<Seq<char>>, j: int) -> int
    decreases lines.len() - j,
{
    if j < 0 || j >= lines.len() {
        lines.len() as int
    } else if trim(lines[j]) == seq!['-', '-', '-'] {
        j
    } else {
        dash_line(lines, j + 1)
    }
}

pub proof fn lemma_dash_line_bounds(lines: Seq<Seq<char>>, j: int)
    requires
        0 <= j <= lines.len(),
    ensures
        j <= dash_line(lines, j) <= lines.len(),
    decreases lines.len() - j,
{
    if j < lines.len() && trim(lines[j]) != seq!['-', '-', '-'] {
        lemma_dash_line_bounds(lines, j + 1);
    }
}

/// The last line of a frontmatter block: the first line is `---` and a
/// later line is `---` too.
pub open spec fn frontmatter_end(lines: Seq<Seq<char>>) -> Option<nat> {
    if lines.len() > 0 && trim(lines[0]) == seq!['-', '-', '-'] && dash_line(lines, 1)
        < lines.len() {
        Some((dash_line(lines, 1) + 1) as nat)
    } else {
        None
    }
}

/// The entries of a whole document, before heading ranges are closed.
pub open spec fn scan_document(lines: Seq<Seq<char>>, plen: nat) -> Seq<MarkdownItemView> {
    match frontmatter_end(lines) {
        Some(end) => scan(
            lines,
            end as int,
            seq![
                MarkdownItemView {
                    parent: None,
                    heading_level: None,
                    node: leaf(
                        "frontmatter"@,
                        None,
                        Some("frontmatter"@),
                        1,
                        end as usize,
                        Some("---"@),
                    ),
                },
            ],
            seq![],
            plen,
        ),
        None => scan(lines, 0, seq![], seq![], plen),
    }
}

/// The first heading at or after `j` whose level is at most `level`.
pub open spec fn next_closer(items: Seq<MarkdownItemView>, j: int, level: usize) -> Option<int>
    decreases items.len() - j,
{
    if j < 0 || j >= items.len() {
        None
    } else if items[j].heading_level is Some && items[j].heading_level->0 <= level {
        Some(j)
    } else {
        next_closer(items, j + 1, level)
    }
}

/// Entry `i` with its range closed: a heading ends on the line before the
/// next heading of the same or a higher rank, or at the end of the document.
pub open spec fn closed_node(items: Seq<MarkdownItemView>, i: int) -> NodeView {
    let node = items[i].node;
    match items[i].heading_level {
        Some(level) => match next_closer(items, i + 1, level) {
            Some(j) => NodeView {
                end_line: if items[j].node.start_line >= 1 {
                    (items[j].node.start_line - 1) as usize
                } else {
                    0
                },
                ..node
            },
            None => node,
        },
        None => node,
    }
}

/// The entries as a flat item list with closed ranges.
pub open spec fn closed_items(items: Seq<MarkdownItemView>) -> Seq<FlatItemView> {
    Seq::new(
        items.len(),
        |i: int| FlatItemView { parent: items[i].parent, node: closed_node(items, i) },
    )
}

/// The Markdown outline of `source` with previews of at most `plen` characters.
pub open spec fn markdown_outline(source: Seq<char>, plen: nat) -> Seq<NodeView> {
    outline_of(closed_items(scan_document(lines(source), plen)))
}

proof fn lemma_leading_step(s: Seq<char>, i: int, c: char)
    requires
        0 <= i < s.len(),
        s[i] == c,
    ensures
        leading_count(s.skip(i), c) == 1 + leading_count(s.skip(i + 1), c),
{
    assert(s.skip(i).drop_first() =~= s.skip(i + 1));
}

proof fn lemma_trim_end_char_step(s: Seq<char>, j: int, c: char)
    requires
        0 < j <= s.len(),
        s[j - 1] == c,
    ensures
        trim_end_char(s.take(j), c) == trim_end_char(s.take(j - 1), c),
{
    assert(s.take(j).drop_last() =~= s.take(j - 1));
}

/// The level and title of a heading line.
pub fn parse_heading(line: &[char]) -> (r: Option<(usize, String)>)
    ensures
        match r {
            Some((level, name)) => heading_of(line@) == Some((level, name@)),
            None => heading_of(line@) is None,
        },
{
    let n = line.len();
    let i0 = skip_whitespace_until(line, 0, n);
    let ghost t = line@.subrange(i0 as int, n as int);
    proof {
        assert(line@.subrange(0, n as int) =~= line@);
        assert(t.skip(0) =~= t);
    }
    let mut k = i0;
    while k < n && line[k] == '#'
        invariant
            i0 <= k <= n == line@.len(),
            t == line@.subrange(i0 as int, n as int),
            leading_count(t, '#') == (k - i0) + leading_count(t.skip(k - i0), '#'),
        decreases n - k,
    {
        proof {
            lemma_leading_step(t, k - i0, '#');
        }
        k = k + 1;
    }
    proof {
        if k < n {
            assert(t.skip(k - i0)[0] == line@[k as int]);
        }
    }
    let level = k - i0;
    if level < 1 || level > 6 {
        return None;
    }
    if !(k < n && line[k] == ' ') {
        proof {
            if level < t.len() {
                assert(t[level as int] == line@[k as int]);
            }
        }
        return None;
    }
    assert(t[level as int] == line@[k as int]);
    let (a, b) = trim_bounds(line, k, n);
    proof {
        assert(t.skip(level as int) =~= line@.subrange(k as int, n as int));
    }
    let ghost u = line@.subrange(a as int, b as int);
    let mut c = b;
    proof {
        assert(u.take(c - a) =~= u);
    }
    while c > a && line[c - 1] == '#'
        invariant
            a <= c <= b <= n == line@.len(),
            u == line@.subrange(a as int, b as int),
            trim_end_char(u, '#') == trim_end_char(u.take(c - a), '#'),
        decreases c,
    {
        proof {
            lemma_trim_end_char_step(u, c - a, '#');
        }
        c = c - 1;
    }
    proof {
        assert(u.take(c - a) =~= line@.subrange(a as int, c as int));
        if c > a {
            assert(u.take(c - a).last() == line@[c - 1]);
        }
    }
    let (x, y) = trim_bounds(line, a, c);
    if x == y {
        return None;
    }
    Some((level, string_of(line, x, y)))
}

/// Whether a line is a list item.
pub fn is_list_item(line: &[char]) -> (r: bool)
    ensures
        r == list_item(line@),
{
    let n = line.len();
    let i0 = skip_whitespace_until(line, 0, n);
    let ghost t = line@.subrange(i0 as int, n as int);
    proof {
        assert(line@.subrange(0, n as int) =~= line@);
    }
    if n - i0 >= 2 && (line[i0] == '-' || line[i0] == '*' || line[i0] == '+') && line[i0 + 1]
        == ' ' {
        assert(t[0] == line@[i0 as int] && t[1] == line@[i0 + 1]);
        return true;
    }
    proof {
        if t.len() >= 2 {
            assert(t[0] == line@[i0 as int] && t[1] == line@[i0 + 1]);
        }
    }
    let mut j = i0;
    let mut digits = true;
    while j < n && line[j] != '.'
        invariant
            i0 <= j <= n == line@.len(),
            t == line@.subrange(i0 as int, n as int),
            forall|m: int| i0 <= m < j ==> line@[m] != '.',
            digits == (forall|m: int| i0 <= m < j ==> is_digit(#[trigger] line@[m])),
        decreases n - j,
    {
        digits = digits && '0' <= line[j] && line[j] <= '9';
        j = j + 1;
    }
    proof {
        lemma_index_of_at_pub(t, '.', j - i0);
        assert forall|m: int| 0 <= m < j - i0 implies (is_digit(#[trigger] t[m]) <==> is_digit(
            line@[i0 + m],
        )) by {
            assert(t[m] == line@[i0 + m]);
        }
        if digits {
            assert forall|m: int| 0 <= m < j - i0 implies is_digit(#[trigger] t[m]) by {
                assert(t[m] == line@[i0 + m]);
            }
        } else {
            let m = choose|m: int| i0 <= m < j && !is_digit(#[trigger] line@[m]);
            assert(t[m - i0] == line@[m]);
        }
    }
    if j >= n {
        return false;
    }
    if j + 1 < n {
        assert(t[j - i0 + 1] == line@[j + 1]);
    }
    j > i0 && digits && j + 1 < n && line[j + 1] == ' '
}

proof fn lemma_index_of_at_pub(s: Seq<char>, c: char, k: int)
    requires
        0 <= k <= s.len(),
        k < s.len() ==> s[k] == c,
        forall|j: int| 0 <= j < k ==> s[j] != c,
    ensures
        index_of(s, c) == k,
    decreases k,
{
    if k > 0 {
        assert forall|j: int| 0 <= j < k - 1 implies s.drop_first()[j] != c by {
            assert(s.drop_first()[j] == s[j + 1]);
        }
        lemma_index_of_at_pub(s.drop_first(), c, k - 1);
    }
}

/// The fence character (a backtick or a tilde) of a line that opens a code block.
pub fn opening_fence(line: &[char]) -> (r: Option<char>)
    ensures
        match r {
            Some(c) => fence_of(line@) == Some(seq![c, c, c]),
            None => fence_of(line@) is None,
        },
{
    let n = line.len();
    let i0 = skip_whitespace_until(line, 0, n);
    let ghost t = line@.subrange(i0 as int, n as int);
    proof {
        assert(line@.subrange(0, n as int) =~= line@);
    }
    if n - i0 >= 3 {
        let c = line[i0];
        proof {
            assert(t[0] == line@[i0 as int] && t[1] == line@[i0 + 1] && t[2] == line@[i0 + 2]);
        }
        if (c == '`' || c == '~') && line[i0 + 1] == c && line[i0 + 2] == c {
            proof {
                assert(t.take(3) =~= seq![c, c, c]);
            }
            return Some(c);
        }
    }
    None
}

/// Whether a line starts, after indentation, with three `c` characters.
pub fn starts_with_fence(line: &[char], c: char) -> (r: bool)
    ensures
        r == starts_with(trim_start(line@), seq![c, c, c]),
{
    let n = line.len();
    let i0 = skip_whitespace_until(line, 0, n);
    let ghost t = line@.subrange(i0 as int, n as int);
    proof {
        assert(line@.subrange(0, n as int) =~= line@);
    }
    if n - i0 >= 3 {
        proof {
            assert(t[0] == line@[i0 as int] && t[1] == line@[i0 + 1] && t[2] == line@[i0 + 2]);
        }
        if line[i0] == c && line[i0 + 1] == c && line[i0 + 2] == c {
            proof {
                assert(t.take(3) =~= seq![c, c, c]);
            }
            return true;
        }
        proof {
            let f = seq![c, c, c];
            if starts_with(t, f) {
                assert(t.take(3)[0] == t[0] && t.take(3)[1] == t[1] && t.take(3)[2] == t[2]);
            }
        }
    }
    false
}

/// The info string after an opening fence.
pub fn code_block_name(line: &[char]) -> (r: Option<String>)
    requires
        fence_of(line@) is Some,
    ensures
        opt_view(r) == code_info(line@),
{
    let n = line.len();
    let i0 = skip_whitespace_until(line, 0, n);
    proof {
        assert(line@.subrange(0, n as int) =~= line@);
        assert(line@.subrange(i0 as int, n as int).skip(3) =~= line@.subrange(i0 + 3, n as int));
    }
    let (a, b) = trim_bounds(line, i0 + 3, n);
    if a == b {
        None
    } else {
        Some(string_of(line, a, b))
    }
}

/// Whether a line is `---` once trimmed.
pub fn is_dash_line(line: &[char]) -> (r: bool)
    ensures
        r == (trim(line@) == seq!['-', '-', '-']),
{
    let (a, b) = trim_bounds(line, 0, line.len());
    proof {
        assert(line@.subrange(0, line@.len() as int) =~= line@);
    }
    if b - a == 3 && line[a] == '-' && line[a + 1] == '-' && line[a + 2] == '-' {
        proof {
            assert(line@.subrange(a as int, b as int) =~= seq!['-', '-', '-']);
        }
        true
    } else {
        proof {
            let u = line@.subrange(a as int, b as int);
            let d = seq!['-', '-', '-'];
            if u == d {
                assert(d.len() == 3 && d[0] == '-' && d[1] == '-' && d[2] == '-');
                assert(u.len() == 3);
                assert(u[0] == line@[a as int] && u[1] == line@[a + 1] && u[2] == line@[a + 2]);
            }
        }
        false
    }
}

/// An outline entry under construction.
pub struct MarkdownItem {
    pub parent: Option<usize>,
    pub heading_level: Option<usize>,
    pub node: Node,
}

/// The views of a list of entries.
pub open spec fn md_view(items: Seq<MarkdownItem>) -> Seq<MarkdownItemView> {
    Seq::new(
        items.len(),
        |i: int|
            MarkdownItemView {
                parent: items[i].parent,
                heading_level: items[i].heading_level,
                node: crate::model::node_view(items[i].node),
            },
    )
}

/// No entry has children yet.
pub open spec fn all_leaves(items: Seq<MarkdownItemView>) -> bool {
    forall|i: int| 0 <= i < items.len() ==> (#[trigger] items[i]).node.children.len() == 0
}

pub proof fn lemma_scan_leaves(
    lines: Seq<Seq<char>>,
    li: int,
    items: Seq<MarkdownItemView>,
    stack: Seq<(usize, usize)>,
    plen: nat,
)
    requires
        all_leaves(items),
    ensures
        all_leaves(scan(lines, li, items, stack, plen)),
    decreases lines.len() - li,
{
    if 0 <= li < lines.len() {
        let line = lines[li];
        let n = lines.len();
        let preview = Some(truncated(trim(line), plen));
        match heading_of(line) {
            Some((level, name)) => {
                let st = pop_headings(stack, level);
                let item = MarkdownItemView {
                    parent: stack_top(st),
                    heading_level: Some(level),
                    node: leaf("heading"@, Some(level), Some(name), (li + 1) as usize, n as usize, preview),
                };
                assert(all_leaves(items.push(item)));
                lemma_scan_leaves(lines, li + 1, items.push(item), st.push((level, items.len() as usize)), plen);
            },
            None => {
                if fence_of(line) is Some {
                    let close = closing_fence(lines, li + 1, fence_of(line)->0);
                    lemma_closing_fence_bounds(lines, li + 1, fence_of(line)->0);
                    let next = if close < n { close + 1 } else { n as int };
                    let item = MarkdownItemView {
                        parent: stack_top(stack),
                        heading_level: None,
                        node: leaf("code_block"@, None, code_info(line), (li + 1) as usize, next as usize, preview),
                    };
                    assert(all_leaves(items.push(item)));
                    lemma_scan_leaves(lines, next, items.push(item), stack, plen);
                } else if list_item(line) {
                    let end = list_end(lines, li + 1);
                    lemma_list_end_bounds(lines, li + 1);
                    let item = MarkdownItemView {
                        parent: stack_top(stack),
                        heading_level: None,
                        node: leaf("list"@, None, Some("list"@), (li + 1) as usize, end as usize, preview),
                    };
                    assert(all_leaves(items.push(item)));
                    lemma_scan_leaves(lines, end, items.push(item), stack, plen);
                } else {
                    lemma_scan_leaves(lines, li + 1, items, stack, plen);
                }
            },
        }
    }
}

/// What every finished scan holds of its entries, with `n` lines in all:
/// ranges run forward within the document; headings stay open to the end
/// (they are closed afterwards); entries start in line order and an entry
/// other than a heading ends before the next one starts; and each entry's
/// parent is an earlier heading that no heading in between has closed.
pub open spec fn entries_ok(items: Seq<MarkdownItemView>, n: int) -> bool {
    &&& forall|i: int|
        0 <= i < items.len() ==> 1 <= (#[trigger] items[i]).node.start_line
            <= items[i].node.end_line <= n
    &&& forall|i: int|
        0 <= i < items.len() && (#[trigger] items[i]).heading_level is Some
            ==> items[i].node.end_line == n
    &&& forall|i: int, j: int|
        0 <= i < j < items.len() ==> (#[trigger] items[i]).node.start_line
            < (#[trigger] items[j]).node.start_line
    &&& forall|i: int, j: int|
        0 <= i < j < items.len() && (#[trigger] items[i]).heading_level is None
            ==> items[i].node.end_line < (#[trigger] items[j]).node.start_line
    &&& forall|j: int| 0 <= j < items.len() ==> #[trigger] parent_ok(items, j)
    &&& forall|i: int| 0 <= i < items.len() ==> (#[trigger] items[i]).node.level == items[i].heading_level
    &&& forall|k: int| 0 <= k < items.len() ==> #[trigger] near_ok(items, k)
}

/// Heading `c` closes heading `h`: it comes later and is of the same or a
/// higher rank.
pub open spec fn closes_at(items: Seq<MarkdownItemView>, h: int, c: int) -> bool {
    &&& 0 <= h < c < items.len()
    &&& items[c].heading_level is Some
    &&& items[h].heading_level is Some
    &&& items[c].heading_level->0 <= items[h].heading_level->0
}

/// Heading `h` is closed by a heading at `k` or before.
pub open spec fn closed_by(items: Seq<MarkdownItemView>, h: int, k: int) -> bool {
    exists|c: int| c <= k && #[trigger] closes_at(items, h, c)
}

/// Entry `k`'s parent is the nearest heading still open at `k`: every
/// heading between them (every heading before `k`, at top level) is closed
/// by `k`.
pub open spec fn near_ok(items: Seq<MarkdownItemView>, k: int) -> bool {
    match items[k].parent {
        Some(p) => forall|h: int|
            p < h < k && (#[trigger] items[h]).heading_level is Some ==> closed_by(items, h, k),
        None => forall|h: int|
            0 <= h < k && (#[trigger] items[h]).heading_level is Some ==> closed_by(items, h, k),
    }
}

/// Heading `h` is still on the stack of open headings.
pub open spec fn on_stack(stack: Seq<(usize, usize)>, h: int) -> bool {
    exists|s: int| 0 <= s < stack.len() && (#[trigger] stack[s]).1 == h
}

/// Entry `j`'s parent, if any, is an earlier heading, and every heading
/// from just after it up to `j` is deeper.
pub open spec fn parent_ok(items: Seq<MarkdownItemView>, j: int) -> bool {
    match items[j].parent {
        Some(p) => {
            &&& p < j
            &&& items[p as int].heading_level is Some
            &&& forall|k: int|
                p < k <= j && (#[trigger] items[k]).heading_level is Some
                    ==> items[k].heading_level->0 > items[p as int].heading_level->0
        },
        None => true,
    }
}

/// What holds while scanning, with the next line index `li` of `n`: the
/// entries so far, all before `li`, and the open headings, as a stack of
/// strictly deeper levels whose headings no later heading has closed.
pub open spec fn scan_ok(items: Seq<MarkdownItemView>, stack: Seq<(usize, usize)>, li: int, n: int) -> bool {
    &&& items.len() <= li <= n
    &&& entries_ok(items, n)
    &&& forall|i: int| 0 <= i < items.len() ==> (#[trigger] items[i]).node.start_line <= li
    &&& forall|i: int|
        0 <= i < items.len() && (#[trigger] items[i]).heading_level is None
            ==> items[i].node.end_line <= li
    &&& forall|s: int|
        0 <= s < stack.len() ==> (#[trigger] stack[s]).1 < items.len()
            && items[stack[s].1 as int].heading_level == Some(stack[s].0)
    &&& forall|s: int, t: int|
        0 <= s < t < stack.len() ==> (#[trigger] stack[s]).0 < (#[trigger] stack[t]).0
    &&& forall|s: int, k: int|
        0 <= s < stack.len() && stack[s].1 < k < items.len()
            && (#[trigger] items[k]).heading_level is Some
            ==> items[k].heading_level->0 > (#[trigger] stack[s]).0
    &&& open_ok(items, stack)
}

/// The stack holds its headings in list order, and every heading not on
/// it is closed.
pub open spec fn open_ok(items: Seq<MarkdownItemView>, stack: Seq<(usize, usize)>) -> bool {
    &&& forall|s: int, t: int|
        0 <= s < t < stack.len() ==> (#[trigger] stack[s]).1 < (#[trigger] stack[t]).1
    &&& forall|h: int|
        0 <= h < items.len() && (#[trigger] items[h]).heading_level is Some ==> on_stack(stack, h)
            || closed_by(items, h, items.len() - 1)
}

proof fn lemma_closed_push(items: Seq<MarkdownItemView>, item: MarkdownItemView, h: int, k: int, k2: int)
    requires
        closed_by(items, h, k),
        k <= k2,
    ensures
        closed_by(items.push(item), h, k2),
{
    let c = choose|c: int| c <= k && #[trigger] closes_at(items, h, c);
    let it = items.push(item);
    assert(it[c] == items[c]);
    assert(it[h] == items[h]);
    assert(closes_at(it, h, c));
}

proof fn lemma_near_push(items: Seq<MarkdownItemView>, item: MarkdownItemView, k: int)
    requires
        0 <= k < items.len(),
        near_ok(items, k),
    ensures
        near_ok(items.push(item), k),
{
    let it = items.push(item);
    assert(it[k] == items[k]);
    assert forall|h: int| 0 <= h < k && (#[trigger] it[h]).heading_level is Some && closed_by(items, h, k)
        implies closed_by(it, h, k) by {
        lemma_closed_push(items, item, h, k, k);
    }
    assert forall|h: int| 0 <= h < k && (#[trigger] it[h]).heading_level is Some implies (#[trigger] items[h]).heading_level
        is Some by {
        assert(it[h] == items[h]);
    }
}

/// Adding an entry that is not a heading, under the innermost open
/// heading, keeps every entry's parent the nearest open heading.
proof fn lemma_push_block_open(
    items: Seq<MarkdownItemView>,
    n: int,
    stack: Seq<(usize, usize)>,
    item: MarkdownItemView,
)
    requires
        entries_ok(items, n),
        forall|s: int|
            0 <= s < stack.len() ==> (#[trigger] stack[s]).1 < items.len()
                && items[stack[s].1 as int].heading_level == Some(stack[s].0),
        open_ok(items, stack),
        item.heading_level is None,
        item.parent == stack_top(stack),
    ensures
        open_ok(items.push(item), stack),
        forall|k: int| 0 <= k < items.len() + 1 ==> #[trigger] near_ok(items.push(item), k),
{
    let it = items.push(item);
    let m = items.len() as int;
    assert(it[m] == item);
    assert forall|h: int| 0 <= h < it.len() && (#[trigger] it[h]).heading_level is Some implies on_stack(stack, h)
        || closed_by(it, h, it.len() - 1) by {
        assert(it[h] == items[h]);
        if !on_stack(stack, h) {
            lemma_closed_push(items, item, h, m - 1, m);
        }
    }
    assert forall|k: int| 0 <= k < items.len() + 1 implies #[trigger] near_ok(it, k) by {
        if k < m {
            assert(near_ok(items, k));
            lemma_near_push(items, item, k);
        } else {
            let lo: int = if stack.len() > 0 { stack[stack.len() - 1].1 as int + 1 } else { 0 };
            assert forall|h: int| lo <= h < m && (#[trigger] it[h]).heading_level is Some implies closed_by(it, h, m) by {
                assert(it[h] == items[h]);
                if on_stack(stack, h) {
                    let s = choose|s: int| 0 <= s < stack.len() && (#[trigger] stack[s]).1 == h;
                    let t = stack.len() - 1;
                    if s < t {
                        assert(stack[s].1 < stack[t].1);
                    }
                    assert(false);
                }
                lemma_closed_push(items, item, h, m - 1, m);
            }
            if stack.len() > 0 {
                assert(stack_top(stack) == Some(stack[stack.len() - 1].1));
            }
        }
    }
}

/// Adding a heading under the innermost heading still open keeps every
/// entry's parent the nearest open heading, and the stack the open ones.
proof fn lemma_push_heading_open(
    items: Seq<MarkdownItemView>,
    n: int,
    stack: Seq<(usize, usize)>,
    item: MarkdownItemView,
    level: usize,
)
    requires
        entries_ok(items, n),
        items.len() <= usize::MAX,
        forall|s: int|
            0 <= s < stack.len() ==> (#[trigger] stack[s]).1 < items.len()
                && items[stack[s].1 as int].heading_level == Some(stack[s].0),
        open_ok(items, stack),
        item.heading_level == Some(level),
        item.parent == stack_top(pop_headings(stack, level)),
    ensures
        open_ok(items.push(item), pop_headings(stack, level).push((level, items.len() as usize))),
        forall|k: int| 0 <= k < items.len() + 1 ==> #[trigger] near_ok(items.push(item), k),
{
    let it = items.push(item);
    let m = items.len() as int;
    let st = pop_headings(stack, level);
    lemma_pop_headings(stack, level);
    let st2 = st.push((level, items.len() as usize));
    assert(it[m] == item);
    assert forall|s: int| 0 <= s < st.len() implies #[trigger] st[s] == stack[s] by {}
    // a heading that was popped is closed by the new one
    assert forall|h: int| 0 <= h < m && (#[trigger] it[h]).heading_level is Some && on_stack(stack, h)
        && !on_stack(st, h) implies closed_by(it, h, m) by {
        let s = choose|s: int| 0 <= s < stack.len() && (#[trigger] stack[s]).1 == h;
        if s < st.len() {
            assert(st[s].1 == h);
        }
        assert(stack[s].0 >= level);
        assert(it[h] == items[h]);
        assert(closes_at(it, h, m));
    }
    assert forall|s: int, t: int| 0 <= s < t < st2.len() implies (#[trigger] st2[s]).1 < (#[trigger] st2[t]).1 by {
        assert(st2[s] == stack[s]);
        if t < st.len() {
            assert(st2[t] == stack[t]);
        }
    }
    assert forall|h: int| 0 <= h < it.len() && (#[trigger] it[h]).heading_level is Some implies on_stack(st2, h)
        || closed_by(it, h, it.len() - 1) by {
        if h == m {
            assert(st2[st.len() as int].1 == m);
        } else {
            assert(it[h] == items[h]);
            if on_stack(st, h) {
                let s = choose|s: int| 0 <= s < st.len() && (#[trigger] st[s]).1 == h;
                assert(st2[s] == st[s]);
            } else if !on_stack(stack, h) {
                lemma_closed_push(items, item, h, m - 1, m);
            }
        }
    }
    assert forall|k: int| 0 <= k < items.len() + 1 implies #[trigger] near_ok(it, k) by {
        if k < m {
            assert(near_ok(items, k));
            lemma_near_push(items, item, k);
        } else {
            let lo: int = if st.len() > 0 { st[st.len() - 1].1 as int + 1 } else { 0 };
            assert forall|h: int| lo <= h < m && (#[trigger] it[h]).heading_level is Some implies closed_by(it, h, m) by {
                assert(it[h] == items[h]);
                if on_stack(st, h) {
                    let s = choose|s: int| 0 <= s < st.len() && (#[trigger] st[s]).1 == h;
                    let t = st.len() - 1;
                    if s < t {
                        assert(stack[s].1 < stack[t].1);
                    }
                    assert(false);
                } else if !on_stack(stack, h) {
                    lemma_closed_push(items, item, h, m - 1, m);
                }
            }
            if st.len() > 0 {
                assert(stack_top(st) == Some(st[st.len() - 1].1));
            }
        }
    }
}

proof fn lemma_pop_headings(stack: Seq<(usize, usize)>, level: usize)
    ensures
        pop_headings(stack, level).len() <= stack.len(),
        pop_headings(stack, level) == stack.take(pop_headings(stack, level).len() as int),
        pop_headings(stack, level).len() > 0 ==> pop_headings(stack, level).last().0 < level,
        forall|s: int| pop_headings(stack, level).len() <= s < stack.len() ==> (#[trigger] stack[s]).0 >= level,
    decreases stack.len(),
{
    if stack.len() > 0 && stack.last().0 >= level {
        lemma_pop_headings(stack.drop_last(), level);
        let k = pop_headings(stack, level).len() as int;
        assert(stack.drop_last().take(k) =~= stack.take(k));
        assert forall|s: int| k <= s < stack.len() implies (#[trigger] stack[s]).0 >= level by {
            if s < stack.len() - 1 {
                assert(stack[s] == stack.drop_last()[s]);
            }
        }
    } else {
        assert(stack.take(stack.len() as int) =~= stack);
    }
}

proof fn lemma_parent_ok_push(items: Seq<MarkdownItemView>, item: MarkdownItemView, j: int)
    requires
        0 <= j < items.len(),
        parent_ok(items, j),
    ensures
        parent_ok(items.push(item), j),
{
    let it = items.push(item);
    assert(it[j] == items[j]);
    match items[j].parent {
        Some(p) => {
            assert(it[p as int] == items[p as int]);
            assert forall|k: int| p < k <= j && (#[trigger] it[k]).heading_level is Some implies it[k].heading_level->0
                > it[p as int].heading_level->0 by {
                assert(it[k] == items[k]);
                assert(items[k].heading_level is Some);
            }
        },
        None => {},
    }
}

/// Adding an entry that starts on line `li + 1`, ends by line `next`, and
/// is not a heading keeps the scan facts, continuing at `next`.
proof fn lemma_push_block(
    items: Seq<MarkdownItemView>,
    stack: Seq<(usize, usize)>,
    li: int,
    n: int,
    item: MarkdownItemView,
    next: int,
)
    requires
        scan_ok(items, stack, li, n),
        li < n,
        li + 1 <= next <= n,
        item.heading_level is None,
        item.node.level is None,
        item.parent == stack_top(stack),
        item.node.start_line == li + 1,
        item.node.end_line == next,
    ensures
        scan_ok(items.push(item), stack, next, n),
{
    let it = items.push(item);
    let m = items.len() as int;
    assert(it[m] == item);
    assert forall|i: int| 0 <= i < m implies #[trigger] it[i] == items[i] by {}
    assert forall|j: int| 0 <= j < it.len() implies #[trigger] parent_ok(it, j) by {
        if j < m {
            lemma_parent_ok_push(items, item, j);
        } else {
            if stack.len() > 0 {
                let s = stack.len() - 1;
                let p = stack[s].1 as int;
                assert(stack_top(stack) == Some(stack[s].1));
                assert(p < m);
                assert(it[p] == items[p]);
                assert forall|k: int| p < k <= j && (#[trigger] it[k]).heading_level is Some implies it[k].heading_level->0
                    > it[p].heading_level->0 by {
                    assert(k < m);
                    assert(it[k] == items[k]);
                    assert(items[k].heading_level->0 > stack[s].0);
                }
            }
        }
    }
    assert forall|i: int, j: int| 0 <= i < j < it.len() implies (#[trigger] it[i]).node.start_line
        < (#[trigger] it[j]).node.start_line by {
        if j == m {
            assert(it[i] == items[i]);
        } else {
            assert(it[i] == items[i]);
            assert(it[j] == items[j]);
        }
    }
    assert forall|i: int, j: int| 0 <= i < j < it.len() && (#[trigger] it[i]).heading_level is None implies it[i].node.end_line
        < (#[trigger] it[j]).node.start_line by {
        assert(it[i] == items[i]);
        if j < m {
            assert(it[j] == items[j]);
        }
    }
    assert forall|s: int, k: int| 0 <= s < stack.len() && stack[s].1 < k < it.len()
        && (#[trigger] it[k]).heading_level is Some implies it[k].heading_level->0 > (#[trigger] stack[s]).0 by {
        assert(k < m);
        assert(it[k] == items[k]);
    }
    assert forall|s: int| 0 <= s < stack.len() implies (#[trigger] stack[s]).1 < it.len()
        && it[stack[s].1 as int].heading_level == Some(stack[s].0) by {
        assert(it[stack[s].1 as int] == items[stack[s].1 as int]);
    }
    lemma_push_block_open(items, n, stack, item);
}

/// Adding a heading that starts on line `li + 1` keeps the scan facts,
/// with the headings it closes taken off the stack and itself put on.
proof fn lemma_push_heading(
    items: Seq<MarkdownItemView>,
    stack: Seq<(usize, usize)>,
    li: int,
    n: int,
    item: MarkdownItemView,
    level: usize,
)
    requires
        scan_ok(items, stack, li, n),
        li < n,
        items.len() <= usize::MAX,
        item.heading_level == Some(level),
        item.node.level == Some(level),
        item.parent == stack_top(pop_headings(stack, level)),
        item.node.start_line == li + 1,
        item.node.end_line == n,
    ensures
        scan_ok(
            items.push(item),
            pop_headings(stack, level).push((level, items.len() as usize)),
            li + 1,
            n,
        ),
{
    let it = items.push(item);
    let m = items.len() as int;
    let st = pop_headings(stack, level);
    lemma_pop_headings(stack, level);
    let st2 = st.push((level, items.len() as usize));
    assert(it[m] == item);
    assert forall|i: int| 0 <= i < m implies #[trigger] it[i] == items[i] by {}
    assert forall|s: int| 0 <= s < st.len() implies #[trigger] st[s] == stack[s] by {}
    // every open heading left on the stack is shallower than the new one
    assert forall|s: int| 0 <= s < st.len() implies (#[trigger] st[s]).0 < level by {
        let t = st.len() - 1;
        assert(st[t] == st.last());
        if s < t {
            assert(stack[s].0 < stack[t].0);
        }
    }
    assert forall|j: int| 0 <= j < it.len() implies #[trigger] parent_ok(it, j) by {
        if j < m {
            lemma_parent_ok_push(items, item, j);
        } else {
            if st.len() > 0 {
                let s = st.len() - 1;
                let p = st[s].1 as int;
                assert(stack_top(st) == Some(st[s].1));
                assert(st[s] == stack[s]);
                assert(p < m);
                assert(it[p] == items[p]);
                assert forall|k: int| p < k <= j && (#[trigger] it[k]).heading_level is Some implies it[k].heading_level->0
                    > it[p].heading_level->0 by {
                    if k < m {
                        assert(it[k] == items[k]);
                        assert(items[k].heading_level->0 > stack[s].0);
                    } else {
                        assert(st[s].0 < level);
                    }
                }
            }
        }
    }
    assert forall|i: int, j: int| 0 <= i < j < it.len() implies (#[trigger] it[i]).node.start_line
        < (#[trigger] it[j]).node.start_line by {
        assert(it[i] == items[i]);
        if j < m {
            assert(it[j] == items[j]);
        }
    }
    assert forall|i: int, j: int| 0 <= i < j < it.len() && (#[trigger] it[i]).heading_level is None implies it[i].node.end_line
        < (#[trigger] it[j]).node.start_line by {
        assert(it[i] == items[i]);
        if j < m {
            assert(it[j] == items[j]);
        }
    }
    assert forall|s: int| 0 <= s < st2.len() implies (#[trigger] st2[s]).1 < it.len()
        && it[st2[s].1 as int].heading_level == Some(st2[s].0) by {
        if s < st.len() {
            assert(st2[s] == stack[s]);
            assert(it[stack[s].1 as int] == items[stack[s].1 as int]);
        }
    }
    assert forall|s: int, t: int| 0 <= s < t < st2.len() implies (#[trigger] st2[s]).0 < (#[trigger] st2[t]).0 by {
        assert(st2[s] == st[s]);
        if t < st.len() {
            assert(st2[t] == st[t]);
            assert(stack[s].0 < stack[t].0);
        }
    }
    assert forall|s: int, k: int| 0 <= s < st2.len() && st2[s].1 < k < it.len()
        && (#[trigger] it[k]).heading_level is Some implies it[k].heading_level->0 > (#[trigger] st2[s]).0 by {
        assert(s < st.len());
        assert(st2[s] == stack[s]);
        if k < m {
            assert(it[k] == items[k]);
        } else {
            assert(st[s].0 < level);
        }
    }
    lemma_push_heading_open(items, n, stack, item, level);
}

/// Scanning keeps its facts to the end of the document.
proof fn lemma_scan_ok(
    lines: Seq<Seq<char>>,
    li: int,
    items: Seq<MarkdownItemView>,
    stack: Seq<(usize, usize)>,
    plen: nat,
)
    requires
        0 <= li,
        scan_ok(items, stack, li, lines.len() as int),
        lines.len() <= usize::MAX,
    ensures
        entries_ok(scan(lines, li, items, stack, plen), lines.len() as int),
        scan(lines, li, items, stack, plen).len() <= lines.len(),
    decreases lines.len() - li,
{
    let n = lines.len();
    if li < n {
        let line = lines[li];
        let preview = Some(truncated(trim(line), plen));
        match heading_of(line) {
            Some((level, name)) => {
                let st = pop_headings(stack, level);
                let item = MarkdownItemView {
                    parent: stack_top(st),
                    heading_level: Some(level),
                    node: leaf("heading"@, Some(level), Some(name), (li + 1) as usize, n as usize, preview),
                };
                lemma_push_heading(items, stack, li, n as int, item, level);
                lemma_scan_ok(lines, li + 1, items.push(item), st.push((level, items.len() as usize)), plen);
            },
            None => {
                if fence_of(line) is Some {
                    let close = closing_fence(lines, li + 1, fence_of(line)->0);
                    lemma_closing_fence_bounds(lines, li + 1, fence_of(line)->0);
                    let next = if close < n { close + 1 } else { n as int };
                    let item = MarkdownItemView {
                        parent: stack_top(stack),
                        heading_level: None,
                        node: leaf("code_block"@, None, code_info(line), (li + 1) as usize, next as usize, preview),
                    };
                    lemma_push_block(items, stack, li, n as int, item, next);
                    lemma_scan_ok(lines, next, items.push(item), stack, plen);
                } else if list_item(line) {
                    let end = list_end(lines, li + 1);
                    lemma_list_end_bounds(lines, li + 1);
                    let item = MarkdownItemView {
                        parent: stack_top(stack),
                        heading_level: None,
                        node: leaf("list"@, None, Some("list"@), (li + 1) as usize, end as usize, preview),
                    };
                    lemma_push_block(items, stack, li, n as int, item, end);
                    lemma_scan_ok(lines, end, items.push(item), stack, plen);
                } else {
                    lemma_scan_ok(lines, li + 1, items, stack, plen);
                }
            },
        }
    }
}

fn stack_top_exec(stack: &Vec<(usize, usize)>) -> (r: Option<usize>)
    ensures
        r == stack_top(stack@),
{
    if stack.len() > 0 {
        Some(stack[stack.len() - 1].1)
    } else {
        None
    }
}

/// The entries found from line `start` on, with no heading open yet.
fn scan_lines(ls: &Vec<Vec<char>>, start: usize, items: Vec<MarkdownItem>, plen: usize) -> (r: Vec<
    MarkdownItem,
>)
    requires
        start <= ls@.len(),
    ensures
        md_view(r@) == scan(line_views(ls@), start as int, md_view(items@), seq![], plen as nat),
{
    let ghost lv = line_views(ls@);
    let ghost goal = scan(lv, start as int, md_view(items@), seq![], plen as nat);
    let n = ls.len();
    let mut items = items;
    let mut stack: Vec<(usize, usize)> = Vec::new();
    let mut li = start;
    while li < n
        invariant
            li <= n == ls@.len(),
            lv == line_views(ls@),
            goal == scan(lv, li as int, md_view(items@), stack@, plen as nat),
        decreases n - li,
    {
        let line = ls[li].as_slice();
        assert(line@ == lv[li as int]);
        match parse_heading(line) {
            Some((level, name)) => {
                let ghost st0 = stack@;
                while stack.len() > 0 && stack[stack.len() - 1].0 >= level
                    invariant
                        pop_headings(st0, level) == pop_headings(stack@, level),
                    decreases stack@.len(),
                {
                    proof {
                        assert(stack@.drop_last() =~= stack@.subrange(0, stack@.len() - 1));
                    }
                    stack.pop();
                }
                let parent = stack_top_exec(&stack);
                let index = items.len();
                let node = new_leaf(
                    "heading".to_owned(),
                    Some(level),
                    Some(name),
                    li + 1,
                    n,
                    Some(crate::text::line_preview(line, plen)),
                );
                let ghost before = md_view(items@);
                items.push(MarkdownItem { parent, heading_level: Some(level), node });
                stack.push((level, index));
                proof {
                    assert(md_view(items@) =~= before.push(
                        MarkdownItemView { parent, heading_level: Some(level), node: node@ },
                    ));
                }
                li = li + 1;
            },
            None => {
                match opening_fence(line) {
                    Some(c) => {
                        let ghost f = seq![c, c, c];
                        let mut j = li + 1;
                        while j < n && !starts_with_fence(ls[j].as_slice(), c)
                            invariant
                                li + 1 <= j <= n == ls@.len(),
                                lv == line_views(ls@),
                                f == seq![c, c, c],
                                closing_fence(lv, li + 1, f) == closing_fence(lv, j as int, f),
                            decreases n - j,
                        {
                            assert(ls[j as int]@ == lv[j as int]);
                            j = j + 1;
                        }
                        proof {
                            if j < n {
                                assert(ls[j as int]@ == lv[j as int]);
                            }
                        }
                        let next = if j < n {
                            j + 1
                        } else {
                            n
                        };
                        let node = new_leaf(
                            "code_block".to_owned(),
                            None,
                            code_block_name(line),
                            li + 1,
                            next,
                            Some(crate::text::line_preview(line, plen)),
                        );
                        let ghost before = md_view(items@);
                        items.push(
                            MarkdownItem { parent: stack_top_exec(&stack), heading_level: None, node },
                        );
                        proof {
                            assert(md_view(items@) =~= before.push(
                                MarkdownItemView {
                                    parent: stack_top(stack@),
                                    heading_level: None,
                                    node: node@,
                                },
                            ));
                        }
                        li = next;
                    },
                    None => {
                        if is_list_item(line) {
                            let mut j = li + 1;
                            while j < n && (is_list_item(ls[j].as_slice())
                                || crate::text::is_blank_line(ls[j].as_slice()))
                                invariant
                                    li + 1 <= j <= n == ls@.len(),
                                    lv == line_views(ls@),
                                    list_end(lv, li + 1) == list_end(lv, j as int),
                                decreases n - j,
                            {
                                assert(ls[j as int]@ == lv[j as int]);
                                j = j + 1;
                            }
                            proof {
                                if j < n {
                                    assert(ls[j as int]@ == lv[j as int]);
                                }
                            }
                            let node = new_leaf(
                                "list".to_owned(),
                                None,
                                Some("list".to_owned()),
                                li + 1,
                                j,
                                Some(crate::text::line_preview(line, plen)),
                            );
                            let ghost before = md_view(items@);
                            items.push(
                                MarkdownItem {
                                    parent: stack_top_exec(&stack),
                                    heading_level: None,
                                    node,
                                },
                            );
                            proof {
                                assert(md_view(items@) =~= before.push(
                                    MarkdownItemView {
                                        parent: stack_top(stack@),
                                        heading_level: None,
                                        node: node@,
                                    },
                                ));
                            }
                            li = j;
                        } else {
                            li = li + 1;
                        }
                    },
                }
            },
        }
    }
    items
}

/// The last line of the frontmatter block, if the document opens with one.
fn frontmatter_end_line(ls: &Vec<Vec<char>>) -> (r: Option<usize>)
    ensures
        match r {
            Some(e) => frontmatter_end(line_views(ls@)) == Some(e as nat),
            None => frontmatter_end(line_views(ls@)) is None,
        },
{
    let ghost lv = line_views(ls@);
    let n = ls.len();
    if n == 0 {
        return None;
    }
    assert(ls[0]@ == lv[0]);
    if !is_dash_line(ls[0].as_slice()) {
        return None;
    }
    let mut j: usize = 1;
    while j < n && !is_dash_line(ls[j].as_slice())
        invariant
            1 <= j <= n == ls@.len(),
            lv == line_views(ls@),
            dash_line(lv, 1) == dash_line(lv, j as int),
        decreases n - j,
    {
        assert(ls[j as int]@ == lv[j as int]);
        j = j + 1;
    }
    proof {
        if j < n {
            assert(ls[j as int]@ == lv[j as int]);
        }
    }
    if j < n {
        Some(j + 1)
    } else {
        None
    }
}

/// The entries of a whole document.
fn scan_markdown(ls: &Vec<Vec<char>>, plen: usize) -> (r: Vec<MarkdownItem>)
    ensures
        md_view(r@) == scan_document(line_views(ls@), plen as nat),
{
    match frontmatter_end_line(ls) {
        Some(end) => {
            let node = new_leaf(
                "frontmatter".to_owned(),
                None,
                Some("frontmatter".to_owned()),
                1,
                end,
                Some("---".to_owned()),
            );
            let mut items: Vec<MarkdownItem> = Vec::new();
            items.push(MarkdownItem { parent: None, heading_level: None, node });
            proof {
                assert(md_view(items@) =~= seq![
                    MarkdownItemView { parent: None, heading_level: None, node: node@ },
                ]);
                crate::markdown::lemma_dash_line_bounds(line_views(ls@), 1);
            }
            scan_lines(ls, end, items, plen)
        },
        None => {
            let items: Vec<MarkdownItem> = Vec::new();
            proof {
                assert(md_view(items@) =~= Seq::<MarkdownItemView>::empty());
            }
            scan_lines(ls, 0, items, plen)
        },
    }
}

fn closes(h: Option<usize>, level: usize) -> (r: bool)
    ensures
        r == (h is Some && h->0 <= level),
{
    match h {
        Some(l) => l <= level,
        None => false,
    }
}

/// The entries as flat items, each heading closed before the next heading
/// of the same or a higher rank.
fn close_items(items: &Vec<MarkdownItem>) -> (r: Vec<FlatItem>)
    requires
        all_leaves(md_view(items@)),
    ensures
        items_view(r@) == closed_items(md_view(items@)),
{
    let ghost v = md_view(items@);
    let n = items.len();
    let mut out: Vec<FlatItem> = Vec::new();
    let mut i: usize = 0;
    while i < n
        invariant
            i <= n == items@.len(),
            v == md_view(items@),
            all_leaves(v),
            out@.len() == i,
            forall|k: int| 0 <= k < i ==> #[trigger] flat_view(out@[k]) == closed_items(v)[k],
        decreases n - i,
    {
        let it = &items[i];
        let mut end_line = it.node.end_line;
        match it.heading_level {
            Some(level) => {
                let mut j = i + 1;
                while j < n && !closes(items[j].heading_level, level)
                    invariant
                        i + 1 <= j <= n == items@.len(),
                        v == md_view(items@),
                        next_closer(v, i + 1, level) == next_closer(v, j as int, level),
                    decreases n - j,
                {
                    j = j + 1;
                }
                if j < n {
                    end_line = if items[j].node.start_line >= 1 {
                        items[j].node.start_line - 1
                    } else {
                        0
                    };
                }
            },
            None => {},
        }
        let node = Node {
            kind: it.node.kind.clone(),
            level: it.node.level,
            name: crate::model::copy_opt_string(&it.node.name),
            start_line: it.node.start_line,
            end_line,
            preview: crate::model::copy_opt_string(&it.node.preview),
            children: Vec::new(),
        };
        let ghost before = out@;
        out.push(FlatItem { parent: it.parent, node });
        proof {
            assert(v[i as int].node.children.len() == 0);
            assert(node@.children =~= v[i as int].node.children);
            assert(node@ =~= closed_node(v, i as int));
            assert forall|k: int| 0 <= k < i + 1 implies #[trigger] flat_view(out@[k])
                == closed_items(v)[k] by {
                if k < i {
                    assert(out@[k] == before[k]);
                }
            }
        }
        i = i + 1;
    }
    proof {
        assert forall|k: int| 0 <= k < n implies items_view(out@)[k] == closed_items(v)[k] by {
            assert(flat_view(out@[k]) == closed_items(v)[k]);
        }
        assert(items_view(out@) =~= closed_items(v));
    }
    out
}

/// The Markdown outline of `source`: frontmatter, headings nested by level
/// (each spanning up to the next heading of the same or a higher rank),
/// fenced code blocks and list regions, with previews of at most
/// `preview_len` characters.
pub fn analyze_markdown(source: &[char], preview_len: usize) -> (r: Vec<Node>)
    ensures
        nodes_view(r@) == markdown_outline(source@, preview_len as nat),
{
    let ls = split_lines(source);
    let items = scan_markdown(&ls, preview_len);
    proof {
        let lv = line_views(ls@);
        assert(all_leaves(Seq::<MarkdownItemView>::empty()));
        match frontmatter_end(lv) {
            Some(end) => {
                let first = seq![
                    MarkdownItemView {
                        parent: None,
                        heading_level: None,
                        node: leaf("frontmatter"@, None, Some("frontmatter"@), 1, end as usize, Some("---"@)),
                    },
                ];
                assert(all_leaves(first));
                lemma_scan_leaves(lv, end as int, first, seq![], preview_len as nat);
            },
            None => {
                lemma_scan_leaves(lv, 0, seq![], seq![], preview_len as nat);
            },
        }
    }
    let flat = close_items(&items);
    build_tree(&flat)
}

/// The heading that closes one at `level`, searched from `from` on, is
/// the first heading of that level or a higher rank.
proof fn lemma_next_closer(items: Seq<MarkdownItemView>, from: int, level: usize)
    requires
        0 <= from,
    ensures
        match next_closer(items, from, level) {
            Some(c) => {
                &&& from <= c < items.len()
                &&& items[c].heading_level is Some
                &&& items[c].heading_level->0 <= level
                &&& forall|k: int|
                    from <= k < c ==> !((#[trigger] items[k]).heading_level is Some
                        && items[k].heading_level->0 <= level)
            },
            None => forall|k: int|
                from <= k < items.len() ==> !((#[trigger] items[k]).heading_level is Some
                    && items[k].heading_level->0 <= level),
        },
    decreases items.len() - from,
{
    if from < items.len() {
        lemma_next_closer(items, from + 1, level);
    }
}

/// Closing the headings of a scan gives flat items whose ranges are nested.
proof fn lemma_closed_nested(items: Seq<MarkdownItemView>, n: int)
    requires
        entries_ok(items, n),
        n <= usize::MAX,
    ensures
        items_nested(closed_items(items), n),
{
    let c = closed_items(items);
    assert forall|i: int| 0 <= i < items.len() implies 1 <= (#[trigger] c[i]).node.start_line
        <= c[i].node.end_line <= n by {
        assert(c[i].node == closed_node(items, i));
        let it = items[i];
        if it.heading_level is Some {
            let level = it.heading_level->0;
            lemma_next_closer(items, i + 1, level);
            match next_closer(items, i + 1, level) {
                Some(j) => {
                    assert(items[i].node.start_line < items[j].node.start_line);
                },
                None => {},
            }
        }
    }
    assert forall|j: int| 0 <= j < items.len() implies match (#[trigger] c[j]).parent {
        Some(p) => p < j && c[p as int].node.start_line <= c[j].node.start_line
            && c[j].node.end_line <= c[p as int].node.end_line,
        None => true,
    } by {
        assert(parent_ok(items, j));
        assert(c[j].parent == items[j].parent);
        match items[j].parent {
            Some(p) => {
                let p = p as int;
                assert(c[p].node == closed_node(items, p));
                assert(c[j].node == closed_node(items, j));
                assert(items[p].node.start_line < items[j].node.start_line);
                let lp = items[p].heading_level->0;
                lemma_next_closer(items, p + 1, lp);
                match next_closer(items, p + 1, lp) {
                    Some(cl) => {
                        // the heading that closes the parent comes after `j`
                        if cl <= j {
                            assert(items[cl].heading_level->0 > lp);
                        }
                        assert(cl > j);
                        assert(items[j].node.start_line < items[cl].node.start_line);
                        match items[j].heading_level {
                            Some(lj) => {
                                assert(lj > lp);
                                lemma_next_closer(items, j + 1, lj);
                                match next_closer(items, j + 1, lj) {
                                    Some(cj) => {
                                        if cj > cl {
                                            assert(items[cl].heading_level is Some
                                                && items[cl].heading_level->0 <= lj);
                                        }
                                        if cj < cl {
                                            assert(items[cj].node.start_line < items[cl].node.start_line);
                                        }
                                    },
                                    None => {
                                        assert(items[cl].heading_level is Some
                                            && items[cl].heading_level->0 <= lj);
                                    },
                                }
                            },
                            None => {
                                assert(items[j].node.end_line < items[cl].node.start_line);
                            },
                        }
                    },
                    None => {
                        assert(c[j].node.end_line <= n);
                    },
                }
            },
            None => {},
        }
    }
}

/// Closing the headings of a scan keeps every parent before its items.
proof fn lemma_closed_precede(items: Seq<MarkdownItemView>, n: int)
    requires
        entries_ok(items, n),
    ensures
        parents_precede(closed_items(items)),
{
    let c = closed_items(items);
    assert forall|i: int| 0 <= i < c.len() implies match #[trigger] c[i].parent {
        Some(p) => p < i,
        None => true,
    } by {
        assert(parent_ok(items, i));
    }
}

/// Every node of a Markdown outline, at any depth, covers a forward range
/// of the document's lines, and lies within the range of the node that
/// encloses it: a heading's sections, code blocks and lists stay inside
/// the heading.
pub proof fn law_markdown_ranges_nested(source: Seq<char>, plen: nat)
    requires
        source.len() <= usize::MAX,
    ensures
        forall|k: int|
            0 <= k < markdown_outline(source, plen).len() ==> range_in(
                #[trigger] markdown_outline(source, plen)[k],
                1,
                lines(source).len() as int,
            ),
{
    let ls = lines(source);
    let n = ls.len() as int;
    crate::text::lemma_lines_len(source);
    lemma_scan_document_ok(ls, plen);
    let items = scan_document(ls, plen);
    lemma_closed_nested(items, n);
    let c = closed_items(items);
    lemma_closed_precede(items, n);
    lemma_outline_parents_first(c);
    lemma_forest_ranges(c, None, 0, 1, n, n);
}

/// Closing the headings of a scan keeps each parent a heading shallower
/// than the headings it holds.
proof fn lemma_closed_deepen(items: Seq<MarkdownItemView>, n: int)
    requires
        entries_ok(items, n),
    ensures
        items_deepen(closed_items(items)),
{
    let c = closed_items(items);
    assert forall|j: int| 0 <= j < c.len() implies match (#[trigger] c[j]).parent {
        Some(p) => p < j && c[p as int].node.level is Some && (c[j].node.level is Some
            ==> c[j].node.level->0 > c[p as int].node.level->0),
        None => true,
    } by {
        assert(parent_ok(items, j));
        assert(c[j].node == closed_node(items, j));
        assert(items[j].node.level == items[j].heading_level);
        match items[j].parent {
            Some(p) => {
                assert(c[p as int].node == closed_node(items, p as int));
                assert(items[p as int].node.level == items[p as int].heading_level);
            },
            None => {},
        }
    }
}

/// Headings nest by level: in a Markdown outline only headings hold other
/// nodes, and a heading held by another is of a lower rank (more `#`s).
pub proof fn law_markdown_headings_deepen(source: Seq<char>, plen: nat)
    requires
        source.len() <= usize::MAX,
    ensures
        forall|k: int|
            0 <= k < markdown_outline(source, plen).len() ==> levels_deepen(
                #[trigger] markdown_outline(source, plen)[k],
            ),
{
    let ls = lines(source);
    let n = ls.len() as int;
    crate::text::lemma_lines_len(source);
    lemma_scan_document_ok(ls, plen);
    let items = scan_document(ls, plen);
    lemma_closed_deepen(items, n);
    lemma_closed_precede(items, n);
    lemma_outline_parents_first(closed_items(items));
    lemma_forest_levels(closed_items(items), None, 0);
}

/// The entries of a whole document keep the scan facts.
proof fn lemma_scan_document_ok(ls: Seq<Seq<char>>, plen: nat)
    requires
        ls.len() <= usize::MAX,
    ensures
        entries_ok(scan_document(ls, plen), ls.len() as int),
        scan_document(ls, plen).len() <= ls.len(),
{
    let n = ls.len() as int;
    match frontmatter_end(ls) {
        Some(end) => {
            lemma_dash_line_bounds(ls, 1);
            let first = seq![
                MarkdownItemView {
                    parent: None,
                    heading_level: None,
                    node: leaf("frontmatter"@, None, Some("frontmatter"@), 1, end as usize, Some("---"@)),
                },
            ];
            assert(parent_ok(first, 0));
            assert(scan_ok(first, seq![], end as int, n));
            lemma_scan_ok(ls, end as int, first, seq![], plen);
        },
        None => {
            assert(scan_ok(seq![], seq![], 0, n));
            lemma_scan_ok(ls, 0, seq![], seq![], plen);
        },
    }
}

/// The nodes of the heading entries, in order.
pub open spec fn heading_nodes(items: Seq<MarkdownItemView>) -> Seq<NodeView>
    decreases items.len(),
{
    if items.len() == 0 {
        seq![]
    } else if items.last().heading_level is Some {
        heading_nodes(items.drop_last()).push(items.last().node)
    } else {
        heading_nodes(items.drop_last())
    }
}

/// The headings read from `lines[li..]`: one for every line that reads as
/// a heading, except the lines of a fenced code block (from its opening
/// fence up to the next line that starts with the same fence, or to the
/// end). Each carries the line's level, title, 1-based line number and
/// preview, and spans to the last line until it is closed.
pub open spec fn heading_lines(lines: Seq<Seq<char>>, li: int, plen: nat) -> Seq<NodeView>
    decreases lines.len() - li,
{
    if li < 0 || li >= lines.len() {
        seq![]
    } else {
        let line = lines[li];
        let n = lines.len();
        match heading_of(line) {
            Some((level, name)) => seq![
                leaf(
                    "heading"@,
                    Some(level),
                    Some(name),
                    (li + 1) as usize,
                    n as usize,
                    Some(truncated(trim(line), plen)),
                ),
            ] + heading_lines(lines, li + 1, plen),
            None => if fence_of(line) is Some {
                let close = closing_fence(lines, li + 1, fence_of(line)->0);
                proof {
                    lemma_closing_fence_bounds(lines, li + 1, fence_of(line)->0);
                }
                heading_lines(
                    lines,
                    if close < n {
                        close + 1
                    } else {
                        n as int
                    },
                    plen,
                )
            } else {
                heading_lines(lines, li + 1, plen)
            },
        }
    }
}

/// The line index at which scanning starts: after the frontmatter, if any.
pub open spec fn body_start(lines: Seq<Seq<char>>) -> int {
    match frontmatter_end(lines) {
        Some(end) => end as int,
        None => 0,
    }
}

proof fn lemma_trim_start_first(s: Seq<char>)
    ensures
        trim_start(s).len() > 0 ==> !is_ws(trim_start(s)[0]),
    decreases s.len(),
{
    if s.len() > 0 && is_ws(s[0]) {
        lemma_trim_start_first(s.drop_first());
    }
}

proof fn lemma_trim_end_keeps(s: Seq<char>)
    requires
        s.len() > 0,
        !is_ws(s[0]),
    ensures
        trim_end(s).len() > 0,
    decreases s.len(),
{
    if is_ws(s.last()) {
        assert(s.len() > 1);
        assert(s.drop_last()[0] == s[0]);
        lemma_trim_end_keeps(s.drop_last());
    }
}

/// A list item line or a blank line is neither a heading nor a fence.
proof fn lemma_list_line_plain(line: Seq<char>)
    requires
        list_item(line) || trim(line).len() == 0,
    ensures
        heading_of(line) is None,
        fence_of(line) is None,
{
    let t = trim_start(line);
    lemma_trim_start_first(line);
    if t.len() > 0 {
        lemma_trim_end_keeps(t);
        if list_item(line) {
            if !(t.len() >= 2 && (t[0] == '-' || t[0] == '*' || t[0] == '+') && t[1] == ' ') {
                assert(is_digit(t[0]));
            }
        }
        if t[0] != '#' {
            assert(leading_count(t, '#') == 0);
        }
    }
}

proof fn lemma_heading_lines_list(lines: Seq<Seq<char>>, j: int, plen: nat)
    requires
        0 <= j <= lines.len(),
    ensures
        heading_lines(lines, j, plen) == heading_lines(lines, list_end(lines, j), plen),
    decreases lines.len() - j,
{
    if j < lines.len() && (list_item(lines[j]) || trim(lines[j]).len() == 0) {
        lemma_list_line_plain(lines[j]);
        lemma_heading_lines_list(lines, j + 1, plen);
    }
}

proof fn lemma_heading_nodes_push(items: Seq<MarkdownItemView>, item: MarkdownItemView)
    ensures
        heading_nodes(items.push(item)) == if item.heading_level is Some {
            heading_nodes(items).push(item.node)
        } else {
            heading_nodes(items)
        },
{
    assert(items.push(item).drop_last() =~= items);
}

proof fn lemma_scan_headings(
    lines: Seq<Seq<char>>,
    li: int,
    items: Seq<MarkdownItemView>,
    stack: Seq<(usize, usize)>,
    plen: nat,
)
    requires
        0 <= li,
    ensures
        heading_nodes(scan(lines, li, items, stack, plen)) == heading_nodes(items) + heading_lines(
            lines,
            li,
            plen,
        ),
    decreases lines.len() - li,
{
    let n = lines.len();
    if li >= n {
        assert(heading_nodes(items) + Seq::<NodeView>::empty() =~= heading_nodes(items));
    } else {
        let line = lines[li];
        let preview = Some(truncated(trim(line), plen));
        match heading_of(line) {
            Some((level, name)) => {
                let st = pop_headings(stack, level);
                let item = MarkdownItemView {
                    parent: stack_top(st),
                    heading_level: Some(level),
                    node: leaf("heading"@, Some(level), Some(name), (li + 1) as usize, n as usize, preview),
                };
                lemma_heading_nodes_push(items, item);
                lemma_scan_headings(lines, li + 1, items.push(item), st.push((level, items.len() as usize)), plen);
                assert(heading_nodes(items).push(item.node) + heading_lines(lines, li + 1, plen) =~= heading_nodes(
                    items,
                ) + (seq![item.node] + heading_lines(lines, li + 1, plen)));
            },
            None => {
                if fence_of(line) is Some {
                    let close = closing_fence(lines, li + 1, fence_of(line)->0);
                    lemma_closing_fence_bounds(lines, li + 1, fence_of(line)->0);
                    let next = if close < n { close + 1 } else { n as int };
                    let item = MarkdownItemView {
                        parent: stack_top(stack),
                        heading_level: None,
                        node: leaf("code_block"@, None, code_info(line), (li + 1) as usize, next as usize, preview),
                    };
                    lemma_heading_nodes_push(items, item);
                    lemma_scan_headings(lines, next, items.push(item), stack, plen);
                } else if list_item(line) {
                    let end = list_end(lines, li + 1);
                    lemma_list_end_bounds(lines, li + 1);
                    let item = MarkdownItemView {
                        parent: stack_top(stack),
                        heading_level: None,
                        node: leaf("list"@, None, Some("list"@), (li + 1) as usize, end as usize, preview),
                    };
                    lemma_heading_nodes_push(items, item);
                    lemma_heading_lines_list(lines, li + 1, plen);
                    lemma_scan_headings(lines, end, items.push(item), stack, plen);
                } else {
                    lemma_scan_headings(lines, li + 1, items, stack, plen);
                }
            },
        }
    }
}

/// The headings of a Markdown document come from its heading lines, one
/// to one and in order: every line after the frontmatter and outside
/// fenced code blocks that reads as a heading gives one heading entry,
/// with that line's level, title, line number and preview (its range is
/// then closed before the next heading of the same or a higher rank, by
/// `closed_node`); and every entry becomes exactly one node of the
/// outline.
pub proof fn law_markdown_heading_lines(source: Seq<char>, plen: nat)
    requires
        source.len() <= usize::MAX,
    ensures
        heading_nodes(scan_document(lines(source), plen)) == heading_lines(
            lines(source),
            body_start(lines(source)),
            plen,
        ),
        forest_size(markdown_outline(source, plen), 0) == scan_document(lines(source), plen).len(),
{
    let ls = lines(source);
    crate::text::lemma_lines_len(source);
    match frontmatter_end(ls) {
        Some(end) => {
            lemma_dash_line_bounds(ls, 1);
            let first = seq![
                MarkdownItemView {
                    parent: None,
                    heading_level: None,
                    node: leaf("frontmatter"@, None, Some("frontmatter"@), 1, end as usize, Some("---"@)),
                },
            ];
            lemma_heading_nodes_push(seq![], first[0]);
            assert(seq![].push(first[0]) =~= first);
            lemma_scan_headings(ls, end as int, first, seq![], plen);
            assert(heading_nodes(first) =~= Seq::<NodeView>::empty());
        },
        None => {
            lemma_scan_headings(ls, 0, seq![], seq![], plen);
        },
    }
    assert(heading_nodes(Seq::<MarkdownItemView>::empty()) + heading_lines(ls, body_start(ls), plen)
        =~= heading_lines(ls, body_start(ls), plen));
    lemma_scan_document_ok(ls, plen);
    let items = scan_document(ls, plen);
    lemma_closed_precede(items, ls.len() as int);
    law_outline_keeps_every_item(closed_items(items));
}

proof fn lemma_open_descends(items: Seq<MarkdownItemView>, n: int, p: int, k: int)
    requires
        entries_ok(items, n),
        0 <= p < k < items.len(),
        items[p].heading_level is Some,
        forall|x: int|
            p < x <= k && (#[trigger] items[x]).heading_level is Some ==> items[x].heading_level->0
                > items[p].heading_level->0,
    ensures
        descends(closed_items(items), k, p),
    decreases k,
{
    let c = closed_items(items);
    assert(c[k].parent == items[k].parent);
    assert(near_ok(items, k));
    assert(parent_ok(items, k));
    match items[k].parent {
        None => {
            assert(closed_by(items, p, k));
            let w = choose|w: int| w <= k && #[trigger] closes_at(items, p, w);
            assert(items[w].heading_level->0 > items[p].heading_level->0);
        },
        Some(h) => {
            let h = h as int;
            if h < p {
                assert(closed_by(items, p, k));
                let w = choose|w: int| w <= k && #[trigger] closes_at(items, p, w);
                assert(items[w].heading_level->0 > items[p].heading_level->0);
            } else if h > p {
                lemma_open_descends(items, n, p, h);
                assert(descends(c, h, p));
            } else {
                assert(descends(c, p, p));
            }
            assert(c.len() == items.len());
            assert(descends(c, k, p));
        },
    }
}

/// The entries of a scan hold each heading's section as one block.
proof fn lemma_closed_contiguous(items: Seq<MarkdownItemView>, n: int)
    requires
        entries_ok(items, n),
    ensures
        contiguous(closed_items(items)),
{
    let c = closed_items(items);
    lemma_closed_precede(items, n);
    assert forall|j: int, k: int|
        #![trigger c[j], c[k]]
        0 <= j < c.len() && 0 <= k < c.len() && c[j].parent is Some && c[j].parent->0 < k < j implies descends(
            c,
            k,
            c[j].parent->0 as int,
        ) by {
        assert(parent_ok(items, j));
        assert(c[j].parent == items[j].parent);
        let p = c[j].parent->0 as int;
        lemma_open_descends(items, n, p, k);
    }
}

/// The nodes of the heading entries from `j` on, in order.
pub open spec fn headings_from(items: Seq<MarkdownItemView>, j: int) -> Seq<NodeView>
    decreases items.len() - j,
{
    if j < 0 || j >= items.len() {
        seq![]
    } else if items[j].heading_level is Some {
        seq![items[j].node] + headings_from(items, j + 1)
    } else {
        headings_from(items, j + 1)
    }
}

/// The nodes of `ns[i..]` that carry a level (the headings), in order.
pub open spec fn headings_in(ns: Seq<NodeView>, i: int) -> Seq<NodeView>
    decreases ns.len() - i,
{
    if i < 0 || i >= ns.len() {
        seq![]
    } else if ns[i].level is Some {
        seq![ns[i]] + headings_in(ns, i + 1)
    } else {
        headings_in(ns, i + 1)
    }
}

/// The start line of the first heading in `hs[j..]` of level at most `level`.
pub open spec fn closer_start(hs: Seq<NodeView>, j: int, level: usize) -> Option<usize>
    decreases hs.len() - j,
{
    if j < 0 || j >= hs.len() {
        None
    } else if hs[j].level is Some && hs[j].level->0 <= level {
        Some(hs[j].start_line)
    } else {
        closer_start(hs, j + 1, level)
    }
}

/// The headings `hs[i..]` with their ranges closed: each ends on the line
/// before the next heading of the same or a higher rank, if there is one,
/// and keeps its end (the last line) otherwise.
pub open spec fn close_headings(hs: Seq<NodeView>, i: int) -> Seq<NodeView>
    decreases hs.len() - i,
{
    if i < 0 || i >= hs.len() {
        seq![]
    } else {
        let h = hs[i];
        let end = match closer_start(hs, i + 1, h.level->0) {
            Some(st) => if st >= 1 {
                (st - 1) as usize
            } else {
                0
            },
            None => h.end_line,
        };
        seq![NodeView { end_line: end, ..h }] + close_headings(hs, i + 1)
    }
}

proof fn lemma_closer_start_cons(x: NodeView, r: Seq<NodeView>, j: int, level: usize)
    requires
        0 <= j,
    ensures
        closer_start(seq![x] + r, j + 1, level) == closer_start(r, j, level),
    decreases r.len() - j,
{
    if j < r.len() {
        assert((seq![x] + r)[j + 1] == r[j]);
        lemma_closer_start_cons(x, r, j + 1, level);
    }
}

proof fn lemma_close_headings_cons(x: NodeView, r: Seq<NodeView>, i: int)
    requires
        0 <= i,
    ensures
        close_headings(seq![x] + r, i + 1) == close_headings(r, i),
    decreases r.len() - i,
{
    if i < r.len() {
        let s = seq![x] + r;
        assert(s[i + 1] == r[i]);
        lemma_closer_start_cons(x, r, i + 1, r[i].level->0);
        lemma_close_headings_cons(x, r, i + 1);
    }
}

proof fn lemma_headings_from_closer(items: Seq<MarkdownItemView>, n: int, j: int, level: usize)
    requires
        entries_ok(items, n),
        0 <= j,
    ensures
        closer_start(headings_from(items, j), 0, level) == match next_closer(items, j, level) {
            Some(c) => Some(items[c].node.start_line),
            None => None,
        },
    decreases items.len() - j,
{
    if j < items.len() {
        lemma_headings_from_closer(items, n, j + 1, level);
        assert(items[j].node.level == items[j].heading_level);
        if items[j].heading_level is Some {
            lemma_closer_start_cons(items[j].node, headings_from(items, j + 1), 0, level);
        }
    }
}

proof fn lemma_headings_from_last(items: Seq<MarkdownItemView>, i: int)
    requires
        items.len() > 0,
        0 <= i < items.len(),
    ensures
        headings_from(items, i) == headings_from(items.drop_last(), i) + if items.last().heading_level is Some {
            seq![items.last().node]
        } else {
            seq![]
        },
    decreases items.len() - i,
{
    let d = items.drop_last();
    if i < items.len() - 1 {
        assert(d[i] == items[i]);
        lemma_headings_from_last(items, i + 1);
        if items[i].heading_level is Some {
            assert(seq![items[i].node] + (headings_from(d, i + 1) + if items.last().heading_level is Some {
                seq![items.last().node]
            } else {
                seq![]
            }) =~= (seq![items[i].node] + headings_from(d, i + 1)) + if items.last().heading_level is Some {
                seq![items.last().node]
            } else {
                seq![]
            });
        }
    } else {
        assert(headings_from(d, i) == Seq::<NodeView>::empty());
        assert(headings_from(items, i + 1) == Seq::<NodeView>::empty());
        if items.last().heading_level is Some {
            assert(seq![items[i].node] + Seq::<NodeView>::empty() =~= Seq::<NodeView>::empty() + seq![items.last().node]);
        } else {
            assert(Seq::<NodeView>::empty() + Seq::<NodeView>::empty() =~= Seq::<NodeView>::empty());
        }
    }
}

proof fn lemma_heading_nodes_forward(items: Seq<MarkdownItemView>)
    ensures
        heading_nodes(items) == headings_from(items, 0),
    decreases items.len(),
{
    if items.len() > 0 {
        lemma_heading_nodes_forward(items.drop_last());
        if items.len() > 1 {
            lemma_headings_from_last(items, 0);
        } else {
            assert(headings_from(items.drop_last(), 0) == Seq::<NodeView>::empty());
            assert(headings_from(items, 1) == Seq::<NodeView>::empty());
            if items.last().heading_level is Some {
                assert(heading_nodes(items.drop_last()) == Seq::<NodeView>::empty());
                assert(Seq::<NodeView>::empty().push(items.last().node) =~= seq![items[0].node] + Seq::<NodeView>::empty());
            }
        }
    }
}

proof fn lemma_closed_headings(items: Seq<MarkdownItemView>, n: int, j: int)
    requires
        entries_ok(items, n),
        all_leaves(items),
        0 <= j,
    ensures
        headings_in(item_heads(closed_items(items), 0, items.len() as int), j) == close_headings(
            headings_from(items, j),
            0,
        ),
    decreases items.len() - j,
{
    let c = closed_items(items);
    let hs = item_heads(c, 0, items.len() as int);
    if j < items.len() {
        lemma_closed_headings(items, n, j + 1);
        assert(hs[j] == head_of(c[j].node));
        assert(c[j].node == closed_node(items, j));
        assert(items[j].node.level == items[j].heading_level);
        match items[j].heading_level {
            Some(level) => {
                let x = items[j].node;
                let r = headings_from(items, j + 1);
                assert(headings_from(items, j) == seq![x] + r);
                lemma_close_headings_cons(x, r, 0);
                lemma_closer_start_cons(x, r, 0, level);
                lemma_headings_from_closer(items, n, j + 1, level);
                assert(x.children.len() == 0);
                assert((seq![x] + r)[0] == x);
                let first = close_headings(seq![x] + r, 0)[0];
                let cn = closed_node(items, j);
                assert(first.end_line == cn.end_line);
                assert(first.children =~= head_of(cn).children);
                assert(head_of(cn) =~= first);
                assert(close_headings(seq![x] + r, 0) =~= seq![close_headings(seq![x] + r, 0)[0]]
                    + close_headings(seq![x] + r, 1));
            },
            None => {},
        }
    }
}

/// The headings of a Markdown outline, read in pre-order, are the heading
/// lines after the frontmatter and outside fenced code blocks, one to one
/// and in order, each with the line's level, title, line number and
/// preview, and each ending on the line before the next heading of the
/// same or a higher rank, or else on the last line.
pub proof fn law_markdown_outline_headings(source: Seq<char>, plen: nat)
    requires
        source.len() <= usize::MAX,
    ensures
        headings_in(preorder(markdown_outline(source, plen), 0), 0) == close_headings(
            heading_lines(lines(source), body_start(lines(source)), plen),
            0,
        ),
{
    let ls = lines(source);
    crate::text::lemma_lines_len(source);
    lemma_scan_document_ok(ls, plen);
    let items = scan_document(ls, plen);
    let n = ls.len() as int;
    law_markdown_heading_lines(source, plen);
    lemma_heading_nodes_forward(items);
    lemma_closed_contiguous(items, n);
    law_preorder_of_contiguous(closed_items(items));
    lemma_document_leaves(ls, plen);
    lemma_closed_headings(items, n, 0);
}

/// No entry of a document has children.
proof fn lemma_document_leaves(ls: Seq<Seq<char>>, plen: nat)
    ensures
        all_leaves(scan_document(ls, plen)),
{
    assert(all_leaves(Seq::<MarkdownItemView>::empty()));
    match frontmatter_end(ls) {
        Some(end) => {
            let first = seq![
                MarkdownItemView {
                    parent: None,
                    heading_level: None,
                    node: leaf("frontmatter"@, None, Some("frontmatter"@), 1, end as usize, Some("---"@)),
                },
            ];
            assert(all_leaves(first));
            lemma_scan_leaves(ls, end as int, first, seq![], plen);
        },
        None => {
            lemma_scan_leaves(ls, 0, seq![], seq![], plen);
        },
    }
}

/// A line that opens a list item after its indentation: `- `, `* ` or
/// `+ `, or one or more ASCII digits followed by `. `.
pub open spec fn bullet_line(line: Seq<char>) -> bool {
    let t = trim_start(line);
    ||| starts_with(t, "- "@)
    ||| starts_with(t, "* "@)
    ||| starts_with(t, "+ "@)
    ||| exists|k: int|
        #![trigger t[k]]
        0 < k && k + 1 < t.len() && t[k] == '.' && t[k + 1] == ' ' && forall|m: int|
            0 <= m < k ==> '0' <= #[trigger] t[m] && t[m] <= '9'
}

/// Line `r` lies inside a fenced code block, reading from line `li`: a block
/// opens on a line (not a heading) that starts, after indentation, with
/// three backticks or three tildes, and runs to the next line that starts
/// with the same three characters, or to the end.
pub open spec fn in_fence(lines: Seq<Seq<char>>, li: int, r: int) -> bool
    decreases lines.len() - li,
{
    if li < 0 || li >= lines.len() || li > r {
        false
    } else if heading_of(lines[li]) is None && fence_of(lines[li]) is Some {
        let close = closing_fence(lines, li + 1, fence_of(lines[li])->0);
        proof {
            lemma_closing_fence_bounds(lines, li + 1, fence_of(lines[li])->0);
        }
        let next = if close < lines.len() {
            close + 1
        } else {
            lines.len() as int
        };
        if r < next {
            true
        } else {
            in_fence(lines, next, r)
        }
    } else {
        in_fence(lines, li + 1, r)
    }
}

proof fn lemma_bullet_is_list_item(line: Seq<char>)
    requires
        bullet_line(line),
    ensures
        list_item(line),
        heading_of(line) is None,
        fence_of(line) is None,
{
    let t = trim_start(line);
    reveal_strlit("- ");
    reveal_strlit("* ");
    reveal_strlit("+ ");
    assert("- "@.len() == 2 && "- "@[0] == '-' && "- "@[1] == ' ');
    assert("* "@.len() == 2 && "* "@[0] == '*' && "* "@[1] == ' ');
    assert("+ "@.len() == 2 && "+ "@[0] == '+' && "+ "@[1] == ' ');
    if starts_with(t, "- "@) {
        assert(t.take(2)[0] == t[0] && t.take(2)[1] == t[1]);
    } else if starts_with(t, "* "@) {
        assert(t.take(2)[0] == t[0] && t.take(2)[1] == t[1]);
    } else if starts_with(t, "+ "@) {
        assert(t.take(2)[0] == t[0] && t.take(2)[1] == t[1]);
    } else {
        let k = choose|k: int|
            #![trigger t[k]]
            0 < k && k + 1 < t.len() && t[k] == '.' && t[k + 1] == ' ' && forall|m: int|
                0 <= m < k ==> '0' <= #[trigger] t[m] && t[m] <= '9';
        assert forall|j: int| 0 <= j < k implies t[j] != '.' by {
            assert('0' <= t[j] && t[j] <= '9');
        }
        lemma_index_of_at_pub(t, '.', k);
        assert('0' <= t[0] && t[0] <= '9');
        assert forall|m: int| 0 <= m < index_of(t, '.') implies is_digit(#[trigger] t[m]) by {
            assert('0' <= t[m] && t[m] <= '9');
        }
    }
    assert(t.len() > 0);
    assert(t[0] != '#');
    assert(leading_count(t, '#') == 0);
}

proof fn lemma_in_fence_plain(lines: Seq<Seq<char>>, li: int, end: int, r: int)
    requires
        0 <= li <= end <= lines.len(),
        end <= r,
        forall|j: int| li <= j < end ==> heading_of(#[trigger] lines[j]) is None && fence_of(lines[j]) is None,
    ensures
        in_fence(lines, li, r) == in_fence(lines, end, r),
    decreases end - li,
{
    if li < end {
        assert(heading_of(lines[li]) is None && fence_of(lines[li]) is None);
        lemma_in_fence_plain(lines, li + 1, end, r);
    }
}

proof fn lemma_list_region_plain(lines: Seq<Seq<char>>, j: int, end: int)
    requires
        0 <= j <= end,
        end == list_end(lines, j),
    ensures
        forall|x: int| j <= x < end ==> heading_of(#[trigger] lines[x]) is None && fence_of(lines[x]) is None,
    decreases lines.len() - j,
{
    if j < lines.len() && (list_item(lines[j]) || trim(lines[j]).len() == 0) {
        lemma_list_line_plain(lines[j]);
        lemma_list_end_bounds(lines, j + 1);
        lemma_list_region_plain(lines, j + 1, end);
    }
}

proof fn lemma_scan_prefix(
    lines: Seq<Seq<char>>,
    li: int,
    items: Seq<MarkdownItemView>,
    stack: Seq<(usize, usize)>,
    plen: nat,
)
    ensures
        scan(lines, li, items, stack, plen).len() >= items.len(),
        forall|m: int| 0 <= m < items.len() ==> #[trigger] scan(lines, li, items, stack, plen)[m] == items[m],
    decreases lines.len() - li,
{
    if 0 <= li < lines.len() {
        let line = lines[li];
        let n = lines.len();
        let preview = Some(truncated(trim(line), plen));
        match heading_of(line) {
            Some((level, name)) => {
                let st = pop_headings(stack, level);
                let item = MarkdownItemView {
                    parent: stack_top(st),
                    heading_level: Some(level),
                    node: leaf("heading"@, Some(level), Some(name), (li + 1) as usize, n as usize, preview),
                };
                lemma_scan_prefix(lines, li + 1, items.push(item), st.push((level, items.len() as usize)), plen);
                assert forall|m: int| 0 <= m < items.len() implies items.push(item)[m] == items[m] by {}
            },
            None => {
                if fence_of(line) is Some {
                    let close = closing_fence(lines, li + 1, fence_of(line)->0);
                    lemma_closing_fence_bounds(lines, li + 1, fence_of(line)->0);
                    let next = if close < n { close + 1 } else { n as int };
                    let item = MarkdownItemView {
                        parent: stack_top(stack),
                        heading_level: None,
                        node: leaf("code_block"@, None, code_info(line), (li + 1) as usize, next as usize, preview),
                    };
                    lemma_scan_prefix(lines, next, items.push(item), stack, plen);
                    assert forall|m: int| 0 <= m < items.len() implies items.push(item)[m] == items[m] by {}
                } else if list_item(line) {
                    let end = list_end(lines, li + 1);
                    lemma_list_end_bounds(lines, li + 1);
                    let item = MarkdownItemView {
                        parent: stack_top(stack),
                        heading_level: None,
                        node: leaf("list"@, None, Some("list"@), (li + 1) as usize, end as usize, preview),
                    };
                    lemma_scan_prefix(lines, end, items.push(item), stack, plen);
                    assert forall|m: int| 0 <= m < items.len() implies items.push(item)[m] == items[m] by {}
                } else {
                    lemma_scan_prefix(lines, li + 1, items, stack, plen);
                }
            },
        }
    }
}

proof fn lemma_scan_lists(
    lines: Seq<Seq<char>>,
    li: int,
    items: Seq<MarkdownItemView>,
    stack: Seq<(usize, usize)>,
    plen: nat,
    r: int,
)
    requires
        0 <= li <= r < lines.len(),
        lines.len() <= usize::MAX,
        !in_fence(lines, li, r),
        bullet_line(lines[r]),
    ensures
        exists|m: int|
            items.len() <= m < scan(lines, li, items, stack, plen).len() && (#[trigger] scan(
                lines,
                li,
                items,
                stack,
                plen,
            )[m]).node.kind == "list"@ && scan(lines, li, items, stack, plen)[m].heading_level is None && scan(
                lines,
                li,
                items,
                stack,
                plen,
            )[m].node.start_line <= r + 1 <= scan(lines, li, items, stack, plen)[m].node.end_line,
    decreases lines.len() - li,
{
    let line = lines[li];
    let n = lines.len();
    let preview = Some(truncated(trim(line), plen));
    lemma_bullet_is_list_item(lines[r]);
    match heading_of(line) {
        Some((level, name)) => {
            let st = pop_headings(stack, level);
            let item = MarkdownItemView {
                parent: stack_top(st),
                heading_level: Some(level),
                node: leaf("heading"@, Some(level), Some(name), (li + 1) as usize, n as usize, preview),
            };
            let it = items.push(item);
            let st2 = st.push((level, items.len() as usize));
            assert(li != r);
            assert(!in_fence(lines, li + 1, r));
            assert(scan(lines, li, items, stack, plen) == scan(lines, li + 1, it, st2, plen));
            lemma_scan_lists(lines, li + 1, it, st2, plen, r);
        },
        None => {
            if fence_of(line) is Some {
                let close = closing_fence(lines, li + 1, fence_of(line)->0);
                lemma_closing_fence_bounds(lines, li + 1, fence_of(line)->0);
                let next = if close < n { close + 1 } else { n as int };
                let item = MarkdownItemView {
                    parent: stack_top(stack),
                    heading_level: None,
                    node: leaf("code_block"@, None, code_info(line), (li + 1) as usize, next as usize, preview),
                };
                lemma_scan_lists(lines, next, items.push(item), stack, plen, r);
            } else if list_item(line) {
                let end = list_end(lines, li + 1);
                lemma_list_end_bounds(lines, li + 1);
                let item = MarkdownItemView {
                    parent: stack_top(stack),
                    heading_level: None,
                    node: leaf("list"@, None, Some("list"@), (li + 1) as usize, end as usize, preview),
                };
                let it = items.push(item);
                if r < end {
                    lemma_scan_prefix(lines, end, it, stack, plen);
                    let out = scan(lines, end, it, stack, plen);
                    assert(out[items.len() as int] == it[items.len() as int]);
                    assert(it[items.len() as int] == item);
                    assert(scan(lines, li, items, stack, plen) == out);
                } else {
                    lemma_list_region_plain(lines, li + 1, end);
                    lemma_in_fence_plain(lines, li + 1, end, r);
                    lemma_scan_lists(lines, end, it, stack, plen, r);
                }
            } else {
                lemma_scan_lists(lines, li + 1, items, stack, plen, r);
            }
        },
    }
}

/// Every line after the frontmatter and outside fenced code blocks that
/// opens a list item (after indentation, `- `, `* `, `+ `, or digits
/// followed by `. `) lies within the range of a `list` node of the
/// outline.
pub proof fn law_markdown_bullets_listed(source: Seq<char>, plen: nat, r: int)
    requires
        source.len() <= usize::MAX,
        body_start(lines(source)) <= r < lines(source).len(),
        !in_fence(lines(source), body_start(lines(source)), r),
        bullet_line(lines(source)[r]),
    ensures
        exists|k: int|
            0 <= k < preorder(markdown_outline(source, plen), 0).len() && (#[trigger] preorder(
                markdown_outline(source, plen),
                0,
            )[k]).kind == "list"@ && preorder(markdown_outline(source, plen), 0)[k].start_line <= r + 1
                <= preorder(markdown_outline(source, plen), 0)[k].end_line,
{
    let ls = lines(source);
    let n = ls.len() as int;
    crate::text::lemma_lines_len(source);
    match frontmatter_end(ls) {
        Some(end) => {
            lemma_dash_line_bounds(ls, 1);
            let first = seq![
                MarkdownItemView {
                    parent: None,
                    heading_level: None,
                    node: leaf("frontmatter"@, None, Some("frontmatter"@), 1, end as usize, Some("---"@)),
                },
            ];
            lemma_scan_lists(ls, end as int, first, seq![], plen, r);
        },
        None => {
            lemma_scan_lists(ls, 0, seq![], seq![], plen, r);
        },
    }
    let items = scan_document(ls, plen);
    let m = choose|m: int|
        0 <= m < items.len() && (#[trigger] items[m]).node.kind == "list"@ && items[m].heading_level is None
            && items[m].node.start_line <= r + 1 <= items[m].node.end_line;
    lemma_scan_document_ok(ls, plen);
    lemma_closed_contiguous(items, n);
    let c = closed_items(items);
    law_preorder_of_contiguous(c);
    assert(c[m].node == closed_node(items, m));
    let pre = preorder(markdown_outline(source, plen), 0);
    assert(pre[m] == head_of(c[m].node));
}

/// The end of `s[from..to]` without trailing `c` characters.
pub fn trim_end_char_index(s: &[char], from: usize, to: usize, c: char) -> (j: usize)
    requires
        from <= to <= s@.len(),
    ensures
        from <= j <= to,
        trim_end_char(s@.subrange(from as int, to as int), c) == s@.subrange(from as int, j as int),
{
    let ghost u = s@.subrange(from as int, to as int);
    let mut j = to;
    proof {
        assert(u.take(j - from) =~= u);
    }
    while j > from && s[j - 1] == c
        invariant
            from <= j <= to <= s@.len(),
            u == s@.subrange(from as int, to as int),
            trim_end_char(u, c) == trim_end_char(u.take(j - from), c),
        decreases j,
    {
        proof {
            lemma_trim_end_char_step(u, j - from, c);
        }
        j = j - 1;
    }
    proof {
        assert(u.take(j - from) =~= s@.subrange(from as int, j as int));
        if j > from {
            assert(u.take(j - from).last() == s@[j - 1]);
        }
    }
    j
}

/// A text holds a character that is neither whitespace nor `#`.
pub open spec fn has_solid(s: Seq<char>) -> bool {
    exists|j: int| 0 <= j < s.len() && !is_ws(#[trigger] s[j]) && s[j] != '#'
}

proof fn lemma_trim_start_keeps(s: Seq<char>)
    requires
        has_solid(s),
    ensures
        has_solid(trim_start(s)),
    decreases s.len(),
{
    let j = choose|j: int| 0 <= j < s.len() && !is_ws(#[trigger] s[j]) && s[j] != '#';
    if s.len() > 0 && is_ws(s[0]) {
        assert(j > 0);
        assert(s.drop_first()[j - 1] == s[j]);
        lemma_trim_start_keeps(s.drop_first());
    }
}

proof fn lemma_trim_end_keeps_solid(s: Seq<char>)
    requires
        has_solid(s),
    ensures
        has_solid(trim_end(s)),
    decreases s.len(),
{
    let j = choose|j: int| 0 <= j < s.len() && !is_ws(#[trigger] s[j]) && s[j] != '#';
    if s.len() > 0 && is_ws(s.last()) {
        assert(j < s.len() - 1);
        assert(s.drop_last()[j] == s[j]);
        lemma_trim_end_keeps_solid(s.drop_last());
    }
}

proof fn lemma_trim_end_char_keeps(s: Seq<char>)
    requires
        has_solid(s),
    ensures
        has_solid(trim_end_char(s, '#')),
    decreases s.len(),
{
    let j = choose|j: int| 0 <= j < s.len() && !is_ws(#[trigger] s[j]) && s[j] != '#';
    if s.len() > 0 && s.last() == '#' {
        assert(j < s.len() - 1);
        assert(s.drop_last()[j] == s[j]);
        lemma_trim_end_char_keeps(s.drop_last());
    }
}

proof fn lemma_leading_hashes(t: Seq<char>, l: int)
    requires
        0 <= l <= t.len(),
        forall|m: int| 0 <= m < l ==> t[m] == '#',
        l < t.len() ==> t[l] != '#',
    ensures
        leading_count(t, '#') == l,
    decreases l,
{
    if l > 0 {
        assert forall|m: int| 0 <= m < l - 1 implies t.drop_first()[m] == '#' by {
            assert(t.drop_first()[m] == t[m + 1]);
        }
        if l < t.len() {
            assert(t.drop_first()[l - 1] == t[l]);
        }
        lemma_leading_hashes(t.drop_first(), l - 1);
    } else if t.len() > 0 {
        assert(t[0] != '#');
    }
}

proof fn lemma_leading_hashes_are(t: Seq<char>)
    ensures
        leading_count(t, '#') <= t.len(),
        forall|m: int| 0 <= m < leading_count(t, '#') ==> t[m] == '#',
        leading_count(t, '#') < t.len() ==> t[leading_count(t, '#') as int] != '#',
    decreases t.len(),
{
    if t.len() > 0 && t[0] == '#' {
        lemma_leading_hashes_are(t.drop_first());
        assert forall|m: int| 0 <= m < leading_count(t, '#') implies t[m] == '#' by {
            if m > 0 {
                assert(t[m] == t.drop_first()[m - 1]);
            }
        }
        if leading_count(t, '#') < t.len() {
            assert(t[leading_count(t, '#') as int] == t.drop_first()[leading_count(t, '#') - 1]);
        }
    }
}

/// An ATX heading: after its indentation, a line has one to six `#`, then a
/// space, then a title that keeps at least one character other than
/// whitespace and `#`. A heading's level is its count of `#`, and its title
/// is not empty; and every line of that shape is a heading of that level.
pub proof fn law_heading_shape(line: Seq<char>)
    ensures
        heading_of(line) is Some ==> 1 <= heading_of(line).unwrap().0 <= 6 && heading_of(line).unwrap().0 < trim_start(
            line,
        ).len() && trim_start(line)[heading_of(line).unwrap().0 as int] == ' ' && (forall|m: int|
            0 <= m < heading_of(line).unwrap().0 ==> trim_start(line)[m] == '#') && heading_of(line).unwrap().1.len()
            > 0,
        forall|l: int|
            1 <= l <= 6 && l < trim_start(line).len() && trim_start(line)[l] == ' ' && (forall|m: int|
                0 <= m < l ==> trim_start(line)[m] == '#') && has_solid(trim_start(line).skip(l))
                ==> #[trigger] heading_of(line) == Some((l as usize, heading_of(line).unwrap().1)),
{
    let t = trim_start(line);
    lemma_leading_hashes_are(t);
    assert forall|l: int|
        1 <= l <= 6 && l < t.len() && t[l] == ' ' && (forall|m: int| 0 <= m < l ==> t[m] == '#') && has_solid(
            t.skip(l),
        ) implies #[trigger] heading_of(line) == Some((l as usize, heading_of(line).unwrap().1)) by {
        lemma_leading_hashes(t, l);
        let rest = t.skip(l);
        lemma_trim_start_keeps(rest);
        lemma_trim_end_keeps_solid(trim_start(rest));
        lemma_trim_end_char_keeps(trim(rest));
        lemma_trim_start_keeps(trim_end_char(trim(rest), '#'));
        lemma_trim_end_keeps_solid(trim_start(trim_end_char(trim(rest), '#')));
    }
}

/// A line that opens a fence after its indentation: three backticks or
/// three tildes.
pub open spec fn fence_line(line: Seq<char>) -> bool {
    let t = trim_start(line);
    t.len() >= 3 && ((t[0] == '`' && t[1] == '`' && t[2] == '`') || (t[0] == '~' && t[1] == '~' && t[2] == '~'))
}

/// Reading the lines from `li` on, skipping whole fenced code blocks, the
/// reading lands on line `r`.
pub open spec fn reached(lines: Seq<Seq<char>>, li: int, r: int) -> bool
    decreases lines.len() - li,
{
    if li < 0 || li >= lines.len() || li > r {
        false
    } else if li == r {
        true
    } else if heading_of(lines[li]) is None && fence_line(lines[li]) {
        let f = trim_start(lines[li]).take(3);
        let close = closing_fence(lines, li + 1, f);
        proof {
            lemma_closing_fence_bounds(lines, li + 1, f);
        }
        reached(
            lines,
            if close < lines.len() {
                close + 1
            } else {
                lines.len() as int
            },
            r,
        )
    } else {
        reached(lines, li + 1, r)
    }
}

proof fn lemma_fence_line_plain(line: Seq<char>)
    requires
        fence_line(line),
    ensures
        heading_of(line) is None,
        fence_of(line) == Some(trim_start(line).take(3)),
        !list_item(line),
        trim(line).len() > 0,
{
    let t = trim_start(line);
    lemma_trim_start_first(line);
    lemma_trim_end_keeps(t);
    assert(t[0] != '#');
    assert(leading_count(t, '#') == 0);
    assert(!is_digit(t[0]));
    if list_item(line) {
        let k = index_of(t, '.');
        assert(is_digit(t[0]));
    }
}

proof fn lemma_reached_plain(lines: Seq<Seq<char>>, li: int, end: int, r: int)
    requires
        0 <= li <= end <= r,
        end <= lines.len(),
        forall|j: int| li <= j < end ==> heading_of(#[trigger] lines[j]) is None && fence_of(lines[j]) is None,
    ensures
        reached(lines, li, r) == reached(lines, end, r),
    decreases end - li,
{
    if li < end {
        let t = trim_start(lines[li]);
        assert(fence_of(lines[li]) is None);
        assert(!fence_line(lines[li]));
        lemma_reached_plain(lines, li + 1, end, r);
    }
}

proof fn lemma_scan_code(
    lines: Seq<Seq<char>>,
    li: int,
    items: Seq<MarkdownItemView>,
    stack: Seq<(usize, usize)>,
    plen: nat,
    r: int,
)
    requires
        0 <= li <= r < lines.len(),
        lines.len() <= usize::MAX,
        reached(lines, li, r),
        fence_line(lines[r]),
    ensures
        exists|m: int|
            items.len() <= m < scan(lines, li, items, stack, plen).len() && (#[trigger] scan(
                lines,
                li,
                items,
                stack,
                plen,
            )[m]).node.kind == "code_block"@ && scan(lines, li, items, stack, plen)[m].heading_level is None
                && scan(lines, li, items, stack, plen)[m].node.start_line == r + 1 && scan(
                lines,
                li,
                items,
                stack,
                plen,
            )[m].node.end_line == fence_end(lines, r),
    decreases lines.len() - li,
{
    let line = lines[li];
    let n = lines.len();
    let preview = Some(truncated(trim(line), plen));
    lemma_fence_line_plain(lines[r]);
    match heading_of(line) {
        Some((level, name)) => {
            let st = pop_headings(stack, level);
            let item = MarkdownItemView {
                parent: stack_top(st),
                heading_level: Some(level),
                node: leaf("heading"@, Some(level), Some(name), (li + 1) as usize, n as usize, preview),
            };
            let it = items.push(item);
            let st2 = st.push((level, items.len() as usize));
            assert(li != r);
            assert(reached(lines, li + 1, r));
            assert(scan(lines, li, items, stack, plen) == scan(lines, li + 1, it, st2, plen));
            lemma_scan_code(lines, li + 1, it, st2, plen, r);
        },
        None => {
            if fence_of(line) is Some {
                let close = closing_fence(lines, li + 1, fence_of(line)->0);
                lemma_closing_fence_bounds(lines, li + 1, fence_of(line)->0);
                let next = if close < n { close + 1 } else { n as int };
                let item = MarkdownItemView {
                    parent: stack_top(stack),
                    heading_level: None,
                    node: leaf("code_block"@, None, code_info(line), (li + 1) as usize, next as usize, preview),
                };
                let it = items.push(item);
                let t = trim_start(line);
                assert(fence_line(line));
                assert(fence_of(line)->0 == t.take(3));
                if li == r {
                    lemma_scan_prefix(lines, next, it, stack, plen);
                    assert(scan(lines, next, it, stack, plen)[items.len() as int] == it[items.len() as int]);
                } else {
                    assert(reached(lines, next, r));
                    lemma_scan_code(lines, next, it, stack, plen, r);
                }
            } else if list_item(line) {
                let end = list_end(lines, li + 1);
                lemma_list_end_bounds(lines, li + 1);
                let item = MarkdownItemView {
                    parent: stack_top(stack),
                    heading_level: None,
                    node: leaf("list"@, None, Some("list"@), (li + 1) as usize, end as usize, preview),
                };
                let it = items.push(item);
                assert(li != r);
                lemma_list_region_plain(lines, li + 1, end);
                lemma_list_line_plain(line);
                if r < end {
                    assert(heading_of(lines[r]) is None && fence_of(lines[r]) is None);
                    assert(false);
                }
                assert(!fence_line(line));
                assert(reached(lines, li + 1, r));
                lemma_reached_plain(lines, li + 1, end, r);
                lemma_scan_code(lines, end, it, stack, plen, r);
            } else {
                assert(li != r);
                assert(!fence_line(line));
                lemma_scan_code(lines, li + 1, items, stack, plen, r);
            }
        },
    }
}

/// The last line of the code block that opens on line `r`: the next line
/// that starts, after indentation, with the same three characters, or the
/// last line of the document.
pub open spec fn fence_end(lines: Seq<Seq<char>>, r: int) -> int {
    let close = closing_fence(lines, r + 1, trim_start(lines[r]).take(3));
    if close < lines.len() {
        close + 1
    } else {
        lines.len() as int
    }
}

/// Every line that the reading of a document lands on (after the
/// frontmatter, skipping the insides of code blocks) and that opens with
/// three backticks or three tildes after its indentation starts a
/// `code_block` node of the outline, which runs to the next line opening
/// with the same three characters, or to the last line.
pub proof fn law_markdown_code_blocks(source: Seq<char>, plen: nat, r: int)
    requires
        source.len() <= usize::MAX,
        body_start(lines(source)) <= r < lines(source).len(),
        reached(lines(source), body_start(lines(source)), r),
        fence_line(lines(source)[r]),
    ensures
        exists|k: int|
            0 <= k < preorder(markdown_outline(source, plen), 0).len() && (#[trigger] preorder(
                markdown_outline(source, plen),
                0,
            )[k]).kind == "code_block"@ && preorder(markdown_outline(source, plen), 0)[k].start_line == r + 1
                && preorder(markdown_outline(source, plen), 0)[k].end_line == fence_end(lines(source), r),
{
    let ls = lines(source);
    let n = ls.len() as int;
    crate::text::lemma_lines_len(source);
    match frontmatter_end(ls) {
        Some(end) => {
            lemma_dash_line_bounds(ls, 1);
            let first = seq![
                MarkdownItemView {
                    parent: None,
                    heading_level: None,
                    node: leaf("frontmatter"@, None, Some("frontmatter"@), 1, end as usize, Some("---"@)),
                },
            ];
            lemma_scan_code(ls, end as int, first, seq![], plen, r);
        },
        None => {
            lemma_scan_code(ls, 0, seq![], seq![], plen, r);
        },
    }
    let items = scan_document(ls, plen);
    let m = choose|m: int|
        0 <= m < items.len() && (#[trigger] items[m]).node.kind == "code_block"@ && items[m].heading_level is None
            && items[m].node.start_line == r + 1 && items[m].node.end_line == fence_end(ls, r);
    lemma_scan_document_ok(ls, plen);
    lemma_closed_contiguous(items, n);
    let c = closed_items(items);
    law_preorder_of_contiguous(c);
    assert(c[m].node == closed_node(items, m));
    let pre = preorder(markdown_outline(source, plen), 0);
    assert(pre[m] == head_of(c[m].node));
}

/// A document whose first line is `---` (once trimmed) and that has another
/// such line later opens with a `frontmatter` node spanning line 1 to the
/// first of those later lines.
pub proof fn law_markdown_frontmatter(source: Seq<char>, plen: nat, d: int)
    requires
        source.len() <= usize::MAX,
        1 <= d < lines(source).len(),
        trim(lines(source)[0]) == seq!['-', '-', '-'],
        trim(lines(source)[d]) == seq!['-', '-', '-'],
        forall|j: int| 1 <= j < d ==> trim(#[trigger] lines(source)[j]) != seq!['-', '-', '-'],
    ensures
        markdown_outline(source, plen).len() > 0,
        markdown_outline(source, plen)[0].kind == "frontmatter"@,
        markdown_outline(source, plen)[0].start_line == 1,
        markdown_outline(source, plen)[0].end_line == d + 1,
{
    let ls = lines(source);
    let n = ls.len() as int;
    crate::text::lemma_lines_len(source);
    lemma_dash_at(ls, 1, d);
    let end = (d + 1) as nat;
    assert(frontmatter_end(ls) == Some(end));
    let first = seq![
        MarkdownItemView {
            parent: None,
            heading_level: None,
            node: leaf("frontmatter"@, None, Some("frontmatter"@), 1, end as usize, Some("---"@)),
        },
    ];
    lemma_scan_prefix(ls, end as int, first, seq![], plen);
    let items = scan_document(ls, plen);
    assert(items[0] == first[0]);
    lemma_scan_document_ok(ls, plen);
    lemma_closed_contiguous(items, n);
    let c = closed_items(items);
    law_preorder_of_contiguous(c);
    lemma_outline_parents_first(c);
    assert(c[0].node == closed_node(items, 0));
    assert(c[0].parent == None::<usize>);
    let o = markdown_outline(source, plen);
    assert(o == forest(c, None, 0));
    assert(o.len() > 0 && o[0] == crate::model::with_children(c[0].node, forest(c, Some(0usize), 1)));
}

proof fn lemma_dash_at(lines: Seq<Seq<char>>, j: int, d: int)
    requires
        1 <= j <= d < lines.len(),
        trim(lines[d]) == seq!['-', '-', '-'],
        forall|x: int| j <= x < d ==> trim(#[trigger] lines[x]) != seq!['-', '-', '-'],
    ensures
        dash_line(lines, j) == d,
    decreases d - j,
{
    if j < d {
        lemma_dash_at(lines, j + 1, d);
    }
}

proof fn lemma_list_item_is_bullet(line: Seq<char>)
    requires
        list_item(line),
    ensures
        bullet_line(line),
{
    let t = trim_start(line);
    reveal_strlit("- ");
    reveal_strlit("* ");
    reveal_strlit("+ ");
    if t.len() >= 2 && (t[0] == '-' || t[0] == '*' || t[0] == '+') && t[1] == ' ' {
        if t[0] == '-' {
            assert(t.take(2) =~= "- "@);
        } else if t[0] == '*' {
            assert(t.take(2) =~= "* "@);
        } else {
            assert(t.take(2) =~= "+ "@);
        }
    } else {
        let k = index_of(t, '.') as int;
        lemma_index_of_bound(t, '.');
        assert(t[k] == '.');
        assert forall|m: int| 0 <= m < k implies '0' <= #[trigger] t[m] && t[m] <= '9' by {
            assert(is_digit(t[m]));
        }
        assert(0 < k && k + 1 < t.len() && t[k] == '.' && t[k + 1] == ' ');
    }
}

/// Lines `s..e` (0-based, `e` excluded) form a list region: the first
/// opens a list item, every later one opens a list item or is blank, and
/// the line at `e`, if any, is neither.
pub open spec fn list_region(lines: Seq<Seq<char>>, s: int, e: int) -> bool {
    &&& 0 <= s < e <= lines.len()
    &&& bullet_line(lines[s])
    &&& forall|j: int| s < j < e ==> bullet_line(#[trigger] lines[j]) || trim(lines[j]).len() == 0
    &&& e < lines.len() ==> !(bullet_line(lines[e]) || trim(lines[e]).len() == 0)
}

proof fn lemma_list_end_region(lines: Seq<Seq<char>>, j: int)
    requires
        0 <= j <= lines.len(),
    ensures
        forall|x: int| j <= x < list_end(lines, j) ==> bullet_line(#[trigger] lines[x]) || trim(lines[x]).len() == 0,
        list_end(lines, j) < lines.len() ==> !(bullet_line(lines[list_end(lines, j)]) || trim(
            lines[list_end(lines, j)],
        ).len() == 0),
    decreases lines.len() - j,
{
    lemma_list_end_bounds(lines, j);
    if j < lines.len() {
        if list_item(lines[j]) || trim(lines[j]).len() == 0 {
            if list_item(lines[j]) {
                lemma_list_item_is_bullet(lines[j]);
            }
            lemma_list_end_region(lines, j + 1);
        } else {
            if bullet_line(lines[j]) {
                lemma_bullet_is_list_item(lines[j]);
            }
        }
    }
}

proof fn lemma_scan_list_regions(
    lines: Seq<Seq<char>>,
    li: int,
    items: Seq<MarkdownItemView>,
    stack: Seq<(usize, usize)>,
    plen: nat,
)
    requires
        0 <= li,
        lines.len() <= usize::MAX,
    ensures
        forall|m: int|
            items.len() <= m < scan(lines, li, items, stack, plen).len() && (#[trigger] scan(
                lines,
                li,
                items,
                stack,
                plen,
            )[m]).node.kind == "list"@ ==> scan(lines, li, items, stack, plen)[m].heading_level is None
                && list_region(
                lines,
                scan(lines, li, items, stack, plen)[m].node.start_line - 1,
                scan(lines, li, items, stack, plen)[m].node.end_line as int,
            ),
    decreases lines.len() - li,
{
    reveal_strlit("list");
    reveal_strlit("heading");
    reveal_strlit("code_block");
    assert("list"@.len() == 4 && "heading"@.len() == 7 && "code_block"@.len() == 10);
    if li < lines.len() {
        let line = lines[li];
        let n = lines.len();
        let preview = Some(truncated(trim(line), plen));
        match heading_of(line) {
            Some((level, name)) => {
                let st = pop_headings(stack, level);
                let item = MarkdownItemView {
                    parent: stack_top(st),
                    heading_level: Some(level),
                    node: leaf("heading"@, Some(level), Some(name), (li + 1) as usize, n as usize, preview),
                };
                let it = items.push(item);
                let st2 = st.push((level, items.len() as usize));
                assert(scan(lines, li, items, stack, plen) == scan(lines, li + 1, it, st2, plen));
                lemma_scan_list_regions(lines, li + 1, it, st2, plen);
                lemma_scan_prefix(lines, li + 1, it, st2, plen);
                let out = scan(lines, li + 1, it, st2, plen);
                assert(out[items.len() as int] == item);
            },
            None => {
                if fence_of(line) is Some {
                    let close = closing_fence(lines, li + 1, fence_of(line)->0);
                    lemma_closing_fence_bounds(lines, li + 1, fence_of(line)->0);
                    let next = if close < n { close + 1 } else { n as int };
                    let item = MarkdownItemView {
                        parent: stack_top(stack),
                        heading_level: None,
                        node: leaf("code_block"@, None, code_info(line), (li + 1) as usize, next as usize, preview),
                    };
                    let it = items.push(item);
                    lemma_scan_list_regions(lines, next, it, stack, plen);
                    lemma_scan_prefix(lines, next, it, stack, plen);
                    let out = scan(lines, next, it, stack, plen);
                    assert(out[items.len() as int] == item);
                } else if list_item(line) {
                    let end = list_end(lines, li + 1);
                    lemma_list_end_bounds(lines, li + 1);
                    let item = MarkdownItemView {
                        parent: stack_top(stack),
                        heading_level: None,
                        node: leaf("list"@, None, Some("list"@), (li + 1) as usize, end as usize, preview),
                    };
                    let it = items.push(item);
                    lemma_scan_list_regions(lines, end, it, stack, plen);
                    lemma_scan_prefix(lines, end, it, stack, plen);
                    let out = scan(lines, end, it, stack, plen);
                    assert(out[items.len() as int] == item);
                    lemma_list_item_is_bullet(line);
                    lemma_list_end_region(lines, li + 1);
                    assert(list_region(lines, li, end));
                } else {
                    lemma_scan_list_regions(lines, li + 1, items, stack, plen);
                }
            },
        }
    }
}

/// Every `list` node of a Markdown outline covers a list region: its first
/// line opens a list item (`- `, `* `, `+ ` or digits and `. ` after the
/// indentation), each later line opens one or is blank, and the line after
/// it, if any, is neither.
pub proof fn law_markdown_list_extent(source: Seq<char>, plen: nat, k: int)
    requires
        source.len() <= usize::MAX,
        0 <= k < preorder(markdown_outline(source, plen), 0).len(),
        preorder(markdown_outline(source, plen), 0)[k].kind == "list"@,
    ensures
        list_region(
            lines(source),
            preorder(markdown_outline(source, plen), 0)[k].start_line - 1,
            preorder(markdown_outline(source, plen), 0)[k].end_line as int,
        ),
{
    let ls = lines(source);
    let n = ls.len() as int;
    crate::text::lemma_lines_len(source);
    reveal_strlit("list");
    reveal_strlit("frontmatter");
    assert("list"@.len() == 4 && "frontmatter"@.len() == 11);
    match frontmatter_end(ls) {
        Some(end) => {
            lemma_dash_line_bounds(ls, 1);
            let first = seq![
                MarkdownItemView {
                    parent: None,
                    heading_level: None,
                    node: leaf("frontmatter"@, None, Some("frontmatter"@), 1, end as usize, Some("---"@)),
                },
            ];
            lemma_scan_list_regions(ls, end as int, first, seq![], plen);
            lemma_scan_prefix(ls, end as int, first, seq![], plen);
        },
        None => {
            lemma_scan_list_regions(ls, 0, seq![], seq![], plen);
        },
    }
    let items = scan_document(ls, plen);
    lemma_scan_document_ok(ls, plen);
    lemma_closed_contiguous(items, n);
    let c = closed_items(items);
    law_preorder_of_contiguous(c);
    let pre = preorder(markdown_outline(source, plen), 0);
    assert(pre[k] == head_of(c[k].node));
    assert(c[k].node == closed_node(items, k));
    assert(items[k].node.kind == "list"@);
    assert(items[k].heading_level is None);
}

} // verus!
