//! Reading syntax nodes: fields, texts, previews and line ranges.

use vstd::prelude::*;
use vstd::string::StringSliceAdditionalSpecFns;
use vstd::utf8::{decode_utf8, encode_utf8};
use crate::syntax::{SyntaxNode, SyntaxView, field_view, node_text, text_of};
use crate::text::{trim, truncated, line_preview, is_blank_line, line_views};

verus! {

broadcast use vstd::utf8::encode_utf8_decode_utf8;

/// Whether two strings are equal, compared byte by byte.
pub fn str_eq(a: &str, b: &str) -> (r: bool)
    ensures
        r == (a@ == b@),
{
    let x = a.as_bytes();
    let y = b.as_bytes();
    proof {
        assert(decode_utf8(encode_utf8(a@)) == a@);
        assert(decode_utf8(encode_utf8(b@)) == b@);
    }
    if x.len() != y.len() {
        return false;
    }
    let mut i: usize = 0;
    while i < x.len()
        invariant
            x@.len() == y@.len(),
            x@ == a.spec_bytes(),
            y@ == b.spec_bytes(),
            i <= x@.len(),
            forall|k: int| 0 <= k < i ==> x@[k] == y@[k],
        decreases x@.len() - i,
    {
        if x[i] != y[i] {
            return false;
        }
        i = i + 1;
    }
    proof {
        assert(x@ =~= y@);
    }
    true
}

/// Whether a node has the given type.
pub fn kind_is(n: &SyntaxNode, kind: &str) -> (r: bool)
    ensures
        r == (n@.kind == kind@),
{
    str_eq(n.kind.as_str(), kind)
}

/// The first of `kids[i..]` that sits under field `f`.
pub open spec fn field_child_from(kids: Seq<SyntaxView>, i: int, f: Seq<char>) -> Option<SyntaxView>
    decreases kids.len() - i,
{
    if i < 0 || i >= kids.len() {
        None
    } else if kids[i].field == Some(f) {
        Some(kids[i])
    } else {
        field_child_from(kids, i + 1, f)
    }
}

/// The child of `n` under field `f` (the first one, if several are).
pub open spec fn field_child(n: SyntaxView, f: Seq<char>) -> Option<SyntaxView> {
    field_child_from(n.children, 0, f)
}

/// The child of `n` under field `f`.
pub fn child_by_field<'a>(n: &'a SyntaxNode, f: &str) -> (r: Option<&'a SyntaxNode>)
    ensures
        match r {
            Some(c) => field_child(n@, f@) == Some(c@),
            None => field_child(n@, f@) is None,
        },
{
    let ghost kids = n@.children;
    let mut i: usize = 0;
    while i < n.children.len()
        invariant
            i <= n.children@.len(),
            kids == n@.children,
            kids.len() == n.children@.len(),
            field_child(n@, f@) == field_child_from(kids, i as int, f@),
        decreases n.children@.len() - i,
    {
        let c = &n.children[i];
        assert(c@ == kids[i as int]);
        let hit = match &c.field {
            Some(x) => str_eq(x.as_str(), f),
            None => false,
        };
        if hit {
            return Some(c);
        }
        i = i + 1;
    }
    None
}

/// The text of the child under field `f`, if it has one.
pub open spec fn field_text(source: Seq<char>, n: SyntaxView, f: Seq<char>) -> Option<Seq<char>> {
    match field_child(n, f) {
        Some(c) => node_text(source, c),
        None => None,
    }
}

/// The text of the child under field `f`.
pub fn field_text_of(source: &str, n: &SyntaxNode, f: &str) -> (r: Option<String>)
    ensures
        field_view(r) == field_text(source@, n@, f@),
{
    match child_by_field(n, f) {
        Some(c) => text_of(source, c),
        None => None,
    }
}

/// The preview of the source line `row`: the line trimmed and truncated,
/// or nothing when the line is blank or missing.
pub open spec fn preview_at(lines: Seq<Seq<char>>, row: int, plen: nat) -> Option<Seq<char>> {
    if 0 <= row < lines.len() && trim(lines[row]).len() != 0 {
        Some(truncated(trim(lines[row]), plen))
    } else {
        None
    }
}

/// The preview of the line where a node starts.
pub fn ast_preview(lines: &Vec<Vec<char>>, n: &SyntaxNode, plen: usize) -> (r: Option<String>)
    ensures
        field_view(r) == preview_at(line_views(lines@), n@.start_row as int, plen as nat),
{
    if n.start_row < lines.len() {
        let line = lines[n.start_row].as_slice();
        assert(line@ == line_views(lines@)[n.start_row as int]);
        if is_blank_line(line) {
            None
        } else {
            Some(line_preview(line, plen))
        }
    } else {
        None
    }
}

/// `r + 1`, held at the largest `usize`.
pub open spec fn inc(r: usize) -> usize {
    if r < usize::MAX {
        (r + 1) as usize
    } else {
        r
    }
}

/// One more than `r`, held at the largest `usize`.
pub fn inc_exec(r: usize) -> (s: usize)
    ensures
        s == inc(r),
{
    if r < usize::MAX {
        r + 1
    } else {
        r
    }
}

/// The 1-based lines a node spans: from its start row to its end row.
pub open spec fn plain_range(n: SyntaxView) -> (usize, usize) {
    (inc(n.start_row), inc(n.end_row))
}

/// The 1-based lines a node spans, not counting a final row that the
/// node only reaches at column 0.
pub open spec fn column_range(n: SyntaxView) -> (usize, usize) {
    let end = if n.end_column == 0 && n.end_row > n.start_row {
        n.end_row
    } else {
        inc(n.end_row)
    };
    (inc(n.start_row), end)
}

/// The lines a node spans.
pub fn column_range_exec(n: &SyntaxNode) -> (r: (usize, usize))
    ensures
        r == column_range(n@),
{
    let end = if n.end_column == 0 && n.end_row > n.start_row {
        n.end_row
    } else {
        inc_exec(n.end_row)
    };
    (inc_exec(n.start_row), end)
}

/// `end` moved up past blank lines, but not above `start`.
pub open spec fn trim_blank_end(lines: Seq<Seq<char>>, start: usize, end: usize) -> usize
    decreases end,
{
    if end > start && end >= 1 && end - 1 < lines.len() && trim(lines[end - 1]).len() == 0 {
        trim_blank_end(lines, start, (end - 1) as usize)
    } else {
        end
    }
}

/// The lines a node spans, without trailing blank lines.
pub open spec fn trimmed_range(lines: Seq<Seq<char>>, n: SyntaxView) -> (usize, usize) {
    let r = column_range(n);
    (r.0, trim_blank_end(lines, r.0, r.1))
}

/// The lines a node spans, without trailing blank lines.
pub fn trimmed_range_exec(lines: &Vec<Vec<char>>, n: &SyntaxNode) -> (r: (usize, usize))
    ensures
        r == trimmed_range(line_views(lines@), n@),
{
    let (start, end0) = column_range_exec(n);
    let ghost lv = line_views(lines@);
    let mut end = end0;
    while end > start && end >= 1 && end - 1 < lines.len() && is_blank_line(
        lines[end - 1].as_slice(),
    )
        invariant
            lv == line_views(lines@),
            trim_blank_end(lv, start, end0) == trim_blank_end(lv, start, end),
        decreases end,
    {
        assert(lines[end - 1]@ == lv[end - 1]);
        end = end - 1;
    }
    proof {
        if end > start && end >= 1 && end - 1 < lines@.len() {
            assert(lines[end - 1]@ == lv[end - 1]);
        }
    }
    (start, end)
}

/// A source file prepared for analysis: its text, its lines and the
/// preview length.
pub struct Source<'a> {
    pub text: &'a str,
    pub lines: Vec<Vec<char>>,
    pub preview_len: usize,
}

/// The mathematical content of a [`Source`].
pub struct SourceView {
    pub text: Seq<char>,
    pub lines: Seq<Seq<char>>,
    pub plen: nat,
}

/// The view of a prepared source.
pub open spec fn src_view(s: &Source) -> SourceView {
    SourceView { text: s.text@, lines: line_views(s.lines@), plen: s.preview_len as nat }
}

/// Prepares `text` for analysis.
pub fn new_source<'a>(text: &'a str, preview_len: usize) -> (r: Source<'a>)
    ensures
        src_view(&r) == (SourceView { text: text@, lines: crate::text::lines(text@), plen: preview_len as nat }),
{
    let cs = crate::text::chars_of(text);
    let lines = crate::text::split_lines(cs.as_slice());
    Source { text, lines, preview_len }
}

/// The preview of the line where a node starts.
pub open spec fn node_preview(src: SourceView, n: SyntaxView) -> Option<Seq<char>> {
    preview_at(src.lines, n.start_row as int, src.plen)
}

/// The optional views of an optional node.
pub open spec fn opt_node_view(o: Option<crate::model::Node>) -> Option<crate::model::NodeView> {
    match o {
        Some(n) => Some(n@),
        None => None,
    }
}

/// An outline node for a syntax node: kind, name, the given line range and
/// the preview of its first line.
pub open spec fn item_node(
    src: SourceView,
    n: SyntaxView,
    kind: Seq<char>,
    name: Seq<char>,
    range: (usize, usize),
) -> crate::model::NodeView {
    crate::model::leaf(kind, None, Some(name), range.0, range.1, node_preview(src, n))
}

/// An outline node for a syntax node.
pub fn make_item(src: &Source, n: &SyntaxNode, kind: &str, name: String, range: (usize, usize)) -> (r: crate::model::Node)
    ensures
        r@ == item_node(src_view(src), n@, kind@, name@, range),
{
    crate::model::new_leaf(
        kind.to_owned(),
        None,
        Some(name),
        range.0,
        range.1,
        ast_preview(&src.lines, n, src.preview_len),
    )
}

/// The first named child among `kids[i..]` of type `k`.
pub open spec fn first_named_kind_from(kids: Seq<SyntaxView>, i: int, k: Seq<char>) -> Option<SyntaxView>
    decreases kids.len() - i,
{
    if i < 0 || i >= kids.len() {
        None
    } else if kids[i].named && kids[i].kind == k {
        Some(kids[i])
    } else {
        first_named_kind_from(kids, i + 1, k)
    }
}

/// The first named child of `n` of type `k`.
pub open spec fn first_named_kind(n: SyntaxView, k: Seq<char>) -> Option<SyntaxView> {
    first_named_kind_from(n.children, 0, k)
}

/// The first named child of `n` of type `kind`.
pub fn first_named_child_of_kind<'a>(n: &'a SyntaxNode, kind: &str) -> (r: Option<&'a SyntaxNode>)
    ensures
        match r {
            Some(c) => first_named_kind(n@, kind@) == Some(c@),
            None => first_named_kind(n@, kind@) is None,
        },
{
    let ghost kids = n@.children;
    let mut i: usize = 0;
    while i < n.children.len()
        invariant
            i <= n.children@.len(),
            kids == n@.children,
            kids.len() == n.children@.len(),
            first_named_kind(n@, kind@) == first_named_kind_from(kids, i as int, kind@),
        decreases n.children@.len() - i,
    {
        let c = &n.children[i];
        assert(c@ == kids[i as int]);
        if c.named && kind_is(c, kind) {
            return Some(c);
        }
        i = i + 1;
    }
    None
}

/// Whether some named child of `n` has type `k`.
pub open spec fn has_named_kind(n: SyntaxView, k: Seq<char>) -> bool {
    first_named_kind(n, k) is Some
}

/// The last named child among `kids[..end]` whose type is `a` or `b`.
pub open spec fn last_named_either(kids: Seq<SyntaxView>, end: int, a: Seq<char>, b: Seq<char>) -> Option<SyntaxView>
    decreases end,
{
    if end <= 0 || end > kids.len() {
        None
    } else if kids[end - 1].named && (kids[end - 1].kind == a || kids[end - 1].kind == b) {
        Some(kids[end - 1])
    } else {
        last_named_either(kids, end - 1, a, b)
    }
}

/// The last named child of `n` whose type is `a` or `b`.
pub fn last_named_child_either<'a>(n: &'a SyntaxNode, a: &str, b: &str) -> (r: Option<&'a SyntaxNode>)
    ensures
        match r {
            Some(c) => last_named_either(n@.children, n@.children.len() as int, a@, b@) == Some(c@),
            None => last_named_either(n@.children, n@.children.len() as int, a@, b@) is None,
        },
{
    let ghost kids = n@.children;
    let mut end = n.children.len();
    while end > 0
        invariant
            end <= n.children@.len(),
            kids == n@.children,
            kids.len() == n.children@.len(),
            last_named_either(kids, kids.len() as int, a@, b@) == last_named_either(kids, end as int, a@, b@),
        decreases end,
    {
        let c = &n.children[end - 1];
        assert(c@ == kids[end - 1]);
        if c.named && (kind_is(c, a) || kind_is(c, b)) {
            return Some(c);
        }
        end = end - 1;
    }
    None
}

/// The text of an optional node.
pub open spec fn opt_text(source: Seq<char>, o: Option<SyntaxView>) -> Option<Seq<char>> {
    match o {
        Some(c) => node_text(source, c),
        None => None,
    }
}

/// The text of an optional node.
pub fn opt_text_of(source: &str, o: Option<&SyntaxNode>) -> (r: Option<String>)
    ensures
        field_view(r) == opt_text(source@, match o { Some(c) => Some(c@), None => None }),
{
    match o {
        Some(c) => text_of(source, c),
        None => None,
    }
}

/// The outline node of a syntax node with an optional name, if it has one.
pub open spec fn named_item(
    src: SourceView,
    n: SyntaxView,
    kind: Seq<char>,
    name: Option<Seq<char>>,
    range: (usize, usize),
) -> Option<crate::model::NodeView> {
    match name {
        Some(m) => Some(item_node(src, n, kind, m, range)),
        None => None,
    }
}

/// The outline node of a syntax node with an optional name.
pub fn make_named_item(src: &Source, n: &SyntaxNode, kind: &str, name: Option<String>, range: (usize, usize)) -> (r: Option<crate::model::Node>)
    ensures
        opt_node_view(r) == named_item(src_view(src), n@, kind@, field_view(name), range),
{
    match name {
        Some(m) => Some(make_item(src, n, kind, m, range)),
        None => None,
    }
}

/// The 1-based start and end rows of a node.
pub fn plain_range_exec(n: &SyntaxNode) -> (r: (usize, usize))
    ensures
        r == plain_range(n@),
{
    (inc_exec(n.start_row), inc_exec(n.end_row))
}

/// The position of the first of `kids[i..]` under field `f`, or the
/// number of children.
pub open spec fn field_pos(kids: Seq<SyntaxView>, i: int, f: Seq<char>) -> int
    decreases kids.len() - i,
{
    if i < 0 || i >= kids.len() {
        kids.len() as int
    } else if kids[i].field == Some(f) {
        i
    } else {
        field_pos(kids, i + 1, f)
    }
}

pub proof fn lemma_field_pos(kids: Seq<SyntaxView>, i: int, f: Seq<char>)
    requires
        0 <= i <= kids.len(),
    ensures
        i <= field_pos(kids, i, f) <= kids.len(),
        field_child_from(kids, i, f) == if field_pos(kids, i, f) < kids.len() {
            Some(kids[field_pos(kids, i, f)])
        } else {
            None
        },
    decreases kids.len() - i,
{
    if i < kids.len() && kids[i].field != Some(f) {
        lemma_field_pos(kids, i + 1, f);
    }
}

/// The first named child among `kids[i..]` whose type is `a` or `b`.
pub open spec fn first_named_either_from(kids: Seq<SyntaxView>, i: int, a: Seq<char>, b: Seq<char>) -> Option<SyntaxView>
    decreases kids.len() - i,
{
    if i < 0 || i >= kids.len() {
        None
    } else if kids[i].named && (kids[i].kind == a || kids[i].kind == b) {
        Some(kids[i])
    } else {
        first_named_either_from(kids, i + 1, a, b)
    }
}

/// The first named child of `n` whose type is `a` or `b`.
pub fn first_named_child_either<'a>(n: &'a SyntaxNode, a: &str, b: &str) -> (r: Option<&'a SyntaxNode>)
    ensures
        match r {
            Some(c) => first_named_either_from(n@.children, 0, a@, b@) == Some(c@),
            None => first_named_either_from(n@.children, 0, a@, b@) is None,
        },
{
    let ghost kids = n@.children;
    let mut i: usize = 0;
    while i < n.children.len()
        invariant
            i <= n.children@.len(),
            kids == n@.children,
            kids.len() == n.children@.len(),
            first_named_either_from(kids, 0, a@, b@) == first_named_either_from(kids, i as int, a@, b@),
        decreases n.children@.len() - i,
    {
        let c = &n.children[i];
        assert(c@ == kids[i as int]);
        if c.named && (kind_is(c, a) || kind_is(c, b)) {
            return Some(c);
        }
        i = i + 1;
    }
    None
}

} // verus!
