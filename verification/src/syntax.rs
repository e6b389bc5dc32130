//! Syntax trees from tree-sitter, held as plain values.
//!
//! Tree-sitter parses the source; its nodes are read out, in pre-order and
//! with their depths, into [`SyntaxEntry`] values, from which the nested
//! [`SyntaxNode`] tree that the analyzers walk is rebuilt.

use vstd::prelude::*;
use vstd::string::StringSliceAdditionalSpecFns;
use vstd::utf8::{decode_utf8, encode_utf8, is_char_boundary, valid_utf8};

verus! {

broadcast use {vstd::utf8::encode_utf8_valid_utf8, vstd::utf8::encode_utf8_decode_utf8};

/// A parsed tree-sitter syntax tree.
#[verifier::external_type_specification]
#[verifier::external_body]
pub struct ExTree(tree_sitter::Tree);

/// The tree-sitter grammars that the analyzers use.
#[derive(Clone, Copy, Debug, PartialEq, Eq, Structural)]
pub enum Grammar {
    C,
    Cpp,
    Java,
    JavaScript,
    Kotlin,
    ObjectiveC,
    Rust,
    Swift,
    TypeScript,
    Tsx,
}

/// One node of a syntax tree as read in pre-order: its depth below the
/// root, type, the field under which it sits in its parent, whether it is
/// named, and its position as rows/columns and byte offsets.
pub struct SyntaxEntry {
    pub depth: usize,
    pub kind: String,
    pub field: Option<String>,
    pub named: bool,
    pub start_row: usize,
    pub start_column: usize,
    pub end_row: usize,
    pub end_column: usize,
    pub start_byte: usize,
    pub end_byte: usize,
}

/// The mathematical content of a [`SyntaxEntry`].
pub struct SyntaxEntryView {
    pub depth: usize,
    pub kind: Seq<char>,
    pub field: Option<Seq<char>>,
    pub named: bool,
    pub start_row: usize,
    pub start_column: usize,
    pub end_row: usize,
    pub end_column: usize,
    pub start_byte: usize,
    pub end_byte: usize,
}

/// The characters of an optional string.
pub open spec fn field_view(o: Option<String>) -> Option<Seq<char>> {
    match o {
        Some(s) => Some(s@),
        None => None,
    }
}

impl View for SyntaxEntry {
    type V = SyntaxEntryView;

    open spec fn view(&self) -> SyntaxEntryView {
        SyntaxEntryView {
            depth: self.depth,
            kind: self.kind@,
            field: field_view(self.field),
            named: self.named,
            start_row: self.start_row,
            start_column: self.start_column,
            end_row: self.end_row,
            end_column: self.end_column,
            start_byte: self.start_byte,
            end_byte: self.end_byte,
        }
    }
}

/// The views of a list of entries.
pub open spec fn entries_view(es: Seq<SyntaxEntry>) -> Seq<SyntaxEntryView> {
    Seq::new(es.len(), |i: int| es[i]@)
}

/// What tree-sitter makes of `source` with `grammar`: the nodes of the
/// syntax tree in pre-order, or `None` when it yields no tree.
pub uninterp spec fn parsed_syntax(grammar: Grammar, source: Seq<char>) -> Option<Seq<SyntaxEntryView>>;

/// The nodes that a tree holds, root first, in the pre-order in which a
/// tree cursor numbers its descendants.
pub uninterp spec fn tree_entries(tree: tree_sitter::Tree) -> Seq<SyntaxEntryView>;

/// Parses `source` with the tree-sitter grammar named by `grammar`
/// (`Parser::new`, `Parser::set_language`, `Parser::parse`). The contract
/// claims only that the tree, if any, holds the nodes that the name
/// `parsed_syntax` stands for; tree-sitter's parse itself is not stated.
#[verifier::external_body]
fn parse(grammar: Grammar, source: &str) -> (r: Option<tree_sitter::Tree>)
    ensures
        match r {
            Some(t) => parsed_syntax(grammar, source@) == Some(tree_entries(t)),
            None => parsed_syntax(grammar, source@) is None,
        },
{
    let language: tree_sitter::Language = match grammar {
        Grammar::C => tree_sitter_c::LANGUAGE, Grammar::Cpp => tree_sitter_cpp::LANGUAGE,
        Grammar::Java => tree_sitter_java::LANGUAGE, Grammar::Kotlin => tree_sitter_kotlin_sg::LANGUAGE,
        Grammar::JavaScript => tree_sitter_javascript::LANGUAGE, Grammar::Rust => tree_sitter_rust::LANGUAGE,
        Grammar::ObjectiveC => tree_sitter_objc::LANGUAGE, Grammar::Swift => tree_sitter_swift::LANGUAGE,
        Grammar::TypeScript => tree_sitter_typescript::LANGUAGE_TYPESCRIPT,
        Grammar::Tsx => tree_sitter_typescript::LANGUAGE_TSX,
    }.into();
    let mut parser = tree_sitter::Parser::new();
    parser.set_language(&language).ok()?;
    parser.parse(source, None)
}

/// `Node::descendant_count` of the root: the number of nodes in the tree,
/// the root included.
#[verifier::external_body]
fn descendant_count(tree: &tree_sitter::Tree) -> (n: usize)
    ensures
        n == tree_entries(*tree).len(),
{
    tree.root_node().descendant_count()
}

/// The node with pre-order number `index`, read through a tree cursor
/// (`TreeCursor::goto_descendant`, then the cursor's depth and field name
/// and the node's kind, namedness and positions).
#[verifier::external_body]
fn entry_at(tree: &tree_sitter::Tree, index: usize) -> (e: SyntaxEntry)
    requires
        index < tree_entries(*tree).len(),
    ensures
        e@ == tree_entries(*tree)[index as int],
{
    let mut cursor = tree.walk();
    cursor.goto_descendant(index);
    let node = cursor.node();
    let (start, end) = (node.start_position(), node.end_position());
    SyntaxEntry {
        depth: cursor.depth() as usize, kind: node.kind().to_string(),
        field: cursor.field_name().map(|f| f.to_string()), named: node.is_named(),
        start_row: start.row, start_column: start.column, end_row: end.row, end_column: end.column,
        start_byte: node.start_byte(), end_byte: node.end_byte(),
    }
}

/// The pre-order node list of `source` parsed with `grammar`.
pub fn syntax_entries(grammar: Grammar, source: &str) -> (r: Option<Vec<SyntaxEntry>>)
    ensures
        match r {
            Some(v) => parsed_syntax(grammar, source@) == Some(entries_view(v@)),
            None => parsed_syntax(grammar, source@) is None,
        },
{
    let tree = match parse(grammar, source) {
        Some(t) => t,
        None => {
            return None;
        },
    };
    let n = descendant_count(&tree);
    let mut out: Vec<SyntaxEntry> = Vec::new();
    let mut i: usize = 0;
    while i < n
        invariant
            i <= n == tree_entries(tree).len(),
            entries_view(out@) == tree_entries(tree).take(i as int),
        decreases n - i,
    {
        let e = entry_at(&tree, i);
        let ghost before = entries_view(out@);
        out.push(e);
        proof {
            assert(entries_view(out@) =~= before.push(e@));
            assert(entries_view(out@) =~= tree_entries(tree).take(i + 1));
        }
        i = i + 1;
    }
    proof {
        assert(tree_entries(tree).take(n as int) =~= tree_entries(tree));
    }
    Some(out)
}

/// A syntax tree node with its children, as the analyzers read it.
pub struct SyntaxNode {
    pub kind: String,
    pub field: Option<String>,
    pub named: bool,
    pub start_row: usize,
    pub start_column: usize,
    pub end_row: usize,
    pub end_column: usize,
    pub start_byte: usize,
    pub end_byte: usize,
    pub children: Vec<SyntaxNode>,
}

/// The mathematical content of a [`SyntaxNode`].
#[verifier::ext_equal]
pub struct SyntaxView {
    pub kind: Seq<char>,
    pub field: Option<Seq<char>>,
    pub named: bool,
    pub start_row: usize,
    pub start_column: usize,
    pub end_row: usize,
    pub end_column: usize,
    pub start_byte: usize,
    pub end_byte: usize,
    pub children: Seq<SyntaxView>,
}

/// The view of a syntax node, its children included.
pub open spec fn syntax_view(n: SyntaxNode) -> SyntaxView
    decreases n,
{
    SyntaxView {
        kind: n.kind@,
        field: field_view(n.field),
        named: n.named,
        start_row: n.start_row,
        start_column: n.start_column,
        end_row: n.end_row,
        end_column: n.end_column,
        start_byte: n.start_byte,
        end_byte: n.end_byte,
        children: Seq::new(
            n.children@.len(),
            |i: int|
                if 0 <= i < n.children@.len() {
                    syntax_view(n.children@[i])
                } else {
                    arbitrary()
                },
        ),
    }
}

/// The views of a list of syntax nodes.
pub open spec fn syntax_views(ns: Seq<SyntaxNode>) -> Seq<SyntaxView> {
    Seq::new(ns.len(), |i: int| syntax_view(ns[i]))
}

impl View for SyntaxNode {
    type V = SyntaxView;

    open spec fn view(&self) -> SyntaxView {
        syntax_view(*self)
    }
}

/// The node that an entry describes, with the given children.
pub open spec fn node_of(e: SyntaxEntryView, children: Seq<SyntaxView>) -> SyntaxView {
    SyntaxView {
        kind: e.kind,
        field: e.field,
        named: e.named,
        start_row: e.start_row,
        start_column: e.start_column,
        end_row: e.end_row,
        end_column: e.end_column,
        start_byte: e.start_byte,
        end_byte: e.end_byte,
        children,
    }
}

/// The sibling nodes at `depth` that the pre-order list holds from `pos`
/// on, each with the deeper entries after it as its descendants, and the
/// position where that run of siblings ends.
pub open spec fn syntax_forest(es: Seq<SyntaxEntryView>, pos: int, depth: nat) -> (Seq<SyntaxView>, int)
    decreases es.len() - pos,
{
    if pos < 0 || pos >= es.len() || es[pos].depth as nat != depth {
        (seq![], pos)
    } else {
        let kids = syntax_forest(es, pos + 1, depth + 1);
        let node = node_of(es[pos], kids.0);
        if kids.1 <= pos || kids.1 > es.len() {
            (seq![node], pos + 1)
        } else {
            let rest = syntax_forest(es, kids.1, depth);
            (seq![node] + rest.0, rest.1)
        }
    }
}

/// The tree that a pre-order node list describes: its first entry is the
/// root.
pub open spec fn syntax_tree(es: Seq<SyntaxEntryView>) -> Option<SyntaxView> {
    if es.len() == 0 {
        None
    } else {
        Some(node_of(es[0], syntax_forest(es, 1, es[0].depth as nat + 1).0))
    }
}

proof fn lemma_forest_bounds(es: Seq<SyntaxEntryView>, pos: int, depth: nat)
    requires
        0 <= pos <= es.len(),
    ensures
        pos <= syntax_forest(es, pos, depth).1 <= es.len(),
    decreases es.len() - pos,
{
    if pos < es.len() && es[pos].depth as nat == depth {
        lemma_forest_bounds(es, pos + 1, depth + 1);
        let kids = syntax_forest(es, pos + 1, depth + 1);
        if kids.1 > pos {
            lemma_forest_bounds(es, kids.1, depth);
        }
    }
}

fn copy_field(o: &Option<String>) -> (r: Option<String>)
    ensures
        field_view(r) == field_view(*o),
{
    match o {
        Some(s) => Some(s.clone()),
        None => None,
    }
}

/// The siblings at `depth` listed from `pos` on, and where they end.
fn build_forest(es: &Vec<SyntaxEntry>, pos: usize, depth: usize) -> (r: (Vec<SyntaxNode>, usize))
    requires
        pos <= es@.len(),
    ensures
        syntax_views(r.0@) == syntax_forest(entries_view(es@), pos as int, depth as nat).0,
        r.1 as int == syntax_forest(entries_view(es@), pos as int, depth as nat).1,
    decreases es@.len() - pos,
{
    let ghost ev = entries_view(es@);
    let mut out: Vec<SyntaxNode> = Vec::new();
    let mut p = pos;
    proof {
        assert(syntax_views(out@) + syntax_forest(ev, pos as int, depth as nat).0 =~= syntax_forest(ev, pos as int, depth as nat).0);
    }
    loop
        invariant
            pos <= p <= es@.len(),
            ev == entries_view(es@),
            syntax_forest(ev, pos as int, depth as nat) == (
                syntax_views(out@) + syntax_forest(ev, p as int, depth as nat).0,
                syntax_forest(ev, p as int, depth as nat).1,
            ),
        decreases es@.len() - p,
    {
        if p >= es.len() || es[p].depth != depth {
            proof {
                assert(syntax_views(out@) + Seq::<SyntaxView>::empty() =~= syntax_views(out@));
            }
            return (out, p);
        }
        let e = &es[p];
        assert(ev[p as int] == e@);
        let (kids, next) = if depth < usize::MAX {
            build_forest(es, p + 1, depth + 1)
        } else {
            proof {
                if p + 1 < es@.len() {
                    assert(ev[p + 1].depth as nat != depth as nat + 1);
                }
            }
            (Vec::new(), p + 1)
        };
        proof {
            lemma_forest_bounds(ev, p + 1, depth as nat + 1);
            assert(syntax_views(kids@) =~= syntax_forest(ev, p + 1, depth as nat + 1).0);
        }
        let node = SyntaxNode {
            kind: e.kind.clone(),
            field: copy_field(&e.field),
            named: e.named,
            start_row: e.start_row,
            start_column: e.start_column,
            end_row: e.end_row,
            end_column: e.end_column,
            start_byte: e.start_byte,
            end_byte: e.end_byte,
            children: kids,
        };
        let ghost before = syntax_views(out@);
        proof {
            assert(syntax_view(node).children =~= syntax_views(kids@));
            assert(syntax_view(node) =~= node_of(ev[p as int], syntax_views(kids@)));
        }
        out.push(node);
        proof {
            assert(syntax_views(out@) =~= before.push(syntax_view(node)));
        }
        if next <= p {
            proof {
                assert(syntax_views(out@) + Seq::<SyntaxView>::empty() =~= syntax_views(out@));
                assert(before + seq![syntax_view(node)] =~= syntax_views(out@));
            }
            return (out, p + 1);
        }
        proof {
            let rest = syntax_forest(ev, next as int, depth as nat);
            assert(before + (seq![syntax_view(node)] + rest.0) =~= syntax_views(out@) + rest.0);
        }
        p = next;
    }
}

/// The tree that a pre-order node list describes.
pub fn build_syntax_tree(es: &Vec<SyntaxEntry>) -> (r: Option<SyntaxNode>)
    ensures
        match r {
            Some(t) => syntax_tree(entries_view(es@)) == Some(t@),
            None => syntax_tree(entries_view(es@)) is None,
        },
{
    if es.len() == 0 {
        return None;
    }
    let e = &es[0];
    let ghost ev = entries_view(es@);
    assert(ev[0] == e@);
    let (kids, _) = if e.depth < usize::MAX {
        build_forest(es, 1, e.depth + 1)
    } else {
        proof {
            if 1 < es@.len() {
                assert(ev[1].depth as nat != e.depth as nat + 1);
            }
            assert(syntax_forest(ev, 1, ev[0].depth as nat + 1).0 =~= Seq::<SyntaxView>::empty());
        }
        (Vec::new(), 1)
    };
    assert(syntax_views(kids@) =~= syntax_forest(ev, 1, ev[0].depth as nat + 1).0);
    let node = SyntaxNode {
        kind: e.kind.clone(),
        field: copy_field(&e.field),
        named: e.named,
        start_row: e.start_row,
        start_column: e.start_column,
        end_row: e.end_row,
        end_column: e.end_column,
        start_byte: e.start_byte,
        end_byte: e.end_byte,
        children: kids,
    };
    proof {
        assert(syntax_view(node).children =~= syntax_views(kids@));
        assert(syntax_view(node) =~= node_of(ev[0], syntax_forest(ev, 1, ev[0].depth as nat + 1).0));
    }
    Some(node)
}

/// The text of the bytes `start..end` of a source whose UTF-8 encoding is
/// `bytes`, when both ends fall on character boundaries (an empty range
/// always has text).
pub open spec fn text_in(bytes: Seq<u8>, start: int, end: int) -> Option<Seq<char>> {
    if start == end && 0 <= start <= bytes.len() {
        Some(seq![])
    } else if 0 <= start <= end <= bytes.len() && is_char_boundary(bytes, start)
        && is_char_boundary(bytes, end) {
        Some(decode_utf8(bytes.subrange(start, end)))
    } else {
        None
    }
}

/// The text a syntax node spans in `source`.
pub open spec fn node_text(source: Seq<char>, n: SyntaxView) -> Option<Seq<char>> {
    text_in(encode_utf8(source), n.start_byte as int, n.end_byte as int)
}

proof fn lemma_prefix_boundary(bytes: Seq<u8>, start: int, end: int)
    requires
        valid_utf8(bytes),
        valid_utf8(bytes.take(end)),
        0 <= start <= end <= bytes.len(),
        is_char_boundary(bytes, start),
    ensures
        is_char_boundary(bytes.take(end), start),
{
    vstd::utf8::is_char_boundary_start_end_of_seq(bytes.take(end));
    if 0 < start < end {
        vstd::utf8::is_char_boundary_iff_not_is_continuation_byte(bytes, start);
        vstd::utf8::is_char_boundary_iff_not_is_continuation_byte(bytes.take(end), start);
    }
}

/// The text a syntax node spans in `source`.
pub fn text_of(source: &str, n: &SyntaxNode) -> (r: Option<String>)
    ensures
        field_view(r) == node_text(source@, n@),
{
    let start = n.start_byte;
    let end = n.end_byte;
    let len = source.as_bytes().len();
    proof {
        assert(source.spec_bytes() == encode_utf8(source@));
    }
    if start == end && start <= len {
        return Some(String::new());
    }
    if start <= end && end <= len && source.is_char_boundary(start)
        && source.is_char_boundary(end) {
        let (head, _) = source.split_at(end);
        proof {
            assert(head.spec_bytes() == encode_utf8(head@));
            lemma_prefix_boundary(source.spec_bytes(), start as int, end as int);
        }
        let (_, mid) = head.split_at(start);
        proof {
            assert(mid.spec_bytes() =~= source.spec_bytes().subrange(start as int, end as int));
            assert(decode_utf8(encode_utf8(mid@)) == mid@);
        }
        return Some(mid.to_owned());
    }
    proof {
        let bytes = encode_utf8(source@);
        assert(valid_utf8(bytes));
        if 0 <= start <= end <= bytes.len() {
            assert(is_char_boundary(bytes, start as int) == source.is_char_boundary(start));
            assert(is_char_boundary(bytes, end as int) == source.is_char_boundary(end));
        }
        assert(len == bytes.len());
        assert(n@.start_byte == start && n@.end_byte == end);
        assert(text_in(bytes, start as int, end as int) is None);
    }
    None
}

} // verus!
