//! The structure view that every analyzer produces: languages, outline
//! nodes with their line ranges, and rendering options.

use vstd::prelude::*;

verus! {

/// The languages that a file can be analyzed as.
#[derive(Clone, Copy, Debug, PartialEq, Eq, Structural)]
pub enum Language {
    C,
    Cpp,
    Java,
    JavaScript,
    Kotlin,
    Markdown,
    ObjectiveC,
    Rust,
    Swift,
    TypeScript,
    Tsx,
    Unknown,
}

/// One outline entry: a structural item with its 1-based inclusive line range.
#[derive(Debug)]
pub struct Node {
    pub kind: String,
    pub level: Option<usize>,
    pub name: Option<String>,
    pub start_line: usize,
    pub end_line: usize,
    pub preview: Option<String>,
    pub children: Vec<Node>,
}

/// The outline of one file.
#[derive(Debug)]
pub struct StructureView {
    pub path: String,
    pub language: Language,
    pub nodes: Vec<Node>,
}

/// Limits applied when an outline is rendered as text.
#[derive(Clone, Copy, Debug)]
pub struct RenderOptions {
    pub max_depth: Option<usize>,
    pub max_nodes: usize,
}

/// The mathematical content of a [`Node`].
#[verifier::ext_equal]
pub struct NodeView {
    pub kind: Seq<char>,
    pub level: Option<usize>,
    pub name: Option<Seq<char>>,
    pub start_line: usize,
    pub end_line: usize,
    pub preview: Option<Seq<char>>,
    pub children: Seq<NodeView>,
}

/// The characters of an optional string.
pub open spec fn opt_view(o: Option<String>) -> Option<Seq<char>> {
    match o {
        Some(s) => Some(s@),
        None => None,
    }
}

/// The view of a node, its children included.
pub open spec fn node_view(n: Node) -> NodeView
    decreases n,
{
    NodeView {
        kind: n.kind@,
        level: n.level,
        name: opt_view(n.name),
        start_line: n.start_line,
        end_line: n.end_line,
        preview: opt_view(n.preview),
        children: Seq::new(
            n.children@.len(),
            |i: int|
                if 0 <= i < n.children@.len() {
                    node_view(n.children@[i])
                } else {
                    arbitrary()
                },
        ),
    }
}

/// The views of a list of nodes.
pub open spec fn nodes_view(ns: Seq<Node>) -> Seq<NodeView> {
    Seq::new(ns.len(), |i: int| node_view(ns[i]))
}

impl View for Node {
    type V = NodeView;

    open spec fn view(&self) -> NodeView {
        node_view(*self)
    }
}

/// The same node with other children.
pub open spec fn with_children(n: NodeView, children: Seq<NodeView>) -> NodeView {
    NodeView { children, ..n }
}

/// A node without children.
pub open spec fn leaf(
    kind: Seq<char>,
    level: Option<usize>,
    name: Option<Seq<char>>,
    start_line: usize,
    end_line: usize,
    preview: Option<Seq<char>>,
) -> NodeView {
    NodeView { kind, level, name, start_line, end_line, preview, children: seq![] }
}

/// A copy of an optional string.
pub fn copy_opt_string(o: &Option<String>) -> (r: Option<String>)
    ensures
        opt_view(r) == opt_view(*o),
{
    match o {
        Some(s) => Some(s.clone()),
        None => None,
    }
}

/// A node without children built from its parts.
pub fn new_leaf(
    kind: String,
    level: Option<usize>,
    name: Option<String>,
    start_line: usize,
    end_line: usize,
    preview: Option<String>,
) -> (r: Node)
    ensures
        r@ == leaf(kind@, level, opt_view(name), start_line, end_line, opt_view(preview)),
{
    let r = Node { kind, level, name, start_line, end_line, preview, children: Vec::new() };
    proof {
        assert(r@.children =~= Seq::<NodeView>::empty());
    }
    r
}

} // verus!
