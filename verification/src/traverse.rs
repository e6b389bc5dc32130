//! The walk over a syntax tree shared by all tree-sitter analyzers.
//!
//! Every named node is offered to the language's classifier; a node that
//! becomes an outline item encloses the items found below it. Anonymous
//! nodes are not entered. For Rust, attribute items are not entered either:
//! a test attribute marks the next named sibling as a test.

use vstd::prelude::*;
use crate::model::{Node, NodeView};
use crate::query::{Source, SourceView, src_view, new_source, kind_is, opt_node_view, field_text};
use crate::syntax::{
    Grammar, SyntaxNode, SyntaxView, parsed_syntax, syntax_tree, syntax_entries, build_syntax_tree,
    node_text,
};
use crate::text::starts_with;
use crate::tree::{
    FlatItem, FlatItemView, items_view, outline_of, build_tree, flat_view, parents_precede, before,
    forest_size, law_outline_keeps_every_item,
};
use crate::rust::{rust_item, rust_node_from_ast, is_test_attribute, rust_is_test_attribute};
use crate::java::{java_item, java_node_from_ast};
use crate::javascript::{js_item, javascript_node_from_ast};
use crate::kotlin::{kotlin_item, kotlin_node_from_ast};
use crate::cpp::{cpp_item, cpp_node_from_ast};
use crate::objc::{objc_item, objc_node_from_ast};
use crate::swift::{swift_item, swift_node_from_ast};

verus! {

/// The language-specific rules that decide which syntax nodes are items.
#[derive(Clone, Copy, Debug, PartialEq, Eq, Structural)]
pub enum Classifier {
    Cpp,
    Java,
    JavaScript,
    Kotlin,
    ObjectiveC,
    Rust,
    Swift,
}

/// What the walk knows of a node's ancestors: whether one of them is a
/// C/C++ class, struct or union, and the nearest Kotlin class or object
/// declaration.
pub struct Ctx {
    pub in_type: bool,
    pub enclosing: Option<SyntaxView>,
}

/// A C/C++ type-defining node.
pub open spec fn is_type_kind(k: Seq<char>) -> bool {
    k == "class_specifier"@ || k == "struct_specifier"@ || k == "union_specifier"@
}

/// A Kotlin class or object declaration.
pub open spec fn is_class_kind(k: Seq<char>) -> bool {
    k == "class_declaration"@ || k == "object_declaration"@
}

/// The context of the children of `n`.
pub open spec fn descend(ctx: Ctx, n: SyntaxView) -> Ctx {
    Ctx {
        in_type: ctx.in_type || is_type_kind(n.kind),
        enclosing: if is_class_kind(n.kind) {
            Some(n)
        } else {
            ctx.enclosing
        },
    }
}

/// The outline node that the classifier makes of a syntax node.
pub open spec fn classify(c: Classifier, src: SourceView, n: SyntaxView, ctx: Ctx, test_attr: bool) -> Option<NodeView> {
    match c {
        Classifier::Cpp => cpp_item(src, n, ctx.in_type),
        Classifier::Java => java_item(src, n),
        Classifier::JavaScript => js_item(src, n),
        Classifier::Kotlin => kotlin_item(src, n, ctx.enclosing),
        Classifier::ObjectiveC => objc_item(src, n),
        Classifier::Rust => rust_item(src, n, test_attr),
        Classifier::Swift => swift_item(src, n),
    }
}

/// The items found in the subtree of `n`, appended to `items`; `parent`
/// is the index of the enclosing item.
pub open spec fn collect(
    c: Classifier,
    src: SourceView,
    n: SyntaxView,
    ctx: Ctx,
    test_attr: bool,
    parent: Option<usize>,
    items: Seq<FlatItemView>,
) -> Seq<FlatItemView>
    decreases n, 1int,
{
    match classify(c, src, n, ctx, test_attr) {
        Some(node) => collect_children(
            c,
            src,
            n.children,
            0,
            descend(ctx, n),
            false,
            Some(items.len() as usize),
            items.push(FlatItemView { parent, node }),
        ),
        None => collect_children(c, src, n.children, 0, descend(ctx, n), false, parent, items),
    }
}

/// The items found under the named children `kids[i..]`; `pending` tells
/// whether a test attribute came just before.
pub open spec fn collect_children(
    c: Classifier,
    src: SourceView,
    kids: Seq<SyntaxView>,
    i: int,
    ctx: Ctx,
    pending: bool,
    parent: Option<usize>,
    items: Seq<FlatItemView>,
) -> Seq<FlatItemView>
    decreases kids, kids.len() - i,
{
    if i < 0 || i >= kids.len() {
        items
    } else if !kids[i].named {
        collect_children(c, src, kids, i + 1, ctx, pending, parent, items)
    } else if c == Classifier::Rust && kids[i].kind == "attribute_item"@ {
        collect_children(c, src, kids, i + 1, ctx, is_test_attribute(src, kids[i]), parent, items)
    } else {
        collect_children(
            c,
            src,
            kids,
            i + 1,
            ctx,
            false,
            parent,
            collect(c, src, kids[i], ctx, pending, parent, items),
        )
    }
}

/// The number of nodes in the subtree of `n`.
pub open spec fn syntax_size(n: SyntaxView) -> nat
    decreases n, 1int,
{
    1 + syntax_kids_size(n.children, 0)
}

/// The number of nodes in the subtrees of `kids[i..]`.
pub open spec fn syntax_kids_size(kids: Seq<SyntaxView>, i: int) -> nat
    decreases kids, kids.len() - i,
{
    if i < 0 || i >= kids.len() {
        0
    } else {
        syntax_size(kids[i]) + syntax_kids_size(kids, i + 1)
    }
}

proof fn lemma_collect_precedes(
    c: Classifier,
    src: SourceView,
    n: SyntaxView,
    ctx: Ctx,
    test_attr: bool,
    parent: Option<usize>,
    items: Seq<FlatItemView>,
)
    requires
        parents_precede(items),
        before(parent, items.len() as int),
        items.len() + syntax_size(n) <= usize::MAX,
    ensures
        parents_precede(collect(c, src, n, ctx, test_attr, parent, items)),
        items.len() <= collect(c, src, n, ctx, test_attr, parent, items).len() <= items.len()
            + syntax_size(n),
    decreases n, 1int,
{
    match classify(c, src, n, ctx, test_attr) {
        Some(node) => {
            let pushed = items.push(FlatItemView { parent, node });
            assert forall|i: int| 0 <= i < pushed.len() implies match #[trigger] pushed[i].parent {
                Some(p) => p < i,
                None => true,
            } by {
                if i < items.len() {
                    assert(pushed[i] == items[i]);
                }
            }
            lemma_children_precede(
                c,
                src,
                n.children,
                0,
                descend(ctx, n),
                false,
                Some(items.len() as usize),
                pushed,
            );
        },
        None => {
            lemma_children_precede(c, src, n.children, 0, descend(ctx, n), false, parent, items);
        },
    }
}

proof fn lemma_children_precede(
    c: Classifier,
    src: SourceView,
    kids: Seq<SyntaxView>,
    i: int,
    ctx: Ctx,
    pending: bool,
    parent: Option<usize>,
    items: Seq<FlatItemView>,
)
    requires
        0 <= i,
        parents_precede(items),
        before(parent, items.len() as int),
        items.len() + syntax_kids_size(kids, i) <= usize::MAX,
    ensures
        parents_precede(collect_children(c, src, kids, i, ctx, pending, parent, items)),
        items.len() <= collect_children(c, src, kids, i, ctx, pending, parent, items).len()
            <= items.len() + syntax_kids_size(kids, i),
    decreases kids, kids.len() - i,
{
    if i < kids.len() {
        if !kids[i].named {
            lemma_children_precede(c, src, kids, i + 1, ctx, pending, parent, items);
        } else if c == Classifier::Rust && kids[i].kind == "attribute_item"@ {
            lemma_children_precede(c, src, kids, i + 1, ctx, is_test_attribute(src, kids[i]), parent, items);
        } else {
            lemma_collect_precedes(c, src, kids[i], ctx, pending, parent, items);
            let inner = collect(c, src, kids[i], ctx, pending, parent, items);
            lemma_children_precede(c, src, kids, i + 1, ctx, false, parent, inner);
        }
    }
}

/// No item found in a syntax tree is lost or repeated when the outline is
/// built: the outline holds exactly one node, at whatever depth, for each
/// syntax node that the classifier makes an item of.
pub proof fn law_syntax_outline_keeps_every_item(c: Classifier, src: SourceView, root: SyntaxView)
    requires
        syntax_size(root) <= usize::MAX,
    ensures
        forest_size(syntax_outline(c, src, root), 0) == collect(
            c,
            src,
            root,
            (Ctx { in_type: false, enclosing: None }),
            false,
            None,
            seq![],
        ).len(),
{
    let ctx = Ctx { in_type: false, enclosing: None };
    lemma_collect_precedes(c, src, root, ctx, false, None, seq![]);
    law_outline_keeps_every_item(collect(c, src, root, ctx, false, None, seq![]));
}

/// The index of the last named node among `kids[..i]`, if any.
pub open spec fn last_named_before(kids: Seq<SyntaxView>, i: int) -> Option<int>
    decreases i,
{
    if i <= 0 || i > kids.len() {
        None
    } else if kids[i - 1].named {
        Some(i - 1)
    } else {
        last_named_before(kids, i - 1)
    }
}

/// The named sibling just before `kids[i]` is an attribute item whose text
/// starts with `#[test` or `#[tokio::test`.
pub open spec fn marked_test(src: SourceView, kids: Seq<SyntaxView>, i: int) -> bool {
    match last_named_before(kids, i) {
        Some(j) => kids[j].kind == "attribute_item"@ && match node_text(src.text, kids[j]) {
            Some(t) => starts_with(t, "#[test"@) || starts_with(t, "#[tokio::test"@),
            None => false,
        },
        None => false,
    }
}

/// Where the walk over `kids` stands after its first `j` children: whether
/// a test attribute is pending, and the items found so far.
pub open spec fn walk_state(
    c: Classifier,
    src: SourceView,
    kids: Seq<SyntaxView>,
    j: int,
    ctx: Ctx,
    parent: Option<usize>,
    items: Seq<FlatItemView>,
) -> (bool, Seq<FlatItemView>)
    decreases j,
{
    if j <= 0 || j > kids.len() {
        (false, items)
    } else {
        let st = walk_state(c, src, kids, j - 1, ctx, parent, items);
        let k = kids[j - 1];
        if !k.named {
            st
        } else if c == Classifier::Rust && k.kind == "attribute_item"@ {
            (is_test_attribute(src, k), st.1)
        } else {
            (false, collect(c, src, k, ctx, st.0, parent, st.1))
        }
    }
}

proof fn lemma_walk(
    c: Classifier,
    src: SourceView,
    kids: Seq<SyntaxView>,
    j: int,
    ctx: Ctx,
    parent: Option<usize>,
    items: Seq<FlatItemView>,
)
    requires
        0 <= j <= kids.len(),
    ensures
        collect_children(c, src, kids, 0, ctx, false, parent, items) == collect_children(
            c,
            src,
            kids,
            j,
            ctx,
            walk_state(c, src, kids, j, ctx, parent, items).0,
            parent,
            walk_state(c, src, kids, j, ctx, parent, items).1,
        ),
    decreases j,
{
    if j > 0 {
        lemma_walk(c, src, kids, j - 1, ctx, parent, items);
    }
}

proof fn lemma_walk_agree(
    c: Classifier,
    src: SourceView,
    k1: Seq<SyntaxView>,
    k2: Seq<SyntaxView>,
    j: int,
    ctx: Ctx,
    parent: Option<usize>,
    items: Seq<FlatItemView>,
)
    requires
        0 <= j <= k1.len(),
        j <= k2.len(),
        forall|m: int| 0 <= m < j ==> k1[m] == k2[m],
    ensures
        walk_state(c, src, k1, j, ctx, parent, items) == walk_state(c, src, k2, j, ctx, parent, items),
        last_named_before(k1, j) == last_named_before(k2, j),
    decreases j,
{
    if j > 0 {
        lemma_walk_agree(c, src, k1, k2, j - 1, ctx, parent, items);
    }
}

proof fn lemma_walk_pending(
    src: SourceView,
    kids: Seq<SyntaxView>,
    j: int,
    ctx: Ctx,
    parent: Option<usize>,
    items: Seq<FlatItemView>,
)
    requires
        0 <= j <= kids.len(),
    ensures
        walk_state(Classifier::Rust, src, kids, j, ctx, parent, items).0 == marked_test(src, kids, j),
    decreases j,
{
    if j > 0 {
        lemma_walk_pending(src, kids, j - 1, ctx, parent, items);
    }
}

proof fn lemma_collect_prefix(
    c: Classifier,
    src: SourceView,
    n: SyntaxView,
    ctx: Ctx,
    test_attr: bool,
    parent: Option<usize>,
    items: Seq<FlatItemView>,
)
    ensures
        collect(c, src, n, ctx, test_attr, parent, items).len() >= items.len(),
        forall|m: int|
            0 <= m < items.len() ==> #[trigger] collect(c, src, n, ctx, test_attr, parent, items)[m] == items[m],
    decreases n, 1int,
{
    match classify(c, src, n, ctx, test_attr) {
        Some(node) => {
            let pushed = items.push(FlatItemView { parent, node });
            lemma_children_prefix(c, src, n.children, 0, descend(ctx, n), false, Some(items.len() as usize), pushed);
            assert forall|m: int| 0 <= m < items.len() implies #[trigger] collect(c, src, n, ctx, test_attr, parent, items)[m]
                == items[m] by {
                assert(pushed[m] == items[m]);
            }
        },
        None => {
            lemma_children_prefix(c, src, n.children, 0, descend(ctx, n), false, parent, items);
        },
    }
}

proof fn lemma_children_prefix(
    c: Classifier,
    src: SourceView,
    kids: Seq<SyntaxView>,
    i: int,
    ctx: Ctx,
    pending: bool,
    parent: Option<usize>,
    items: Seq<FlatItemView>,
)
    ensures
        collect_children(c, src, kids, i, ctx, pending, parent, items).len() >= items.len(),
        forall|m: int|
            0 <= m < items.len() ==> #[trigger] collect_children(c, src, kids, i, ctx, pending, parent, items)[m]
                == items[m],
    decreases kids, kids.len() - i,
{
    if 0 <= i < kids.len() {
        if !kids[i].named {
            lemma_children_prefix(c, src, kids, i + 1, ctx, pending, parent, items);
        } else if c == Classifier::Rust && kids[i].kind == "attribute_item"@ {
            lemma_children_prefix(c, src, kids, i + 1, ctx, is_test_attribute(src, kids[i]), parent, items);
        } else {
            lemma_collect_prefix(c, src, kids[i], ctx, pending, parent, items);
            let inner = collect(c, src, kids[i], ctx, pending, parent, items);
            lemma_children_prefix(c, src, kids, i + 1, ctx, false, parent, inner);
            assert forall|m: int| 0 <= m < items.len() implies #[trigger] collect_children(c, src, kids, i, ctx, pending, parent, items)[m]
                == items[m] by {
                assert(inner[m] == items[m]);
            }
        }
    }
}

/// A Rust function item among siblings becomes a `test` exactly when the
/// named sibling just before it is an attribute item whose text starts
/// with `#[test` or `#[tokio::test`, and a `function` otherwise (a test
/// attribute marks one item only). Walking the siblings up to it and then
/// through it, the first item that it adds is its own, under its name.
pub proof fn law_rust_test_marks(
    src: SourceView,
    kids: Seq<SyntaxView>,
    i: int,
    ctx: Ctx,
    parent: Option<usize>,
    items: Seq<FlatItemView>,
)
    requires
        0 <= i < kids.len(),
        kids[i].named,
        kids[i].kind == "function_item"@,
        field_text(src.text, kids[i], "name"@) is Some,
    ensures
        collect_children(Classifier::Rust, src, kids.take(i), 0, ctx, false, parent, items).len()
            < collect_children(Classifier::Rust, src, kids.take(i + 1), 0, ctx, false, parent, items).len(),
        collect_children(Classifier::Rust, src, kids.take(i + 1), 0, ctx, false, parent, items)[collect_children(
            Classifier::Rust,
            src,
            kids.take(i),
            0,
            ctx,
            false,
            parent,
            items,
        ).len() as int].node.kind == if marked_test(src, kids, i) {
            "test"@
        } else {
            "function"@
        },
        collect_children(Classifier::Rust, src, kids.take(i + 1), 0, ctx, false, parent, items)[collect_children(
            Classifier::Rust,
            src,
            kids.take(i),
            0,
            ctx,
            false,
            parent,
            items,
        ).len() as int].node.name == field_text(src.text, kids[i], "name"@),
{
    reveal_strlit("function_item");
    assert("function_item"@.len() == 13);
    reveal_strlit("attribute_item");
    assert("attribute_item"@.len() == 14);
    reveal_strlit("mod_item");
    assert("mod_item"@.len() == 8);
    reveal_strlit("struct_item");
    assert("struct_item"@.len() == 11);
    reveal_strlit("enum_item");
    assert("enum_item"@.len() == 9);
    reveal_strlit("trait_item");
    assert("trait_item"@.len() == 10);
    reveal_strlit("impl_item");
    assert("impl_item"@.len() == 9);
    let c = Classifier::Rust;
    let k1 = kids.take(i);
    let k2 = kids.take(i + 1);
    lemma_walk(c, src, k1, i, ctx, parent, items);
    lemma_walk(c, src, k2, i, ctx, parent, items);
    lemma_walk_agree(c, src, k1, k2, i, ctx, parent, items);
    lemma_walk_agree(c, src, k2, kids, i, ctx, parent, items);
    lemma_walk_pending(src, kids, i, ctx, parent, items);
    let st = walk_state(c, src, kids, i, ctx, parent, items);
    assert(k2[i] == kids[i]);
    let n = kids[i];
    assert(n.kind != "attribute_item"@);
    let node = classify(c, src, n, ctx, st.0)->0;
    assert(classify(c, src, n, ctx, st.0) is Some);
    let pushed = st.1.push(FlatItemView { parent, node });
    lemma_children_prefix(c, src, n.children, 0, descend(ctx, n), false, Some(st.1.len() as usize), pushed);
    assert(collect_children(c, src, k2, i, ctx, st.0, parent, st.1) == collect_children(
        c, src, k2, i + 1, ctx, false, parent, collect(c, src, n, ctx, st.0, parent, st.1)));
    assert(pushed[st.1.len() as int] == FlatItemView { parent, node });
}

/// The outline of a syntax tree.
pub open spec fn syntax_outline(c: Classifier, src: SourceView, root: SyntaxView) -> Seq<NodeView> {
    outline_of(collect(c, src, root, Ctx { in_type: false, enclosing: None }, false, None, seq![]))
}

/// The outline of `source` parsed with `grammar`: empty when tree-sitter
/// yields no tree.
pub open spec fn tree_sitter_outline(g: Grammar, c: Classifier, source: Seq<char>, plen: nat) -> Seq<NodeView> {
    match parsed_syntax(g, source) {
        Some(es) => match syntax_tree(es) {
            Some(root) => syntax_outline(
                c,
                SourceView { text: source, lines: crate::text::lines(source), plen },
                root,
            ),
            None => seq![],
        },
        None => seq![],
    }
}

/// The view of an optional enclosing node.
pub open spec fn opt_syntax(o: Option<&SyntaxNode>) -> Option<SyntaxView> {
    match o {
        Some(n) => Some(n@),
        None => None,
    }
}

fn classify_exec(c: Classifier, src: &Source, n: &SyntaxNode, in_type: bool, enclosing: Option<&SyntaxNode>, test_attr: bool) -> (r: Option<Node>)
    ensures
        opt_node_view(r) == classify(c, src_view(src), n@, Ctx { in_type, enclosing: opt_syntax(enclosing) }, test_attr),
{
    match c {
        Classifier::Cpp => cpp_node_from_ast(src, n, in_type),
        Classifier::Java => java_node_from_ast(src, n),
        Classifier::JavaScript => javascript_node_from_ast(src, n),
        Classifier::Kotlin => kotlin_node_from_ast(src, n, enclosing),
        Classifier::ObjectiveC => objc_node_from_ast(src, n),
        Classifier::Rust => rust_node_from_ast(src, n, test_attr),
        Classifier::Swift => swift_node_from_ast(src, n),
    }
}

fn is_type_kind_exec(n: &SyntaxNode) -> (r: bool)
    ensures
        r == is_type_kind(n@.kind),
{
    kind_is(n, "class_specifier") || kind_is(n, "struct_specifier") || kind_is(n, "union_specifier")
}

fn is_class_kind_exec(n: &SyntaxNode) -> (r: bool)
    ensures
        r == is_class_kind(n@.kind),
{
    kind_is(n, "class_declaration") || kind_is(n, "object_declaration")
}

/// Walks the subtree of `n`, appending the items found.
fn collect_items<'a>(
    c: Classifier,
    src: &Source,
    n: &'a SyntaxNode,
    in_type: bool,
    enclosing: Option<&'a SyntaxNode>,
    test_attr: bool,
    parent: Option<usize>,
    items: &mut Vec<FlatItem>,
)
    ensures
        items_view(final(items)@) == collect(
            c,
            src_view(src),
            n@,
            Ctx { in_type, enclosing: opt_syntax(enclosing) },
            test_attr,
            parent,
            items_view(old(items)@),
        ),
    decreases n, 1int,
{
    let ghost sv = src_view(src);
    let ghost ctx = Ctx { in_type, enclosing: opt_syntax(enclosing) };
    let current = match classify_exec(c, src, n, in_type, enclosing, test_attr) {
        Some(node) => {
            let index = items.len();
            let ghost before = items_view(items@);
            items.push(FlatItem { parent, node });
            proof {
                assert(items_view(items@) =~= before.push(flat_view(FlatItem { parent, node })));
            }
            Some(index)
        },
        None => parent,
    };
    let child_in_type = in_type || is_type_kind_exec(n);
    let child_enclosing = if is_class_kind_exec(n) {
        Some(n)
    } else {
        enclosing
    };
    let ghost cctx = descend(ctx, n@);
    assert(opt_syntax(child_enclosing) == cctx.enclosing);
    let ghost kids = n@.children;
    let ghost start = items_view(items@);
    let mut pending = false;
    let mut i: usize = 0;
    while i < n.children.len()
        invariant
            i <= n.children@.len(),
            kids == n@.children,
            kids.len() == n.children@.len(),
            sv == src_view(src),
            cctx == (Ctx { in_type: child_in_type, enclosing: opt_syntax(child_enclosing) }),
            collect(c, sv, n@, ctx, test_attr, parent, items_view(old(items)@))
                == collect_children(c, sv, kids, 0, cctx, false, current, start),
            collect_children(c, sv, kids, 0, cctx, false, current, start)
                == collect_children(c, sv, kids, i as int, cctx, pending, current, items_view(items@)),
        decreases n.children@.len() - i,
    {
        let child = &n.children[i];
        assert(child@ == kids[i as int]);
        if !child.named {
        } else if c == Classifier::Rust && kind_is(child, "attribute_item") {
            pending = rust_is_test_attribute(src, child);
        } else {
            proof {
                assert(decreases_to!(n => n.children));
                assert(decreases_to!(n.children => n.children@));
                assert(decreases_to!(n.children@ => n.children@[i as int]));
            }
            collect_items(c, src, child, child_in_type, child_enclosing, pending, current, items);
            pending = false;
        }
        i = i + 1;
    }
}

/// The outline of a syntax tree of `source`, found with classifier `c`,
/// with previews of at most `preview_len` characters.
pub fn outline_syntax(c: Classifier, root: &SyntaxNode, source: &str, preview_len: usize) -> (r: Vec<Node>)
    ensures
        crate::model::nodes_view(r@) == syntax_outline(
            c,
            SourceView { text: source@, lines: crate::text::lines(source@), plen: preview_len as nat },
            root@,
        ),
{
    let src = new_source(source, preview_len);
    let mut items: Vec<FlatItem> = Vec::new();
    proof {
        assert(items_view(items@) =~= Seq::<FlatItemView>::empty());
    }
    collect_items(c, &src, root, false, None, false, None, &mut items);
    build_tree(&items)
}

/// Parses `source` with `grammar` and returns its outline found with
/// classifier `c`; empty when tree-sitter yields no tree.
pub fn analyze_tree_sitter(grammar: Grammar, c: Classifier, source: &str, preview_len: usize) -> (r: Vec<Node>)
    ensures
        crate::model::nodes_view(r@) == tree_sitter_outline(grammar, c, source@, preview_len as nat),
{
    let entries = match syntax_entries(grammar, source) {
        Some(es) => es,
        None => {
            return Vec::new();
        },
    };
    match build_syntax_tree(&entries) {
        Some(root) => outline_syntax(c, &root, source, preview_len),
        None => Vec::new(),
    }
}

} // verus!
