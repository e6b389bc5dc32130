//! Rust outlines: modules, structs, enums, traits, impl blocks, functions
//! and tests (functions under a `#[test]` or `#[tokio::test]` attribute).

use vstd::prelude::*;
use crate::model::{Node, NodeView};
use crate::query::{
    Source, SourceView, src_view, field_text, field_text_of, item_node, make_item, plain_range,
    inc_exec, kind_is, opt_node_view,
};
use crate::syntax::{SyntaxNode, SyntaxView, node_text, text_of};
use crate::text::{trim, truncated, index_of, starts_with, chars_of, trim_bounds, truncate_range, starts_with_at};
use crate::markdown::{trim_end_char, trim_end_char_index};

verus! {

/// The name of an item: the text of its `name` field.
pub open spec fn rust_name(src: SourceView, n: SyntaxView) -> Option<Seq<char>> {
    field_text(src.text, n, "name"@)
}

/// The name shown for an impl block: its text up to the first `{`, trimmed
/// and without a trailing `;`, in at most 80 characters.
pub open spec fn impl_name(src: SourceView, n: SyntaxView) -> Seq<char> {
    let text = match node_text(src.text, n) {
        Some(t) => t,
        None => "impl"@,
    };
    let head = text.take(index_of(text, '{') as int);
    truncated(trim(trim_end_char(trim(head), ';')), 80)
}

/// An attribute that marks a test: `#[test...]` or `#[tokio::test...]`.
pub open spec fn is_test_attribute(src: SourceView, n: SyntaxView) -> bool {
    match node_text(src.text, n) {
        Some(t) => starts_with(t, "#[test"@) || starts_with(t, "#[tokio::test"@),
        None => false,
    }
}

/// The outline node of a named Rust item of the given kind.
pub open spec fn rust_named(src: SourceView, n: SyntaxView, kind: Seq<char>) -> Option<NodeView> {
    match rust_name(src, n) {
        Some(name) => Some(item_node(src, n, kind, name, plain_range(n))),
        None => None,
    }
}

/// The outline node of a Rust syntax node, if it is an item the outline
/// shows; `test_attr` tells whether a test attribute precedes it.
pub open spec fn rust_item(src: SourceView, n: SyntaxView, test_attr: bool) -> Option<NodeView> {
    if n.kind == "mod_item"@ {
        rust_named(src, n, "module"@)
    } else if n.kind == "struct_item"@ {
        rust_named(src, n, "struct"@)
    } else if n.kind == "enum_item"@ {
        rust_named(src, n, "enum"@)
    } else if n.kind == "trait_item"@ {
        rust_named(src, n, "trait"@)
    } else if n.kind == "impl_item"@ {
        Some(item_node(src, n, "impl"@, impl_name(src, n), plain_range(n)))
    } else if n.kind == "function_item"@ {
        rust_named(src, n, if test_attr { "test"@ } else { "function"@ })
    } else {
        None
    }
}

/// The name shown for an impl block.
pub fn rust_impl_ast_name(src: &Source, n: &SyntaxNode) -> (r: String)
    ensures
        r@ == impl_name(src_view(src), n@),
{
    let text = match text_of(src.text, n) {
        Some(t) => t,
        None => "impl".to_owned(),
    };
    let cs = chars_of(text.as_str());
    let mut k: usize = 0;
    while k < cs.len() && cs[k] != '{'
        invariant
            k <= cs@.len(),
            forall|j: int| 0 <= j < k ==> cs@[j] != '{',
        decreases cs@.len() - k,
    {
        k = k + 1;
    }
    proof {
        crate::text::lemma_index_of_bound(cs@, '{');
        if index_of(cs@, '{') < k {
            assert(cs@[index_of(cs@, '{') as int] == '{');
        }
        if k < index_of(cs@, '{') {
            assert(cs@[k as int] == '{');
        }
        assert(cs@.take(k as int) =~= cs@.subrange(0, k as int));
    }
    let (a, b) = trim_bounds(cs.as_slice(), 0, k);
    let c = trim_end_char_index(cs.as_slice(), a, b, ';');
    let (d, e) = trim_bounds(cs.as_slice(), a, c);
    truncate_range(cs.as_slice(), d, e, 80)
}

/// Whether an attribute marks a test.
pub fn rust_is_test_attribute(src: &Source, n: &SyntaxNode) -> (r: bool)
    ensures
        r == is_test_attribute(src_view(src), n@),
{
    match text_of(src.text, n) {
        Some(t) => {
            let cs = chars_of(t.as_str());
            let p1 = chars_of("#[test");
            let p2 = chars_of("#[tokio::test");
            proof {
                assert(cs@.skip(0) =~= cs@);
            }
            starts_with_at(cs.as_slice(), 0, p1.as_slice()) || starts_with_at(cs.as_slice(), 0, p2.as_slice())
        },
        None => false,
    }
}

fn rust_named_exec(src: &Source, n: &SyntaxNode, kind: &str) -> (r: Option<Node>)
    ensures
        opt_node_view(r) == rust_named(src_view(src), n@, kind@),
{
    match field_text_of(src.text, n, "name") {
        Some(name) => Some(make_item(src, n, kind, name, (inc_exec(n.start_row), inc_exec(n.end_row)))),
        None => None,
    }
}

/// The outline node of a Rust syntax node.
pub fn rust_node_from_ast(src: &Source, n: &SyntaxNode, has_test_attribute: bool) -> (r: Option<Node>)
    ensures
        opt_node_view(r) == rust_item(src_view(src), n@, has_test_attribute),
{
    if kind_is(n, "mod_item") {
        rust_named_exec(src, n, "module")
    } else if kind_is(n, "struct_item") {
        rust_named_exec(src, n, "struct")
    } else if kind_is(n, "enum_item") {
        rust_named_exec(src, n, "enum")
    } else if kind_is(n, "trait_item") {
        rust_named_exec(src, n, "trait")
    } else if kind_is(n, "impl_item") {
        let name = rust_impl_ast_name(src, n);
        Some(make_item(src, n, "impl", name, (inc_exec(n.start_row), inc_exec(n.end_row))))
    } else if kind_is(n, "function_item") {
        if has_test_attribute {
            rust_named_exec(src, n, "test")
        } else {
            rust_named_exec(src, n, "function")
        }
    } else {
        None
    }
}

/// Which Rust items the outline shows, as what: modules, structs, enums,
/// traits and functions (tests when a test attribute precedes them) under
/// their names, and impl blocks under their heading; nothing else.
pub proof fn law_rust_item_kinds(src: SourceView, n: SyntaxView, test_attr: bool)
    ensures
        n.kind == "mod_item"@ && field_text(src.text, n, "name"@) is Some ==> rust_item(src, n, test_attr) is Some && rust_item(src, n, test_attr)->0.kind == "module"@ && rust_item(src, n, test_attr)->0.name == field_text(src.text, n, "name"@),
        n.kind == "struct_item"@ && field_text(src.text, n, "name"@) is Some ==> rust_item(src, n, test_attr) is Some && rust_item(src, n, test_attr)->0.kind == "struct"@ && rust_item(src, n, test_attr)->0.name == field_text(src.text, n, "name"@),
        n.kind == "enum_item"@ && field_text(src.text, n, "name"@) is Some ==> rust_item(src, n, test_attr) is Some && rust_item(src, n, test_attr)->0.kind == "enum"@ && rust_item(src, n, test_attr)->0.name == field_text(src.text, n, "name"@),
        n.kind == "trait_item"@ && field_text(src.text, n, "name"@) is Some ==> rust_item(src, n, test_attr) is Some && rust_item(src, n, test_attr)->0.kind == "trait"@ && rust_item(src, n, test_attr)->0.name == field_text(src.text, n, "name"@),
        n.kind == "impl_item"@ ==> rust_item(src, n, test_attr) is Some && rust_item(src, n, test_attr)->0.kind == "impl"@ && rust_item(src, n, test_attr)->0.name == Some(impl_name(src, n)),
        n.kind == "function_item"@ && field_text(src.text, n, "name"@) is Some ==> rust_item(src, n, test_attr) is Some && rust_item(src, n, test_attr)->0.kind == (if test_attr { "test"@ } else { "function"@ }) && rust_item(src, n, test_attr)->0.name == field_text(src.text, n, "name"@),
        n.kind != "enum_item"@ && n.kind != "function_item"@ && n.kind != "impl_item"@ && n.kind != "mod_item"@ && n.kind != "struct_item"@ && n.kind != "trait_item"@ ==> rust_item(src, n, test_attr) is None,
{
    reveal_strlit("enum_item");
    assert("enum_item"@.len() == 9 && "enum_item"@[0] == 'e' && "enum_item"@[1] == 'n' && "enum_item"@[2] == 'u' && "enum_item"@[3] == 'm' && "enum_item"@[4] == '_' && "enum_item"@[5] == 'i' && "enum_item"@[6] == 't' && "enum_item"@[7] == 'e' && "enum_item"@[8] == 'm');
    reveal_strlit("function_item");
    assert("function_item"@.len() == 13 && "function_item"@[0] == 'f' && "function_item"@[1] == 'u' && "function_item"@[2] == 'n' && "function_item"@[3] == 'c' && "function_item"@[4] == 't' && "function_item"@[5] == 'i' && "function_item"@[6] == 'o' && "function_item"@[7] == 'n' && "function_item"@[8] == '_' && "function_item"@[9] == 'i' && "function_item"@[10] == 't' && "function_item"@[11] == 'e' && "function_item"@[12] == 'm');
    reveal_strlit("impl_item");
    assert("impl_item"@.len() == 9 && "impl_item"@[0] == 'i' && "impl_item"@[1] == 'm' && "impl_item"@[2] == 'p' && "impl_item"@[3] == 'l' && "impl_item"@[4] == '_' && "impl_item"@[5] == 'i' && "impl_item"@[6] == 't' && "impl_item"@[7] == 'e' && "impl_item"@[8] == 'm');
    reveal_strlit("mod_item");
    assert("mod_item"@.len() == 8 && "mod_item"@[0] == 'm' && "mod_item"@[1] == 'o' && "mod_item"@[2] == 'd' && "mod_item"@[3] == '_' && "mod_item"@[4] == 'i' && "mod_item"@[5] == 't' && "mod_item"@[6] == 'e' && "mod_item"@[7] == 'm');
    reveal_strlit("struct_item");
    assert("struct_item"@.len() == 11 && "struct_item"@[0] == 's' && "struct_item"@[1] == 't' && "struct_item"@[2] == 'r' && "struct_item"@[3] == 'u' && "struct_item"@[4] == 'c' && "struct_item"@[5] == 't' && "struct_item"@[6] == '_' && "struct_item"@[7] == 'i' && "struct_item"@[8] == 't' && "struct_item"@[9] == 'e' && "struct_item"@[10] == 'm');
    reveal_strlit("trait_item");
    assert("trait_item"@.len() == 10 && "trait_item"@[0] == 't' && "trait_item"@[1] == 'r' && "trait_item"@[2] == 'a' && "trait_item"@[3] == 'i' && "trait_item"@[4] == 't' && "trait_item"@[5] == '_' && "trait_item"@[6] == 'i' && "trait_item"@[7] == 't' && "trait_item"@[8] == 'e' && "trait_item"@[9] == 'm');
}

} // verus!
