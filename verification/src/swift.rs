//! Swift outlines: imports, classes, structs, enums and extensions,
//! protocols, functions, initializers and properties.

use vstd::prelude::*;
use crate::model::{Node, NodeView};
use crate::query::{
    Source, SourceView, src_view, field_text, field_text_of, field_child, child_by_field,
    trimmed_range, trimmed_range_exec, kind_is, opt_node_view, first_named_either_from,
    first_named_child_either, opt_text, opt_text_of, named_item, make_named_item, preview_at,
    ast_preview,
};
use crate::syntax::{SyntaxNode, SyntaxView, field_view, node_text, text_of};
use crate::text::{is_ws, trim_start, chars_of, skip_whitespace_until, chars_equal, is_whitespace};

verus! {

/// Position of the first whitespace character of `s`, or its length.
pub open spec fn first_ws(s: Seq<char>) -> nat
    decreases s.len(),
{
    if s.len() == 0 || is_ws(s[0]) {
        0
    } else {
        1 + first_ws(s.drop_first())
    }
}

/// The first whitespace-separated word of `s` (empty when there is none).
pub open spec fn first_word(s: Seq<char>) -> Seq<char> {
    let t = trim_start(s);
    t.take(first_ws(t) as int)
}

/// The kind of a class declaration, read from the first word of its line
/// (previewed to 32 characters): `struct`, `enum`, `extension`, else `class`.
pub open spec fn declaration_kind(src: SourceView, n: SyntaxView) -> Seq<char> {
    let p = match preview_at(src.lines, n.start_row as int, 32) {
        Some(p) => p,
        None => seq![],
    };
    let w = first_word(p);
    if w == "struct"@ {
        "struct"@
    } else if w == "enum"@ {
        "enum"@
    } else if w == "extension"@ {
        "extension"@
    } else {
        "class"@
    }
}

/// The name of an import: its first identifier or simple identifier child.
pub open spec fn swift_import(src: SourceView, n: SyntaxView) -> Option<Seq<char>> {
    opt_text(src.text, first_named_either_from(n.children, 0, "identifier"@, "simple_identifier"@))
}

/// The text of the first simple identifier in the subtree of `n`, searched
/// in pre-order through named children.
pub open spec fn bound_ident(src: Seq<char>, n: SyntaxView) -> Option<Seq<char>>
    decreases n, 1int,
{
    if n.kind == "simple_identifier"@ {
        node_text(src, n)
    } else {
        bound_ident_from(src, n.children, 0)
    }
}

/// The first match under the named nodes `kids[i..]`.
pub open spec fn bound_ident_from(src: Seq<char>, kids: Seq<SyntaxView>, i: int) -> Option<Seq<char>>
    decreases kids, kids.len() - i,
{
    if i < 0 || i >= kids.len() {
        None
    } else if !kids[i].named {
        bound_ident_from(src, kids, i + 1)
    } else {
        match bound_ident(src, kids[i]) {
            Some(t) => Some(t),
            None => bound_ident_from(src, kids, i + 1),
        }
    }
}

/// The name of a property: the identifier under its `name` field, else the
/// first identifier it holds.
pub open spec fn swift_property(src: SourceView, n: SyntaxView) -> Option<Seq<char>> {
    match field_child(n, "name"@) {
        Some(c) => match bound_ident(src.text, c) {
            Some(t) => Some(t),
            None => bound_ident(src.text, n),
        },
        None => bound_ident(src.text, n),
    }
}

/// The outline node of a Swift syntax node, if it is an item the outline shows.
pub open spec fn swift_item(src: SourceView, n: SyntaxView) -> Option<NodeView> {
    let r = trimmed_range(src.lines, n);
    let name = field_text(src.text, n, "name"@);
    if n.kind == "import_declaration"@ {
        named_item(src, n, "import"@, swift_import(src, n), r)
    } else if n.kind == "class_declaration"@ {
        named_item(src, n, declaration_kind(src, n), name, r)
    } else if n.kind == "protocol_declaration"@ {
        named_item(src, n, "protocol"@, name, r)
    } else if n.kind == "function_declaration"@ || n.kind == "protocol_function_declaration"@ {
        named_item(src, n, "function"@, name, r)
    } else if n.kind == "init_declaration"@ {
        named_item(src, n, "initializer"@, Some("init"@), r)
    } else if n.kind == "property_declaration"@ || n.kind == "protocol_property_declaration"@ {
        named_item(src, n, "property"@, swift_property(src, n), r)
    } else {
        None
    }
}

/// The kind of a class declaration.
pub fn swift_declaration_kind(src: &Source, n: &SyntaxNode) -> (r: &'static str)
    ensures
        r@ == declaration_kind(src_view(src), n@),
{
    let p = match ast_preview(&src.lines, n, 32) {
        Some(p) => chars_of(p.as_str()),
        None => Vec::new(),
    };
    let a = skip_whitespace_until(p.as_slice(), 0, p.len());
    let ghost t = p@.subrange(a as int, p@.len() as int);
    proof {
        assert(p@.subrange(0, p@.len() as int) =~= p@);
        assert(t.skip(0) =~= t);
    }
    let mut b = a;
    while b < p.len() && !is_whitespace(p[b])
        invariant
            a <= b <= p@.len(),
            t == p@.subrange(a as int, p@.len() as int),
            first_ws(t) == (b - a) + first_ws(t.skip(b - a)),
        decreases p@.len() - b,
    {
        proof {
            assert(t.skip(b - a).drop_first() =~= t.skip(b - a + 1));
        }
        b = b + 1;
    }
    proof {
        if b < p@.len() {
            assert(t.skip(b - a)[0] == p@[b as int]);
        }
        assert(t.take(b - a) =~= p@.subrange(a as int, b as int));
    }
    let s1 = chars_of("struct");
    let s2 = chars_of("enum");
    let s3 = chars_of("extension");
    if chars_equal(p.as_slice(), a, b, s1.as_slice()) {
        "struct"
    } else if chars_equal(p.as_slice(), a, b, s2.as_slice()) {
        "enum"
    } else if chars_equal(p.as_slice(), a, b, s3.as_slice()) {
        "extension"
    } else {
        "class"
    }
}

/// The name of an import.
pub fn swift_import_name(src: &Source, n: &SyntaxNode) -> (r: Option<String>)
    ensures
        field_view(r) == swift_import(src_view(src), n@),
{
    opt_text_of(src.text, first_named_child_either(n, "identifier", "simple_identifier"))
}

/// The text of the first simple identifier in the subtree of `n`.
pub fn swift_bound_identifier(source: &str, n: &SyntaxNode) -> (r: Option<String>)
    ensures
        field_view(r) == bound_ident(source@, n@),
    decreases n, 1int,
{
    if kind_is(n, "simple_identifier") {
        return text_of(source, n);
    }
    let ghost kids = n@.children;
    let mut i: usize = 0;
    while i < n.children.len()
        invariant
            i <= n.children@.len(),
            kids == n@.children,
            kids.len() == n.children@.len(),
            n@.kind != "simple_identifier"@,
            bound_ident(source@, n@) == bound_ident_from(source@, kids, i as int),
        decreases n.children@.len() - i,
    {
        let c = &n.children[i];
        assert(c@ == kids[i as int]);
        if c.named {
            proof {
                assert(decreases_to!(n => n.children));
                assert(decreases_to!(n.children => n.children@));
                assert(decreases_to!(n.children@ => n.children@[i as int]));
            }
            let found = swift_bound_identifier(source, c);
            if found.is_some() {
                return found;
            }
        }
        i = i + 1;
    }
    None
}

/// The name of a property.
pub fn swift_property_name(src: &Source, n: &SyntaxNode) -> (r: Option<String>)
    ensures
        field_view(r) == swift_property(src_view(src), n@),
{
    match child_by_field(n, "name") {
        Some(c) => match swift_bound_identifier(src.text, c) {
            Some(t) => Some(t),
            None => swift_bound_identifier(src.text, n),
        },
        None => swift_bound_identifier(src.text, n),
    }
}

/// The outline node of a Swift syntax node.
pub fn swift_node_from_ast(src: &Source, n: &SyntaxNode) -> (r: Option<Node>)
    ensures
        opt_node_view(r) == swift_item(src_view(src), n@),
{
    let r = trimmed_range_exec(&src.lines, n);
    if kind_is(n, "import_declaration") {
        make_named_item(src, n, "import", swift_import_name(src, n), r)
    } else if kind_is(n, "class_declaration") {
        let kind = swift_declaration_kind(src, n);
        make_named_item(src, n, kind, field_text_of(src.text, n, "name"), r)
    } else if kind_is(n, "protocol_declaration") {
        make_named_item(src, n, "protocol", field_text_of(src.text, n, "name"), r)
    } else if kind_is(n, "function_declaration") || kind_is(n, "protocol_function_declaration") {
        make_named_item(src, n, "function", field_text_of(src.text, n, "name"), r)
    } else if kind_is(n, "init_declaration") {
        make_named_item(src, n, "initializer", Some("init".to_owned()), r)
    } else if kind_is(n, "property_declaration") || kind_is(n, "protocol_property_declaration") {
        make_named_item(src, n, "property", swift_property_name(src, n), r)
    } else {
        None
    }
}

/// Which Swift declarations the outline shows, as what: imports, class-like
/// declarations (kind read from their first word), protocols, functions,
/// initializers (named `init`) and properties, each when it has a name;
/// nothing else.
pub proof fn law_swift_item_kinds(src: SourceView, n: SyntaxView)
    ensures
        n.kind == "import_declaration"@ && swift_import(src, n) is Some ==> swift_item(src, n) is Some && swift_item(src, n)->0.kind == "import"@ && swift_item(src, n)->0.name == swift_import(src, n),
        n.kind == "class_declaration"@ && field_text(src.text, n, "name"@) is Some ==> swift_item(src, n) is Some && swift_item(src, n)->0.kind == declaration_kind(src, n) && swift_item(src, n)->0.name == field_text(src.text, n, "name"@),
        n.kind == "protocol_declaration"@ && field_text(src.text, n, "name"@) is Some ==> swift_item(src, n) is Some && swift_item(src, n)->0.kind == "protocol"@ && swift_item(src, n)->0.name == field_text(src.text, n, "name"@),
        (n.kind == "function_declaration"@ || n.kind == "protocol_function_declaration"@) && field_text(src.text, n, "name"@) is Some ==> swift_item(src, n) is Some && swift_item(src, n)->0.kind == "function"@ && swift_item(src, n)->0.name == field_text(src.text, n, "name"@),
        n.kind == "init_declaration"@ ==> swift_item(src, n) is Some && swift_item(src, n)->0.kind == "initializer"@ && swift_item(src, n)->0.name == Some("init"@),
        (n.kind == "property_declaration"@ || n.kind == "protocol_property_declaration"@) && swift_property(src, n) is Some ==> swift_item(src, n) is Some && swift_item(src, n)->0.kind == "property"@ && swift_item(src, n)->0.name == swift_property(src, n),
        n.kind != "class_declaration"@ && n.kind != "function_declaration"@ && n.kind != "import_declaration"@ && n.kind != "init_declaration"@ && n.kind != "property_declaration"@ && n.kind != "protocol_declaration"@ && n.kind != "protocol_function_declaration"@ && n.kind != "protocol_property_declaration"@ ==> swift_item(src, n) is None,
{
    reveal_strlit("class_declaration");
    assert("class_declaration"@.len() == 17 && "class_declaration"@[0] == 'c' && "class_declaration"@[1] == 'l' && "class_declaration"@[2] == 'a' && "class_declaration"@[3] == 's' && "class_declaration"@[4] == 's' && "class_declaration"@[5] == '_' && "class_declaration"@[6] == 'd' && "class_declaration"@[7] == 'e' && "class_declaration"@[8] == 'c' && "class_declaration"@[9] == 'l' && "class_declaration"@[10] == 'a' && "class_declaration"@[11] == 'r' && "class_declaration"@[12] == 'a' && "class_declaration"@[13] == 't' && "class_declaration"@[14] == 'i' && "class_declaration"@[15] == 'o' && "class_declaration"@[16] == 'n');
    reveal_strlit("function_declaration");
    assert("function_declaration"@.len() == 20 && "function_declaration"@[0] == 'f' && "function_declaration"@[1] == 'u' && "function_declaration"@[2] == 'n' && "function_declaration"@[3] == 'c' && "function_declaration"@[4] == 't' && "function_declaration"@[5] == 'i' && "function_declaration"@[6] == 'o' && "function_declaration"@[7] == 'n' && "function_declaration"@[8] == '_' && "function_declaration"@[9] == 'd' && "function_declaration"@[10] == 'e' && "function_declaration"@[11] == 'c' && "function_declaration"@[12] == 'l' && "function_declaration"@[13] == 'a' && "function_declaration"@[14] == 'r' && "function_declaration"@[15] == 'a' && "function_declaration"@[16] == 't' && "function_declaration"@[17] == 'i' && "function_declaration"@[18] == 'o' && "function_declaration"@[19] == 'n');
    reveal_strlit("import_declaration");
    assert("import_declaration"@.len() == 18 && "import_declaration"@[0] == 'i' && "import_declaration"@[1] == 'm' && "import_declaration"@[2] == 'p' && "import_declaration"@[3] == 'o' && "import_declaration"@[4] == 'r' && "import_declaration"@[5] == 't' && "import_declaration"@[6] == '_' && "import_declaration"@[7] == 'd' && "import_declaration"@[8] == 'e' && "import_declaration"@[9] == 'c' && "import_declaration"@[10] == 'l' && "import_declaration"@[11] == 'a' && "import_declaration"@[12] == 'r' && "import_declaration"@[13] == 'a' && "import_declaration"@[14] == 't' && "import_declaration"@[15] == 'i' && "import_declaration"@[16] == 'o' && "import_declaration"@[17] == 'n');
    reveal_strlit("init_declaration");
    assert("init_declaration"@.len() == 16 && "init_declaration"@[0] == 'i' && "init_declaration"@[1] == 'n' && "init_declaration"@[2] == 'i' && "init_declaration"@[3] == 't' && "init_declaration"@[4] == '_' && "init_declaration"@[5] == 'd' && "init_declaration"@[6] == 'e' && "init_declaration"@[7] == 'c' && "init_declaration"@[8] == 'l' && "init_declaration"@[9] == 'a' && "init_declaration"@[10] == 'r' && "init_declaration"@[11] == 'a' && "init_declaration"@[12] == 't' && "init_declaration"@[13] == 'i' && "init_declaration"@[14] == 'o' && "init_declaration"@[15] == 'n');
    reveal_strlit("property_declaration");
    assert("property_declaration"@.len() == 20 && "property_declaration"@[0] == 'p' && "property_declaration"@[1] == 'r' && "property_declaration"@[2] == 'o' && "property_declaration"@[3] == 'p' && "property_declaration"@[4] == 'e' && "property_declaration"@[5] == 'r' && "property_declaration"@[6] == 't' && "property_declaration"@[7] == 'y' && "property_declaration"@[8] == '_' && "property_declaration"@[9] == 'd' && "property_declaration"@[10] == 'e' && "property_declaration"@[11] == 'c' && "property_declaration"@[12] == 'l' && "property_declaration"@[13] == 'a' && "property_declaration"@[14] == 'r' && "property_declaration"@[15] == 'a' && "property_declaration"@[16] == 't' && "property_declaration"@[17] == 'i' && "property_declaration"@[18] == 'o' && "property_declaration"@[19] == 'n');
    reveal_strlit("protocol_declaration");
    assert("protocol_declaration"@.len() == 20 && "protocol_declaration"@[0] == 'p' && "protocol_declaration"@[1] == 'r' && "protocol_declaration"@[2] == 'o' && "protocol_declaration"@[3] == 't' && "protocol_declaration"@[4] == 'o' && "protocol_declaration"@[5] == 'c' && "protocol_declaration"@[6] == 'o' && "protocol_declaration"@[7] == 'l' && "protocol_declaration"@[8] == '_' && "protocol_declaration"@[9] == 'd' && "protocol_declaration"@[10] == 'e' && "protocol_declaration"@[11] == 'c' && "protocol_declaration"@[12] == 'l' && "protocol_declaration"@[13] == 'a' && "protocol_declaration"@[14] == 'r' && "protocol_declaration"@[15] == 'a' && "protocol_declaration"@[16] == 't' && "protocol_declaration"@[17] == 'i' && "protocol_declaration"@[18] == 'o' && "protocol_declaration"@[19] == 'n');
    reveal_strlit("protocol_function_declaration");
    assert("protocol_function_declaration"@.len() == 29 && "protocol_function_declaration"@[0] == 'p' && "protocol_function_declaration"@[1] == 'r' && "protocol_function_declaration"@[2] == 'o' && "protocol_function_declaration"@[3] == 't' && "protocol_function_declaration"@[4] == 'o' && "protocol_function_declaration"@[5] == 'c' && "protocol_function_declaration"@[6] == 'o' && "protocol_function_declaration"@[7] == 'l' && "protocol_function_declaration"@[8] == '_' && "protocol_function_declaration"@[9] == 'f' && "protocol_function_declaration"@[10] == 'u' && "protocol_function_declaration"@[11] == 'n' && "protocol_function_declaration"@[12] == 'c' && "protocol_function_declaration"@[13] == 't' && "protocol_function_declaration"@[14] == 'i' && "protocol_function_declaration"@[15] == 'o' && "protocol_function_declaration"@[16] == 'n' && "protocol_function_declaration"@[17] == '_' && "protocol_function_declaration"@[18] == 'd' && "protocol_function_declaration"@[19] == 'e' && "protocol_function_declaration"@[20] == 'c' && "protocol_function_declaration"@[21] == 'l' && "protocol_function_declaration"@[22] == 'a' && "protocol_function_declaration"@[23] == 'r' && "protocol_function_declaration"@[24] == 'a' && "protocol_function_declaration"@[25] == 't' && "protocol_function_declaration"@[26] == 'i' && "protocol_function_declaration"@[27] == 'o' && "protocol_function_declaration"@[28] == 'n');
    reveal_strlit("protocol_property_declaration");
    assert("protocol_property_declaration"@.len() == 29 && "protocol_property_declaration"@[0] == 'p' && "protocol_property_declaration"@[1] == 'r' && "protocol_property_declaration"@[2] == 'o' && "protocol_property_declaration"@[3] == 't' && "protocol_property_declaration"@[4] == 'o' && "protocol_property_declaration"@[5] == 'c' && "protocol_property_declaration"@[6] == 'o' && "protocol_property_declaration"@[7] == 'l' && "protocol_property_declaration"@[8] == '_' && "protocol_property_declaration"@[9] == 'p' && "protocol_property_declaration"@[10] == 'r' && "protocol_property_declaration"@[11] == 'o' && "protocol_property_declaration"@[12] == 'p' && "protocol_property_declaration"@[13] == 'e' && "protocol_property_declaration"@[14] == 'r' && "protocol_property_declaration"@[15] == 't' && "protocol_property_declaration"@[16] == 'y' && "protocol_property_declaration"@[17] == '_' && "protocol_property_declaration"@[18] == 'd' && "protocol_property_declaration"@[19] == 'e' && "protocol_property_declaration"@[20] == 'c' && "protocol_property_declaration"@[21] == 'l' && "protocol_property_declaration"@[22] == 'a' && "protocol_property_declaration"@[23] == 'r' && "protocol_property_declaration"@[24] == 'a' && "protocol_property_declaration"@[25] == 't' && "protocol_property_declaration"@[26] == 'i' && "protocol_property_declaration"@[27] == 'o' && "protocol_property_declaration"@[28] == 'n');
}

/// A Swift class-like declaration is a `struct`, an `enum` or an
/// `extension` when the first word of its line is that keyword, and a
/// `class` otherwise.
pub proof fn law_swift_declaration_kind(src: SourceView, n: SyntaxView)
    ensures
        ({
            let w = first_word(
                match preview_at(src.lines, n.start_row as int, 32) {
                    Some(p) => p,
                    None => seq![],
                },
            );
            declaration_kind(src, n) == if w == "struct"@ {
                "struct"@
            } else if w == "enum"@ {
                "enum"@
            } else if w == "extension"@ {
                "extension"@
            } else {
                "class"@
            }
        }),
{
}

} // verus!
