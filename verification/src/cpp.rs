//! C and C++ outlines: includes, namespaces, classes, structs, unions,
//! enums, functions (methods inside a type), and fields.

use vstd::prelude::*;
use crate::model::{Node, NodeView};
use crate::query::{
    Source, SourceView, src_view, field_text, field_text_of, field_child, child_by_field,
    field_pos, lemma_field_pos, column_range, column_range_exec, kind_is, opt_node_view,
    named_item, make_named_item,
};
use crate::syntax::{SyntaxNode, SyntaxView, field_view, node_text, text_of};
use crate::text::{contains, chars_of, contains_chars};

verus! {

/// `n` is, or has among its named descendants, a function declarator.
pub open spec fn contains_fn_declarator(n: SyntaxView) -> bool
    decreases n, 1int,
{
    n.kind == "function_declarator"@ || any_fn_declarator(n.children, 0)
}

/// Some named node among `kids[i..]` contains a function declarator.
pub open spec fn any_fn_declarator(kids: Seq<SyntaxView>, i: int) -> bool
    decreases kids, kids.len() - i,
{
    if i < 0 || i >= kids.len() {
        false
    } else if !kids[i].named {
        any_fn_declarator(kids, i + 1)
    } else {
        contains_fn_declarator(kids[i]) || any_fn_declarator(kids, i + 1)
    }
}

/// A declaration whose declarator declares a function.
pub open spec fn declares_function(n: SyntaxView) -> bool {
    match field_child(n, "declarator"@) {
        Some(d) => contains_fn_declarator(d),
        None => false,
    }
}

/// An identifier-like node type that names a declarator.
pub open spec fn is_identifier_kind(k: Seq<char>) -> bool {
    k == "identifier"@ || k == "field_identifier"@ || k == "type_identifier"@ || k == "qualified_identifier"@
}

/// The identifier a declarator declares: the node itself if it is an
/// identifier, else through its `declarator` field, else the first match
/// among its named children.
pub open spec fn declarator_ident(src: Seq<char>, n: SyntaxView) -> Option<Seq<char>>
    decreases n, 1int,
{
    if is_identifier_kind(n.kind) {
        node_text(src, n)
    } else {
        let p = field_pos(n.children, 0, "declarator"@);
        if 0 <= p < n.children.len() {
            declarator_ident(src, n.children[p])
        } else {
            declarator_ident_from(src, n.children, 0)
        }
    }
}

/// The first identifier found under the named nodes `kids[i..]`.
pub open spec fn declarator_ident_from(src: Seq<char>, kids: Seq<SyntaxView>, i: int) -> Option<Seq<char>>
    decreases kids, kids.len() - i,
{
    if i < 0 || i >= kids.len() {
        None
    } else if !kids[i].named {
        declarator_ident_from(src, kids, i + 1)
    } else {
        match declarator_ident(src, kids[i]) {
            Some(t) => Some(t),
            None => declarator_ident_from(src, kids, i + 1),
        }
    }
}

/// The first named child among `kids[i..]` whose type mentions `declarator`.
pub open spec fn first_declarator_from(kids: Seq<SyntaxView>, i: int) -> Option<SyntaxView>
    decreases kids.len() - i,
{
    if i < 0 || i >= kids.len() {
        None
    } else if kids[i].named && contains(kids[i].kind, "declarator"@) {
        Some(kids[i])
    } else {
        first_declarator_from(kids, i + 1)
    }
}

/// The name a declaration declares: through its `declarator` field, else
/// its first declarator child.
pub open spec fn declarator_name(src: Seq<char>, n: SyntaxView) -> Option<Seq<char>> {
    match field_child(n, "declarator"@) {
        Some(d) => declarator_ident(src, d),
        None => match first_declarator_from(n.children, 0) {
            Some(d) => declarator_ident(src, d),
            None => None,
        },
    }
}

/// A function's kind: a method inside a class, struct or union.
pub open spec fn function_kind(in_type: bool) -> Seq<char> {
    if in_type {
        "method"@
    } else {
        "function"@
    }
}

/// The outline node of a C/C++ syntax node, if it is an item the outline
/// shows; `in_type` tells whether it lies inside a class, struct or union.
pub open spec fn cpp_item(src: SourceView, n: SyntaxView, in_type: bool) -> Option<NodeView> {
    let r = column_range(n);
    let t = src.text;
    if n.kind == "preproc_include"@ {
        named_item(src, n, "include"@, field_text(t, n, "path"@), r)
    } else if n.kind == "namespace_definition"@ {
        named_item(src, n, "namespace"@, field_text(t, n, "name"@), r)
    } else if n.kind == "class_specifier"@ {
        named_item(src, n, "class"@, field_text(t, n, "name"@), r)
    } else if n.kind == "struct_specifier"@ {
        named_item(src, n, "struct"@, field_text(t, n, "name"@), r)
    } else if n.kind == "union_specifier"@ {
        named_item(src, n, "union"@, field_text(t, n, "name"@), r)
    } else if n.kind == "enum_specifier"@ {
        named_item(src, n, "enum"@, field_text(t, n, "name"@), r)
    } else if n.kind == "function_definition"@ {
        named_item(src, n, function_kind(in_type), declarator_name(t, n), r)
    } else if n.kind == "declaration"@ && declares_function(n) {
        named_item(src, n, function_kind(in_type), declarator_name(t, n), r)
    } else if n.kind == "field_declaration"@ && declares_function(n) {
        named_item(src, n, "method"@, declarator_name(t, n), r)
    } else if n.kind == "field_declaration"@ {
        named_item(src, n, "field"@, declarator_name(t, n), r)
    } else {
        None
    }
}

/// Whether `n` is or contains a function declarator.
pub fn contains_function_declarator(n: &SyntaxNode) -> (r: bool)
    ensures
        r == contains_fn_declarator(n@),
    decreases n, 1int,
{
    if kind_is(n, "function_declarator") {
        return true;
    }
    let ghost kids = n@.children;
    let mut i: usize = 0;
    while i < n.children.len()
        invariant
            i <= n.children@.len(),
            kids == n@.children,
            kids.len() == n.children@.len(),
            n@.kind != "function_declarator"@,
            contains_fn_declarator(n@) == any_fn_declarator(kids, i as int),
        decreases n.children@.len() - i,
    {
        let c = &n.children[i];
        assert(c@ == kids[i as int]);
        if c.named {
            proof {
                assert(decreases_to!(n => n.children));
                assert(decreases_to!(n.children => n.children@));
                assert(decreases_to!(n.children@ => n.children@[i as int]));
            }
            if contains_function_declarator(c) {
                return true;
            }
        }
        i = i + 1;
    }
    false
}

/// Whether a declaration declares a function.
pub fn declaration_is_function(n: &SyntaxNode) -> (r: bool)
    ensures
        r == declares_function(n@),
{
    match child_by_field(n, "declarator") {
        Some(d) => contains_function_declarator(d),
        None => false,
    }
}

/// The identifier a declarator declares.
pub fn declarator_identifier(source: &str, n: &SyntaxNode) -> (r: Option<String>)
    ensures
        field_view(r) == declarator_ident(source@, n@),
    decreases n, 1int,
{
    if kind_is(n, "identifier") || kind_is(n, "field_identifier") || kind_is(n, "type_identifier")
        || kind_is(n, "qualified_identifier") {
        return text_of(source, n);
    }
    let ghost kids = n@.children;
    proof {
        lemma_field_pos(kids, 0, "declarator"@);
    }
    let mut k: usize = 0;
    while k < n.children.len()
        invariant
            k <= n.children@.len(),
            kids == n@.children,
            kids.len() == n.children@.len(),
            !is_identifier_kind(n@.kind),
            field_pos(kids, 0, "declarator"@) == field_pos(kids, k as int, "declarator"@),
        decreases n.children@.len() - k,
    {
        let c = &n.children[k];
        assert(c@ == kids[k as int]);
        let hit = match &c.field {
            Some(x) => crate::query::str_eq(x.as_str(), "declarator"),
            None => false,
        };
        if hit {
            proof {
                assert(decreases_to!(n => n.children));
                assert(decreases_to!(n.children => n.children@));
                assert(decreases_to!(n.children@ => n.children@[k as int]));
                assert(kids[k as int].field == Some("declarator"@));
                assert(field_pos(kids, k as int, "declarator"@) == k);
            }
            return declarator_identifier(source, c);
        }
        k = k + 1;
    }
    let mut i: usize = 0;
    while i < n.children.len()
        invariant
            i <= n.children@.len(),
            kids == n@.children,
            kids.len() == n.children@.len(),
            !is_identifier_kind(n@.kind),
            field_pos(kids, 0, "declarator"@) == kids.len(),
            declarator_ident(source@, n@) == declarator_ident_from(source@, kids, i as int),
        decreases n.children@.len() - i,
    {
        let c = &n.children[i];
        assert(c@ == kids[i as int]);
        if c.named {
            proof {
                assert(decreases_to!(n => n.children));
                assert(decreases_to!(n.children => n.children@));
                assert(decreases_to!(n.children@ => n.children@[i as int]));
            }
            let found = declarator_identifier(source, c);
            if found.is_some() {
                return found;
            }
        }
        i = i + 1;
    }
    None
}

/// The first named child whose type mentions `declarator`.
pub fn first_declarator(n: &SyntaxNode) -> (r: Option<&SyntaxNode>)
    ensures
        match r {
            Some(c) => first_declarator_from(n@.children, 0) == Some(c@),
            None => first_declarator_from(n@.children, 0) is None,
        },
{
    let ghost kids = n@.children;
    let word = chars_of("declarator");
    let mut i: usize = 0;
    while i < n.children.len()
        invariant
            i <= n.children@.len(),
            kids == n@.children,
            kids.len() == n.children@.len(),
            word@ == "declarator"@,
            first_declarator_from(kids, 0) == first_declarator_from(kids, i as int),
        decreases n.children@.len() - i,
    {
        let c = &n.children[i];
        assert(c@ == kids[i as int]);
        if c.named {
            let k = chars_of(c.kind.as_str());
            if contains_chars(k.as_slice(), word.as_slice()) {
                return Some(c);
            }
        }
        i = i + 1;
    }
    None
}

/// The name a declaration declares.
pub fn declarator_name_exec(source: &str, n: &SyntaxNode) -> (r: Option<String>)
    ensures
        field_view(r) == declarator_name(source@, n@),
{
    match child_by_field(n, "declarator") {
        Some(d) => declarator_identifier(source, d),
        None => match first_declarator(n) {
            Some(d) => declarator_identifier(source, d),
            None => None,
        },
    }
}

/// The kind of a function.
pub fn function_kind_exec(in_type: bool) -> (r: &'static str)
    ensures
        r@ == function_kind(in_type),
{
    if in_type {
        "method"
    } else {
        "function"
    }
}

/// The outline node of a C/C++ syntax node.
pub fn cpp_node_from_ast(src: &Source, n: &SyntaxNode, in_type: bool) -> (r: Option<Node>)
    ensures
        opt_node_view(r) == cpp_item(src_view(src), n@, in_type),
{
    let r = column_range_exec(n);
    let t = src.text;
    if kind_is(n, "preproc_include") {
        make_named_item(src, n, "include", field_text_of(t, n, "path"), r)
    } else if kind_is(n, "namespace_definition") {
        make_named_item(src, n, "namespace", field_text_of(t, n, "name"), r)
    } else if kind_is(n, "class_specifier") {
        make_named_item(src, n, "class", field_text_of(t, n, "name"), r)
    } else if kind_is(n, "struct_specifier") {
        make_named_item(src, n, "struct", field_text_of(t, n, "name"), r)
    } else if kind_is(n, "union_specifier") {
        make_named_item(src, n, "union", field_text_of(t, n, "name"), r)
    } else if kind_is(n, "enum_specifier") {
        make_named_item(src, n, "enum", field_text_of(t, n, "name"), r)
    } else if kind_is(n, "function_definition") {
        make_named_item(src, n, function_kind_exec(in_type), declarator_name_exec(t, n), r)
    } else if kind_is(n, "declaration") && declaration_is_function(n) {
        make_named_item(src, n, function_kind_exec(in_type), declarator_name_exec(t, n), r)
    } else if kind_is(n, "field_declaration") && declaration_is_function(n) {
        make_named_item(src, n, "method", declarator_name_exec(t, n), r)
    } else if kind_is(n, "field_declaration") {
        make_named_item(src, n, "field", declarator_name_exec(t, n), r)
    } else {
        None
    }
}

/// A declaration whose declarator declares a function, and that names it,
/// is outlined under that name wherever it stands: as a `method` inside a
/// class, struct or union, and as a `function` anywhere else (a prototype
/// at file scope included).
pub proof fn law_cpp_function_declarations(src: SourceView, n: SyntaxView, in_type: bool, d: SyntaxView)
    requires
        n.kind == "declaration"@,
        field_child(n, "declarator"@) == Some(d),
        contains_fn_declarator(d),
        declarator_name(src.text, n) is Some,
    ensures
        cpp_item(src, n, in_type) is Some,
        cpp_item(src, n, in_type)->0.name == declarator_name(src.text, n),
        cpp_item(src, n, in_type)->0.kind == if in_type {
            "method"@
        } else {
            "function"@
        },
{
    reveal_strlit("declaration");
    assert("declaration"@.len() == 11 && "declaration"@[0] == 'd' && "declaration"@[1] == 'e' && "declaration"@[2] == 'c' && "declaration"@[3] == 'l' && "declaration"@[4] == 'a' && "declaration"@[5] == 'r' && "declaration"@[6] == 'a' && "declaration"@[7] == 't' && "declaration"@[8] == 'i' && "declaration"@[9] == 'o' && "declaration"@[10] == 'n');
    reveal_strlit("preproc_include");
    assert("preproc_include"@.len() == 15 && "preproc_include"@[0] == 'p' && "preproc_include"@[1] == 'r' && "preproc_include"@[2] == 'e' && "preproc_include"@[3] == 'p' && "preproc_include"@[4] == 'r' && "preproc_include"@[5] == 'o' && "preproc_include"@[6] == 'c' && "preproc_include"@[7] == '_' && "preproc_include"@[8] == 'i' && "preproc_include"@[9] == 'n' && "preproc_include"@[10] == 'c' && "preproc_include"@[11] == 'l' && "preproc_include"@[12] == 'u' && "preproc_include"@[13] == 'd' && "preproc_include"@[14] == 'e');
    reveal_strlit("namespace_definition");
    assert("namespace_definition"@.len() == 20 && "namespace_definition"@[0] == 'n' && "namespace_definition"@[1] == 'a' && "namespace_definition"@[2] == 'm' && "namespace_definition"@[3] == 'e' && "namespace_definition"@[4] == 's' && "namespace_definition"@[5] == 'p' && "namespace_definition"@[6] == 'a' && "namespace_definition"@[7] == 'c' && "namespace_definition"@[8] == 'e' && "namespace_definition"@[9] == '_' && "namespace_definition"@[10] == 'd' && "namespace_definition"@[11] == 'e' && "namespace_definition"@[12] == 'f' && "namespace_definition"@[13] == 'i' && "namespace_definition"@[14] == 'n' && "namespace_definition"@[15] == 'i' && "namespace_definition"@[16] == 't' && "namespace_definition"@[17] == 'i' && "namespace_definition"@[18] == 'o' && "namespace_definition"@[19] == 'n');
    reveal_strlit("class_specifier");
    assert("class_specifier"@.len() == 15 && "class_specifier"@[0] == 'c' && "class_specifier"@[1] == 'l' && "class_specifier"@[2] == 'a' && "class_specifier"@[3] == 's' && "class_specifier"@[4] == 's' && "class_specifier"@[5] == '_' && "class_specifier"@[6] == 's' && "class_specifier"@[7] == 'p' && "class_specifier"@[8] == 'e' && "class_specifier"@[9] == 'c' && "class_specifier"@[10] == 'i' && "class_specifier"@[11] == 'f' && "class_specifier"@[12] == 'i' && "class_specifier"@[13] == 'e' && "class_specifier"@[14] == 'r');
    reveal_strlit("struct_specifier");
    assert("struct_specifier"@.len() == 16 && "struct_specifier"@[0] == 's' && "struct_specifier"@[1] == 't' && "struct_specifier"@[2] == 'r' && "struct_specifier"@[3] == 'u' && "struct_specifier"@[4] == 'c' && "struct_specifier"@[5] == 't' && "struct_specifier"@[6] == '_' && "struct_specifier"@[7] == 's' && "struct_specifier"@[8] == 'p' && "struct_specifier"@[9] == 'e' && "struct_specifier"@[10] == 'c' && "struct_specifier"@[11] == 'i' && "struct_specifier"@[12] == 'f' && "struct_specifier"@[13] == 'i' && "struct_specifier"@[14] == 'e' && "struct_specifier"@[15] == 'r');
    reveal_strlit("union_specifier");
    assert("union_specifier"@.len() == 15 && "union_specifier"@[0] == 'u' && "union_specifier"@[1] == 'n' && "union_specifier"@[2] == 'i' && "union_specifier"@[3] == 'o' && "union_specifier"@[4] == 'n' && "union_specifier"@[5] == '_' && "union_specifier"@[6] == 's' && "union_specifier"@[7] == 'p' && "union_specifier"@[8] == 'e' && "union_specifier"@[9] == 'c' && "union_specifier"@[10] == 'i' && "union_specifier"@[11] == 'f' && "union_specifier"@[12] == 'i' && "union_specifier"@[13] == 'e' && "union_specifier"@[14] == 'r');
    reveal_strlit("enum_specifier");
    assert("enum_specifier"@.len() == 14 && "enum_specifier"@[0] == 'e' && "enum_specifier"@[1] == 'n' && "enum_specifier"@[2] == 'u' && "enum_specifier"@[3] == 'm' && "enum_specifier"@[4] == '_' && "enum_specifier"@[5] == 's' && "enum_specifier"@[6] == 'p' && "enum_specifier"@[7] == 'e' && "enum_specifier"@[8] == 'c' && "enum_specifier"@[9] == 'i' && "enum_specifier"@[10] == 'f' && "enum_specifier"@[11] == 'i' && "enum_specifier"@[12] == 'e' && "enum_specifier"@[13] == 'r');
    reveal_strlit("function_definition");
    assert("function_definition"@.len() == 19 && "function_definition"@[0] == 'f' && "function_definition"@[1] == 'u' && "function_definition"@[2] == 'n' && "function_definition"@[3] == 'c' && "function_definition"@[4] == 't' && "function_definition"@[5] == 'i' && "function_definition"@[6] == 'o' && "function_definition"@[7] == 'n' && "function_definition"@[8] == '_' && "function_definition"@[9] == 'd' && "function_definition"@[10] == 'e' && "function_definition"@[11] == 'f' && "function_definition"@[12] == 'i' && "function_definition"@[13] == 'n' && "function_definition"@[14] == 'i' && "function_definition"@[15] == 't' && "function_definition"@[16] == 'i' && "function_definition"@[17] == 'o' && "function_definition"@[18] == 'n');
    assert(declares_function(n));
    let r = column_range(n);
    assert(cpp_item(src, n, in_type) == named_item(src, n, function_kind(in_type), declarator_name(src.text, n), r));
}

/// Which C and C++ nodes the outline shows, as what: includes, namespaces,
/// classes, structs, unions and enums under their names; function
/// definitions and function declarations as methods inside a class, struct
/// or union and as functions elsewhere; field declarations as methods when
/// they declare a function and as fields otherwise; nothing else.
pub proof fn law_cpp_item_kinds(src: SourceView, n: SyntaxView, in_type: bool)
    ensures
        n.kind == "preproc_include"@ && field_text(src.text, n, "path"@) is Some ==> cpp_item(src, n, in_type) is Some && cpp_item(src, n, in_type)->0.kind == "include"@ && cpp_item(src, n, in_type)->0.name == field_text(src.text, n, "path"@),
        n.kind == "namespace_definition"@ && field_text(src.text, n, "name"@) is Some ==> cpp_item(src, n, in_type) is Some && cpp_item(src, n, in_type)->0.kind == "namespace"@ && cpp_item(src, n, in_type)->0.name == field_text(src.text, n, "name"@),
        n.kind == "class_specifier"@ && field_text(src.text, n, "name"@) is Some ==> cpp_item(src, n, in_type) is Some && cpp_item(src, n, in_type)->0.kind == "class"@ && cpp_item(src, n, in_type)->0.name == field_text(src.text, n, "name"@),
        n.kind == "struct_specifier"@ && field_text(src.text, n, "name"@) is Some ==> cpp_item(src, n, in_type) is Some && cpp_item(src, n, in_type)->0.kind == "struct"@ && cpp_item(src, n, in_type)->0.name == field_text(src.text, n, "name"@),
        n.kind == "union_specifier"@ && field_text(src.text, n, "name"@) is Some ==> cpp_item(src, n, in_type) is Some && cpp_item(src, n, in_type)->0.kind == "union"@ && cpp_item(src, n, in_type)->0.name == field_text(src.text, n, "name"@),
        n.kind == "enum_specifier"@ && field_text(src.text, n, "name"@) is Some ==> cpp_item(src, n, in_type) is Some && cpp_item(src, n, in_type)->0.kind == "enum"@ && cpp_item(src, n, in_type)->0.name == field_text(src.text, n, "name"@),
        n.kind == "function_definition"@ && declarator_name(src.text, n) is Some ==> cpp_item(src, n, in_type) is Some && cpp_item(src, n, in_type)->0.kind == (if in_type { "method"@ } else { "function"@ }) && cpp_item(src, n, in_type)->0.name == declarator_name(src.text, n),
        n.kind == "declaration"@ && declares_function(n) && declarator_name(src.text, n) is Some ==> cpp_item(src, n, in_type) is Some && cpp_item(src, n, in_type)->0.kind == (if in_type { "method"@ } else { "function"@ }) && cpp_item(src, n, in_type)->0.name == declarator_name(src.text, n),
        n.kind == "field_declaration"@ && declares_function(n) && declarator_name(src.text, n) is Some ==> cpp_item(src, n, in_type) is Some && cpp_item(src, n, in_type)->0.kind == "method"@ && cpp_item(src, n, in_type)->0.name == declarator_name(src.text, n),
        n.kind == "field_declaration"@ && !declares_function(n) && declarator_name(src.text, n) is Some ==> cpp_item(src, n, in_type) is Some && cpp_item(src, n, in_type)->0.kind == "field"@ && cpp_item(src, n, in_type)->0.name == declarator_name(src.text, n),
        n.kind != "class_specifier"@ && n.kind != "declaration"@ && n.kind != "enum_specifier"@ && n.kind != "field_declaration"@ && n.kind != "function_definition"@ && n.kind != "namespace_definition"@ && n.kind != "preproc_include"@ && n.kind != "struct_specifier"@ && n.kind != "union_specifier"@ ==> cpp_item(src, n, in_type) is None,
{
    reveal_strlit("class_specifier");
    assert("class_specifier"@.len() == 15 && "class_specifier"@[0] == 'c' && "class_specifier"@[1] == 'l' && "class_specifier"@[2] == 'a' && "class_specifier"@[3] == 's' && "class_specifier"@[4] == 's' && "class_specifier"@[5] == '_' && "class_specifier"@[6] == 's' && "class_specifier"@[7] == 'p' && "class_specifier"@[8] == 'e' && "class_specifier"@[9] == 'c' && "class_specifier"@[10] == 'i' && "class_specifier"@[11] == 'f' && "class_specifier"@[12] == 'i' && "class_specifier"@[13] == 'e' && "class_specifier"@[14] == 'r');
    reveal_strlit("declaration");
    assert("declaration"@.len() == 11 && "declaration"@[0] == 'd' && "declaration"@[1] == 'e' && "declaration"@[2] == 'c' && "declaration"@[3] == 'l' && "declaration"@[4] == 'a' && "declaration"@[5] == 'r' && "declaration"@[6] == 'a' && "declaration"@[7] == 't' && "declaration"@[8] == 'i' && "declaration"@[9] == 'o' && "declaration"@[10] == 'n');
    reveal_strlit("enum_specifier");
    assert("enum_specifier"@.len() == 14 && "enum_specifier"@[0] == 'e' && "enum_specifier"@[1] == 'n' && "enum_specifier"@[2] == 'u' && "enum_specifier"@[3] == 'm' && "enum_specifier"@[4] == '_' && "enum_specifier"@[5] == 's' && "enum_specifier"@[6] == 'p' && "enum_specifier"@[7] == 'e' && "enum_specifier"@[8] == 'c' && "enum_specifier"@[9] == 'i' && "enum_specifier"@[10] == 'f' && "enum_specifier"@[11] == 'i' && "enum_specifier"@[12] == 'e' && "enum_specifier"@[13] == 'r');
    reveal_strlit("field_declaration");
    assert("field_declaration"@.len() == 17 && "field_declaration"@[0] == 'f' && "field_declaration"@[1] == 'i' && "field_declaration"@[2] == 'e' && "field_declaration"@[3] == 'l' && "field_declaration"@[4] == 'd' && "field_declaration"@[5] == '_' && "field_declaration"@[6] == 'd' && "field_declaration"@[7] == 'e' && "field_declaration"@[8] == 'c' && "field_declaration"@[9] == 'l' && "field_declaration"@[10] == 'a' && "field_declaration"@[11] == 'r' && "field_declaration"@[12] == 'a' && "field_declaration"@[13] == 't' && "field_declaration"@[14] == 'i' && "field_declaration"@[15] == 'o' && "field_declaration"@[16] == 'n');
    reveal_strlit("function_definition");
    assert("function_definition"@.len() == 19 && "function_definition"@[0] == 'f' && "function_definition"@[1] == 'u' && "function_definition"@[2] == 'n' && "function_definition"@[3] == 'c' && "function_definition"@[4] == 't' && "function_definition"@[5] == 'i' && "function_definition"@[6] == 'o' && "function_definition"@[7] == 'n' && "function_definition"@[8] == '_' && "function_definition"@[9] == 'd' && "function_definition"@[10] == 'e' && "function_definition"@[11] == 'f' && "function_definition"@[12] == 'i' && "function_definition"@[13] == 'n' && "function_definition"@[14] == 'i' && "function_definition"@[15] == 't' && "function_definition"@[16] == 'i' && "function_definition"@[17] == 'o' && "function_definition"@[18] == 'n');
    reveal_strlit("namespace_definition");
    assert("namespace_definition"@.len() == 20 && "namespace_definition"@[0] == 'n' && "namespace_definition"@[1] == 'a' && "namespace_definition"@[2] == 'm' && "namespace_definition"@[3] == 'e' && "namespace_definition"@[4] == 's' && "namespace_definition"@[5] == 'p' && "namespace_definition"@[6] == 'a' && "namespace_definition"@[7] == 'c' && "namespace_definition"@[8] == 'e' && "namespace_definition"@[9] == '_' && "namespace_definition"@[10] == 'd' && "namespace_definition"@[11] == 'e' && "namespace_definition"@[12] == 'f' && "namespace_definition"@[13] == 'i' && "namespace_definition"@[14] == 'n' && "namespace_definition"@[15] == 'i' && "namespace_definition"@[16] == 't' && "namespace_definition"@[17] == 'i' && "namespace_definition"@[18] == 'o' && "namespace_definition"@[19] == 'n');
    reveal_strlit("preproc_include");
    assert("preproc_include"@.len() == 15 && "preproc_include"@[0] == 'p' && "preproc_include"@[1] == 'r' && "preproc_include"@[2] == 'e' && "preproc_include"@[3] == 'p' && "preproc_include"@[4] == 'r' && "preproc_include"@[5] == 'o' && "preproc_include"@[6] == 'c' && "preproc_include"@[7] == '_' && "preproc_include"@[8] == 'i' && "preproc_include"@[9] == 'n' && "preproc_include"@[10] == 'c' && "preproc_include"@[11] == 'l' && "preproc_include"@[12] == 'u' && "preproc_include"@[13] == 'd' && "preproc_include"@[14] == 'e');
    reveal_strlit("struct_specifier");
    assert("struct_specifier"@.len() == 16 && "struct_specifier"@[0] == 's' && "struct_specifier"@[1] == 't' && "struct_specifier"@[2] == 'r' && "struct_specifier"@[3] == 'u' && "struct_specifier"@[4] == 'c' && "struct_specifier"@[5] == 't' && "struct_specifier"@[6] == '_' && "struct_specifier"@[7] == 's' && "struct_specifier"@[8] == 'p' && "struct_specifier"@[9] == 'e' && "struct_specifier"@[10] == 'c' && "struct_specifier"@[11] == 'i' && "struct_specifier"@[12] == 'f' && "struct_specifier"@[13] == 'i' && "struct_specifier"@[14] == 'e' && "struct_specifier"@[15] == 'r');
    reveal_strlit("union_specifier");
    assert("union_specifier"@.len() == 15 && "union_specifier"@[0] == 'u' && "union_specifier"@[1] == 'n' && "union_specifier"@[2] == 'i' && "union_specifier"@[3] == 'o' && "union_specifier"@[4] == 'n' && "union_specifier"@[5] == '_' && "union_specifier"@[6] == 's' && "union_specifier"@[7] == 'p' && "union_specifier"@[8] == 'e' && "union_specifier"@[9] == 'c' && "union_specifier"@[10] == 'i' && "union_specifier"@[11] == 'f' && "union_specifier"@[12] == 'i' && "union_specifier"@[13] == 'e' && "union_specifier"@[14] == 'r');
}

} // verus!
