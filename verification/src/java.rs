//! Java outlines: package, imports, classes, interfaces, enums, annotation
//! types, constructors, methods and fields.

use vstd::prelude::*;
use crate::model::{Node, NodeView};
use crate::query::{
    Source, SourceView, src_view, field_text, field_text_of, field_child, child_by_field,
    plain_range, plain_range_exec, kind_is, opt_node_view, first_named_kind,
    first_named_child_of_kind, last_named_either, last_named_child_either, opt_text, opt_text_of,
    named_item, make_named_item,
};
use crate::syntax::{SyntaxNode, SyntaxView, field_view};

verus! {

/// The name of a declaration: the text of its `name` field.
pub open spec fn java_name(src: SourceView, n: SyntaxView) -> Option<Seq<char>> {
    field_text(src.text, n, "name"@)
}

/// The name of a field declaration: that of its first variable declarator.
pub open spec fn java_field_name(src: SourceView, n: SyntaxView) -> Option<Seq<char>> {
    match first_named_kind(n, "variable_declarator"@) {
        Some(d) => java_name(src, d),
        None => None,
    }
}

/// The last scoped identifier or identifier among the named children.
pub open spec fn last_scoped_identifier(n: SyntaxView) -> Option<SyntaxView> {
    last_named_either(n.children, n.children.len() as int, "scoped_identifier"@, "identifier"@)
}

/// The name of a package declaration: its `name` field, else its last
/// (scoped) identifier.
pub open spec fn java_package_name(src: SourceView, n: SyntaxView) -> Option<Seq<char>> {
    match field_child(n, "name"@) {
        Some(c) => crate::syntax::node_text(src.text, c),
        None => opt_text(src.text, last_scoped_identifier(n)),
    }
}

/// The name of an import: its last (scoped) identifier.
pub open spec fn java_import_name(src: SourceView, n: SyntaxView) -> Option<Seq<char>> {
    opt_text(src.text, last_scoped_identifier(n))
}

/// The outline node of a Java syntax node, if it is an item the outline shows.
pub open spec fn java_item(src: SourceView, n: SyntaxView) -> Option<NodeView> {
    let r = plain_range(n);
    if n.kind == "package_declaration"@ {
        named_item(src, n, "package"@, java_package_name(src, n), r)
    } else if n.kind == "import_declaration"@ {
        named_item(src, n, "import"@, java_import_name(src, n), r)
    } else if n.kind == "class_declaration"@ {
        named_item(src, n, "class"@, java_name(src, n), r)
    } else if n.kind == "interface_declaration"@ {
        named_item(src, n, "interface"@, java_name(src, n), r)
    } else if n.kind == "enum_declaration"@ {
        named_item(src, n, "enum"@, java_name(src, n), r)
    } else if n.kind == "annotation_type_declaration"@ {
        named_item(src, n, "annotation"@, java_name(src, n), r)
    } else if n.kind == "constructor_declaration"@ {
        named_item(src, n, "constructor"@, java_name(src, n), r)
    } else if n.kind == "method_declaration"@ {
        named_item(src, n, "method"@, java_name(src, n), r)
    } else if n.kind == "field_declaration"@ {
        named_item(src, n, "field"@, java_field_name(src, n), r)
    } else {
        None
    }
}

/// The name of a declaration.
pub fn java_ast_name(src: &Source, n: &SyntaxNode) -> (r: Option<String>)
    ensures
        field_view(r) == java_name(src_view(src), n@),
{
    field_text_of(src.text, n, "name")
}

/// The name of a field declaration.
pub fn java_field_name_exec(src: &Source, n: &SyntaxNode) -> (r: Option<String>)
    ensures
        field_view(r) == java_field_name(src_view(src), n@),
{
    match first_named_child_of_kind(n, "variable_declarator") {
        Some(d) => java_ast_name(src, d),
        None => None,
    }
}

/// The name of a package declaration.
pub fn java_package_name_exec(src: &Source, n: &SyntaxNode) -> (r: Option<String>)
    ensures
        field_view(r) == java_package_name(src_view(src), n@),
{
    match child_by_field(n, "name") {
        Some(c) => crate::syntax::text_of(src.text, c),
        None => opt_text_of(src.text, last_named_child_either(n, "scoped_identifier", "identifier")),
    }
}

/// The name of an import.
pub fn java_import_name_exec(src: &Source, n: &SyntaxNode) -> (r: Option<String>)
    ensures
        field_view(r) == java_import_name(src_view(src), n@),
{
    opt_text_of(src.text, last_named_child_either(n, "scoped_identifier", "identifier"))
}

/// The outline node of a Java syntax node.
pub fn java_node_from_ast(src: &Source, n: &SyntaxNode) -> (r: Option<Node>)
    ensures
        opt_node_view(r) == java_item(src_view(src), n@),
{
    let r = plain_range_exec(n);
    if kind_is(n, "package_declaration") {
        make_named_item(src, n, "package", java_package_name_exec(src, n), r)
    } else if kind_is(n, "import_declaration") {
        make_named_item(src, n, "import", java_import_name_exec(src, n), r)
    } else if kind_is(n, "class_declaration") {
        make_named_item(src, n, "class", java_ast_name(src, n), r)
    } else if kind_is(n, "interface_declaration") {
        make_named_item(src, n, "interface", java_ast_name(src, n), r)
    } else if kind_is(n, "enum_declaration") {
        make_named_item(src, n, "enum", java_ast_name(src, n), r)
    } else if kind_is(n, "annotation_type_declaration") {
        make_named_item(src, n, "annotation", java_ast_name(src, n), r)
    } else if kind_is(n, "constructor_declaration") {
        make_named_item(src, n, "constructor", java_ast_name(src, n), r)
    } else if kind_is(n, "method_declaration") {
        make_named_item(src, n, "method", java_ast_name(src, n), r)
    } else if kind_is(n, "field_declaration") {
        make_named_item(src, n, "field", java_field_name_exec(src, n), r)
    } else {
        None
    }
}

/// Which Java declarations the outline shows, as what, and under which name: a
/// package, an import, a class, an interface, an enum, an annotation type, a
/// constructor, a method or a field, each when it has a name; nothing else.
pub proof fn law_java_item_kinds(src: SourceView, n: SyntaxView)
    ensures
        n.kind == "package_declaration"@ && java_package_name(src, n) is Some ==> java_item(src, n) is Some && java_item(src, n)->0.kind == "package"@ && java_item(src, n)->0.name == java_package_name(src, n),
        n.kind == "import_declaration"@ && java_import_name(src, n) is Some ==> java_item(src, n) is Some && java_item(src, n)->0.kind == "import"@ && java_item(src, n)->0.name == java_import_name(src, n),
        n.kind == "class_declaration"@ && java_name(src, n) is Some ==> java_item(src, n) is Some && java_item(src, n)->0.kind == "class"@ && java_item(src, n)->0.name == java_name(src, n),
        n.kind == "interface_declaration"@ && java_name(src, n) is Some ==> java_item(src, n) is Some && java_item(src, n)->0.kind == "interface"@ && java_item(src, n)->0.name == java_name(src, n),
        n.kind == "enum_declaration"@ && java_name(src, n) is Some ==> java_item(src, n) is Some && java_item(src, n)->0.kind == "enum"@ && java_item(src, n)->0.name == java_name(src, n),
        n.kind == "annotation_type_declaration"@ && java_name(src, n) is Some ==> java_item(src, n) is Some && java_item(src, n)->0.kind == "annotation"@ && java_item(src, n)->0.name == java_name(src, n),
        n.kind == "constructor_declaration"@ && java_name(src, n) is Some ==> java_item(src, n) is Some && java_item(src, n)->0.kind == "constructor"@ && java_item(src, n)->0.name == java_name(src, n),
        n.kind == "method_declaration"@ && java_name(src, n) is Some ==> java_item(src, n) is Some && java_item(src, n)->0.kind == "method"@ && java_item(src, n)->0.name == java_name(src, n),
        n.kind == "field_declaration"@ && java_field_name(src, n) is Some ==> java_item(src, n) is Some && java_item(src, n)->0.kind == "field"@ && java_item(src, n)->0.name == java_field_name(src, n),
        n.kind != "annotation_type_declaration"@ && n.kind != "class_declaration"@ && n.kind != "constructor_declaration"@ && n.kind != "enum_declaration"@ && n.kind != "field_declaration"@ && n.kind != "import_declaration"@ && n.kind != "interface_declaration"@ && n.kind != "method_declaration"@ && n.kind != "package_declaration"@ ==> java_item(src, n) is None,
{
    reveal_strlit("annotation_type_declaration");
    assert("annotation_type_declaration"@.len() == 27 && "annotation_type_declaration"@[0] == 'a' && "annotation_type_declaration"@[1] == 'n' && "annotation_type_declaration"@[2] == 'n' && "annotation_type_declaration"@[3] == 'o' && "annotation_type_declaration"@[4] == 't' && "annotation_type_declaration"@[5] == 'a' && "annotation_type_declaration"@[6] == 't' && "annotation_type_declaration"@[7] == 'i' && "annotation_type_declaration"@[8] == 'o' && "annotation_type_declaration"@[9] == 'n' && "annotation_type_declaration"@[10] == '_' && "annotation_type_declaration"@[11] == 't' && "annotation_type_declaration"@[12] == 'y' && "annotation_type_declaration"@[13] == 'p' && "annotation_type_declaration"@[14] == 'e' && "annotation_type_declaration"@[15] == '_' && "annotation_type_declaration"@[16] == 'd' && "annotation_type_declaration"@[17] == 'e' && "annotation_type_declaration"@[18] == 'c' && "annotation_type_declaration"@[19] == 'l' && "annotation_type_declaration"@[20] == 'a' && "annotation_type_declaration"@[21] == 'r' && "annotation_type_declaration"@[22] == 'a' && "annotation_type_declaration"@[23] == 't' && "annotation_type_declaration"@[24] == 'i' && "annotation_type_declaration"@[25] == 'o' && "annotation_type_declaration"@[26] == 'n');
    reveal_strlit("class_declaration");
    assert("class_declaration"@.len() == 17 && "class_declaration"@[0] == 'c' && "class_declaration"@[1] == 'l' && "class_declaration"@[2] == 'a' && "class_declaration"@[3] == 's' && "class_declaration"@[4] == 's' && "class_declaration"@[5] == '_' && "class_declaration"@[6] == 'd' && "class_declaration"@[7] == 'e' && "class_declaration"@[8] == 'c' && "class_declaration"@[9] == 'l' && "class_declaration"@[10] == 'a' && "class_declaration"@[11] == 'r' && "class_declaration"@[12] == 'a' && "class_declaration"@[13] == 't' && "class_declaration"@[14] == 'i' && "class_declaration"@[15] == 'o' && "class_declaration"@[16] == 'n');
    reveal_strlit("constructor_declaration");
    assert("constructor_declaration"@.len() == 23 && "constructor_declaration"@[0] == 'c' && "constructor_declaration"@[1] == 'o' && "constructor_declaration"@[2] == 'n' && "constructor_declaration"@[3] == 's' && "constructor_declaration"@[4] == 't' && "constructor_declaration"@[5] == 'r' && "constructor_declaration"@[6] == 'u' && "constructor_declaration"@[7] == 'c' && "constructor_declaration"@[8] == 't' && "constructor_declaration"@[9] == 'o' && "constructor_declaration"@[10] == 'r' && "constructor_declaration"@[11] == '_' && "constructor_declaration"@[12] == 'd' && "constructor_declaration"@[13] == 'e' && "constructor_declaration"@[14] == 'c' && "constructor_declaration"@[15] == 'l' && "constructor_declaration"@[16] == 'a' && "constructor_declaration"@[17] == 'r' && "constructor_declaration"@[18] == 'a' && "constructor_declaration"@[19] == 't' && "constructor_declaration"@[20] == 'i' && "constructor_declaration"@[21] == 'o' && "constructor_declaration"@[22] == 'n');
    reveal_strlit("enum_declaration");
    assert("enum_declaration"@.len() == 16 && "enum_declaration"@[0] == 'e' && "enum_declaration"@[1] == 'n' && "enum_declaration"@[2] == 'u' && "enum_declaration"@[3] == 'm' && "enum_declaration"@[4] == '_' && "enum_declaration"@[5] == 'd' && "enum_declaration"@[6] == 'e' && "enum_declaration"@[7] == 'c' && "enum_declaration"@[8] == 'l' && "enum_declaration"@[9] == 'a' && "enum_declaration"@[10] == 'r' && "enum_declaration"@[11] == 'a' && "enum_declaration"@[12] == 't' && "enum_declaration"@[13] == 'i' && "enum_declaration"@[14] == 'o' && "enum_declaration"@[15] == 'n');
    reveal_strlit("field_declaration");
    assert("field_declaration"@.len() == 17 && "field_declaration"@[0] == 'f' && "field_declaration"@[1] == 'i' && "field_declaration"@[2] == 'e' && "field_declaration"@[3] == 'l' && "field_declaration"@[4] == 'd' && "field_declaration"@[5] == '_' && "field_declaration"@[6] == 'd' && "field_declaration"@[7] == 'e' && "field_declaration"@[8] == 'c' && "field_declaration"@[9] == 'l' && "field_declaration"@[10] == 'a' && "field_declaration"@[11] == 'r' && "field_declaration"@[12] == 'a' && "field_declaration"@[13] == 't' && "field_declaration"@[14] == 'i' && "field_declaration"@[15] == 'o' && "field_declaration"@[16] == 'n');
    reveal_strlit("import_declaration");
    assert("import_declaration"@.len() == 18 && "import_declaration"@[0] == 'i' && "import_declaration"@[1] == 'm' && "import_declaration"@[2] == 'p' && "import_declaration"@[3] == 'o' && "import_declaration"@[4] == 'r' && "import_declaration"@[5] == 't' && "import_declaration"@[6] == '_' && "import_declaration"@[7] == 'd' && "import_declaration"@[8] == 'e' && "import_declaration"@[9] == 'c' && "import_declaration"@[10] == 'l' && "import_declaration"@[11] == 'a' && "import_declaration"@[12] == 'r' && "import_declaration"@[13] == 'a' && "import_declaration"@[14] == 't' && "import_declaration"@[15] == 'i' && "import_declaration"@[16] == 'o' && "import_declaration"@[17] == 'n');
    reveal_strlit("interface_declaration");
    assert("interface_declaration"@.len() == 21 && "interface_declaration"@[0] == 'i' && "interface_declaration"@[1] == 'n' && "interface_declaration"@[2] == 't' && "interface_declaration"@[3] == 'e' && "interface_declaration"@[4] == 'r' && "interface_declaration"@[5] == 'f' && "interface_declaration"@[6] == 'a' && "interface_declaration"@[7] == 'c' && "interface_declaration"@[8] == 'e' && "interface_declaration"@[9] == '_' && "interface_declaration"@[10] == 'd' && "interface_declaration"@[11] == 'e' && "interface_declaration"@[12] == 'c' && "interface_declaration"@[13] == 'l' && "interface_declaration"@[14] == 'a' && "interface_declaration"@[15] == 'r' && "interface_declaration"@[16] == 'a' && "interface_declaration"@[17] == 't' && "interface_declaration"@[18] == 'i' && "interface_declaration"@[19] == 'o' && "interface_declaration"@[20] == 'n');
    reveal_strlit("method_declaration");
    assert("method_declaration"@.len() == 18 && "method_declaration"@[0] == 'm' && "method_declaration"@[1] == 'e' && "method_declaration"@[2] == 't' && "method_declaration"@[3] == 'h' && "method_declaration"@[4] == 'o' && "method_declaration"@[5] == 'd' && "method_declaration"@[6] == '_' && "method_declaration"@[7] == 'd' && "method_declaration"@[8] == 'e' && "method_declaration"@[9] == 'c' && "method_declaration"@[10] == 'l' && "method_declaration"@[11] == 'a' && "method_declaration"@[12] == 'r' && "method_declaration"@[13] == 'a' && "method_declaration"@[14] == 't' && "method_declaration"@[15] == 'i' && "method_declaration"@[16] == 'o' && "method_declaration"@[17] == 'n');
    reveal_strlit("package_declaration");
    assert("package_declaration"@.len() == 19 && "package_declaration"@[0] == 'p' && "package_declaration"@[1] == 'a' && "package_declaration"@[2] == 'c' && "package_declaration"@[3] == 'k' && "package_declaration"@[4] == 'a' && "package_declaration"@[5] == 'g' && "package_declaration"@[6] == 'e' && "package_declaration"@[7] == '_' && "package_declaration"@[8] == 'd' && "package_declaration"@[9] == 'e' && "package_declaration"@[10] == 'c' && "package_declaration"@[11] == 'l' && "package_declaration"@[12] == 'a' && "package_declaration"@[13] == 'r' && "package_declaration"@[14] == 'a' && "package_declaration"@[15] == 't' && "package_declaration"@[16] == 'i' && "package_declaration"@[17] == 'o' && "package_declaration"@[18] == 'n');
}

} // verus!
