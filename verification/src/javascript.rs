//! JavaScript, TypeScript and TSX outlines: functions (declared, generator
//! or bound to a variable as an arrow function or function expression),
//! classes, methods, interfaces, type aliases and enums.

use vstd::prelude::*;
use crate::model::{Node, NodeView};
use crate::query::{
    Source, SourceView, src_view, field_child, child_by_field, plain_range, plain_range_exec,
    kind_is, opt_node_view, opt_text, opt_text_of, named_item, make_named_item,
};
use crate::syntax::{SyntaxNode, SyntaxView, field_view};

verus! {

/// A variable declarator whose value is an arrow function or a function expression.
pub open spec fn declares_function(n: SyntaxView) -> bool {
    match field_child(n, "value"@) {
        Some(v) => v.kind == "arrow_function"@ || v.kind == "function_expression"@,
        None => false,
    }
}

/// The node that names a declaration: its `name` field, else its
/// `property` field.
pub open spec fn js_name_node(n: SyntaxView) -> Option<SyntaxView> {
    match field_child(n, "name"@) {
        Some(c) => Some(c),
        None => field_child(n, "property"@),
    }
}

/// The kind of outline item a JavaScript syntax node is, if any.
pub open spec fn js_kind(n: SyntaxView) -> Option<Seq<char>> {
    if n.kind == "function_declaration"@ || n.kind == "generator_function_declaration"@ {
        Some("function"@)
    } else if n.kind == "class_declaration"@ {
        Some("class"@)
    } else if n.kind == "method_definition"@ {
        Some("method"@)
    } else if n.kind == "interface_declaration"@ {
        Some("interface"@)
    } else if n.kind == "type_alias_declaration"@ {
        Some("type"@)
    } else if n.kind == "enum_declaration"@ {
        Some("enum"@)
    } else if n.kind == "variable_declarator"@ && declares_function(n) {
        Some("function"@)
    } else {
        None
    }
}

/// The outline node of a JavaScript syntax node, if it is an item the outline shows.
pub open spec fn js_item(src: SourceView, n: SyntaxView) -> Option<NodeView> {
    match js_kind(n) {
        Some(k) => named_item(src, n, k, opt_text(src.text, js_name_node(n)), plain_range(n)),
        None => None,
    }
}

/// Whether a variable declarator binds a function.
pub fn variable_declarator_is_function(n: &SyntaxNode) -> (r: bool)
    ensures
        r == declares_function(n@),
{
    match child_by_field(n, "value") {
        Some(v) => kind_is(v, "arrow_function") || kind_is(v, "function_expression"),
        None => false,
    }
}

/// The name of a declaration.
pub fn javascript_ast_name(src: &Source, n: &SyntaxNode) -> (r: Option<String>)
    ensures
        field_view(r) == opt_text(src_view(src).text, js_name_node(n@)),
{
    let c = match child_by_field(n, "name") {
        Some(c) => Some(c),
        None => child_by_field(n, "property"),
    };
    opt_text_of(src.text, c)
}

fn js_kind_exec(n: &SyntaxNode) -> (r: Option<&'static str>)
    ensures
        match r {
            Some(k) => js_kind(n@) == Some(k@),
            None => js_kind(n@) is None,
        },
{
    if kind_is(n, "function_declaration") || kind_is(n, "generator_function_declaration") {
        Some("function")
    } else if kind_is(n, "class_declaration") {
        Some("class")
    } else if kind_is(n, "method_definition") {
        Some("method")
    } else if kind_is(n, "interface_declaration") {
        Some("interface")
    } else if kind_is(n, "type_alias_declaration") {
        Some("type")
    } else if kind_is(n, "enum_declaration") {
        Some("enum")
    } else if kind_is(n, "variable_declarator") && variable_declarator_is_function(n) {
        Some("function")
    } else {
        None
    }
}

/// The outline node of a JavaScript syntax node.
pub fn javascript_node_from_ast(src: &Source, n: &SyntaxNode) -> (r: Option<Node>)
    ensures
        opt_node_view(r) == js_item(src_view(src), n@),
{
    match js_kind_exec(n) {
        Some(k) => make_named_item(src, n, k, javascript_ast_name(src, n), plain_range_exec(n)),
        None => None,
    }
}

/// Which JavaScript and TypeScript nodes the outline shows, as what: function
/// and generator declarations and variables bound to an arrow function or a
/// function expression as functions, classes, methods, interfaces, type
/// aliases and enums, each under the text of its `name` (else `property`)
/// field when it has one; nothing else.
pub proof fn law_js_item_kinds(src: SourceView, n: SyntaxView)
    ensures
        (n.kind == "function_declaration"@ || n.kind == "generator_function_declaration"@) && opt_text(src.text, js_name_node(n)) is Some ==> js_item(src, n) is Some && js_item(src, n)->0.kind == "function"@ && js_item(src, n)->0.name == opt_text(src.text, js_name_node(n)),
        n.kind == "class_declaration"@ && opt_text(src.text, js_name_node(n)) is Some ==> js_item(src, n) is Some && js_item(src, n)->0.kind == "class"@ && js_item(src, n)->0.name == opt_text(src.text, js_name_node(n)),
        n.kind == "method_definition"@ && opt_text(src.text, js_name_node(n)) is Some ==> js_item(src, n) is Some && js_item(src, n)->0.kind == "method"@ && js_item(src, n)->0.name == opt_text(src.text, js_name_node(n)),
        n.kind == "interface_declaration"@ && opt_text(src.text, js_name_node(n)) is Some ==> js_item(src, n) is Some && js_item(src, n)->0.kind == "interface"@ && js_item(src, n)->0.name == opt_text(src.text, js_name_node(n)),
        n.kind == "type_alias_declaration"@ && opt_text(src.text, js_name_node(n)) is Some ==> js_item(src, n) is Some && js_item(src, n)->0.kind == "type"@ && js_item(src, n)->0.name == opt_text(src.text, js_name_node(n)),
        n.kind == "enum_declaration"@ && opt_text(src.text, js_name_node(n)) is Some ==> js_item(src, n) is Some && js_item(src, n)->0.kind == "enum"@ && js_item(src, n)->0.name == opt_text(src.text, js_name_node(n)),
        n.kind == "variable_declarator"@ && field_child(n, "value"@) is Some && (field_child(n, "value"@)->0.kind == "arrow_function"@ || field_child(n, "value"@)->0.kind == "function_expression"@) && opt_text(src.text, js_name_node(n)) is Some ==> js_item(src, n) is Some && js_item(src, n)->0.kind == "function"@ && js_item(src, n)->0.name == opt_text(src.text, js_name_node(n)),
        n.kind != "class_declaration"@ && n.kind != "enum_declaration"@ && n.kind != "function_declaration"@ && n.kind != "generator_function_declaration"@ && n.kind != "interface_declaration"@ && n.kind != "method_definition"@ && n.kind != "type_alias_declaration"@ && n.kind != "variable_declarator"@ ==> js_item(src, n) is None,
{
    reveal_strlit("arrow_function");
    assert("arrow_function"@.len() == 14 && "arrow_function"@[0] == 'a' && "arrow_function"@[1] == 'r' && "arrow_function"@[2] == 'r' && "arrow_function"@[3] == 'o' && "arrow_function"@[4] == 'w' && "arrow_function"@[5] == '_' && "arrow_function"@[6] == 'f' && "arrow_function"@[7] == 'u' && "arrow_function"@[8] == 'n' && "arrow_function"@[9] == 'c' && "arrow_function"@[10] == 't' && "arrow_function"@[11] == 'i' && "arrow_function"@[12] == 'o' && "arrow_function"@[13] == 'n');
    reveal_strlit("class_declaration");
    assert("class_declaration"@.len() == 17 && "class_declaration"@[0] == 'c' && "class_declaration"@[1] == 'l' && "class_declaration"@[2] == 'a' && "class_declaration"@[3] == 's' && "class_declaration"@[4] == 's' && "class_declaration"@[5] == '_' && "class_declaration"@[6] == 'd' && "class_declaration"@[7] == 'e' && "class_declaration"@[8] == 'c' && "class_declaration"@[9] == 'l' && "class_declaration"@[10] == 'a' && "class_declaration"@[11] == 'r' && "class_declaration"@[12] == 'a' && "class_declaration"@[13] == 't' && "class_declaration"@[14] == 'i' && "class_declaration"@[15] == 'o' && "class_declaration"@[16] == 'n');
    reveal_strlit("enum_declaration");
    assert("enum_declaration"@.len() == 16 && "enum_declaration"@[0] == 'e' && "enum_declaration"@[1] == 'n' && "enum_declaration"@[2] == 'u' && "enum_declaration"@[3] == 'm' && "enum_declaration"@[4] == '_' && "enum_declaration"@[5] == 'd' && "enum_declaration"@[6] == 'e' && "enum_declaration"@[7] == 'c' && "enum_declaration"@[8] == 'l' && "enum_declaration"@[9] == 'a' && "enum_declaration"@[10] == 'r' && "enum_declaration"@[11] == 'a' && "enum_declaration"@[12] == 't' && "enum_declaration"@[13] == 'i' && "enum_declaration"@[14] == 'o' && "enum_declaration"@[15] == 'n');
    reveal_strlit("function_declaration");
    assert("function_declaration"@.len() == 20 && "function_declaration"@[0] == 'f' && "function_declaration"@[1] == 'u' && "function_declaration"@[2] == 'n' && "function_declaration"@[3] == 'c' && "function_declaration"@[4] == 't' && "function_declaration"@[5] == 'i' && "function_declaration"@[6] == 'o' && "function_declaration"@[7] == 'n' && "function_declaration"@[8] == '_' && "function_declaration"@[9] == 'd' && "function_declaration"@[10] == 'e' && "function_declaration"@[11] == 'c' && "function_declaration"@[12] == 'l' && "function_declaration"@[13] == 'a' && "function_declaration"@[14] == 'r' && "function_declaration"@[15] == 'a' && "function_declaration"@[16] == 't' && "function_declaration"@[17] == 'i' && "function_declaration"@[18] == 'o' && "function_declaration"@[19] == 'n');
    reveal_strlit("function_expression");
    assert("function_expression"@.len() == 19 && "function_expression"@[0] == 'f' && "function_expression"@[1] == 'u' && "function_expression"@[2] == 'n' && "function_expression"@[3] == 'c' && "function_expression"@[4] == 't' && "function_expression"@[5] == 'i' && "function_expression"@[6] == 'o' && "function_expression"@[7] == 'n' && "function_expression"@[8] == '_' && "function_expression"@[9] == 'e' && "function_expression"@[10] == 'x' && "function_expression"@[11] == 'p' && "function_expression"@[12] == 'r' && "function_expression"@[13] == 'e' && "function_expression"@[14] == 's' && "function_expression"@[15] == 's' && "function_expression"@[16] == 'i' && "function_expression"@[17] == 'o' && "function_expression"@[18] == 'n');
    reveal_strlit("generator_function_declaration");
    assert("generator_function_declaration"@.len() == 30 && "generator_function_declaration"@[0] == 'g' && "generator_function_declaration"@[1] == 'e' && "generator_function_declaration"@[2] == 'n' && "generator_function_declaration"@[3] == 'e' && "generator_function_declaration"@[4] == 'r' && "generator_function_declaration"@[5] == 'a' && "generator_function_declaration"@[6] == 't' && "generator_function_declaration"@[7] == 'o' && "generator_function_declaration"@[8] == 'r' && "generator_function_declaration"@[9] == '_' && "generator_function_declaration"@[10] == 'f' && "generator_function_declaration"@[11] == 'u' && "generator_function_declaration"@[12] == 'n' && "generator_function_declaration"@[13] == 'c' && "generator_function_declaration"@[14] == 't' && "generator_function_declaration"@[15] == 'i' && "generator_function_declaration"@[16] == 'o' && "generator_function_declaration"@[17] == 'n' && "generator_function_declaration"@[18] == '_' && "generator_function_declaration"@[19] == 'd' && "generator_function_declaration"@[20] == 'e' && "generator_function_declaration"@[21] == 'c' && "generator_function_declaration"@[22] == 'l' && "generator_function_declaration"@[23] == 'a' && "generator_function_declaration"@[24] == 'r' && "generator_function_declaration"@[25] == 'a' && "generator_function_declaration"@[26] == 't' && "generator_function_declaration"@[27] == 'i' && "generator_function_declaration"@[28] == 'o' && "generator_function_declaration"@[29] == 'n');
    reveal_strlit("interface_declaration");
    assert("interface_declaration"@.len() == 21 && "interface_declaration"@[0] == 'i' && "interface_declaration"@[1] == 'n' && "interface_declaration"@[2] == 't' && "interface_declaration"@[3] == 'e' && "interface_declaration"@[4] == 'r' && "interface_declaration"@[5] == 'f' && "interface_declaration"@[6] == 'a' && "interface_declaration"@[7] == 'c' && "interface_declaration"@[8] == 'e' && "interface_declaration"@[9] == '_' && "interface_declaration"@[10] == 'd' && "interface_declaration"@[11] == 'e' && "interface_declaration"@[12] == 'c' && "interface_declaration"@[13] == 'l' && "interface_declaration"@[14] == 'a' && "interface_declaration"@[15] == 'r' && "interface_declaration"@[16] == 'a' && "interface_declaration"@[17] == 't' && "interface_declaration"@[18] == 'i' && "interface_declaration"@[19] == 'o' && "interface_declaration"@[20] == 'n');
    reveal_strlit("method_definition");
    assert("method_definition"@.len() == 17 && "method_definition"@[0] == 'm' && "method_definition"@[1] == 'e' && "method_definition"@[2] == 't' && "method_definition"@[3] == 'h' && "method_definition"@[4] == 'o' && "method_definition"@[5] == 'd' && "method_definition"@[6] == '_' && "method_definition"@[7] == 'd' && "method_definition"@[8] == 'e' && "method_definition"@[9] == 'f' && "method_definition"@[10] == 'i' && "method_definition"@[11] == 'n' && "method_definition"@[12] == 'i' && "method_definition"@[13] == 't' && "method_definition"@[14] == 'i' && "method_definition"@[15] == 'o' && "method_definition"@[16] == 'n');
    reveal_strlit("type_alias_declaration");
    assert("type_alias_declaration"@.len() == 22 && "type_alias_declaration"@[0] == 't' && "type_alias_declaration"@[1] == 'y' && "type_alias_declaration"@[2] == 'p' && "type_alias_declaration"@[3] == 'e' && "type_alias_declaration"@[4] == '_' && "type_alias_declaration"@[5] == 'a' && "type_alias_declaration"@[6] == 'l' && "type_alias_declaration"@[7] == 'i' && "type_alias_declaration"@[8] == 'a' && "type_alias_declaration"@[9] == 's' && "type_alias_declaration"@[10] == '_' && "type_alias_declaration"@[11] == 'd' && "type_alias_declaration"@[12] == 'e' && "type_alias_declaration"@[13] == 'c' && "type_alias_declaration"@[14] == 'l' && "type_alias_declaration"@[15] == 'a' && "type_alias_declaration"@[16] == 'r' && "type_alias_declaration"@[17] == 'a' && "type_alias_declaration"@[18] == 't' && "type_alias_declaration"@[19] == 'i' && "type_alias_declaration"@[20] == 'o' && "type_alias_declaration"@[21] == 'n');
    reveal_strlit("variable_declarator");
    assert("variable_declarator"@.len() == 19 && "variable_declarator"@[0] == 'v' && "variable_declarator"@[1] == 'a' && "variable_declarator"@[2] == 'r' && "variable_declarator"@[3] == 'i' && "variable_declarator"@[4] == 'a' && "variable_declarator"@[5] == 'b' && "variable_declarator"@[6] == 'l' && "variable_declarator"@[7] == 'e' && "variable_declarator"@[8] == '_' && "variable_declarator"@[9] == 'd' && "variable_declarator"@[10] == 'e' && "variable_declarator"@[11] == 'c' && "variable_declarator"@[12] == 'l' && "variable_declarator"@[13] == 'a' && "variable_declarator"@[14] == 'r' && "variable_declarator"@[15] == 'a' && "variable_declarator"@[16] == 't' && "variable_declarator"@[17] == 'o' && "variable_declarator"@[18] == 'r');
}

} // verus!
