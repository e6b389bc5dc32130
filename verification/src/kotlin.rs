//! Kotlin outlines: package, imports, classes (with their annotation,
//! interface and enum forms), objects, functions, properties and
//! constructors.

use vstd::prelude::*;
use vstd::string::StringExecFns;
use crate::model::{Node, NodeView};
use crate::query::{
    Source, SourceView, src_view, column_range, column_range_exec, kind_is, opt_node_view,
    first_named_kind, first_named_child_of_kind, has_named_kind, named_item, make_named_item,
};
use crate::syntax::{SyntaxNode, SyntaxView, field_view, node_text, text_of};
use crate::text::{contains, chars_of, contains_chars};

verus! {

/// The text of the first node of type `k` in the subtree of `n`, searched
/// in pre-order through named children (the text of that node, even if it
/// has none).
pub open spec fn first_desc(src: Seq<char>, n: SyntaxView, k: Seq<char>) -> Option<Seq<char>>
    decreases n, 1int,
{
    if n.kind == k {
        node_text(src, n)
    } else {
        first_desc_from(src, n.children, 0, k)
    }
}

/// The first match found under the named nodes `kids[i..]`.
pub open spec fn first_desc_from(src: Seq<char>, kids: Seq<SyntaxView>, i: int, k: Seq<char>) -> Option<Seq<char>>
    decreases kids, kids.len() - i,
{
    if i < 0 || i >= kids.len() {
        None
    } else if !kids[i].named {
        first_desc_from(src, kids, i + 1, k)
    } else {
        match first_desc(src, kids[i], k) {
            Some(t) => Some(t),
            None => first_desc_from(src, kids, i + 1, k),
        }
    }
}

/// The text of the first node of type `kind` in the subtree of `n`.
pub fn first_descendant(source: &str, n: &SyntaxNode, kind: &str) -> (r: Option<String>)
    ensures
        field_view(r) == first_desc(source@, n@, kind@),
    decreases n, 1int,
{
    if kind_is(n, kind) {
        return text_of(source, n);
    }
    let ghost kids = n@.children;
    let mut i: usize = 0;
    while i < n.children.len()
        invariant
            i <= n.children@.len(),
            kids == n@.children,
            kids.len() == n.children@.len(),
            n@.kind != kind@,
            first_desc(source@, n@, kind@) == first_desc_from(source@, kids, i as int, kind@),
        decreases n.children@.len() - i,
    {
        let c = &n.children[i];
        assert(c@ == kids[i as int]);
        if c.named {
            proof {
                assert(decreases_to!(n => n.children));
                assert(decreases_to!(n.children => n.children@));
                assert(decreases_to!(n.children@ => n.children@[i as int]));
            }
            let found = first_descendant(source, c, kind);
            if found.is_some() {
                return found;
            }
        }
        i = i + 1;
    }
    None
}

/// The kind of a class declaration, read from its text.
pub open spec fn class_kind(src: SourceView, n: SyntaxView) -> Seq<char> {
    let text = match node_text(src.text, n) {
        Some(t) => t,
        None => seq![],
    };
    if contains(text, "annotation class"@) {
        "annotation"@
    } else if contains(text, "interface "@) {
        "interface"@
    } else if contains(text, "enum class"@) {
        "enum"@
    } else {
        "class"@
    }
}

/// The name of an import: its first identifier, with `.*` for a wildcard import.
pub open spec fn kotlin_import(src: SourceView, n: SyntaxView) -> Option<Seq<char>> {
    match first_desc(src.text, n, "identifier"@) {
        Some(name) => Some(
            if has_named_kind(n, "wildcard_import"@) {
                name + ".*"@
            } else {
                name
            },
        ),
        None => None,
    }
}

/// The name of a property: the first simple identifier of its variable declaration.
pub open spec fn kotlin_property(src: SourceView, n: SyntaxView) -> Option<Seq<char>> {
    match first_named_kind(n, "variable_declaration"@) {
        Some(d) => first_desc(src.text, d, "simple_identifier"@),
        None => None,
    }
}

/// The name of a constructor: that of the nearest enclosing class or object.
pub open spec fn enclosing_name(src: SourceView, enclosing: Option<SyntaxView>) -> Option<Seq<char>> {
    match enclosing {
        Some(e) => first_desc(src.text, e, "type_identifier"@),
        None => None,
    }
}

/// The outline node of a Kotlin syntax node, if it is an item the outline
/// shows; `enclosing` is the nearest enclosing class or object declaration.
pub open spec fn kotlin_item(src: SourceView, n: SyntaxView, enclosing: Option<SyntaxView>) -> Option<NodeView> {
    let r = column_range(n);
    if n.kind == "package_header"@ {
        named_item(src, n, "package"@, first_desc(src.text, n, "identifier"@), r)
    } else if n.kind == "import_header"@ {
        named_item(src, n, "import"@, kotlin_import(src, n), r)
    } else if n.kind == "class_declaration"@ {
        named_item(src, n, class_kind(src, n), first_desc(src.text, n, "type_identifier"@), r)
    } else if n.kind == "object_declaration"@ {
        named_item(src, n, "object"@, first_desc(src.text, n, "type_identifier"@), r)
    } else if n.kind == "function_declaration"@ {
        named_item(src, n, "function"@, first_desc(src.text, n, "simple_identifier"@), r)
    } else if n.kind == "property_declaration"@ {
        named_item(src, n, "property"@, kotlin_property(src, n), r)
    } else if n.kind == "primary_constructor"@ || n.kind == "secondary_constructor"@ {
        named_item(src, n, "constructor"@, enclosing_name(src, enclosing), r)
    } else {
        None
    }
}

/// The kind of a class declaration.
pub fn kotlin_class_kind(src: &Source, n: &SyntaxNode) -> (r: &'static str)
    ensures
        r@ == class_kind(src_view(src), n@),
{
    let text = match text_of(src.text, n) {
        Some(t) => chars_of(t.as_str()),
        None => Vec::new(),
    };
    let a = chars_of("annotation class");
    let b = chars_of("interface ");
    let c = chars_of("enum class");
    if contains_chars(text.as_slice(), a.as_slice()) {
        "annotation"
    } else if contains_chars(text.as_slice(), b.as_slice()) {
        "interface"
    } else if contains_chars(text.as_slice(), c.as_slice()) {
        "enum"
    } else {
        "class"
    }
}

/// The name of an import.
pub fn kotlin_import_name(src: &Source, n: &SyntaxNode) -> (r: Option<String>)
    ensures
        field_view(r) == kotlin_import(src_view(src), n@),
{
    match first_descendant(src.text, n, "identifier") {
        Some(name) => {
            if first_named_child_of_kind(n, "wildcard_import").is_some() {
                let mut name = name;
                name.append(".*");
                Some(name)
            } else {
                Some(name)
            }
        },
        None => None,
    }
}

/// The name of a property.
pub fn kotlin_property_name(src: &Source, n: &SyntaxNode) -> (r: Option<String>)
    ensures
        field_view(r) == kotlin_property(src_view(src), n@),
{
    match first_named_child_of_kind(n, "variable_declaration") {
        Some(d) => first_descendant(src.text, d, "simple_identifier"),
        None => None,
    }
}

/// The name of the nearest enclosing class or object.
pub fn enclosing_class_name(src: &Source, enclosing: Option<&SyntaxNode>) -> (r: Option<String>)
    ensures
        field_view(r) == enclosing_name(
            src_view(src),
            match enclosing {
                Some(e) => Some(e@),
                None => None,
            },
        ),
{
    match enclosing {
        Some(e) => first_descendant(src.text, e, "type_identifier"),
        None => None,
    }
}

/// The outline node of a Kotlin syntax node.
pub fn kotlin_node_from_ast(src: &Source, n: &SyntaxNode, enclosing: Option<&SyntaxNode>) -> (r: Option<Node>)
    ensures
        opt_node_view(r) == kotlin_item(
            src_view(src),
            n@,
            match enclosing {
                Some(e) => Some(e@),
                None => None,
            },
        ),
{
    let r = column_range_exec(n);
    if kind_is(n, "package_header") {
        make_named_item(src, n, "package", first_descendant(src.text, n, "identifier"), r)
    } else if kind_is(n, "import_header") {
        make_named_item(src, n, "import", kotlin_import_name(src, n), r)
    } else if kind_is(n, "class_declaration") {
        let kind = kotlin_class_kind(src, n);
        make_named_item(src, n, kind, first_descendant(src.text, n, "type_identifier"), r)
    } else if kind_is(n, "object_declaration") {
        make_named_item(src, n, "object", first_descendant(src.text, n, "type_identifier"), r)
    } else if kind_is(n, "function_declaration") {
        make_named_item(src, n, "function", first_descendant(src.text, n, "simple_identifier"), r)
    } else if kind_is(n, "property_declaration") {
        make_named_item(src, n, "property", kotlin_property_name(src, n), r)
    } else if kind_is(n, "primary_constructor") || kind_is(n, "secondary_constructor") {
        make_named_item(src, n, "constructor", enclosing_class_name(src, enclosing), r)
    } else {
        None
    }
}

/// The text of a syntax node, or nothing when its bytes do not decode.
pub open spec fn text_or_empty(src: SourceView, n: SyntaxView) -> Seq<char> {
    match node_text(src.text, n) {
        Some(t) => t,
        None => seq![],
    }
}

/// A Kotlin class declaration that names a type is outlined under that
/// name, and its kind is read from its text: `annotation` when it contains
/// `annotation class`; else `interface` when it contains `interface `; else
/// `enum` when it contains `enum class`; else `class`.
pub proof fn law_kotlin_class_kinds(src: SourceView, n: SyntaxView, enclosing: Option<SyntaxView>)
    requires
        n.kind == "class_declaration"@,
        first_desc(src.text, n, "type_identifier"@) is Some,
    ensures
        kotlin_item(src, n, enclosing) is Some,
        kotlin_item(src, n, enclosing)->0.name == first_desc(src.text, n, "type_identifier"@),
        kotlin_item(src, n, enclosing)->0.kind == if contains(text_or_empty(src, n), "annotation class"@) {
            "annotation"@
        } else if contains(text_or_empty(src, n), "interface "@) {
            "interface"@
        } else if contains(text_or_empty(src, n), "enum class"@) {
            "enum"@
        } else {
            "class"@
        },
{
    reveal_strlit("class_declaration");
    assert("class_declaration"@.len() == 17 && "class_declaration"@[0] == 'c' && "class_declaration"@[1] == 'l' && "class_declaration"@[2] == 'a' && "class_declaration"@[3] == 's' && "class_declaration"@[4] == 's' && "class_declaration"@[5] == '_' && "class_declaration"@[6] == 'd' && "class_declaration"@[7] == 'e' && "class_declaration"@[8] == 'c' && "class_declaration"@[9] == 'l' && "class_declaration"@[10] == 'a' && "class_declaration"@[11] == 'r' && "class_declaration"@[12] == 'a' && "class_declaration"@[13] == 't' && "class_declaration"@[14] == 'i' && "class_declaration"@[15] == 'o' && "class_declaration"@[16] == 'n');
    reveal_strlit("package_header");
    assert("package_header"@.len() == 14 && "package_header"@[0] == 'p' && "package_header"@[1] == 'a' && "package_header"@[2] == 'c' && "package_header"@[3] == 'k' && "package_header"@[4] == 'a' && "package_header"@[5] == 'g' && "package_header"@[6] == 'e' && "package_header"@[7] == '_' && "package_header"@[8] == 'h' && "package_header"@[9] == 'e' && "package_header"@[10] == 'a' && "package_header"@[11] == 'd' && "package_header"@[12] == 'e' && "package_header"@[13] == 'r');
    reveal_strlit("import_header");
    assert("import_header"@.len() == 13 && "import_header"@[0] == 'i' && "import_header"@[1] == 'm' && "import_header"@[2] == 'p' && "import_header"@[3] == 'o' && "import_header"@[4] == 'r' && "import_header"@[5] == 't' && "import_header"@[6] == '_' && "import_header"@[7] == 'h' && "import_header"@[8] == 'e' && "import_header"@[9] == 'a' && "import_header"@[10] == 'd' && "import_header"@[11] == 'e' && "import_header"@[12] == 'r');
}

/// Which Kotlin declarations the outline shows, as what: the package,
/// imports, class declarations (see `law_kotlin_class_kinds`), objects,
/// functions, properties and constructors (named after the enclosing class
/// or object), each when it has a name; nothing else.
pub proof fn law_kotlin_item_kinds(src: SourceView, n: SyntaxView, enclosing: Option<SyntaxView>)
    ensures
        n.kind == "package_header"@ && first_desc(src.text, n, "identifier"@) is Some ==> kotlin_item(src, n, enclosing) is Some && kotlin_item(src, n, enclosing)->0.kind == "package"@ && kotlin_item(src, n, enclosing)->0.name == first_desc(src.text, n, "identifier"@),
        n.kind == "import_header"@ && kotlin_import(src, n) is Some ==> kotlin_item(src, n, enclosing) is Some && kotlin_item(src, n, enclosing)->0.kind == "import"@ && kotlin_item(src, n, enclosing)->0.name == kotlin_import(src, n),
        n.kind == "class_declaration"@ && first_desc(src.text, n, "type_identifier"@) is Some ==> kotlin_item(src, n, enclosing) is Some && kotlin_item(src, n, enclosing)->0.kind == class_kind(src, n) && kotlin_item(src, n, enclosing)->0.name == first_desc(src.text, n, "type_identifier"@),
        n.kind == "object_declaration"@ && first_desc(src.text, n, "type_identifier"@) is Some ==> kotlin_item(src, n, enclosing) is Some && kotlin_item(src, n, enclosing)->0.kind == "object"@ && kotlin_item(src, n, enclosing)->0.name == first_desc(src.text, n, "type_identifier"@),
        n.kind == "function_declaration"@ && first_desc(src.text, n, "simple_identifier"@) is Some ==> kotlin_item(src, n, enclosing) is Some && kotlin_item(src, n, enclosing)->0.kind == "function"@ && kotlin_item(src, n, enclosing)->0.name == first_desc(src.text, n, "simple_identifier"@),
        n.kind == "property_declaration"@ && kotlin_property(src, n) is Some ==> kotlin_item(src, n, enclosing) is Some && kotlin_item(src, n, enclosing)->0.kind == "property"@ && kotlin_item(src, n, enclosing)->0.name == kotlin_property(src, n),
        (n.kind == "primary_constructor"@ || n.kind == "secondary_constructor"@) && enclosing_name(src, enclosing) is Some ==> kotlin_item(src, n, enclosing) is Some && kotlin_item(src, n, enclosing)->0.kind == "constructor"@ && kotlin_item(src, n, enclosing)->0.name == enclosing_name(src, enclosing),
        n.kind != "class_declaration"@ && n.kind != "function_declaration"@ && n.kind != "import_header"@ && n.kind != "object_declaration"@ && n.kind != "package_header"@ && n.kind != "primary_constructor"@ && n.kind != "property_declaration"@ && n.kind != "secondary_constructor"@ ==> kotlin_item(src, n, enclosing) is None,
{
    reveal_strlit("class_declaration");
    assert("class_declaration"@.len() == 17 && "class_declaration"@[0] == 'c' && "class_declaration"@[1] == 'l' && "class_declaration"@[2] == 'a' && "class_declaration"@[3] == 's' && "class_declaration"@[4] == 's' && "class_declaration"@[5] == '_' && "class_declaration"@[6] == 'd' && "class_declaration"@[7] == 'e' && "class_declaration"@[8] == 'c' && "class_declaration"@[9] == 'l' && "class_declaration"@[10] == 'a' && "class_declaration"@[11] == 'r' && "class_declaration"@[12] == 'a' && "class_declaration"@[13] == 't' && "class_declaration"@[14] == 'i' && "class_declaration"@[15] == 'o' && "class_declaration"@[16] == 'n');
    reveal_strlit("function_declaration");
    assert("function_declaration"@.len() == 20 && "function_declaration"@[0] == 'f' && "function_declaration"@[1] == 'u' && "function_declaration"@[2] == 'n' && "function_declaration"@[3] == 'c' && "function_declaration"@[4] == 't' && "function_declaration"@[5] == 'i' && "function_declaration"@[6] == 'o' && "function_declaration"@[7] == 'n' && "function_declaration"@[8] == '_' && "function_declaration"@[9] == 'd' && "function_declaration"@[10] == 'e' && "function_declaration"@[11] == 'c' && "function_declaration"@[12] == 'l' && "function_declaration"@[13] == 'a' && "function_declaration"@[14] == 'r' && "function_declaration"@[15] == 'a' && "function_declaration"@[16] == 't' && "function_declaration"@[17] == 'i' && "function_declaration"@[18] == 'o' && "function_declaration"@[19] == 'n');
    reveal_strlit("import_header");
    assert("import_header"@.len() == 13 && "import_header"@[0] == 'i' && "import_header"@[1] == 'm' && "import_header"@[2] == 'p' && "import_header"@[3] == 'o' && "import_header"@[4] == 'r' && "import_header"@[5] == 't' && "import_header"@[6] == '_' && "import_header"@[7] == 'h' && "import_header"@[8] == 'e' && "import_header"@[9] == 'a' && "import_header"@[10] == 'd' && "import_header"@[11] == 'e' && "import_header"@[12] == 'r');
    reveal_strlit("object_declaration");
    assert("object_declaration"@.len() == 18 && "object_declaration"@[0] == 'o' && "object_declaration"@[1] == 'b' && "object_declaration"@[2] == 'j' && "object_declaration"@[3] == 'e' && "object_declaration"@[4] == 'c' && "object_declaration"@[5] == 't' && "object_declaration"@[6] == '_' && "object_declaration"@[7] == 'd' && "object_declaration"@[8] == 'e' && "object_declaration"@[9] == 'c' && "object_declaration"@[10] == 'l' && "object_declaration"@[11] == 'a' && "object_declaration"@[12] == 'r' && "object_declaration"@[13] == 'a' && "object_declaration"@[14] == 't' && "object_declaration"@[15] == 'i' && "object_declaration"@[16] == 'o' && "object_declaration"@[17] == 'n');
    reveal_strlit("package_header");
    assert("package_header"@.len() == 14 && "package_header"@[0] == 'p' && "package_header"@[1] == 'a' && "package_header"@[2] == 'c' && "package_header"@[3] == 'k' && "package_header"@[4] == 'a' && "package_header"@[5] == 'g' && "package_header"@[6] == 'e' && "package_header"@[7] == '_' && "package_header"@[8] == 'h' && "package_header"@[9] == 'e' && "package_header"@[10] == 'a' && "package_header"@[11] == 'd' && "package_header"@[12] == 'e' && "package_header"@[13] == 'r');
    reveal_strlit("primary_constructor");
    assert("primary_constructor"@.len() == 19 && "primary_constructor"@[0] == 'p' && "primary_constructor"@[1] == 'r' && "primary_constructor"@[2] == 'i' && "primary_constructor"@[3] == 'm' && "primary_constructor"@[4] == 'a' && "primary_constructor"@[5] == 'r' && "primary_constructor"@[6] == 'y' && "primary_constructor"@[7] == '_' && "primary_constructor"@[8] == 'c' && "primary_constructor"@[9] == 'o' && "primary_constructor"@[10] == 'n' && "primary_constructor"@[11] == 's' && "primary_constructor"@[12] == 't' && "primary_constructor"@[13] == 'r' && "primary_constructor"@[14] == 'u' && "primary_constructor"@[15] == 'c' && "primary_constructor"@[16] == 't' && "primary_constructor"@[17] == 'o' && "primary_constructor"@[18] == 'r');
    reveal_strlit("property_declaration");
    assert("property_declaration"@.len() == 20 && "property_declaration"@[0] == 'p' && "property_declaration"@[1] == 'r' && "property_declaration"@[2] == 'o' && "property_declaration"@[3] == 'p' && "property_declaration"@[4] == 'e' && "property_declaration"@[5] == 'r' && "property_declaration"@[6] == 't' && "property_declaration"@[7] == 'y' && "property_declaration"@[8] == '_' && "property_declaration"@[9] == 'd' && "property_declaration"@[10] == 'e' && "property_declaration"@[11] == 'c' && "property_declaration"@[12] == 'l' && "property_declaration"@[13] == 'a' && "property_declaration"@[14] == 'r' && "property_declaration"@[15] == 'a' && "property_declaration"@[16] == 't' && "property_declaration"@[17] == 'i' && "property_declaration"@[18] == 'o' && "property_declaration"@[19] == 'n');
    reveal_strlit("secondary_constructor");
    assert("secondary_constructor"@.len() == 21 && "secondary_constructor"@[0] == 's' && "secondary_constructor"@[1] == 'e' && "secondary_constructor"@[2] == 'c' && "secondary_constructor"@[3] == 'o' && "secondary_constructor"@[4] == 'n' && "secondary_constructor"@[5] == 'd' && "secondary_constructor"@[6] == 'a' && "secondary_constructor"@[7] == 'r' && "secondary_constructor"@[8] == 'y' && "secondary_constructor"@[9] == '_' && "secondary_constructor"@[10] == 'c' && "secondary_constructor"@[11] == 'o' && "secondary_constructor"@[12] == 'n' && "secondary_constructor"@[13] == 's' && "secondary_constructor"@[14] == 't' && "secondary_constructor"@[15] == 'r' && "secondary_constructor"@[16] == 'u' && "secondary_constructor"@[17] == 'c' && "secondary_constructor"@[18] == 't' && "secondary_constructor"@[19] == 'o' && "secondary_constructor"@[20] == 'r');
}

} // verus!
