//! Objective-C outlines: imports, class interfaces and implementations,
//! categories, protocols, properties and methods.

use vstd::prelude::*;
use vstd::string::StringExecFns;
use crate::model::{Node, NodeView};
use crate::query::{
    Source, SourceView, src_view, field_text, field_text_of, field_pos, lemma_field_pos,
    trimmed_range, trimmed_range_exec, kind_is, opt_node_view, first_named_kind,
    first_named_child_of_kind, has_named_kind, opt_text, opt_text_of, named_item, make_named_item,
};
use crate::syntax::{SyntaxNode, SyntaxView, field_view, node_text, text_of};

verus! {

/// The text of the first named `identifier` child.
pub open spec fn objc_first_ident(src: SourceView, n: SyntaxView) -> Option<Seq<char>> {
    opt_text(src.text, first_named_kind(n, "identifier"@))
}

/// The texts of the named `identifier` children among `kids[i..]` that
/// have text, in order.
pub open spec fn ident_texts(src: Seq<char>, kids: Seq<SyntaxView>, i: int) -> Seq<Seq<char>>
    decreases kids.len() - i,
{
    if i < 0 || i >= kids.len() {
        seq![]
    } else if kids[i].named && kids[i].kind == "identifier"@ && node_text(src, kids[i]) is Some {
        seq![node_text(src, kids[i])->0] + ident_texts(src, kids, i + 1)
    } else {
        ident_texts(src, kids, i + 1)
    }
}

/// The name of a category: `Class(Category)`, or just the class.
pub open spec fn category_name(src: SourceView, n: SyntaxView) -> Option<Seq<char>> {
    let ids = ident_texts(src.text, n.children, 0);
    if ids.len() >= 2 {
        Some(ids[0] + "("@ + ids[1] + ")"@)
    } else if ids.len() == 1 {
        Some(ids[0])
    } else {
        None
    }
}

/// The identifier a declarator declares: the node itself if it is an
/// identifier, else through its `declarator` field, else the first match
/// among its named children.
pub open spec fn objc_decl_ident(src: Seq<char>, n: SyntaxView) -> Option<Seq<char>>
    decreases n, 1int,
{
    if n.kind == "identifier"@ {
        node_text(src, n)
    } else {
        let p = field_pos(n.children, 0, "declarator"@);
        if 0 <= p < n.children.len() {
            objc_decl_ident(src, n.children[p])
        } else {
            objc_decl_ident_from(src, n.children, 0)
        }
    }
}

/// The first identifier found under the named nodes `kids[i..]`.
pub open spec fn objc_decl_ident_from(src: Seq<char>, kids: Seq<SyntaxView>, i: int) -> Option<Seq<char>>
    decreases kids, kids.len() - i,
{
    if i < 0 || i >= kids.len() {
        None
    } else if !kids[i].named {
        objc_decl_ident_from(src, kids, i + 1)
    } else {
        match objc_decl_ident(src, kids[i]) {
            Some(t) => Some(t),
            None => objc_decl_ident_from(src, kids, i + 1),
        }
    }
}

/// The name of a property: the identifier of its struct declaration.
pub open spec fn objc_property(src: SourceView, n: SyntaxView) -> Option<Seq<char>> {
    match first_named_kind(n, "struct_declaration"@) {
        Some(d) => objc_decl_ident(src.text, d),
        None => None,
    }
}

/// The name of a method: its first identifier, with `:` when it takes parameters.
pub open spec fn objc_method(src: SourceView, n: SyntaxView) -> Option<Seq<char>> {
    let parts = ident_texts(src.text, n.children, 0);
    if parts.len() == 0 {
        None
    } else if has_named_kind(n, "method_parameter"@) {
        Some(parts[0] + ":"@)
    } else {
        Some(parts[0])
    }
}

/// The outline node of an Objective-C syntax node, if it is an item the outline shows.
pub open spec fn objc_item(src: SourceView, n: SyntaxView) -> Option<NodeView> {
    let r = trimmed_range(src.lines, n);
    if n.kind == "preproc_include"@ {
        named_item(src, n, "import"@, field_text(src.text, n, "path"@), r)
    } else if n.kind == "class_interface"@ {
        named_item(src, n, "interface"@, objc_first_ident(src, n), r)
    } else if n.kind == "class_implementation"@ {
        named_item(src, n, "implementation"@, objc_first_ident(src, n), r)
    } else if n.kind == "category_interface"@ || n.kind == "category_implementation"@ {
        named_item(src, n, "category"@, category_name(src, n), r)
    } else if n.kind == "protocol_declaration"@ {
        named_item(src, n, "protocol"@, objc_first_ident(src, n), r)
    } else if n.kind == "property_declaration"@ {
        named_item(src, n, "property"@, objc_property(src, n), r)
    } else if n.kind == "method_declaration"@ || n.kind == "method_definition"@ {
        named_item(src, n, "method"@, objc_method(src, n), r)
    } else {
        None
    }
}

/// The text of the first named identifier child.
pub fn objc_first_identifier(src: &Source, n: &SyntaxNode) -> (r: Option<String>)
    ensures
        field_view(r) == objc_first_ident(src_view(src), n@),
{
    opt_text_of(src.text, first_named_child_of_kind(n, "identifier"))
}

/// The views of a list of strings.
pub open spec fn strings_view(v: Seq<String>) -> Seq<Seq<char>> {
    Seq::new(v.len(), |i: int| v[i]@)
}

/// The texts of the named identifier children that have text.
pub fn identifier_texts(source: &str, n: &SyntaxNode) -> (r: Vec<String>)
    ensures
        strings_view(r@) == ident_texts(source@, n@.children, 0),
{
    let ghost kids = n@.children;
    let mut out: Vec<String> = Vec::new();
    let mut i: usize = 0;
    proof {
        assert(strings_view(out@) + ident_texts(source@, kids, 0) =~= ident_texts(source@, kids, 0));
    }
    while i < n.children.len()
        invariant
            i <= n.children@.len(),
            kids == n@.children,
            kids.len() == n.children@.len(),
            ident_texts(source@, kids, 0) == strings_view(out@) + ident_texts(source@, kids, i as int),
        decreases n.children@.len() - i,
    {
        let c = &n.children[i];
        assert(c@ == kids[i as int]);
        if c.named && kind_is(c, "identifier") {
            match text_of(source, c) {
                Some(t) => {
                    let ghost before = strings_view(out@);
                    out.push(t);
                    proof {
                        assert(strings_view(out@) =~= before.push(t@));
                        assert(before + ident_texts(source@, kids, i as int) =~= strings_view(out@) + ident_texts(source@, kids, i + 1));
                    }
                },
                None => {},
            }
        }
        i = i + 1;
    }
    proof {
        assert(strings_view(out@) + Seq::<Seq<char>>::empty() =~= strings_view(out@));
    }
    out
}

/// The name of a category.
pub fn objc_category_name(src: &Source, n: &SyntaxNode) -> (r: Option<String>)
    ensures
        field_view(r) == category_name(src_view(src), n@),
{
    let ids = identifier_texts(src.text, n);
    if ids.len() >= 2 {
        let mut name = ids[0].clone();
        name.append("(");
        name.append(ids[1].as_str());
        name.append(")");
        assert(ids[0]@ == strings_view(ids@)[0] && ids[1]@ == strings_view(ids@)[1]);
        Some(name)
    } else if ids.len() == 1 {
        assert(ids[0]@ == strings_view(ids@)[0]);
        Some(ids[0].clone())
    } else {
        None
    }
}

/// The identifier a declarator declares.
pub fn objc_declarator_identifier(source: &str, n: &SyntaxNode) -> (r: Option<String>)
    ensures
        field_view(r) == objc_decl_ident(source@, n@),
    decreases n, 1int,
{
    if kind_is(n, "identifier") {
        return text_of(source, n);
    }
    let ghost kids = n@.children;
    proof {
        lemma_field_pos(kids, 0, "declarator"@);
    }
    let mut k: usize = 0;
    while k < n.children.len()
        invariant
            k <= n.children@.len(),
            kids == n@.children,
            kids.len() == n.children@.len(),
            n@.kind != "identifier"@,
            field_pos(kids, 0, "declarator"@) == field_pos(kids, k as int, "declarator"@),
        decreases n.children@.len() - k,
    {
        let c = &n.children[k];
        assert(c@ == kids[k as int]);
        let hit = match &c.field {
            Some(x) => crate::query::str_eq(x.as_str(), "declarator"),
            None => false,
        };
        if hit {
            proof {
                assert(decreases_to!(n => n.children));
                assert(decreases_to!(n.children => n.children@));
                assert(decreases_to!(n.children@ => n.children@[k as int]));
                assert(kids[k as int].field == Some("declarator"@));
                assert(field_pos(kids, k as int, "declarator"@) == k);
            }
            return objc_declarator_identifier(source, c);
        }
        k = k + 1;
    }
    let mut i: usize = 0;
    while i < n.children.len()
        invariant
            i <= n.children@.len(),
            kids == n@.children,
            kids.len() == n.children@.len(),
            n@.kind != "identifier"@,
            field_pos(kids, 0, "declarator"@) == kids.len(),
            objc_decl_ident(source@, n@) == objc_decl_ident_from(source@, kids, i as int),
        decreases n.children@.len() - i,
    {
        let c = &n.children[i];
        assert(c@ == kids[i as int]);
        if c.named {
            proof {
                assert(decreases_to!(n => n.children));
                assert(decreases_to!(n.children => n.children@));
                assert(decreases_to!(n.children@ => n.children@[i as int]));
            }
            let found = objc_declarator_identifier(source, c);
            if found.is_some() {
                return found;
            }
        }
        i = i + 1;
    }
    None
}

/// The name of a property.
pub fn objc_property_name(src: &Source, n: &SyntaxNode) -> (r: Option<String>)
    ensures
        field_view(r) == objc_property(src_view(src), n@),
{
    match first_named_child_of_kind(n, "struct_declaration") {
        Some(d) => objc_declarator_identifier(src.text, d),
        None => None,
    }
}

/// The name of a method.
pub fn objc_method_name(src: &Source, n: &SyntaxNode) -> (r: Option<String>)
    ensures
        field_view(r) == objc_method(src_view(src), n@),
{
    let parts = identifier_texts(src.text, n);
    if parts.len() == 0 {
        return None;
    }
    assert(parts[0]@ == strings_view(parts@)[0]);
    let mut first = parts[0].clone();
    if first_named_child_of_kind(n, "method_parameter").is_some() {
        first.append(":");
    }
    Some(first)
}

/// The outline node of an Objective-C syntax node.
pub fn objc_node_from_ast(src: &Source, n: &SyntaxNode) -> (r: Option<Node>)
    ensures
        opt_node_view(r) == objc_item(src_view(src), n@),
{
    let r = trimmed_range_exec(&src.lines, n);
    if kind_is(n, "preproc_include") {
        make_named_item(src, n, "import", field_text_of(src.text, n, "path"), r)
    } else if kind_is(n, "class_interface") {
        make_named_item(src, n, "interface", objc_first_identifier(src, n), r)
    } else if kind_is(n, "class_implementation") {
        make_named_item(src, n, "implementation", objc_first_identifier(src, n), r)
    } else if kind_is(n, "category_interface") || kind_is(n, "category_implementation") {
        make_named_item(src, n, "category", objc_category_name(src, n), r)
    } else if kind_is(n, "protocol_declaration") {
        make_named_item(src, n, "protocol", objc_first_identifier(src, n), r)
    } else if kind_is(n, "property_declaration") {
        make_named_item(src, n, "property", objc_property_name(src, n), r)
    } else if kind_is(n, "method_declaration") || kind_is(n, "method_definition") {
        make_named_item(src, n, "method", objc_method_name(src, n), r)
    } else {
        None
    }
}

/// Which Objective-C nodes the outline shows, as what: imports, class
/// interfaces and implementations, categories, protocols, properties and
/// methods, each when it has a name; nothing else.
pub proof fn law_objc_item_kinds(src: SourceView, n: SyntaxView)
    ensures
        n.kind == "preproc_include"@ && field_text(src.text, n, "path"@) is Some ==> objc_item(src, n) is Some && objc_item(src, n)->0.kind == "import"@ && objc_item(src, n)->0.name == field_text(src.text, n, "path"@),
        n.kind == "class_interface"@ && objc_first_ident(src, n) is Some ==> objc_item(src, n) is Some && objc_item(src, n)->0.kind == "interface"@ && objc_item(src, n)->0.name == objc_first_ident(src, n),
        n.kind == "class_implementation"@ && objc_first_ident(src, n) is Some ==> objc_item(src, n) is Some && objc_item(src, n)->0.kind == "implementation"@ && objc_item(src, n)->0.name == objc_first_ident(src, n),
        (n.kind == "category_interface"@ || n.kind == "category_implementation"@) && category_name(src, n) is Some ==> objc_item(src, n) is Some && objc_item(src, n)->0.kind == "category"@ && objc_item(src, n)->0.name == category_name(src, n),
        n.kind == "protocol_declaration"@ && objc_first_ident(src, n) is Some ==> objc_item(src, n) is Some && objc_item(src, n)->0.kind == "protocol"@ && objc_item(src, n)->0.name == objc_first_ident(src, n),
        n.kind == "property_declaration"@ && objc_property(src, n) is Some ==> objc_item(src, n) is Some && objc_item(src, n)->0.kind == "property"@ && objc_item(src, n)->0.name == objc_property(src, n),
        (n.kind == "method_declaration"@ || n.kind == "method_definition"@) && objc_method(src, n) is Some ==> objc_item(src, n) is Some && objc_item(src, n)->0.kind == "method"@ && objc_item(src, n)->0.name == objc_method(src, n),
        n.kind != "category_implementation"@ && n.kind != "category_interface"@ && n.kind != "class_implementation"@ && n.kind != "class_interface"@ && n.kind != "method_declaration"@ && n.kind != "method_definition"@ && n.kind != "preproc_include"@ && n.kind != "property_declaration"@ && n.kind != "protocol_declaration"@ ==> objc_item(src, n) is None,
{
    reveal_strlit("category_implementation");
    assert("category_implementation"@.len() == 23 && "category_implementation"@[0] == 'c' && "category_implementation"@[1] == 'a' && "category_implementation"@[2] == 't' && "category_implementation"@[3] == 'e' && "category_implementation"@[4] == 'g' && "category_implementation"@[5] == 'o' && "category_implementation"@[6] == 'r' && "category_implementation"@[7] == 'y' && "category_implementation"@[8] == '_' && "category_implementation"@[9] == 'i' && "category_implementation"@[10] == 'm' && "category_implementation"@[11] == 'p' && "category_implementation"@[12] == 'l' && "category_implementation"@[13] == 'e' && "category_implementation"@[14] == 'm' && "category_implementation"@[15] == 'e' && "category_implementation"@[16] == 'n' && "category_implementation"@[17] == 't' && "category_implementation"@[18] == 'a' && "category_implementation"@[19] == 't' && "category_implementation"@[20] == 'i' && "category_implementation"@[21] == 'o' && "category_implementation"@[22] == 'n');
    reveal_strlit("category_interface");
    assert("category_interface"@.len() == 18 && "category_interface"@[0] == 'c' && "category_interface"@[1] == 'a' && "category_interface"@[2] == 't' && "category_interface"@[3] == 'e' && "category_interface"@[4] == 'g' && "category_interface"@[5] == 'o' && "category_interface"@[6] == 'r' && "category_interface"@[7] == 'y' && "category_interface"@[8] == '_' && "category_interface"@[9] == 'i' && "category_interface"@[10] == 'n' && "category_interface"@[11] == 't' && "category_interface"@[12] == 'e' && "category_interface"@[13] == 'r' && "category_interface"@[14] == 'f' && "category_interface"@[15] == 'a' && "category_interface"@[16] == 'c' && "category_interface"@[17] == 'e');
    reveal_strlit("class_implementation");
    assert("class_implementation"@.len() == 20 && "class_implementation"@[0] == 'c' && "class_implementation"@[1] == 'l' && "class_implementation"@[2] == 'a' && "class_implementation"@[3] == 's' && "class_implementation"@[4] == 's' && "class_implementation"@[5] == '_' && "class_implementation"@[6] == 'i' && "class_implementation"@[7] == 'm' && "class_implementation"@[8] == 'p' && "class_implementation"@[9] == 'l' && "class_implementation"@[10] == 'e' && "class_implementation"@[11] == 'm' && "class_implementation"@[12] == 'e' && "class_implementation"@[13] == 'n' && "class_implementation"@[14] == 't' && "class_implementation"@[15] == 'a' && "class_implementation"@[16] == 't' && "class_implementation"@[17] == 'i' && "class_implementation"@[18] == 'o' && "class_implementation"@[19] == 'n');
    reveal_strlit("class_interface");
    assert("class_interface"@.len() == 15 && "class_interface"@[0] == 'c' && "class_interface"@[1] == 'l' && "class_interface"@[2] == 'a' && "class_interface"@[3] == 's' && "class_interface"@[4] == 's' && "class_interface"@[5] == '_' && "class_interface"@[6] == 'i' && "class_interface"@[7] == 'n' && "class_interface"@[8] == 't' && "class_interface"@[9] == 'e' && "class_interface"@[10] == 'r' && "class_interface"@[11] == 'f' && "class_interface"@[12] == 'a' && "class_interface"@[13] == 'c' && "class_interface"@[14] == 'e');
    reveal_strlit("method_declaration");
    assert("method_declaration"@.len() == 18 && "method_declaration"@[0] == 'm' && "method_declaration"@[1] == 'e' && "method_declaration"@[2] == 't' && "method_declaration"@[3] == 'h' && "method_declaration"@[4] == 'o' && "method_declaration"@[5] == 'd' && "method_declaration"@[6] == '_' && "method_declaration"@[7] == 'd' && "method_declaration"@[8] == 'e' && "method_declaration"@[9] == 'c' && "method_declaration"@[10] == 'l' && "method_declaration"@[11] == 'a' && "method_declaration"@[12] == 'r' && "method_declaration"@[13] == 'a' && "method_declaration"@[14] == 't' && "method_declaration"@[15] == 'i' && "method_declaration"@[16] == 'o' && "method_declaration"@[17] == 'n');
    reveal_strlit("method_definition");
    assert("method_definition"@.len() == 17 && "method_definition"@[0] == 'm' && "method_definition"@[1] == 'e' && "method_definition"@[2] == 't' && "method_definition"@[3] == 'h' && "method_definition"@[4] == 'o' && "method_definition"@[5] == 'd' && "method_definition"@[6] == '_' && "method_definition"@[7] == 'd' && "method_definition"@[8] == 'e' && "method_definition"@[9] == 'f' && "method_definition"@[10] == 'i' && "method_definition"@[11] == 'n' && "method_definition"@[12] == 'i' && "method_definition"@[13] == 't' && "method_definition"@[14] == 'i' && "method_definition"@[15] == 'o' && "method_definition"@[16] == 'n');
    reveal_strlit("preproc_include");
    assert("preproc_include"@.len() == 15 && "preproc_include"@[0] == 'p' && "preproc_include"@[1] == 'r' && "preproc_include"@[2] == 'e' && "preproc_include"@[3] == 'p' && "preproc_include"@[4] == 'r' && "preproc_include"@[5] == 'o' && "preproc_include"@[6] == 'c' && "preproc_include"@[7] == '_' && "preproc_include"@[8] == 'i' && "preproc_include"@[9] == 'n' && "preproc_include"@[10] == 'c' && "preproc_include"@[11] == 'l' && "preproc_include"@[12] == 'u' && "preproc_include"@[13] == 'd' && "preproc_include"@[14] == 'e');
    reveal_strlit("property_declaration");
    assert("property_declaration"@.len() == 20 && "property_declaration"@[0] == 'p' && "property_declaration"@[1] == 'r' && "property_declaration"@[2] == 'o' && "property_declaration"@[3] == 'p' && "property_declaration"@[4] == 'e' && "property_declaration"@[5] == 'r' && "property_declaration"@[6] == 't' && "property_declaration"@[7] == 'y' && "property_declaration"@[8] == '_' && "property_declaration"@[9] == 'd' && "property_declaration"@[10] == 'e' && "property_declaration"@[11] == 'c' && "property_declaration"@[12] == 'l' && "property_declaration"@[13] == 'a' && "property_declaration"@[14] == 'r' && "property_declaration"@[15] == 'a' && "property_declaration"@[16] == 't' && "property_declaration"@[17] == 'i' && "property_declaration"@[18] == 'o' && "property_declaration"@[19] == 'n');
    reveal_strlit("protocol_declaration");
    assert("protocol_declaration"@.len() == 20 && "protocol_declaration"@[0] == 'p' && "protocol_declaration"@[1] == 'r' && "protocol_declaration"@[2] == 'o' && "protocol_declaration"@[3] == 't' && "protocol_declaration"@[4] == 'o' && "protocol_declaration"@[5] == 'c' && "protocol_declaration"@[6] == 'o' && "protocol_declaration"@[7] == 'l' && "protocol_declaration"@[8] == '_' && "protocol_declaration"@[9] == 'd' && "protocol_declaration"@[10] == 'e' && "protocol_declaration"@[11] == 'c' && "protocol_declaration"@[12] == 'l' && "protocol_declaration"@[13] == 'a' && "protocol_declaration"@[14] == 'r' && "protocol_declaration"@[15] == 'a' && "protocol_declaration"@[16] == 't' && "protocol_declaration"@[17] == 'i' && "protocol_declaration"@[18] == 'o' && "protocol_declaration"@[19] == 'n');
}

} // verus!
