use std::path::Path;
use sview::analyzer::detect_language_in;
use sview::markdown::analyze_markdown;
use sview::model::Node;
use sview::text::file_name;
use sview::{analyze_source, detect_language, render_text, truncate_preview, Language, RenderOptions, StructureView};

fn text(path: &str, language: Language, source: &str) -> String {
    let view = analyze_source(path, language, source, 120);
    render_text(
        &view,
        &RenderOptions {
            max_depth: None,
            max_nodes: 200,
        },
    )
}

fn chars(s: &str) -> Vec<char> {
    s.chars().collect()
}

fn count(nodes: &[Node]) -> usize {
    nodes.iter().map(|n| 1 + count(&n.children)).sum()
}

fn assert_nested(nodes: &[Node], lo: usize, hi: usize) {
    for n in nodes {
        assert!(lo <= n.start_line, "{} starts before {}", n.kind, lo);
        assert!(n.start_line <= n.end_line, "{} is reversed", n.kind);
        assert!(n.end_line <= hi, "{} ends after {}", n.kind, hi);
        assert_nested(&n.children, n.start_line, n.end_line);
    }
}

fn assert_levels_deepen(nodes: &[Node]) {
    for n in nodes {
        if !n.children.is_empty() {
            let level = n.level.expect("a node with children is a heading");
            for c in &n.children {
                if let Some(l) = c.level {
                    assert!(l > level);
                }
            }
        }
        assert_levels_deepen(&n.children);
    }
}

#[test]
fn markdown_text_names_the_file_and_heading() {
    let out = text("README.md", Language::Markdown, "# Title\n");
    assert_eq!(out, "README.md (markdown)\n└─ heading Title L1-1\n");
}

#[test]
fn rust_text_shows_unit_struct() {
    let out = text("lib.rs", Language::Rust, "pub struct Client;\n");
    assert!(out.contains("lib.rs (rust)"));
    assert!(out.contains("└─ struct Client L1-1"));
}

#[test]
fn typescript_text_lists_interface_and_function() {
    let source = "export interface User { id: string }\nexport function loadUser(): User { return { id: '1' }; }\n";
    let out = text("app.ts", Language::TypeScript, source);
    assert!(out.contains("app.ts (typescript)"));
    assert!(out.contains("├─ interface User L1-1"));
    assert!(out.contains("└─ function loadUser L2-2"));
}

#[test]
fn java_text_lists_package_class_and_method() {
    let source = "package com.example;\n\npublic class MainActivity {\n  void onCreate() {}\n}\n";
    let out = text("MainActivity.java", Language::Java, source);
    assert!(out.contains("MainActivity.java (java)"));
    assert!(out.contains("├─ package com.example L1-1"));
    assert!(out.contains("└─ class MainActivity L3-5"));
    assert!(out.contains("method onCreate L4-4"));
}

#[test]
fn cpp_text_lists_include_namespace_class_and_method() {
    let source = "#include <string>\n\nnamespace demo {\nclass Client {\npublic:\n  void fetch();\n};\n}\n";
    let out = text("client.cpp", Language::Cpp, source);
    assert!(out.contains("client.cpp (cpp)"));
    assert!(out.contains("├─ include <string> L1-1"));
    assert!(out.contains("└─ namespace demo L3-8"));
    assert!(out.contains("class Client L4-7"));
    assert!(out.contains("method fetch L6-6"));
}

#[test]
fn swift_text_lists_import_struct_property_and_function() {
    let source = "import Foundation\n\nstruct Client {\n  let title: String\n  func fetch() {}\n}\n";
    let out = text("Client.swift", Language::Swift, source);
    assert!(out.contains("Client.swift (swift)"));
    assert!(out.contains("├─ import Foundation L1-1"));
    assert!(out.contains("└─ struct Client L3-6"));
    assert!(out.contains("property title L4-4"));
    assert!(out.contains("function fetch L5-5"));
}

#[test]
fn objc_text_lists_import_interface_property_and_method() {
    let source = "#import <Foundation/Foundation.h>\n\n@interface Client : NSObject\n@property NSString *title;\n- (void)render;\n@end\n";
    let out = text("Client.m", Language::ObjectiveC, source);
    assert!(out.contains("Client.m (objective_c)"));
    assert!(out.contains("├─ import <Foundation/Foundation.h> L1-1"));
    assert!(out.contains("└─ interface Client L3-6"));
    assert!(out.contains("property title L4-4"));
    assert!(out.contains("method render L5-5"));
}

#[test]
fn unknown_file_is_one_file_node() {
    let view = analyze_source("sample.txt", Language::Unknown, "hello\n", 120);
    assert_eq!(view.language, Language::Unknown);
    assert_eq!(view.nodes.len(), 1);
    assert_eq!(view.nodes[0].kind, "file");
    assert_eq!(view.nodes[0].name.as_deref(), Some("sample.txt"));
    assert_eq!(view.nodes[0].start_line, 1);
    assert_eq!(view.nodes[0].end_line, 1);
}

#[test]
fn unknown_file_node_is_named_after_last_path_component() {
    let view = analyze_source("docs/notes/todo.txt", Language::Unknown, "a\nb", 120);
    assert_eq!(view.nodes[0].name.as_deref(), Some("todo.txt"));
    assert_eq!(view.nodes[0].end_line, 2);
    assert_eq!(file_name("docs/notes/todo.txt"), "todo.txt");
    assert_eq!(file_name("plain"), "plain");
}

#[test]
fn blank_source_has_no_nodes_in_any_language() {
    for language in [Language::Markdown, Language::Rust, Language::Unknown, Language::Java] {
        let view = analyze_source("x", language, "  \n\t\n", 40);
        assert!(view.nodes.is_empty());
    }
    let view = analyze_source("x.rs", Language::Rust, "", 40);
    assert!(view.nodes.is_empty());
}

#[test]
fn header_files_are_objective_c_only_with_objc_content() {
    assert_eq!(detect_language(Path::new("Client.h"), "@interface Client\n@end\n"), Language::ObjectiveC);
    assert_eq!(detect_language(Path::new("client.h"), "int add(int a, int b);\n"), Language::C);
    assert_eq!(detect_language_in("client.h", "#import <Foundation/Foundation.h>\n"), Language::ObjectiveC);
}

#[test]
fn extension_decides_language_whatever_the_content() {
    assert_eq!(detect_language_in("a.ts", "@interface X\n"), Language::TypeScript);
    assert_eq!(detect_language_in("a.tsx", ""), Language::Tsx);
    assert_eq!(detect_language_in("a.kt", "# title\n"), Language::Kotlin);
    assert_eq!(detect_language_in("a.swift", ""), Language::Swift);
    assert_eq!(detect_language_in("a.m", ""), Language::ObjectiveC);
    assert_eq!(detect_language_in("a.cpp", ""), Language::Cpp);
    assert_eq!(detect_language_in("a.c", ""), Language::C);
    assert_eq!(detect_language_in("a.java", ""), Language::Java);
    assert_eq!(detect_language_in("a.js", ""), Language::JavaScript);
}

#[test]
fn truncate_preview_with_zero_keeps_only_the_ellipsis() {
    assert_eq!(truncate_preview("abc", 0), "…");
    assert_eq!(truncate_preview("", 0), "");
    assert_eq!(truncate_preview("abc", 3), "abc");
    assert_eq!(truncate_preview("äöüß", 3), "äö…");
}

#[test]
fn truncated_preview_never_exceeds_the_limit() {
    for max in 1..8 {
        let t = truncate_preview("a fairly long preview line", max);
        assert!(t.chars().count() <= max);
    }
}

fn outline_of(source: &str) -> StructureView {
    analyze_source("doc.md", Language::Markdown, source, 40)
}

#[test]
fn markdown_ranges_nest_within_their_headings() {
    let source = "---\na: b\n---\n# One\ntext\n## Two\n- x\n- y\n\n### Three\n```\n# not a heading\n```\n## Four\n1. item\n# Five\n~~~py\ncode\n";
    let view = outline_of(source);
    let total = source.lines().count();
    assert_nested(&view.nodes, 1, total);
    assert_eq!(view.nodes.len(), 3);
    let one = &view.nodes[1];
    assert_eq!((one.start_line, one.end_line), (4, 15));
    let two = &one.children[0];
    assert_eq!((two.start_line, two.end_line), (6, 13));
    assert_eq!(two.children[0].kind, "list");
    assert_eq!((two.children[0].start_line, two.children[0].end_line), (7, 9));
    let three = &two.children[1];
    assert_eq!((three.start_line, three.end_line), (10, 13));
    assert_eq!(three.children[0].kind, "code_block");
    assert_eq!((three.children[0].start_line, three.children[0].end_line), (11, 13));
    let four = &one.children[1];
    assert_eq!((four.start_line, four.end_line), (14, 15));
    let five = &view.nodes[2];
    assert_eq!((five.start_line, five.end_line), (16, 18));
    assert_eq!(five.children[0].name.as_deref(), Some("py"));
    assert_eq!((five.children[0].start_line, five.children[0].end_line), (17, 18));
}

#[test]
fn markdown_headings_nest_by_level() {
    let source = "## A\n# B\n### C\n## D\n#### E\n## F\n# G\n";
    let view = outline_of(source);
    assert_levels_deepen(&view.nodes);
    assert_eq!(view.nodes.len(), 3);
    assert_eq!(view.nodes[0].name.as_deref(), Some("A"));
    assert_eq!(view.nodes[1].children.len(), 3);
    assert_eq!(view.nodes[1].children[1].children[0].name.as_deref(), Some("E"));
    assert_nested(&view.nodes, 1, 7);
}

#[test]
fn markdown_rejects_non_headings_and_non_lists() {
    let view = outline_of("#NoSpace\n####### seven\n# \n-no\n1.no\n12. yes\n");
    assert_eq!(view.nodes.len(), 1);
    assert_eq!(view.nodes[0].kind, "list");
    assert_eq!(view.nodes[0].start_line, 6);
    let nodes = analyze_markdown(&chars("# Closed ##\n"), 40);
    assert_eq!(nodes[0].name.as_deref(), Some("Closed"));
}

#[test]
fn unclosed_frontmatter_is_not_frontmatter() {
    let view = outline_of("---\ntitle: x\n# Head\n");
    assert_eq!(view.nodes.len(), 1);
    assert_eq!(view.nodes[0].kind, "heading");
    assert_eq!(view.nodes[0].start_line, 3);
}

fn deep_view() -> StructureView {
    outline_of("# A\n## B\n### C\n## D\n# E\n")
}

fn render(view: &StructureView, max_depth: Option<usize>, max_nodes: usize) -> String {
    render_text(view, &RenderOptions { max_depth, max_nodes })
}

#[test]
fn depth_limit_drops_deeper_nodes() {
    let view = deep_view();
    assert_eq!(
        render(&view, Some(0), 200),
        "doc.md (markdown)\n├─ heading A L1-4\n└─ heading E L5-5\n"
    );
    assert_eq!(
        render(&view, Some(1), 200),
        "doc.md (markdown)\n├─ heading A L1-4\n│  ├─ heading B L2-3\n│  └─ heading D L4-4\n└─ heading E L5-5\n"
    );
    assert_eq!(render(&view, Some(2), 200), render(&view, None, 200));
}

#[test]
fn depth_limit_equals_rendering_the_cut_tree() {
    fn cut(nodes: &mut Vec<Node>, d: usize) {
        for n in nodes.iter_mut() {
            if d == 0 {
                n.children.clear();
            } else {
                cut(&mut n.children, d - 1);
            }
        }
    }
    for d in 0..3 {
        for m in 0..7 {
            let view = deep_view();
            let mut cut_view = deep_view();
            cut(&mut cut_view.nodes, d);
            assert_eq!(render(&view, Some(d), m), render(&cut_view, None, m));
        }
    }
}

#[test]
fn node_allowance_cuts_with_an_ellipsis_line() {
    let view = deep_view();
    assert_eq!(count(&view.nodes), 5);
    assert_eq!(render(&view, None, 0), "doc.md (markdown)\n...\n");
    assert_eq!(
        render(&view, None, 2),
        "doc.md (markdown)\n├─ heading A L1-4\n│  ├─ heading B L2-3\n...\n"
    );
    for m in 0..=5 {
        assert!(render(&view, None, m).ends_with("...\n"));
    }
    assert!(render(&view, Some(0), 2).ends_with("...\n"));
}

#[test]
fn node_allowance_beyond_size_changes_nothing() {
    let view = deep_view();
    let full = render(&view, None, 6);
    assert!(!full.ends_with("...\n"));
    for m in 7..12 {
        assert_eq!(render(&view, None, m), full);
    }
    assert_eq!(render(&view, Some(0), 3), render(&view, Some(0), 100));
}

#[test]
fn previews_that_repeat_the_name_are_hidden() {
    let view = outline_of("# Title #\n## Other\nbody\n");
    let out = render(&view, None, 10);
    assert_eq!(out, "doc.md (markdown)\n└─ heading Title L1-3\n   └─ heading Other L2-3\n");
    let view = outline_of("- item one\n");
    assert_eq!(render(&view, None, 10), "doc.md (markdown)\n└─ list list L1-1 — - item one\n");
}

#[test]
fn anonymous_nodes_and_wide_line_numbers_render() {
    let view = StructureView {
        path: "x".to_string(),
        language: Language::Tsx,
        nodes: vec![Node {
            kind: "block".to_string(),
            level: None,
            name: None,
            start_line: 1234,
            end_line: 56789,
            preview: Some("  body  ".to_string()),
            children: Vec::new(),
        }],
    };
    assert_eq!(render(&view, None, 5), "x (tsx)\n└─ block <anonymous> L1234-56789 — body\n");
}

fn flat(parent: Option<usize>, name: &str, line: usize) -> sview::tree::FlatItem {
    sview::tree::FlatItem {
        parent,
        node: Node {
            kind: "item".to_string(),
            level: None,
            name: Some(name.to_string()),
            start_line: line,
            end_line: line,
            preview: None,
            children: Vec::new(),
        },
    }
}

#[test]
fn build_tree_keeps_every_item_once() {
    let items = vec![
        flat(None, "a", 1),
        flat(Some(0), "b", 2),
        flat(None, "c", 3),
        flat(Some(1), "d", 4),
        flat(Some(0), "e", 5),
        flat(Some(2), "f", 6),
    ];
    let tree = sview::tree::build_tree(&items);
    assert_eq!(count(&tree), items.len());
    assert_eq!(tree.len(), 2);
    assert_eq!(tree[0].name.as_deref(), Some("a"));
    assert_eq!(tree[0].children.len(), 2);
    assert_eq!(tree[0].children[0].children[0].name.as_deref(), Some("d"));
    assert_eq!(tree[0].children[1].name.as_deref(), Some("e"));
    assert_eq!(tree[1].children[0].name.as_deref(), Some("f"));
}

#[test]
fn syntax_outline_holds_each_item_once() {
    let source = "pub mod api {\n    pub struct Client;\n\n    impl Client {\n        pub fn new() -> Self {\n            Self\n        }\n    }\n}\n\n#[cfg(test)]\nmod tests {\n    #[test]\n    fn creates_client() {}\n}\n";
    let view = analyze_source("src/lib.rs", Language::Rust, source, 80);
    assert_eq!(count(&view.nodes), 6);
    let java = analyze_source(
        "MainActivity.java",
        Language::Java,
        "package com.example;\n\npublic class MainActivity {\n  void onCreate() {}\n}\n",
        80,
    );
    assert_eq!(count(&java.nodes), 3);
}

#[test]
fn build_tree_nests_items_listed_before_their_parent() {
    let items = vec![flat(Some(1), "child", 2), flat(None, "parent", 1)];
    let tree = sview::tree::build_tree(&items);
    assert_eq!(tree.len(), 1);
    assert_eq!(tree[0].name.as_deref(), Some("parent"));
    assert_eq!(tree[0].children.len(), 1);
    assert_eq!(tree[0].children[0].name.as_deref(), Some("child"));
}

#[test]
fn build_tree_drops_items_whose_parents_never_reach_the_top() {
    let items = vec![
        flat(Some(1), "a", 1),
        flat(Some(0), "b", 2),
        flat(Some(7), "c", 3),
        flat(None, "d", 4),
        flat(Some(3), "e", 5),
    ];
    let tree = sview::tree::build_tree(&items);
    assert_eq!(count(&tree), 2);
    assert_eq!(tree[0].name.as_deref(), Some("d"));
    assert_eq!(tree[0].children[0].name.as_deref(), Some("e"));
}

fn flatten_into(nodes: &[Node], parent: Option<usize>, out: &mut Vec<sview::tree::FlatItem>) {
    for n in nodes {
        let index = out.len();
        out.push(sview::tree::FlatItem {
            parent,
            node: Node {
                kind: n.kind.clone(),
                level: n.level,
                name: n.name.clone(),
                start_line: n.start_line,
                end_line: n.end_line,
                preview: n.preview.clone(),
                children: Vec::new(),
            },
        });
        flatten_into(&n.children, Some(index), out);
    }
}

fn shape(nodes: &[Node]) -> String {
    nodes
        .iter()
        .map(|n| format!("{}:{:?}:{}-{}[{}]", n.kind, n.name, n.start_line, n.end_line, shape(&n.children)))
        .collect::<Vec<_>>()
        .join(",")
}

#[test]
fn build_tree_undoes_flattening() {
    let view = outline_of("---\nx: y\n---\n# A\n- l\n## B\n```\nc\n```\n### C\n## D\n# E\n");
    let mut flat = Vec::new();
    flatten_into(&view.nodes, None, &mut flat);
    assert_eq!(flat.len(), count(&view.nodes));
    let rebuilt = sview::tree::build_tree(&flat);
    assert_eq!(shape(&rebuilt), shape(&view.nodes));
}

#[test]
fn line_prefixes_follow_ancestors() {
    let view = outline_of("# A\n## B\n### C\n## D\n### F\n# E\n");
    assert_eq!(
        render(&view, None, 100),
        "doc.md (markdown)\n├─ heading A L1-5\n│  ├─ heading B L2-3\n│  │  └─ heading C L3-3\n│  └─ heading D L4-5\n│     └─ heading F L5-5\n└─ heading E L6-6\n"
    );
}

#[test]
fn headings_come_from_heading_lines_outside_fences() {
    let source = "---\n# not: a heading\n---\n# One\n```\n# inside\n```\n- item\n## Two ##\n~~~\n# open fence\n";
    let view = outline_of(source);
    let mut flat = Vec::new();
    flatten_into(&view.nodes, None, &mut flat);
    let headings: Vec<(Option<usize>, String, usize)> = flat
        .iter()
        .filter(|i| i.node.kind == "heading")
        .map(|i| (i.node.level, i.node.name.clone().unwrap(), i.node.start_line))
        .collect();
    assert_eq!(headings, vec![(Some(1), "One".to_string(), 4), (Some(2), "Two".to_string(), 9)]);
}

#[test]
fn cut_and_depth_limited_outlines_keep_the_line_format() {
    let view = outline_of("# A\n## B\n### C\n## D\n### F\n# E\n");
    assert_eq!(
        render(&view, None, 3),
        "doc.md (markdown)\n├─ heading A L1-5\n│  ├─ heading B L2-3\n│  │  └─ heading C L3-3\n...\n"
    );
    assert_eq!(
        render(&view, Some(1), 4),
        "doc.md (markdown)\n├─ heading A L1-5\n│  ├─ heading B L2-3\n│  └─ heading D L4-5\n└─ heading E L6-6\n...\n"
    );
    assert_eq!(
        render(&view, Some(1), 5),
        "doc.md (markdown)\n├─ heading A L1-5\n│  ├─ heading B L2-3\n│  └─ heading D L4-5\n└─ heading E L6-6\n"
    );
}

#[test]
fn children_are_listed_under_every_parent_in_index_order() {
    let items = vec![
        flat(Some(3), "x", 1),
        flat(None, "top", 2),
        flat(Some(1), "y", 3),
        flat(Some(1), "mid", 4),
        flat(Some(3), "z", 5),
    ];
    let tree = sview::tree::build_tree(&items);
    assert_eq!(shape(&tree), shape(&sview::tree::build_tree(&items)));
    assert_eq!(tree.len(), 1);
    let names: Vec<_> = tree[0].children.iter().map(|n| n.name.clone().unwrap()).collect();
    assert_eq!(names, vec!["y", "mid"]);
    let under_mid: Vec<_> = tree[0].children[1].children.iter().map(|n| n.name.clone().unwrap()).collect();
    assert_eq!(under_mid, vec!["x", "z"]);
}

#[test]
fn outline_headings_in_preorder_close_at_the_next_rank() {
    let source = "intro\n## A\ntext\n```\n# fenced\n```\n### B\n# C\n#### D\n## E\n";
    let view = outline_of(source);
    let mut flat = Vec::new();
    flatten_into(&view.nodes, None, &mut flat);
    let headings: Vec<(String, usize, usize, Option<usize>)> = flat
        .iter()
        .filter(|i| i.node.level.is_some())
        .map(|i| (i.node.name.clone().unwrap(), i.node.start_line, i.node.end_line, i.node.level))
        .collect();
    assert_eq!(
        headings,
        vec![
            ("A".to_string(), 2, 7, Some(2)),
            ("B".to_string(), 7, 7, Some(3)),
            ("C".to_string(), 8, 10, Some(1)),
            ("D".to_string(), 9, 9, Some(4)),
            ("E".to_string(), 10, 10, Some(2)),
        ]
    );
}
