use sview::{analyze_source, Language, Node};

const C_SAMPLE: &str = "#include <stdio.h>\n\nstruct Client {\n    int id;\n    const char *name;\n};\n\nenum Mode {\n    MODE_FAST,\n    MODE_SLOW,\n};\n\nint client_create(int id) {\n    return id;\n}\n";

const CPP_SAMPLE: &str = "#include <string>\n\nnamespace demo {\nclass Client {\npublic:\n  Client();\n  std::string fetch();\n\nprivate:\n  std::string name_;\n};\n\nstd::string Client::fetch() { return name_; }\n\nenum Mode { Fast, Slow };\n\nint add(int a, int b) { return a + b; }\n}\n";

const SWIFT_SAMPLE: &str = "import Foundation\n\nstruct Client {\n    let title: String\n\n    init(title: String) {\n        self.title = title\n    }\n\n    func fetch() -> String {\n        return title\n    }\n}\n\nprotocol Screen {\n    var name: String { get }\n    func render()\n}\n\nextension Client {\n    func reset() {}\n}\n\nenum Mode {\n    case fast\n    case slow\n}\n";

const OBJC_SAMPLE: &str = "#import <Foundation/Foundation.h>\n\n@interface Client : NSObject\n@property NSString *title;\n- (instancetype)initWithTitle:(NSString *)title;\n- (NSString *)kind;\n@end\n\n@implementation Client\n- (instancetype)initWithTitle:(NSString *)title {\n    return self;\n}\n\n- (NSString *)kind {\n    return @\"client\";\n}\n@end\n\n@protocol Screen\n- (void)render;\n@end\n";

const RUST_SAMPLE: &str = "macro_rules! make_client {\n    () => {};\n}\n\n#[derive(Debug)]\npub struct Client {\n    value: String,\n}\n\npub enum Mode {\n    Fast,\n    Slow,\n}\n\npub trait Service {\n    fn call(&self);\n}\n\nimpl Client {\n    pub async fn build(value: String) -> Self {\n        make_client!();\n        Self { value }\n    }\n}\n\nmod tests {\n    #[tokio::test(flavor = \"current_thread\")]\n    async fn builds_client() {}\n}\n";

const JAVASCRIPT_SAMPLE: &str = "function loadUser(id) {\n  return { id };\n}\n\nclass Client {\n  fetch() {\n    return loadUser(1);\n  }\n}\n\nconst helper = function () {};\n";

const JAVA_SAMPLE: &str = "package com.example.app;\n\nimport android.app.Activity;\nimport android.os.Bundle;\n\npublic class MainActivity extends Activity {\n    private String title;\n\n    public MainActivity() {\n        title = \"main\";\n    }\n\n    @Override\n    protected void onCreate(Bundle state) {\n        super.onCreate(state);\n    }\n\n    interface Screen {\n        void render();\n    }\n\n    enum Mode {\n        FAST,\n        SLOW\n    }\n}\n";

const KOTLIN_SAMPLE: &str = "package com.example.app\n\nimport android.app.Activity\nimport kotlinx.coroutines.*\n\nannotation class Screen\n\ninterface Presenter {\n    fun start()\n}\n\ndata class UiState(val title: String)\n\nobject AppConfig {\n    val name = \"demo\"\n}\n\nclass MainActivity(\n    private val presenter: Presenter,\n) : Activity() {\n    var title: String = \"\"\n\n    constructor() : this(DefaultPresenter())\n\n    override fun onCreate() {\n        presenter.start()\n    }\n}\n";

const TYPESCRIPT_SAMPLE: &str = "export interface User {\n  id: string;\n}\n\ntype UserId = string;\n\nenum Mode {\n  Fast,\n  Slow,\n}\n\nexport class Service {\n  async load(id: UserId): Promise<User> {\n    return { id };\n  }\n}\n";

const TSX_SAMPLE: &str = "export function App() {\n  return <Header />;\n}\n\nconst Header = () => <h1>Hello</h1>;\n";

const MARKDOWN_SAMPLE: &str = "---\ntitle: Sample\n---\n\n# Intro\n\n- one\n- two\n\n## Details\n\n```rust\nfn main() {}\n```\n";


#[test]
fn c_fixture_covers_includes_types_fields_and_functions() {
    let view = analyze_source(
        "tests/fixtures/c_sample.c",
        Language::C,
        C_SAMPLE,
        80,
    );

    assert_node(&view.nodes[0], "include", "<stdio.h>", 1, 1);
    assert_node(&view.nodes[1], "struct", "Client", 3, 6);
    assert_node(&view.nodes[1].children[0], "field", "id", 4, 4);
    assert_node(&view.nodes[1].children[1], "field", "name", 5, 5);
    assert_node(&view.nodes[2], "enum", "Mode", 8, 11);
    assert_node(&view.nodes[3], "function", "client_create", 13, 15);
}

#[test]
fn cpp_fixture_covers_namespaces_classes_methods_and_functions() {
    let view = analyze_source(
        "tests/fixtures/cpp_sample.cpp",
        Language::Cpp,
        CPP_SAMPLE,
        80,
    );

    assert_node(&view.nodes[0], "include", "<string>", 1, 1);
    assert_node(&view.nodes[1], "namespace", "demo", 3, 18);
    assert_node(&view.nodes[1].children[0], "class", "Client", 4, 11);
    assert_node(
        &view.nodes[1].children[0].children[0],
        "method",
        "Client",
        6,
        6,
    );
    assert_node(
        &view.nodes[1].children[0].children[1],
        "method",
        "fetch",
        7,
        7,
    );
    assert_node(
        &view.nodes[1].children[0].children[2],
        "field",
        "name_",
        10,
        10,
    );
    assert_node(
        &view.nodes[1].children[1],
        "function",
        "Client::fetch",
        13,
        13,
    );
    assert_node(&view.nodes[1].children[2], "enum", "Mode", 15, 15);
    assert_node(&view.nodes[1].children[3], "function", "add", 17, 17);
}

#[test]
fn swift_fixture_covers_apple_source_shapes() {
    let view = analyze_source(
        "tests/fixtures/swift_sample.swift",
        Language::Swift,
        SWIFT_SAMPLE,
        80,
    );

    assert_node(&view.nodes[0], "import", "Foundation", 1, 1);
    assert_node(&view.nodes[1], "struct", "Client", 3, 13);
    assert_node(&view.nodes[1].children[0], "property", "title", 4, 4);
    assert_node(&view.nodes[1].children[1], "initializer", "init", 6, 8);
    assert_node(&view.nodes[1].children[2], "function", "fetch", 10, 12);
    assert_node(&view.nodes[2], "protocol", "Screen", 15, 18);
    assert_node(&view.nodes[2].children[0], "property", "name", 16, 16);
    assert_node(&view.nodes[2].children[1], "function", "render", 17, 17);
    assert_node(&view.nodes[3], "extension", "Client", 20, 22);
    assert_node(&view.nodes[3].children[0], "function", "reset", 21, 21);
    assert_node(&view.nodes[4], "enum", "Mode", 24, 27);
}

#[test]
fn objc_fixture_covers_interfaces_implementations_protocols_and_methods() {
    let view = analyze_source(
        "tests/fixtures/objc_sample.m",
        Language::ObjectiveC,
        OBJC_SAMPLE,
        80,
    );

    assert_node(&view.nodes[0], "import", "<Foundation/Foundation.h>", 1, 1);
    assert_node(&view.nodes[1], "interface", "Client", 3, 7);
    assert_node(&view.nodes[1].children[0], "property", "title", 4, 4);
    assert_node(&view.nodes[1].children[1], "method", "initWithTitle:", 5, 5);
    assert_node(&view.nodes[1].children[2], "method", "kind", 6, 6);
    assert_node(&view.nodes[2], "implementation", "Client", 9, 17);
    assert_node(
        &view.nodes[2].children[0],
        "method",
        "initWithTitle:",
        10,
        12,
    );
    assert_node(&view.nodes[2].children[1], "method", "kind", 14, 16);
    assert_node(&view.nodes[3], "protocol", "Screen", 19, 21);
    assert_node(&view.nodes[3].children[0], "method", "render", 20, 20);
}

#[test]
fn rust_fixture_covers_ast_shapes() {
    let view = analyze_source(
        "tests/fixtures/rust_sample.rs",
        Language::Rust,
        RUST_SAMPLE,
        80,
    );

    assert_node(&view.nodes[0], "struct", "Client", 6, 8);
    assert_node(&view.nodes[1], "enum", "Mode", 10, 13);
    assert_node(&view.nodes[2], "trait", "Service", 15, 17);
    assert_node(&view.nodes[3], "impl", "impl Client", 19, 24);
    assert_node(&view.nodes[3].children[0], "function", "build", 20, 23);
    assert_node(&view.nodes[4], "module", "tests", 26, 29);
    assert_node(&view.nodes[4].children[0], "test", "builds_client", 28, 28);
}

#[test]
fn javascript_fixture_covers_functions_classes_and_methods() {
    let view = analyze_source(
        "tests/fixtures/javascript_sample.js",
        Language::JavaScript,
        JAVASCRIPT_SAMPLE,
        80,
    );

    assert_node(&view.nodes[0], "function", "loadUser", 1, 3);
    assert_node(&view.nodes[1], "class", "Client", 5, 9);
    assert_node(&view.nodes[1].children[0], "method", "fetch", 6, 8);
    assert_node(&view.nodes[2], "function", "helper", 11, 11);
}

#[test]
fn java_fixture_covers_android_class_shapes() {
    let view = analyze_source(
        "tests/fixtures/java_sample.java",
        Language::Java,
        JAVA_SAMPLE,
        80,
    );

    assert_node(&view.nodes[0], "package", "com.example.app", 1, 1);
    assert_node(&view.nodes[1], "import", "android.app.Activity", 3, 3);
    assert_node(&view.nodes[2], "import", "android.os.Bundle", 4, 4);
    assert_node(&view.nodes[3], "class", "MainActivity", 6, 26);
    assert_node(&view.nodes[3].children[0], "field", "title", 7, 7);
    assert_node(
        &view.nodes[3].children[1],
        "constructor",
        "MainActivity",
        9,
        11,
    );
    assert_node(&view.nodes[3].children[2], "method", "onCreate", 13, 16);
    assert_node(&view.nodes[3].children[3], "interface", "Screen", 18, 20);
    assert_node(
        &view.nodes[3].children[3].children[0],
        "method",
        "render",
        19,
        19,
    );
    assert_node(&view.nodes[3].children[4], "enum", "Mode", 22, 25);
}

#[test]
fn kotlin_fixture_covers_android_source_shapes() {
    let view = analyze_source(
        "tests/fixtures/kotlin_sample.kt",
        Language::Kotlin,
        KOTLIN_SAMPLE,
        80,
    );

    assert_node(&view.nodes[0], "package", "com.example.app", 1, 1);
    assert_node(&view.nodes[1], "import", "android.app.Activity", 3, 3);
    assert_node(&view.nodes[2], "import", "kotlinx.coroutines.*", 4, 4);
    assert_node(&view.nodes[3], "annotation", "Screen", 6, 6);
    assert_node(&view.nodes[4], "interface", "Presenter", 8, 10);
    assert_node(&view.nodes[4].children[0], "function", "start", 9, 9);
    assert_node(&view.nodes[5], "class", "UiState", 12, 12);
    assert_node(&view.nodes[6], "object", "AppConfig", 14, 16);
    assert_node(&view.nodes[6].children[0], "property", "name", 15, 15);
    assert_node(&view.nodes[7], "class", "MainActivity", 18, 28);
    assert_node(
        &view.nodes[7].children[0],
        "constructor",
        "MainActivity",
        18,
        20,
    );
    assert_node(&view.nodes[7].children[1], "property", "title", 21, 21);
    assert_node(
        &view.nodes[7].children[2],
        "constructor",
        "MainActivity",
        23,
        23,
    );
    assert_node(&view.nodes[7].children[3], "function", "onCreate", 25, 27);
}

#[test]
fn typescript_fixture_covers_types_and_classes() {
    let view = analyze_source(
        "tests/fixtures/typescript_sample.ts",
        Language::TypeScript,
        TYPESCRIPT_SAMPLE,
        80,
    );

    assert_node(&view.nodes[0], "interface", "User", 1, 3);
    assert_node(&view.nodes[1], "type", "UserId", 5, 5);
    assert_node(&view.nodes[2], "enum", "Mode", 7, 10);
    assert_node(&view.nodes[3], "class", "Service", 12, 16);
    assert_node(&view.nodes[3].children[0], "method", "load", 13, 15);
}

#[test]
fn tsx_fixture_covers_function_components() {
    let view = analyze_source(
        "tests/fixtures/tsx_sample.tsx",
        Language::Tsx,
        TSX_SAMPLE,
        80,
    );

    assert_node(&view.nodes[0], "function", "App", 1, 3);
    assert_node(&view.nodes[1], "function", "Header", 5, 5);
}

#[test]
fn markdown_fixture_covers_document_shapes() {
    let view = analyze_source(
        "tests/fixtures/markdown_sample.md",
        Language::Markdown,
        MARKDOWN_SAMPLE,
        80,
    );

    assert_node(&view.nodes[0], "frontmatter", "frontmatter", 1, 3);
    assert_node(&view.nodes[1], "heading", "Intro", 5, 14);
    assert_node(&view.nodes[1].children[0], "list", "list", 7, 9);
    assert_node(&view.nodes[1].children[1], "heading", "Details", 10, 14);
    assert_node(
        &view.nodes[1].children[1].children[0],
        "code_block",
        "rust",
        12,
        14,
    );
}

fn assert_node(node: &Node, kind: &str, name: &str, start_line: usize, end_line: usize) {
    assert_eq!(node.kind, kind);
    assert_eq!(node.name.as_deref(), Some(name));
    assert_eq!(node.start_line, start_line);
    assert_eq!(node.end_line, end_line);
}
