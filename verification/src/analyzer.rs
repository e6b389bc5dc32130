//! Language detection and the analysis entry point that dispatches a
//! source to the analyzer of its language.

use vstd::prelude::*;
use crate::model::{Language, Node, NodeView, StructureView, leaf, nodes_view, opt_view};
use crate::syntax::Grammar;
use crate::traverse::{Classifier, analyze_tree_sitter, tree_sitter_outline};
use crate::markdown::{analyze_markdown, markdown_outline};
use crate::text::{
    trim, trim_start, starts_with, contains, lines, last_component, file_name_of, first_preview,
    chars_of, split_lines, is_blank_line, skip_whitespace_until, starts_with_at, contains_chars,
    chars_equal, last_component_range, file_name, first_non_empty_preview, line_views, first_filled,
    truncated,
};

verus! {

/// A path, as `Path` in the standard library.
#[verifier::external_type_specification]
#[verifier::external_body]
pub struct ExPath(std::path::Path);

/// Position of the last `.` in `f`, or -1.
pub open spec fn last_dot(f: Seq<char>) -> int
    decreases f.len(),
{
    if f.len() == 0 {
        -1
    } else if f.last() == '.' {
        f.len() - 1
    } else {
        last_dot(f.drop_last())
    }
}

/// The extension of a path, as `Path::extension` finds it: the part of
/// the file name after its last `.`, unless the file name is `..`, has no
/// `.`, or only a leading one.
pub open spec fn extension_of(path: Seq<char>) -> Option<Seq<char>> {
    match last_component(path) {
        Some(f) => if f == seq!['.', '.'] {
            None
        } else {
            let k = last_dot(f);
            if k <= 0 {
                None
            } else {
                Some(f.skip(k + 1))
            }
        },
        None => None,
    }
}

/// Source text that reads as Objective-C: it opens with `#import` or
/// mentions `@interface`, `@implementation` or `@protocol`.
pub open spec fn looks_objc(source: Seq<char>) -> bool {
    ||| starts_with(trim_start(source), "#import"@)
    ||| contains(trim_start(source), "@interface"@)
    ||| contains(trim_start(source), "@implementation"@)
    ||| contains(trim_start(source), "@protocol"@)
}

/// The language of a file, from its path's extension and, where that does
/// not decide, its content.
pub open spec fn language_of(path: Seq<char>, source: Seq<char>) -> Language {
    let e = extension_of(path);
    if e == Some("h"@) && looks_objc(source) {
        Language::ObjectiveC
    } else if e == Some("c"@) || e == Some("h"@) {
        Language::C
    } else if e == Some("cc"@) || e == Some("cpp"@) || e == Some("cxx"@) || e == Some("hh"@) || e
        == Some("hpp"@) || e == Some("hxx"@) {
        Language::Cpp
    } else if e == Some("java"@) {
        Language::Java
    } else if e == Some("js"@) || e == Some("jsx"@) {
        Language::JavaScript
    } else if e == Some("kt"@) || e == Some("kts"@) {
        Language::Kotlin
    } else if e == Some("md"@) || e == Some("markdown"@) || e == Some("mdown"@) {
        Language::Markdown
    } else if e == Some("m"@) || e == Some("mm"@) {
        Language::ObjectiveC
    } else if e == Some("rs"@) {
        Language::Rust
    } else if e == Some("swift"@) {
        Language::Swift
    } else if e == Some("ts"@) {
        Language::TypeScript
    } else if e == Some("tsx"@) {
        Language::Tsx
    } else if starts_with(trim_start(source), "# "@) {
        Language::Markdown
    } else {
        Language::Unknown
    }
}

/// The number of lines of `source`, at least one.
pub open spec fn line_count(source: Seq<char>) -> nat {
    if lines(source).len() == 0 {
        1
    } else {
        lines(source).len()
    }
}

/// The outline of `source` read as `language`: nothing for a blank source;
/// a tree-sitter outline for code; the Markdown outline; and for an
/// unknown language a single `file` node spanning every line.
pub open spec fn analysis(path: Seq<char>, language: Language, source: Seq<char>, plen: nat) -> Seq<NodeView> {
    if trim(source).len() == 0 {
        seq![]
    } else {
        match language {
            Language::C => tree_sitter_outline(Grammar::C, Classifier::Cpp, source, plen),
            Language::Cpp => tree_sitter_outline(Grammar::Cpp, Classifier::Cpp, source, plen),
            Language::JavaScript => tree_sitter_outline(Grammar::JavaScript, Classifier::JavaScript, source, plen),
            Language::TypeScript => tree_sitter_outline(Grammar::TypeScript, Classifier::JavaScript, source, plen),
            Language::Tsx => tree_sitter_outline(Grammar::Tsx, Classifier::JavaScript, source, plen),
            Language::Java => tree_sitter_outline(Grammar::Java, Classifier::Java, source, plen),
            Language::Kotlin => tree_sitter_outline(Grammar::Kotlin, Classifier::Kotlin, source, plen),
            Language::ObjectiveC => tree_sitter_outline(Grammar::ObjectiveC, Classifier::ObjectiveC, source, plen),
            Language::Swift => tree_sitter_outline(Grammar::Swift, Classifier::Swift, source, plen),
            Language::Markdown => markdown_outline(source, plen),
            Language::Rust => tree_sitter_outline(Grammar::Rust, Classifier::Rust, source, plen),
            Language::Unknown => seq![
                leaf(
                    "file"@,
                    None,
                    Some(file_name_of(path)),
                    1,
                    line_count(source) as usize,
                    first_preview(source, plen),
                ),
            ],
        }
    }
}

/// Builds the structure view of `source`, analyzed as `language`.
///
/// A source that is empty or only whitespace has no nodes. Code languages
/// are outlined from their tree-sitter syntax tree, Markdown from its
/// lines, and any other file is a single `file` node named after the path's
/// file name, spanning all of its lines (at least one), previewed by its
/// first non-blank line.
pub fn analyze_source(path: &str, language: Language, source: &str, preview_len: usize) -> (r: StructureView)
    ensures
        r.path@ == path@,
        r.language == language,
        nodes_view(r.nodes@) == analysis(path@, language, source@, preview_len as nat),
{
    let cs = chars_of(source);
    let nodes = if is_blank_line(cs.as_slice()) {
        let v: Vec<Node> = Vec::new();
        proof {
            assert(nodes_view(v@) =~= Seq::<NodeView>::empty());
        }
        v
    } else {
        match language {
            Language::C => analyze_tree_sitter(Grammar::C, Classifier::Cpp, source, preview_len),
            Language::Cpp => analyze_tree_sitter(Grammar::Cpp, Classifier::Cpp, source, preview_len),
            Language::JavaScript => analyze_tree_sitter(Grammar::JavaScript, Classifier::JavaScript, source, preview_len),
            Language::TypeScript => analyze_tree_sitter(Grammar::TypeScript, Classifier::JavaScript, source, preview_len),
            Language::Tsx => analyze_tree_sitter(Grammar::Tsx, Classifier::JavaScript, source, preview_len),
            Language::Java => analyze_tree_sitter(Grammar::Java, Classifier::Java, source, preview_len),
            Language::Kotlin => analyze_tree_sitter(Grammar::Kotlin, Classifier::Kotlin, source, preview_len),
            Language::ObjectiveC => analyze_tree_sitter(Grammar::ObjectiveC, Classifier::ObjectiveC, source, preview_len),
            Language::Swift => analyze_tree_sitter(Grammar::Swift, Classifier::Swift, source, preview_len),
            Language::Markdown => analyze_markdown(cs.as_slice(), preview_len),
            Language::Rust => analyze_tree_sitter(Grammar::Rust, Classifier::Rust, source, preview_len),
            Language::Unknown => {
                let ls = split_lines(cs.as_slice());
                let count = if ls.len() == 0 {
                    1
                } else {
                    ls.len()
                };
                proof {
                    assert(line_views(ls@).len() == ls@.len());
                }
                let node = crate::model::new_leaf(
                    "file".to_owned(),
                    None,
                    Some(file_name(path)),
                    1,
                    count,
                    first_non_empty_preview(cs.as_slice(), preview_len),
                );
                let mut v: Vec<Node> = Vec::new();
                v.push(node);
                proof {
                    assert(nodes_view(v@) =~= seq![node@]);
                }
                v
            },
        }
    };
    StructureView { path: path.to_owned(), language, nodes }
}

/// Whether source text reads as Objective-C.
pub fn looks_like_objc(source: &[char]) -> (r: bool)
    ensures
        r == looks_objc(source@),
{
    let n = source.len();
    let a = skip_whitespace_until(source, 0, n);
    let t = crate::text::chars_between(source, a, n);
    proof {
        assert(source@.subrange(0, n as int) =~= source@);
        assert(t@.skip(0) =~= t@);
    }
    let p1 = chars_of("#import");
    let p2 = chars_of("@interface");
    let p3 = chars_of("@implementation");
    let p4 = chars_of("@protocol");
    starts_with_at(t.as_slice(), 0, p1.as_slice()) || contains_chars(t.as_slice(), p2.as_slice())
        || contains_chars(t.as_slice(), p3.as_slice()) || contains_chars(t.as_slice(), p4.as_slice())
}

/// The bounds of a path's extension.
fn extension_range(cs: &[char]) -> (r: Option<(usize, usize)>)
    ensures
        match r {
            Some((a, b)) => a <= b <= cs@.len() && extension_of(cs@) == Some(cs@.subrange(a as int, b as int)),
            None => extension_of(cs@) is None,
        },
{
    match last_component_range(cs) {
        Some((a, b)) => {
            let ghost f = cs@.subrange(a as int, b as int);
            if b - a == 2 && cs[a] == '.' && cs[a + 1] == '.' {
                proof {
                    assert(f =~= seq!['.', '.']);
                }
                return None;
            }
            proof {
                if f =~= seq!['.', '.'] {
                    assert(f[0] == cs@[a as int] && f[1] == cs@[a + 1]);
                }
            }
            let mut k = b;
            proof {
                assert(f.take(k - a) =~= f);
            }
            while k > a && cs[k - 1] != '.'
                invariant
                    a <= k <= b <= cs@.len(),
                    f == cs@.subrange(a as int, b as int),
                    last_dot(f) == last_dot(f.take(k - a)),
                decreases k,
            {
                proof {
                    assert(f.take(k - a).drop_last() =~= f.take(k - a - 1));
                }
                k = k - 1;
            }
            proof {
                if k > a {
                    assert(f.take(k - a).last() == cs@[k - 1]);
                } else {
                    assert(f.take(0) =~= Seq::<char>::empty());
                }
            }
            if k - a <= 1 {
                return None;
            }
            proof {
                assert(f.skip(k - a) =~= cs@.subrange(k as int, b as int));
            }
            Some((k, b))
        },
        None => None,
    }
}

fn ext_is(cs: &[char], e: Option<(usize, usize)>, word: &str) -> (r: bool)
    requires
        match e {
            Some((a, b)) => a <= b <= cs@.len(),
            None => true,
        },
    ensures
        r == (match e {
            Some((a, b)) => Some(cs@.subrange(a as int, b as int)),
            None => None,
        } == Some(word@)),
{
    match e {
        Some((a, b)) => {
            let w = chars_of(word);
            chars_equal(cs, a, b, w.as_slice())
        },
        None => false,
    }
}

/// The language of a file from its path, given as text, and its content.
pub fn detect_language_in(path: &str, source: &str) -> (r: Language)
    ensures
        r == language_of(path@, source@),
{
    let pc = chars_of(path);
    let sc = chars_of(source);
    let e = extension_range(pc.as_slice());
    let p = pc.as_slice();
    if ext_is(p, e, "h") && looks_like_objc(sc.as_slice()) {
        Language::ObjectiveC
    } else if ext_is(p, e, "c") || ext_is(p, e, "h") {
        Language::C
    } else if ext_is(p, e, "cc") || ext_is(p, e, "cpp") || ext_is(p, e, "cxx") || ext_is(p, e, "hh")
        || ext_is(p, e, "hpp") || ext_is(p, e, "hxx") {
        Language::Cpp
    } else if ext_is(p, e, "java") {
        Language::Java
    } else if ext_is(p, e, "js") || ext_is(p, e, "jsx") {
        Language::JavaScript
    } else if ext_is(p, e, "kt") || ext_is(p, e, "kts") {
        Language::Kotlin
    } else if ext_is(p, e, "md") || ext_is(p, e, "markdown") || ext_is(p, e, "mdown") {
        Language::Markdown
    } else if ext_is(p, e, "m") || ext_is(p, e, "mm") {
        Language::ObjectiveC
    } else if ext_is(p, e, "rs") {
        Language::Rust
    } else if ext_is(p, e, "swift") {
        Language::Swift
    } else if ext_is(p, e, "ts") {
        Language::TypeScript
    } else if ext_is(p, e, "tsx") {
        Language::Tsx
    } else {
        let n = sc.len();
        let a = skip_whitespace_until(sc.as_slice(), 0, n);
        proof {
            assert(sc@.subrange(0, n as int) =~= sc@);
            assert(sc@.subrange(a as int, n as int) =~= sc@.skip(a as int));
        }
        let hash = chars_of("# ");
        if starts_with_at(sc.as_slice(), a, hash.as_slice()) {
            Language::Markdown
        } else {
            Language::Unknown
        }
    }
}

/// The text of a path, as `Path::to_string_lossy` gives it: the path's
/// bytes read as UTF-8, each invalid sequence replaced. It depends on the
/// path alone.
pub uninterp spec fn path_chars(path: &std::path::Path) -> Seq<char>;

/// `Path::to_string_lossy`: the path as text, with invalid UTF-8 replaced.
/// The contract claims only that the text is the one that `path_chars`
/// names for this path; how bytes are decoded is not stated.
#[verifier::external_body]
fn path_text(path: &std::path::Path) -> (r: String)
    ensures
        r@ == path_chars(path),
{
    path.to_string_lossy().into_owned()
}

/// The language of a file, from its path's extension and, where that does
/// not decide, its content (see [`detect_language_in`], which this applies
/// to the path's text).
pub fn detect_language(path: &std::path::Path, source: &str) -> (r: Language)
    ensures
        r == language_of(path_chars(path), source@),
{
    let text = path_text(path);
    detect_language_in(text.as_str(), source)
}

/// A blank source (empty or only whitespace) has no outline, whatever its
/// language.
pub proof fn law_blank_source_has_no_nodes(path: Seq<char>, language: Language, source: Seq<char>, plen: nat)
    requires
        trim(source).len() == 0,
    ensures
        analysis(path, language, source, plen) == Seq::<NodeView>::empty(),
{
}

/// An extension the detector knows, other than `h`, decides the language
/// alone: the content does not change it.
pub proof fn law_extension_decides(path: Seq<char>, s1: Seq<char>, s2: Seq<char>)
    requires
        extension_of(path) is Some,
        extension_of(path) != Some("h"@),
        language_of(path, s1) != Language::Markdown || extension_of(path) == Some("md"@)
            || extension_of(path) == Some("markdown"@) || extension_of(path) == Some("mdown"@),
        language_of(path, s1) != Language::Unknown,
    ensures
        language_of(path, s2) == language_of(path, s1),
{
}

/// A `.h` header is Objective-C exactly when its content reads as
/// Objective-C, and C otherwise.
pub proof fn law_header_language(path: Seq<char>, source: Seq<char>)
    requires
        extension_of(path) == Some("h"@),
    ensures
        language_of(path, source) == if looks_objc(source) {
            Language::ObjectiveC
        } else {
            Language::C
        },
{
}

/// Each extension in the detector's table gives its language, whatever the
/// file holds: `c` C; `cc`, `cpp`, `cxx`, `hh`, `hpp`, `hxx` C++; `java`
/// Java; `js`, `jsx` JavaScript; `kt`, `kts` Kotlin; `md`, `markdown`,
/// `mdown` Markdown; `m`, `mm` Objective-C; `rs` Rust; `swift` Swift; `ts`
/// TypeScript; `tsx` TSX. A path with any other extension but `h`, or none,
/// is Markdown when its text opens (after whitespace) with `# `, and
/// unknown otherwise.
pub proof fn law_extension_table(path: Seq<char>, source: Seq<char>)
    ensures
        extension_of(path) == Some("c"@) ==> language_of(path, source) == Language::C,
        extension_of(path) == Some("cc"@) || extension_of(path) == Some("cpp"@) || extension_of(path) == Some(
            "cxx"@,
        ) || extension_of(path) == Some("hh"@) || extension_of(path) == Some("hpp"@) || extension_of(path)
            == Some("hxx"@) ==> language_of(path, source) == Language::Cpp,
        extension_of(path) == Some("java"@) ==> language_of(path, source) == Language::Java,
        extension_of(path) == Some("js"@) || extension_of(path) == Some("jsx"@) ==> language_of(path, source)
            == Language::JavaScript,
        extension_of(path) == Some("kt"@) || extension_of(path) == Some("kts"@) ==> language_of(path, source)
            == Language::Kotlin,
        extension_of(path) == Some("md"@) || extension_of(path) == Some("markdown"@) || extension_of(path)
            == Some("mdown"@) ==> language_of(path, source) == Language::Markdown,
        extension_of(path) == Some("m"@) || extension_of(path) == Some("mm"@) ==> language_of(path, source)
            == Language::ObjectiveC,
        extension_of(path) == Some("rs"@) ==> language_of(path, source) == Language::Rust,
        extension_of(path) == Some("swift"@) ==> language_of(path, source) == Language::Swift,
        extension_of(path) == Some("ts"@) ==> language_of(path, source) == Language::TypeScript,
        extension_of(path) == Some("tsx"@) ==> language_of(path, source) == Language::Tsx,
        !(extension_of(path) is Some && known_extension(extension_of(path)->0)) ==> language_of(path, source)
            == if starts_with(trim_start(source), "# "@) {
            Language::Markdown
        } else {
            Language::Unknown
        },
{
    reveal_strlit("c");
    assert("c"@.len() == 1 && "c"@[0] == 'c');
    reveal_strlit("h");
    assert("h"@.len() == 1 && "h"@[0] == 'h');
    reveal_strlit("cc");
    assert("cc"@.len() == 2 && "cc"@[0] == 'c' && "cc"@[1] == 'c');
    reveal_strlit("cpp");
    assert("cpp"@.len() == 3 && "cpp"@[0] == 'c' && "cpp"@[1] == 'p' && "cpp"@[2] == 'p');
    reveal_strlit("cxx");
    assert("cxx"@.len() == 3 && "cxx"@[0] == 'c' && "cxx"@[1] == 'x' && "cxx"@[2] == 'x');
    reveal_strlit("hh");
    assert("hh"@.len() == 2 && "hh"@[0] == 'h' && "hh"@[1] == 'h');
    reveal_strlit("hpp");
    assert("hpp"@.len() == 3 && "hpp"@[0] == 'h' && "hpp"@[1] == 'p' && "hpp"@[2] == 'p');
    reveal_strlit("hxx");
    assert("hxx"@.len() == 3 && "hxx"@[0] == 'h' && "hxx"@[1] == 'x' && "hxx"@[2] == 'x');
    reveal_strlit("java");
    assert("java"@.len() == 4 && "java"@[0] == 'j' && "java"@[1] == 'a' && "java"@[2] == 'v' && "java"@[3] == 'a');
    reveal_strlit("js");
    assert("js"@.len() == 2 && "js"@[0] == 'j' && "js"@[1] == 's');
    reveal_strlit("jsx");
    assert("jsx"@.len() == 3 && "jsx"@[0] == 'j' && "jsx"@[1] == 's' && "jsx"@[2] == 'x');
    reveal_strlit("kt");
    assert("kt"@.len() == 2 && "kt"@[0] == 'k' && "kt"@[1] == 't');
    reveal_strlit("kts");
    assert("kts"@.len() == 3 && "kts"@[0] == 'k' && "kts"@[1] == 't' && "kts"@[2] == 's');
    reveal_strlit("md");
    assert("md"@.len() == 2 && "md"@[0] == 'm' && "md"@[1] == 'd');
    reveal_strlit("markdown");
    assert("markdown"@.len() == 8 && "markdown"@[0] == 'm' && "markdown"@[1] == 'a' && "markdown"@[2] == 'r' && "markdown"@[3] == 'k' && "markdown"@[4] == 'd' && "markdown"@[5] == 'o' && "markdown"@[6] == 'w' && "markdown"@[7] == 'n');
    reveal_strlit("mdown");
    assert("mdown"@.len() == 5 && "mdown"@[0] == 'm' && "mdown"@[1] == 'd' && "mdown"@[2] == 'o' && "mdown"@[3] == 'w' && "mdown"@[4] == 'n');
    reveal_strlit("m");
    assert("m"@.len() == 1 && "m"@[0] == 'm');
    reveal_strlit("mm");
    assert("mm"@.len() == 2 && "mm"@[0] == 'm' && "mm"@[1] == 'm');
    reveal_strlit("rs");
    assert("rs"@.len() == 2 && "rs"@[0] == 'r' && "rs"@[1] == 's');
    reveal_strlit("swift");
    assert("swift"@.len() == 5 && "swift"@[0] == 's' && "swift"@[1] == 'w' && "swift"@[2] == 'i' && "swift"@[3] == 'f' && "swift"@[4] == 't');
    reveal_strlit("ts");
    assert("ts"@.len() == 2 && "ts"@[0] == 't' && "ts"@[1] == 's');
    reveal_strlit("tsx");
    assert("tsx"@.len() == 3 && "tsx"@[0] == 't' && "tsx"@[1] == 's' && "tsx"@[2] == 'x');
    reveal_strlit("# ");
    assert("# "@.len() == 2 && "# "@[0] == '#' && "# "@[1] == ' ');
}

/// The extensions the detector knows, `h` included.
pub open spec fn known_extension(e: Seq<char>) -> bool {
    e == "c"@ || e == "h"@ || e == "cc"@ || e == "cpp"@ || e == "cxx"@ || e == "hh"@ || e == "hpp"@ || e
        == "hxx"@ || e == "java"@ || e == "js"@ || e == "jsx"@ || e == "kt"@ || e == "kts"@ || e == "md"@ || e
        == "markdown"@ || e == "mdown"@ || e == "m"@ || e == "mm"@ || e == "rs"@ || e == "swift"@ || e
        == "ts"@ || e == "tsx"@
}

/// A `.h` header is Objective-C when its text, after leading whitespace,
/// opens with `#import` or mentions `@interface`, `@implementation` or
/// `@protocol`, and C otherwise.
pub proof fn law_header_content(path: Seq<char>, source: Seq<char>)
    requires
        extension_of(path) == Some("h"@),
    ensures
        language_of(path, source) == if starts_with(trim_start(source), "#import"@) || contains(
            trim_start(source),
            "@interface"@,
        ) || contains(trim_start(source), "@implementation"@) || contains(trim_start(source), "@protocol"@) {
            Language::ObjectiveC
        } else {
            Language::C
        },
{
}

proof fn lemma_first_filled(ls: Seq<Seq<char>>, i: int)
    requires
        0 <= i,
    ensures
        match first_filled(ls, i) {
            Some(l) => exists|j: int|
                i <= j < ls.len() && l == trim(#[trigger] ls[j]) && l.len() > 0 && forall|m: int|
                    i <= m < j ==> trim(#[trigger] ls[m]).len() == 0,
            None => forall|m: int| i <= m < ls.len() ==> trim(#[trigger] ls[m]).len() == 0,
        },
    decreases ls.len() - i,
{
    if i < ls.len() {
        lemma_first_filled(ls, i + 1);
        if trim(ls[i]).len() == 0 {
            match first_filled(ls, i + 1) {
                Some(l) => {
                    let j = choose|j: int|
                        i + 1 <= j < ls.len() && l == trim(#[trigger] ls[j]) && l.len() > 0 && forall|m: int|
                            i + 1 <= m < j ==> trim(#[trigger] ls[m]).len() == 0;
                    assert(i <= j < ls.len() && l == trim(ls[j]) && l.len() > 0 && forall|m: int|
                        i <= m < j ==> trim(#[trigger] ls[m]).len() == 0);
                },
                None => {},
            }
        } else {
            assert(forall|m: int| i <= m < i ==> trim(#[trigger] ls[m]).len() == 0);
        }
    }
}

/// A file of unknown language that is not blank is outlined as one `file`
/// node without children, named after the path's file name, spanning line
/// 1 to its last line, and previewed by its first non-blank line (trimmed,
/// cut to the preview length), or not at all when every line is blank.
pub proof fn law_unknown_file(path: Seq<char>, source: Seq<char>, plen: nat)
    requires
        trim(source).len() > 0,
        source.len() <= usize::MAX,
    ensures
        analysis(path, Language::Unknown, source, plen).len() == 1,
        analysis(path, Language::Unknown, source, plen)[0].kind == "file"@,
        analysis(path, Language::Unknown, source, plen)[0].children.len() == 0,
        analysis(path, Language::Unknown, source, plen)[0].name == Some(file_name_of(path)),
        analysis(path, Language::Unknown, source, plen)[0].start_line == 1,
        analysis(path, Language::Unknown, source, plen)[0].end_line == lines(source).len(),
        match analysis(path, Language::Unknown, source, plen)[0].preview {
            Some(p) => exists|j: int|
                0 <= j < lines(source).len() && p == truncated(trim(#[trigger] lines(source)[j]), plen) && trim(
                    lines(source)[j],
                ).len() > 0 && forall|m: int| 0 <= m < j ==> trim(#[trigger] lines(source)[m]).len() == 0,
            None => forall|m: int| 0 <= m < lines(source).len() ==> trim(#[trigger] lines(source)[m]).len() == 0,
        },
{
    crate::text::lemma_lines_len(source);
    assert(source.len() > 0);
    assert(lines(source).len() > 0);
    lemma_first_filled(lines(source), 0);
}

} // verus!
