//! Compact text rendering of a structure view as a tree outline.

use vstd::prelude::*;
use vstd::string::StringExecFns;
use crate::model::{Language, Node, NodeView, RenderOptions, StructureView, node_view, nodes_view, opt_view};
use crate::tree::{tree_size, forest_size};
use crate::text::{trim, trim_bounds, chars_of, ends_with};
use crate::markdown::trim_end_char;

verus! {

/// The label under which a language is shown.
pub open spec fn label_of(language: Language) -> Seq<char> {
    match language {
        Language::C => "c"@,
        Language::Cpp => "cpp"@,
        Language::Java => "java"@,
        Language::JavaScript => "javascript"@,
        Language::Kotlin => "kotlin"@,
        Language::Markdown => "markdown"@,
        Language::ObjectiveC => "objective_c"@,
        Language::Rust => "rust"@,
        Language::Swift => "swift"@,
        Language::TypeScript => "typescript"@,
        Language::Tsx => "tsx"@,
        Language::Unknown => "unknown"@,
    }
}

/// The label under which a language is shown.
pub fn language_label(language: Language) -> (r: &'static str)
    ensures
        r@ == label_of(language),
{
    match language {
        Language::C => "c",
        Language::Cpp => "cpp",
        Language::Java => "java",
        Language::JavaScript => "javascript",
        Language::Kotlin => "kotlin",
        Language::Markdown => "markdown",
        Language::ObjectiveC => "objective_c",
        Language::Rust => "rust",
        Language::Swift => "swift",
        Language::TypeScript => "typescript",
        Language::Tsx => "tsx",
        Language::Unknown => "unknown",
    }
}

/// The decimal digit for `d < 10`.
pub open spec fn digit(d: nat) -> char {
    if d == 0 {
        '0'
    } else if d == 1 {
        '1'
    } else if d == 2 {
        '2'
    } else if d == 3 {
        '3'
    } else if d == 4 {
        '4'
    } else if d == 5 {
        '5'
    } else if d == 6 {
        '6'
    } else if d == 7 {
        '7'
    } else if d == 8 {
        '8'
    } else {
        '9'
    }
}

/// The decimal representation of `n`.
pub open spec fn decimal(n: nat) -> Seq<char>
    decreases n,
{
    if n < 10 {
        seq![digit(n)]
    } else {
        decimal(n / 10).push(digit(n % 10))
    }
}

fn digit_char(d: usize) -> (c: char)
    requires
        d < 10,
    ensures
        c == digit(d as nat),
{
    if d == 0 {
        '0'
    } else if d == 1 {
        '1'
    } else if d == 2 {
        '2'
    } else if d == 3 {
        '3'
    } else if d == 4 {
        '4'
    } else if d == 5 {
        '5'
    } else if d == 6 {
        '6'
    } else if d == 7 {
        '7'
    } else if d == 8 {
        '8'
    } else {
        '9'
    }
}

/// Appends the decimal representation of `n`.
fn push_decimal(out: &mut String, n: usize)
    ensures
        final(out)@ == old(out)@ + decimal(n as nat),
    decreases n,
{
    if n >= 10 {
        push_decimal(out, n / 10);
    }
    out.push(digit_char(n % 10));
}

/// `s` without any leading `c` characters.
pub open spec fn trim_start_char(s: Seq<char>, c: char) -> Seq<char>
    decreases s.len(),
{
    if s.len() > 0 && s[0] == c {
        trim_start_char(s.drop_first(), c)
    } else {
        s
    }
}

/// The preview shown after a node's line: its trimmed preview, unless it
/// is empty or merely repeats the name (also once `#` marks are removed).
pub open spec fn shown_preview(n: NodeView) -> Option<Seq<char>> {
    match n.preview {
        None => None,
        Some(p) => {
            let t = trim(p);
            let name = match n.name {
                Some(m) => m,
                None => seq![],
            };
            if t.len() == 0 || t == name || trim(
                trim_end_char(trim(trim_start_char(t, '#')), '#'),
            ) == name {
                None
            } else {
                Some(t)
            }
        },
    }
}

/// The connector drawn before a node.
pub open spec fn connector(is_last: bool) -> Seq<char> {
    if is_last {
        "└─"@
    } else {
        "├─"@
    }
}

/// The prefix continued below a node for its children.
pub open spec fn continuation(is_last: bool) -> Seq<char> {
    if is_last {
        "   "@
    } else {
        "│  "@
    }
}

/// The line that shows one node.
pub open spec fn node_line(n: NodeView, prefix: Seq<char>, is_last: bool) -> Seq<char> {
    let name = match n.name {
        Some(m) => m,
        None => "<anonymous>"@,
    };
    let head = prefix + connector(is_last) + " "@ + n.kind + " "@ + name + " L"@ + decimal(
        n.start_line as nat,
    ) + "-"@ + decimal(n.end_line as nat);
    match shown_preview(n) {
        Some(p) => head + " — "@ + p + "\n"@,
        None => head + "\n"@,
    }
}

/// A node is past the depth limit: `left` is how many more levels may be
/// drawn below the depth limit (`max_depth` minus the node's depth), or
/// `None` when depth is not limited.
pub open spec fn too_deep(left: Option<int>) -> bool {
    left is Some && left->0 < 0
}

/// The allowance one level further down.
pub open spec fn deeper(left: Option<int>) -> Option<int> {
    match left {
        Some(k) => Some(k - 1),
        None => None,
    }
}

/// The allowance of a top-level node.
pub open spec fn top_allowance(options: RenderOptions) -> Option<int> {
    match options.max_depth {
        Some(d) => Some(d as int),
        None => None,
    }
}

/// The text drawn for a node and its descendants, with `remaining` nodes
/// still allowed, and the allowance left afterwards.
pub open spec fn render_spec(
    n: NodeView,
    prefix: Seq<char>,
    is_last: bool,
    left: Option<int>,
    remaining: nat,
) -> (Seq<char>, nat)
    decreases n, 0int,
{
    if remaining == 0 || too_deep(left) {
        (seq![], remaining)
    } else {
        let line = node_line(n, prefix, is_last);
        let kids = render_children_spec(
            n.children,
            prefix + continuation(is_last),
            0,
            deeper(left),
            (remaining - 1) as nat,
        );
        (line + kids.0, kids.1)
    }
}

/// The text drawn for `children[i..]`, stopping once the allowance is used up.
pub open spec fn render_children_spec(
    children: Seq<NodeView>,
    prefix: Seq<char>,
    i: int,
    left: Option<int>,
    remaining: nat,
) -> (Seq<char>, nat)
    decreases children, children.len() - i,
{
    if i < 0 || i >= children.len() {
        (seq![], remaining)
    } else {
        let first = render_spec(children[i], prefix, i + 1 == children.len(), left, remaining);
        if first.1 == 0 {
            first
        } else {
            let rest = render_children_spec(children, prefix, i + 1, left, first.1);
            (first.0 + rest.0, rest.1)
        }
    }
}

/// The text drawn for the top-level nodes from `i` on; when the allowance
/// runs out a final `...` line marks the cut.
pub open spec fn render_top_spec(
    nodes: Seq<NodeView>,
    i: int,
    options: RenderOptions,
    remaining: nat,
) -> Seq<char>
    decreases nodes.len() - i,
{
    if i < 0 || i >= nodes.len() {
        seq![]
    } else {
        let first = render_spec(nodes[i], seq![], i + 1 == nodes.len(), top_allowance(options), remaining);
        if first.1 == 0 {
            first.0 + "...\n"@
        } else {
            first.0 + render_top_spec(nodes, i + 1, options, first.1)
        }
    }
}

/// The whole text outline of a view.
pub open spec fn rendered(path: Seq<char>, language: Language, nodes: Seq<NodeView>, options: RenderOptions) -> Seq<char> {
    path + " ("@ + label_of(language) + ")\n"@ + render_top_spec(nodes, 0, options, options.max_nodes as nat)
}

/// The trimmed preview shown after a node's line, if any.
pub fn text_preview(node: &Node) -> (r: Option<String>)
    ensures
        opt_view(r) == shown_preview(node@),
{
    match &node.preview {
        None => None,
        Some(p) => {
            let cs = chars_of(p.as_str());
            let (a, b) = trim_bounds(cs.as_slice(), 0, cs.len());
            proof {
                assert(cs@.subrange(0, cs@.len() as int) =~= cs@);
            }
            let name: Vec<char> = match &node.name {
                Some(m) => chars_of(m.as_str()),
                None => Vec::new(),
            };
            let ghost t = cs@.subrange(a as int, b as int);
            let ghost nm = match node@.name {
                Some(m) => m,
                None => Seq::<char>::empty(),
            };
            assert(name@ == nm);
            if a == b || crate::text::chars_equal(cs.as_slice(), a, b, name.as_slice()) {
                return None;
            }
            let mut c = a;
            proof {
                assert(t.skip(0) =~= t);
            }
            while c < b && cs[c] == '#'
                invariant
                    a <= c <= b <= cs@.len(),
                    t == cs@.subrange(a as int, b as int),
                    trim_start_char(t, '#') == trim_start_char(t.skip(c - a), '#'),
                decreases b - c,
            {
                proof {
                    assert(t.skip(c - a).drop_first() =~= t.skip(c - a + 1));
                }
                c = c + 1;
            }
            proof {
                assert(t.skip(c - a) =~= cs@.subrange(c as int, b as int));
                if c < b {
                    assert(t.skip(c - a)[0] == cs@[c as int]);
                }
            }
            let (d, e) = trim_bounds(cs.as_slice(), c, b);
            let f = crate::markdown::trim_end_char_index(cs.as_slice(), d, e, '#');
            let (g, h) = trim_bounds(cs.as_slice(), d, f);
            if crate::text::chars_equal(cs.as_slice(), g, h, name.as_slice()) {
                return None;
            }
            Some(crate::text::string_of(cs.as_slice(), a, b))
        },
    }
}

pub proof fn lemma_too_deep_children(children: Seq<NodeView>, prefix: Seq<char>, i: int, left: Option<int>, remaining: nat)
    requires
        too_deep(left),
    ensures
        render_children_spec(children, prefix, i, left, remaining) == (Seq::<char>::empty(), remaining),
    decreases children.len() - i,
{
    if 0 <= i < children.len() {
        let first = render_spec(children[i], prefix, i + 1 == children.len(), left, remaining);
        assert(first == (Seq::<char>::empty(), remaining));
        if remaining > 0 {
            lemma_too_deep_children(children, prefix, i + 1, left, remaining);
            assert(Seq::<char>::empty() + Seq::<char>::empty() =~= Seq::<char>::empty());
        }
    }
}

/// The node with everything more than `d` levels below it cut away.
pub open spec fn pruned(n: NodeView, d: nat) -> NodeView
    decreases n,
{
    NodeView {
        children: if d == 0 {
            seq![]
        } else {
            pruned_all(n.children, (d - 1) as nat)
        },
        ..n
    }
}

/// Each node of `ns` with everything more than `d` levels below it cut away.
pub open spec fn pruned_all(ns: Seq<NodeView>, d: nat) -> Seq<NodeView>
    decreases ns,
{
    Seq::new(
        ns.len(),
        |k: int|
            if 0 <= k < ns.len() {
                pruned(ns[k], d)
            } else {
                arbitrary()
            },
    )
}

proof fn lemma_render_pruned(n: NodeView, prefix: Seq<char>, is_last: bool, k: int, remaining: nat)
    requires
        k >= 0,
    ensures
        render_spec(n, prefix, is_last, Some(k), remaining) == render_spec(
            pruned(n, k as nat),
            prefix,
            is_last,
            None,
            remaining,
        ),
    decreases n, 0int,
{
    let p = pruned(n, k as nat);
    if remaining > 0 {
        assert(node_line(n, prefix, is_last) == node_line(p, prefix, is_last));
        let cp = prefix + continuation(is_last);
        if k == 0 {
            lemma_too_deep_children(n.children, cp, 0, Some(k - 1), (remaining - 1) as nat);
        } else {
            lemma_children_pruned(n.children, cp, 0, k - 1, (remaining - 1) as nat);
        }
    }
}

proof fn lemma_children_pruned(children: Seq<NodeView>, prefix: Seq<char>, i: int, k: int, remaining: nat)
    requires
        k >= 0,
    ensures
        render_children_spec(children, prefix, i, Some(k), remaining) == render_children_spec(
            pruned_all(children, k as nat),
            prefix,
            i,
            None,
            remaining,
        ),
    decreases children, children.len() - i,
{
    let pc = pruned_all(children, k as nat);
    if 0 <= i < children.len() {
        assert(pc[i] == pruned(children[i], k as nat));
        lemma_render_pruned(children[i], prefix, i + 1 == children.len(), k, remaining);
        let first = render_spec(children[i], prefix, i + 1 == children.len(), Some(k), remaining);
        if first.1 != 0 {
            lemma_children_pruned(children, prefix, i + 1, k, first.1);
        }
    }
}

proof fn lemma_top_pruned(nodes: Seq<NodeView>, i: int, d: usize, max_nodes: usize, remaining: nat)
    ensures
        render_top_spec(nodes, i, (RenderOptions { max_depth: Some(d), max_nodes }), remaining)
            == render_top_spec(
            pruned_all(nodes, d as nat),
            i,
            (RenderOptions { max_depth: None, max_nodes }),
            remaining,
        ),
    decreases nodes.len() - i,
{
    let pn = pruned_all(nodes, d as nat);
    if 0 <= i < nodes.len() {
        assert(pn[i] == pruned(nodes[i], d as nat));
        lemma_render_pruned(nodes[i], seq![], i + 1 == nodes.len(), d as int, remaining);
        let first = render_spec(nodes[i], seq![], i + 1 == nodes.len(), Some(d as int), remaining);
        if first.1 != 0 {
            lemma_top_pruned(nodes, i + 1, d, max_nodes, first.1);
        }
    }
}

/// A depth limit `d` draws exactly what the outline cut `d` levels below
/// its top-level nodes draws with no depth limit: nodes past the limit are
/// left out and do not count against the node allowance.
pub proof fn law_depth_limit_prunes(
    path: Seq<char>,
    language: Language,
    nodes: Seq<NodeView>,
    d: usize,
    max_nodes: usize,
)
    ensures
        rendered(path, language, nodes, (RenderOptions { max_depth: Some(d), max_nodes }))
            == rendered(
            path,
            language,
            pruned_all(nodes, d as nat),
            (RenderOptions { max_depth: None, max_nodes }),
        ),
{
    lemma_top_pruned(nodes, 0, d, max_nodes, max_nodes as nat);
}

/// The nodes that a depth limit leaves visible.
pub open spec fn visible(nodes: Seq<NodeView>, max_depth: Option<usize>) -> Seq<NodeView> {
    match max_depth {
        Some(d) => pruned_all(nodes, d as nat),
        None => nodes,
    }
}

proof fn lemma_render_budget(n: NodeView, prefix: Seq<char>, is_last: bool, r1: nat, r2: nat)
    requires
        r1 > tree_size(n),
        r2 > tree_size(n),
    ensures
        render_spec(n, prefix, is_last, None, r1).1 == r1 - tree_size(n),
        render_spec(n, prefix, is_last, None, r1).0 == render_spec(n, prefix, is_last, None, r2).0,
    decreases n, 0int,
{
    let cp = prefix + continuation(is_last);
    lemma_children_budget(n.children, cp, 0, (r1 - 1) as nat, (r2 - 1) as nat);
}

proof fn lemma_children_budget(children: Seq<NodeView>, prefix: Seq<char>, i: int, r1: nat, r2: nat)
    requires
        r1 > forest_size(children, i),
        r2 > forest_size(children, i),
    ensures
        render_children_spec(children, prefix, i, None, r1).1 == r1 - forest_size(children, i),
        render_children_spec(children, prefix, i, None, r1).0 == render_children_spec(
            children,
            prefix,
            i,
            None,
            r2,
        ).0,
    decreases children, children.len() - i,
{
    if 0 <= i < children.len() {
        let last = i + 1 == children.len();
        lemma_render_budget(children[i], prefix, last, r1, r2);
        let f1 = render_spec(children[i], prefix, last, None, r1);
        let f2 = render_spec(children[i], prefix, last, None, r2);
        lemma_render_budget(children[i], prefix, last, r2, r1);
        lemma_children_budget(children, prefix, i + 1, f1.1, f2.1);
    }
}

proof fn lemma_render_exhausts(n: NodeView, prefix: Seq<char>, is_last: bool, r: nat)
    requires
        r <= tree_size(n),
    ensures
        render_spec(n, prefix, is_last, None, r).1 == 0,
    decreases n, 0int,
{
    if r > 0 {
        lemma_children_exhaust(n.children, prefix + continuation(is_last), 0, (r - 1) as nat);
    }
}

proof fn lemma_children_exhaust(children: Seq<NodeView>, prefix: Seq<char>, i: int, r: nat)
    requires
        r <= forest_size(children, i),
    ensures
        render_children_spec(children, prefix, i, None, r).1 == 0,
    decreases children, children.len() - i,
{
    if 0 <= i < children.len() {
        let last = i + 1 == children.len();
        if r <= tree_size(children[i]) {
            lemma_render_exhausts(children[i], prefix, last, r);
        } else {
            lemma_render_budget(children[i], prefix, last, r, r);
            let first = render_spec(children[i], prefix, last, None, r);
            lemma_children_exhaust(children, prefix, i + 1, first.1);
        }
    }
}

proof fn lemma_top_budget(nodes: Seq<NodeView>, i: int, max_nodes: usize, r1: nat, r2: nat)
    requires
        r1 > forest_size(nodes, i),
        r2 > forest_size(nodes, i),
    ensures
        render_top_spec(nodes, i, (RenderOptions { max_depth: None, max_nodes }), r1)
            == render_top_spec(nodes, i, (RenderOptions { max_depth: None, max_nodes }), r2),
    decreases nodes.len() - i,
{
    if 0 <= i < nodes.len() {
        let last = i + 1 == nodes.len();
        lemma_render_budget(nodes[i], seq![], last, r1, r2);
        lemma_render_budget(nodes[i], seq![], last, r2, r1);
        let f1 = render_spec(nodes[i], seq![], last, None, r1);
        let f2 = render_spec(nodes[i], seq![], last, None, r2);
        lemma_top_budget(nodes, i + 1, max_nodes, f1.1, f2.1);
    }
}

proof fn lemma_ends_with_append(a: Seq<char>, b: Seq<char>, p: Seq<char>)
    requires
        ends_with(b, p),
    ensures
        ends_with(a + b, p),
{
    let ab = a + b;
    assert(ab.skip(ab.len() - p.len()) =~= b.skip(b.len() - p.len()));
}

proof fn lemma_top_exhausts(nodes: Seq<NodeView>, i: int, max_nodes: usize, r: nat)
    requires
        0 <= i < nodes.len(),
        r <= forest_size(nodes, i),
    ensures
        ends_with(render_top_spec(nodes, i, (RenderOptions { max_depth: None, max_nodes }), r), "...\n"@),
    decreases nodes.len() - i,
{
    let opts = RenderOptions { max_depth: None, max_nodes };
    let last = i + 1 == nodes.len();
    let first = render_spec(nodes[i], seq![], last, None, r);
    let out = render_top_spec(nodes, i, opts, r);
    if r <= tree_size(nodes[i]) {
        lemma_render_exhausts(nodes[i], seq![], last, r);
        assert(out == first.0 + "...\n"@);
        let dots = "...\n"@;
        assert(dots.skip(0) =~= dots);
        lemma_ends_with_append(first.0, dots, dots);
    } else {
        lemma_render_budget(nodes[i], seq![], last, r, r);
        assert(first.1 <= forest_size(nodes, i + 1));
        assert(i + 1 < nodes.len());
        lemma_top_exhausts(nodes, i + 1, max_nodes, first.1);
        let rest = render_top_spec(nodes, i + 1, opts, first.1);
        assert(out == first.0 + rest);
        lemma_ends_with_append(first.0, rest, "...\n"@);
    }
}

proof fn lemma_top_options(nodes: Seq<NodeView>, i: int, o1: RenderOptions, o2: RenderOptions, r: nat)
    requires
        o1.max_depth == o2.max_depth,
    ensures
        render_top_spec(nodes, i, o1, r) == render_top_spec(nodes, i, o2, r),
    decreases nodes.len() - i,
{
    if 0 <= i < nodes.len() {
        let first = render_spec(nodes[i], seq![], i + 1 == nodes.len(), top_allowance(o1), r);
        lemma_top_options(nodes, i + 1, o1, o2, first.1);
    }
}

proof fn lemma_pruned_len(nodes: Seq<NodeView>, max_depth: Option<usize>)
    ensures
        visible(nodes, max_depth).len() == nodes.len(),
{
}

/// A node allowance beyond the number of visible nodes changes nothing:
/// any two such allowances draw the same outline.
pub proof fn law_node_allowance_beyond_size(
    path: Seq<char>,
    language: Language,
    nodes: Seq<NodeView>,
    max_depth: Option<usize>,
    m1: usize,
    m2: usize,
)
    requires
        m1 > forest_size(visible(nodes, max_depth), 0),
        m2 > forest_size(visible(nodes, max_depth), 0),
    ensures
        rendered(path, language, nodes, (RenderOptions { max_depth, max_nodes: m1 })) == rendered(
            path,
            language,
            nodes,
            (RenderOptions { max_depth, max_nodes: m2 }),
        ),
{
    let v = visible(nodes, max_depth);
    match max_depth {
        Some(d) => {
            law_depth_limit_prunes(path, language, nodes, d, m1);
            law_depth_limit_prunes(path, language, nodes, d, m2);
        },
        None => {},
    }
    lemma_top_budget(v, 0, m1, m1 as nat, m2 as nat);
    lemma_top_options(
        v,
        0,
        (RenderOptions { max_depth: None, max_nodes: m1 }),
        (RenderOptions { max_depth: None, max_nodes: m2 }),
        m2 as nat,
    );
}

/// When the visible nodes outnumber the node allowance, or just use it up,
/// the outline is cut and ends with a `...` line.
pub proof fn law_node_allowance_cut(
    path: Seq<char>,
    language: Language,
    nodes: Seq<NodeView>,
    max_depth: Option<usize>,
    max_nodes: usize,
)
    requires
        nodes.len() > 0,
        max_nodes <= forest_size(visible(nodes, max_depth), 0),
    ensures
        ends_with(rendered(path, language, nodes, (RenderOptions { max_depth, max_nodes })), "...\n"@),
{
    let v = visible(nodes, max_depth);
    lemma_pruned_len(nodes, max_depth);
    match max_depth {
        Some(d) => {
            law_depth_limit_prunes(path, language, nodes, d, max_nodes);
        },
        None => {},
    }
    lemma_top_exhausts(v, 0, max_nodes, max_nodes as nat);
    let header = path + " ("@ + label_of(language) + ")\n"@;
    let body = render_top_spec(v, 0, (RenderOptions { max_depth: None, max_nodes }), max_nodes as nat);
    lemma_ends_with_append(header, body, "...\n"@);
}

/// Where a node is drawn: the node, whether each of its ancestors, from
/// the top down, is the last of its siblings, and whether the node is.
pub struct LinePlace {
    pub node: NodeView,
    pub ancestors: Seq<bool>,
    pub is_last: bool,
}

/// The places of `n` and its descendants, in pre-order.
pub open spec fn tree_places(n: NodeView, ancestors: Seq<bool>, is_last: bool) -> Seq<LinePlace>
    decreases n, 0int,
{
    seq![LinePlace { node: n, ancestors, is_last }] + places(n.children, 0, ancestors.push(is_last))
}

/// The places of the nodes `ns[i..]`, siblings under `ancestors`, and of
/// their descendants, in pre-order.
pub open spec fn places(ns: Seq<NodeView>, i: int, ancestors: Seq<bool>) -> Seq<LinePlace>
    decreases ns, ns.len() - i,
{
    if i < 0 || i >= ns.len() {
        seq![]
    } else {
        tree_places(ns[i], ancestors, i + 1 == ns.len()) + places(ns, i + 1, ancestors)
    }
}

/// The prefix drawn under the given ancestors: `"   "` below one that is
/// the last of its siblings, `"│  "` below one that is not.
pub open spec fn prefix_of(ancestors: Seq<bool>) -> Seq<char>
    decreases ancestors.len(),
{
    if ancestors.len() == 0 {
        seq![]
    } else {
        prefix_of(ancestors.drop_last()) + continuation(ancestors.last())
    }
}

/// The lines drawn at the given places, one after another.
pub open spec fn lines_of(ps: Seq<LinePlace>) -> Seq<char>
    decreases ps.len(),
{
    if ps.len() == 0 {
        seq![]
    } else {
        node_line(ps[0].node, prefix_of(ps[0].ancestors), ps[0].is_last) + lines_of(ps.drop_first())
    }
}

proof fn lemma_lines_append(a: Seq<LinePlace>, b: Seq<LinePlace>)
    ensures
        lines_of(a + b) == lines_of(a) + lines_of(b),
    decreases a.len(),
{
    if a.len() == 0 {
        assert(a + b =~= b);
    } else {
        assert((a + b).drop_first() =~= a.drop_first() + b);
        lemma_lines_append(a.drop_first(), b);
        assert((a + b)[0] == a[0]);
    }
}

proof fn lemma_tree_lines(n: NodeView, ancestors: Seq<bool>, is_last: bool, r: nat)
    requires
        r > tree_size(n),
    ensures
        render_spec(n, prefix_of(ancestors), is_last, None, r).0 == lines_of(tree_places(n, ancestors, is_last)),
    decreases n, 0int,
{
    let below = ancestors.push(is_last);
    assert(below.drop_last() =~= ancestors);
    assert(prefix_of(below) == prefix_of(ancestors) + continuation(is_last));
    lemma_children_lines(n.children, 0, below, (r - 1) as nat);
    let head = seq![LinePlace { node: n, ancestors, is_last }];
    let rest = places(n.children, 0, below);
    lemma_lines_append(head, rest);
    assert(head.drop_first() =~= Seq::<LinePlace>::empty());
    assert(lines_of(head.drop_first()) == Seq::<char>::empty());
    assert(head[0] == LinePlace { node: n, ancestors, is_last });
    assert(lines_of(head) == node_line(n, prefix_of(ancestors), is_last) + lines_of(head.drop_first()));
    assert(lines_of(head) =~= node_line(n, prefix_of(ancestors), is_last));
}

proof fn lemma_children_lines(ns: Seq<NodeView>, i: int, ancestors: Seq<bool>, r: nat)
    requires
        r > forest_size(ns, i),
    ensures
        render_children_spec(ns, prefix_of(ancestors), i, None, r).0 == lines_of(places(ns, i, ancestors)),
    decreases ns, ns.len() - i,
{
    if 0 <= i < ns.len() {
        let last = i + 1 == ns.len();
        lemma_tree_lines(ns[i], ancestors, last, r);
        lemma_render_budget(ns[i], prefix_of(ancestors), last, r, r);
        let first = render_spec(ns[i], prefix_of(ancestors), last, None, r);
        lemma_children_lines(ns, i + 1, ancestors, first.1);
        lemma_lines_append(tree_places(ns[i], ancestors, last), places(ns, i + 1, ancestors));
    }
}

proof fn lemma_top_lines(nodes: Seq<NodeView>, i: int, max_nodes: usize, r: nat)
    requires
        r > forest_size(nodes, i),
    ensures
        render_top_spec(nodes, i, (RenderOptions { max_depth: None, max_nodes }), r) == lines_of(
            places(nodes, i, seq![]),
        ),
    decreases nodes.len() - i,
{
    if 0 <= i < nodes.len() {
        let last = i + 1 == nodes.len();
        assert(prefix_of(seq![]) == Seq::<char>::empty());
        lemma_tree_lines(nodes[i], seq![], last, r);
        lemma_render_budget(nodes[i], seq![], last, r, r);
        let first = render_spec(nodes[i], seq![], last, None, r);
        lemma_top_lines(nodes, i + 1, max_nodes, first.1);
        lemma_lines_append(tree_places(nodes[i], seq![], last), places(nodes, i + 1, seq![]));
    }
}

/// With no depth limit and an allowance beyond the outline's size, the
/// text is the header line and then one line per node in pre-order. Each
/// node's line starts with the prefix built from its ancestors, from the
/// top down: `"   "` under an ancestor that is the last of its siblings,
/// `"│  "` under one that is not; then `└─` if the node is the last of its
/// siblings, `├─` if not.
pub proof fn law_lines_follow_ancestors(
    path: Seq<char>,
    language: Language,
    nodes: Seq<NodeView>,
    max_nodes: usize,
)
    requires
        max_nodes > forest_size(nodes, 0),
    ensures
        rendered(path, language, nodes, (RenderOptions { max_depth: None, max_nodes })) == path + " ("@
            + label_of(language) + ")\n"@ + lines_of(places(nodes, 0, seq![])),
{
    lemma_top_lines(nodes, 0, max_nodes, max_nodes as nat);
}

proof fn lemma_places_len(n: NodeView, ancestors: Seq<bool>, is_last: bool)
    ensures
        tree_places(n, ancestors, is_last).len() == tree_size(n),
    decreases n, 0int,
{
    lemma_places_forest_len(n.children, 0, ancestors.push(is_last));
}

proof fn lemma_places_forest_len(ns: Seq<NodeView>, i: int, ancestors: Seq<bool>)
    ensures
        places(ns, i, ancestors).len() == forest_size(ns, i),
    decreases ns, ns.len() - i,
{
    if 0 <= i < ns.len() {
        lemma_places_len(ns[i], ancestors, i + 1 == ns.len());
        lemma_places_forest_len(ns, i + 1, ancestors);
    }
}

/// The smaller of two numbers.
pub open spec fn at_most(a: nat, b: nat) -> nat {
    if a <= b {
        a
    } else {
        b
    }
}

proof fn lemma_tree_lines_cut(n: NodeView, ancestors: Seq<bool>, is_last: bool, r: nat)
    ensures
        render_spec(n, prefix_of(ancestors), is_last, None, r).0 == lines_of(
            tree_places(n, ancestors, is_last).take(at_most(r, tree_size(n)) as int),
        ),
    decreases n, 0int,
{
    let t = tree_places(n, ancestors, is_last);
    lemma_places_len(n, ancestors, is_last);
    if r > tree_size(n) {
        lemma_tree_lines(n, ancestors, is_last, r);
        assert(t.take(t.len() as int) =~= t);
    } else if r == 0 {
        assert(t.take(0) =~= Seq::<LinePlace>::empty());
    } else {
        let below = ancestors.push(is_last);
        assert(below.drop_last() =~= ancestors);
        assert(prefix_of(below) == prefix_of(ancestors) + continuation(is_last));
        let rest = places(n.children, 0, below);
        lemma_places_forest_len(n.children, 0, below);
        lemma_children_lines_cut(n.children, 0, below, (r - 1) as nat);
        let head = seq![LinePlace { node: n, ancestors, is_last }];
        assert(t.take(r as int) =~= head + rest.take(r - 1));
        lemma_lines_append(head, rest.take(r - 1));
        assert(head.drop_first() =~= Seq::<LinePlace>::empty());
        assert(lines_of(head.drop_first()) == Seq::<char>::empty());
        assert(head[0] == LinePlace { node: n, ancestors, is_last });
        assert(lines_of(head) =~= node_line(n, prefix_of(ancestors), is_last));
    }
}

proof fn lemma_children_lines_cut(ns: Seq<NodeView>, i: int, ancestors: Seq<bool>, r: nat)
    ensures
        render_children_spec(ns, prefix_of(ancestors), i, None, r).0 == lines_of(
            places(ns, i, ancestors).take(at_most(r, forest_size(ns, i)) as int),
        ),
    decreases ns, ns.len() - i,
{
    let ps = places(ns, i, ancestors);
    lemma_places_forest_len(ns, i, ancestors);
    if 0 <= i < ns.len() {
        let last = i + 1 == ns.len();
        let t = tree_places(ns[i], ancestors, last);
        let rest = places(ns, i + 1, ancestors);
        let s = tree_size(ns[i]);
        lemma_places_len(ns[i], ancestors, last);
        lemma_places_forest_len(ns, i + 1, ancestors);
        lemma_tree_lines_cut(ns[i], ancestors, last, r);
        assert(ps == t + rest);
        if r <= s {
            lemma_render_exhausts(ns[i], prefix_of(ancestors), last, r);
            assert(ps.take(r as int) =~= t.take(r as int));
        } else {
            lemma_render_budget(ns[i], prefix_of(ancestors), last, r, r);
            let first = render_spec(ns[i], prefix_of(ancestors), last, None, r);
            lemma_children_lines_cut(ns, i + 1, ancestors, first.1);
            let k = at_most((r - s) as nat, forest_size(ns, i + 1));
            assert(t.take(s as int) =~= t);
            assert(ps.take(at_most(r, forest_size(ns, i)) as int) =~= t + rest.take(k as int));
            lemma_lines_append(t, rest.take(k as int));
        }
    } else {
        assert(ps.take(0) =~= Seq::<LinePlace>::empty());
    }
}

/// The cut marker: a `...` line when the allowance runs out while top-level
/// nodes from `i` on remain.
pub open spec fn cut_marker(nodes: Seq<NodeView>, i: int, r: nat) -> Seq<char> {
    if 0 <= i < nodes.len() && r <= forest_size(nodes, i) {
        "...\n"@
    } else {
        seq![]
    }
}

proof fn lemma_top_lines_cut(nodes: Seq<NodeView>, i: int, max_nodes: usize, r: nat)
    requires
        0 <= i,
    ensures
        render_top_spec(nodes, i, (RenderOptions { max_depth: None, max_nodes }), r) == lines_of(
            places(nodes, i, seq![]).take(at_most(r, forest_size(nodes, i)) as int),
        ) + cut_marker(nodes, i, r),
    decreases nodes.len() - i,
{
    let ps = places(nodes, i, seq![]);
    lemma_places_forest_len(nodes, i, seq![]);
    assert(prefix_of(seq![]) == Seq::<char>::empty());
    if i < nodes.len() {
        let last = i + 1 == nodes.len();
        let t = tree_places(nodes[i], seq![], last);
        let rest = places(nodes, i + 1, seq![]);
        let s = tree_size(nodes[i]);
        lemma_places_len(nodes[i], seq![], last);
        lemma_places_forest_len(nodes, i + 1, seq![]);
        lemma_tree_lines_cut(nodes[i], seq![], last, r);
        assert(ps == t + rest);
        if r <= s {
            lemma_render_exhausts(nodes[i], seq![], last, r);
            assert(ps.take(r as int) =~= t.take(r as int));
        } else {
            lemma_render_budget(nodes[i], seq![], last, r, r);
            let first = render_spec(nodes[i], seq![], last, None, r);
            lemma_top_lines_cut(nodes, i + 1, max_nodes, first.1);
            let k = at_most((r - s) as nat, forest_size(nodes, i + 1));
            assert(t.take(s as int) =~= t);
            assert(ps.take(at_most(r, forest_size(nodes, i)) as int) =~= t + rest.take(k as int));
            lemma_lines_append(t, rest.take(k as int));
            assert(cut_marker(nodes, i, r) == cut_marker(nodes, i + 1, first.1));
        }
    } else {
        assert(ps.take(0) =~= Seq::<LinePlace>::empty());
        assert(lines_of(ps.take(0)) == Seq::<char>::empty());
    }
}

/// Every rendered outline is the header line, then the lines of the
/// visible nodes (those the depth limit leaves) in pre-order, as many as
/// the node allowance lets through, each with the prefix built from its
/// ancestors and its connector; and, when the allowance runs out with
/// visible nodes remaining or just used up, a final `...` line.
pub proof fn law_rendered_lines(
    path: Seq<char>,
    language: Language,
    nodes: Seq<NodeView>,
    max_depth: Option<usize>,
    max_nodes: usize,
)
    ensures
        rendered(path, language, nodes, (RenderOptions { max_depth, max_nodes })) == path + " ("@
            + label_of(language) + ")\n"@ + lines_of(
            places(visible(nodes, max_depth), 0, seq![]).take(
                at_most(max_nodes as nat, forest_size(visible(nodes, max_depth), 0)) as int,
            ),
        ) + cut_marker(visible(nodes, max_depth), 0, max_nodes as nat),
{
    match max_depth {
        Some(d) => {
            law_depth_limit_prunes(path, language, nodes, d, max_nodes);
        },
        None => {},
    }
    let v = visible(nodes, max_depth);
    lemma_top_lines_cut(v, 0, max_nodes, max_nodes as nat);
    let header = path + " ("@ + label_of(language) + ")\n"@;
    let l = lines_of(places(v, 0, seq![]).take(at_most(max_nodes as nat, forest_size(v, 0)) as int));
    assert(header + (l + cut_marker(v, 0, max_nodes as nat)) =~= header + l + cut_marker(v, 0, max_nodes as nat));
}

/// Appends the line that shows one node.
#[verifier::spinoff_prover]
#[verifier::rlimit(40)]
fn push_node_line(out: &mut String, node: &Node, prefix: &String, is_last: bool)
    ensures
        final(out)@ == old(out)@ + node_line(node@, prefix@, is_last),
{
    out.append(prefix.as_str());
    if is_last {
        out.append("└─");
    } else {
        out.append("├─");
    }
    out.append(" ");
    out.append(node.kind.as_str());
    out.append(" ");
    match &node.name {
        Some(m) => out.append(m.as_str()),
        None => out.append("<anonymous>"),
    }
    out.append(" L");
    push_decimal(out, node.start_line);
    out.append("-");
    push_decimal(out, node.end_line);
    let ghost head = out@;
    match text_preview(node) {
        Some(p) => {
            out.append(" — ");
            out.append(p.as_str());
        },
        None => {},
    }
    out.append("\n");
    proof {
        let name = match node@.name {
            Some(m) => m,
            None => "<anonymous>"@,
        };
        assert(head =~= old(out)@ + (prefix@ + connector(is_last) + " "@ + node@.kind + " "@ + name + " L"@
            + decimal(node@.start_line as nat) + "-"@ + decimal(node@.end_line as nat)));
    }
}

fn allowance_exec(options: &RenderOptions) -> (r: Option<usize>)
    ensures
        match r {
            Some(k) => top_allowance(*options) == Some(k as int),
            None => top_allowance(*options) is None,
        },
{
    options.max_depth
}

/// Appends the lines of a node and its descendants, decrementing the
/// allowance once per node drawn; `left` is how many levels may still be
/// drawn below this one (`None`: no depth limit).
fn render_node(
    node: &Node,
    prefix: &String,
    is_last: bool,
    left: Option<usize>,
    remaining: &mut usize,
    out: &mut String,
)
    ensures
        final(out)@ == old(out)@ + render_spec(node@, prefix@, is_last, lift(left), *old(remaining) as nat).0,
        *final(remaining) as nat == render_spec(node@, prefix@, is_last, lift(left), *old(remaining) as nat).1,
    decreases node, 0int,
{
    let ghost out_in = out@;
    let ghost r_in = *remaining;
    if *remaining == 0 {
        proof {
            assert(out@ =~= old(out)@ + Seq::<char>::empty());
        }
        return;
    }
    *remaining = *remaining - 1;
    push_node_line(out, node, prefix, is_last);
    let ghost after_line = out@;
    let mut child_prefix = prefix.clone();
    if is_last {
        child_prefix.append("   ");
    } else {
        child_prefix.append("│  ");
    }
    let ghost kids = node@.children;
    let ghost cp = child_prefix@;
    let ghost rem0 = *remaining as nat;
    let child_left = match left {
        Some(k) => {
            if k == 0 {
                proof {
                    lemma_too_deep_children(kids, cp, 0, deeper(lift(left)), rem0);
                    assert(out@ =~= old(out)@ + render_spec(node@, prefix@, is_last, lift(left), *old(remaining) as nat).0);
                }
                return;
            }
            Some(k - 1)
        },
        None => None,
    };
    assert(lift(child_left) == deeper(lift(left)));
    let n = node.children.len();
    let mut i: usize = 0;
    let ghost mut acc = Seq::<char>::empty();
    proof {
        assert(after_line + acc =~= after_line);
    }
    while i < n
        invariant
            i <= n == node.children@.len(),
            kids == node@.children,
            kids.len() == n,
            cp == child_prefix@,
            cp == prefix@ + continuation(is_last),
            out@ == after_line + acc,
            after_line == out_in + node_line(node@, prefix@, is_last),
            r_in > 0,
            rem0 == r_in - 1,
            out_in == old(out)@,
            r_in == *old(remaining),
            lift(child_left) == deeper(lift(left)),
            !too_deep(lift(left)),
            render_children_spec(kids, cp, 0, lift(child_left), rem0)
                == (acc + render_children_spec(kids, cp, i as int, lift(child_left), *remaining as nat).0,
                render_children_spec(kids, cp, i as int, lift(child_left), *remaining as nat).1),
        decreases n - i,
    {
        let child = &node.children[i];
        assert(node_view(*child) == kids[i as int]);
        let ghost before = out@;
        let ghost rem_before = *remaining as nat;
        render_node(child, &child_prefix, i + 1 == n, child_left, remaining, out);
        let ghost piece = render_spec(kids[i as int], cp, i + 1 == n, lift(child_left), rem_before);
        proof {
            acc = acc + piece.0;
            assert(out@ =~= after_line + acc);
        }
        if *remaining == 0 {
            proof {
                assert(render_children_spec(kids, cp, i as int, lift(child_left), rem_before) == piece);
                assert(out@ =~= out_in + (node_line(node@, prefix@, is_last) + acc));
            }
            return;
        }
        proof {
            assert(acc =~= (acc.subrange(0, acc.len() - piece.0.len()) + piece.0));
        }
        i = i + 1;
    }
    proof {
        assert(acc + Seq::<char>::empty() =~= acc);
        assert(out@ =~= out_in + (node_line(node@, prefix@, is_last) + acc));
    }
}

/// An exec allowance as a spec allowance.
pub open spec fn lift(left: Option<usize>) -> Option<int> {
    match left {
        Some(k) => Some(k as int),
        None => None,
    }
}

/// Renders a structure view as a compact tree outline.
///
/// The first line is `path (language)`. Each node follows on its own line,
/// drawn with tree connectors, its kind, name (or `<anonymous>`), line
/// range `L<start>-<end>` and, unless it only repeats the name, its
/// preview. Nodes deeper than `max_depth` are left out, and at most
/// `max_nodes` nodes are drawn: when that allowance runs out the outline
/// ends with a `...` line.
pub fn render_text(view: &StructureView, options: &RenderOptions) -> (r: String)
    ensures
        r@ == rendered(view.path@, view.language, nodes_view(view.nodes@), *options),
{
    let mut out = view.path.clone();
    out.append(" (");
    out.append(language_label(view.language));
    out.append(")\n");
    let ghost header = out@;
    let ghost ns = nodes_view(view.nodes@);
    let mut remaining = options.max_nodes;
    let n = view.nodes.len();
    let mut i: usize = 0;
    proof {
        assert(header + Seq::<char>::empty() =~= header);
    }
    while i < n
        invariant
            i <= n == view.nodes@.len(),
            ns == nodes_view(view.nodes@),
            remaining > 0 || i == 0,
            header == view.path@ + " ("@ + label_of(view.language) + ")\n"@,
            header.len() <= out@.len(),
            out@.subrange(0, header.len() as int) == header,
            render_top_spec(ns, 0, *options, options.max_nodes as nat)
                == out@.subrange(header.len() as int, out@.len() as int) + render_top_spec(ns, i as int, *options, remaining as nat),
        decreases n - i,
    {
        let node = &view.nodes[i];
        let ghost before = out@;
        let ghost rem_before = remaining as nat;
        let empty = String::new();
        render_node(node, &empty, i + 1 == n, allowance_exec(options), &mut remaining, &mut out);
        proof {
            assert(out@.subrange(0, header.len() as int) =~= before.subrange(0, header.len() as int));
            assert(out@.subrange(header.len() as int, out@.len() as int) =~= before.subrange(header.len() as int, before.len() as int) + render_spec(ns[i as int], seq![], i + 1 == n, top_allowance(*options), rem_before).0);
        }
        if remaining == 0 {
            proof {
                let first = render_spec(ns[i as int], seq![], i + 1 == n, top_allowance(*options), rem_before);
                assert(render_top_spec(ns, i as int, *options, rem_before) == first.0 + "...\n"@);
            }
            let ghost before2 = out@;
            out.append("...\n");
            proof {
                assert(out@.subrange(0, header.len() as int) =~= header);
                assert(out@.subrange(header.len() as int, out@.len() as int) =~= before2.subrange(header.len() as int, before2.len() as int) + "...\n"@);
                assert(out@ =~= header + render_top_spec(ns, 0, *options, options.max_nodes as nat));
            }
            return out;
        }
        i = i + 1;
    }
    proof {
        assert(out@ =~= header + render_top_spec(ns, 0, *options, options.max_nodes as nat));
    }
    out
}

/// The value of an ASCII digit.
pub open spec fn digit_value(c: char) -> int {
    c as int - '0' as int
}

/// The value of a string of decimal digits.
pub open spec fn numeral_value(s: Seq<char>) -> int
    decreases s.len(),
{
    if s.len() == 0 {
        0
    } else {
        numeral_value(s.drop_last()) * 10 + digit_value(s.last())
    }
}

proof fn lemma_digit(d: nat)
    requires
        d < 10,
    ensures
        digit_value(digit(d)) == d,
        '0' <= digit(d) && digit(d) <= '9',
        d >= 1 ==> digit(d) != '0',
{
    assert('0' as int == 48);
    assert('1' as int == 49);
    assert('2' as int == 50);
    assert('3' as int == 51);
    assert('4' as int == 52);
    assert('5' as int == 53);
    assert('6' as int == 54);
    assert('7' as int == 55);
    assert('8' as int == 56);
    assert('9' as int == 57);
}

/// Line numbers are written in decimal: only the digits `0` to `9`, with
/// no leading zero, and with the number's value.
pub proof fn law_decimal(k: nat)
    ensures
        decimal(k).len() > 0,
        forall|i: int| 0 <= i < decimal(k).len() ==> '0' <= #[trigger] decimal(k)[i] && decimal(k)[i] <= '9',
        numeral_value(decimal(k)) == k,
        k >= 1 ==> decimal(k)[0] != '0',
    decreases k,
{
    if k < 10 {
        lemma_digit(k);
        let d = decimal(k);
        assert(d.drop_last() =~= Seq::<char>::empty());
        assert(numeral_value(d.drop_last()) == 0);
        assert(d.last() == digit(k));
        assert(numeral_value(d) == numeral_value(d.drop_last()) * 10 + digit_value(d.last()));
    } else {
        lemma_digit(k % 10);
        law_decimal(k / 10);
        vstd::arithmetic::div_mod::lemma_fundamental_div_mod(k as int, 10);
        let d = decimal(k);
        let h = decimal(k / 10);
        assert(d == h.push(digit(k % 10)));
        assert(d.drop_last() =~= h);
        assert(d.last() == digit(k % 10));
        assert(numeral_value(d) == numeral_value(h) * 10 + digit_value(digit(k % 10)));
        assert forall|i: int| 0 <= i < d.len() implies '0' <= #[trigger] d[i] && d[i] <= '9' by {
            if i < h.len() {
                assert(d[i] == h[i]);
            }
        }
        assert(d[0] == h[0]);
    }
}

/// The prefix drawn under a node's ancestors holds three characters per
/// ancestor, from the top down: three spaces under one that is the last of
/// its siblings, and `│` and two spaces under one that is not.
pub proof fn law_prefix_shape(ancestors: Seq<bool>)
    ensures
        prefix_of(ancestors).len() == 3 * ancestors.len(),
        forall|k: int|
            0 <= k < ancestors.len() ==> #[trigger] prefix_of(ancestors).subrange(3 * k, 3 * k + 3) == if ancestors[k] {
                seq![' ', ' ', ' ']
            } else {
                seq!['│', ' ', ' ']
            },
    decreases ancestors.len(),
{
    reveal_strlit("   ");
    reveal_strlit("│  ");
    assert("   "@ =~= seq![' ', ' ', ' ']);
    assert("│  "@ =~= seq!['│', ' ', ' ']);
    if ancestors.len() > 0 {
        let a = ancestors.drop_last();
        law_prefix_shape(a);
        let p = prefix_of(ancestors);
        let q = prefix_of(a);
        assert(p == q + continuation(ancestors.last()));
        assert forall|k: int| 0 <= k < ancestors.len() implies #[trigger] p.subrange(3 * k, 3 * k + 3) == if ancestors[k] {
            seq![' ', ' ', ' ']
        } else {
            seq!['│', ' ', ' ']
        } by {
            if k < a.len() {
                assert(p.subrange(3 * k, 3 * k + 3) =~= q.subrange(3 * k, 3 * k + 3));
                assert(a[k] == ancestors[k]);
            } else {
                assert(p.subrange(3 * k, 3 * k + 3) =~= continuation(ancestors.last()));
            }
        }
    }
}

/// A node's line starts with the prefix, then `└─` if the node is the last
/// of its siblings and `├─` if not, a space, its kind, a space, and its name
/// or `<anonymous>` when it has none, then ` L`, the start line, `-` and the
/// end line; it ends with a newline.
pub proof fn law_node_line_shape(n: NodeView, prefix: Seq<char>, is_last: bool)
    ensures
        node_line(n, prefix, is_last).take(
            (prefix.len() + 4 + n.kind.len() + match n.name {
                Some(m) => m.len(),
                None => 11,
            } + 2 + decimal(n.start_line as nat).len() + 1 + decimal(n.end_line as nat).len()) as int,
        ) == prefix + (if is_last {
            seq!['└', '─']
        } else {
            seq!['├', '─']
        }) + seq![' '] + n.kind + seq![' '] + match n.name {
            Some(m) => m,
            None => seq!['<', 'a', 'n', 'o', 'n', 'y', 'm', 'o', 'u', 's', '>'],
        } + seq![' ', 'L'] + decimal(n.start_line as nat) + seq!['-'] + decimal(n.end_line as nat),
        node_line(n, prefix, is_last).last() == '\n',
{
    reveal_strlit("└─");
    reveal_strlit("├─");
    reveal_strlit(" ");
    reveal_strlit(" L");
    reveal_strlit("-");
    reveal_strlit("<anonymous>");
    reveal_strlit(" — ");
    reveal_strlit("\n");
    assert("└─"@ =~= seq!['└', '─']);
    assert("├─"@ =~= seq!['├', '─']);
    assert(" "@ =~= seq![' ']);
    assert(" L"@ =~= seq![' ', 'L']);
    assert("-"@ =~= seq!['-']);
    assert("\n"@ =~= seq!['\n']);
    assert("<anonymous>"@ =~= seq!['<', 'a', 'n', 'o', 'n', 'y', 'm', 'o', 'u', 's', '>']);
    let name = match n.name {
        Some(m) => m,
        None => "<anonymous>"@,
    };
    let head = prefix + connector(is_last) + " "@ + n.kind + " "@ + name + " L"@ + decimal(n.start_line as nat) + "-"@
        + decimal(n.end_line as nat);
    let line = node_line(n, prefix, is_last);
    match shown_preview(n) {
        Some(p) => {
            assert(line == head + (" — "@ + p + "\n"@));
            assert(line.take(head.len() as int) =~= head);
        },
        None => {
            assert(line == head + "\n"@);
            assert(line.take(head.len() as int) =~= head);
        },
    }
}

/// Each language is shown under its own label.
pub proof fn law_language_labels()
    ensures
        label_of(Language::C) == "c"@,
        label_of(Language::Cpp) == "cpp"@,
        label_of(Language::Java) == "java"@,
        label_of(Language::JavaScript) == "javascript"@,
        label_of(Language::Kotlin) == "kotlin"@,
        label_of(Language::Markdown) == "markdown"@,
        label_of(Language::ObjectiveC) == "objective_c"@,
        label_of(Language::Rust) == "rust"@,
        label_of(Language::Swift) == "swift"@,
        label_of(Language::TypeScript) == "typescript"@,
        label_of(Language::Tsx) == "tsx"@,
        label_of(Language::Unknown) == "unknown"@,
{
}

} // verus!
