//! Flat item lists and the tree they describe.
//!
//! Analyzers record each outline node together with the index of the item
//! that encloses it; [`build_tree`] turns such a list into nested nodes.

use vstd::prelude::*;
use crate::model::{Node, NodeView, node_view, nodes_view, with_children, copy_opt_string};

verus! {

/// A node paired with the index of its enclosing item (`None` at top level).
pub struct FlatItem {
    pub parent: Option<usize>,
    pub node: Node,
}

/// The mathematical content of a [`FlatItem`].
pub struct FlatItemView {
    pub parent: Option<usize>,
    pub node: NodeView,
}

/// The view of a flat item.
pub open spec fn flat_view(item: FlatItem) -> FlatItemView {
    FlatItemView { parent: item.parent, node: node_view(item.node) }
}

/// The views of a list of flat items.
pub open spec fn items_view(items: Seq<FlatItem>) -> Seq<FlatItemView> {
    Seq::new(items.len(), |i: int| flat_view(items[i]))
}

/// Every item's parent comes before it: the shape that collection produces.
pub open spec fn parents_precede(items: Seq<FlatItemView>) -> bool {
    forall|i: int| 0 <= i < items.len() ==> match #[trigger] items[i].parent {
        Some(p) => p < i,
        None => true,
    }
}

/// The nodes whose parent is `parent`, taken from the items at `from` and
/// after, in order, each with its own children attached.
pub open spec fn forest(items: Seq<FlatItemView>, parent: Option<usize>, from: int) -> Seq<NodeView>
    decreases items.len() - from,
{
    if from < 0 || from >= items.len() {
        seq![]
    } else {
        let rest = forest(items, parent, from + 1);
        if items[from].parent == parent {
            seq![with_children(items[from].node, forest(items, Some(from as usize), from + 1))]
                + rest
        } else {
            rest
        }
    }
}

/// The node's range runs from `lo` to `hi` at most, is not reversed, and
/// every descendant's range lies within its parent's.
pub open spec fn range_in(n: NodeView, lo: int, hi: int) -> bool
    decreases n,
{
    &&& lo <= n.start_line <= n.end_line <= hi
    &&& forall|k: int|
        0 <= k < n.children.len() ==> range_in(
            #[trigger] n.children[k],
            n.start_line as int,
            n.end_line as int,
        )
}

/// Every item's range runs from line 1 to `total` at most and is not
/// reversed, and an item's range lies within its parent item's.
pub open spec fn items_nested(items: Seq<FlatItemView>, total: int) -> bool {
    &&& forall|i: int|
        0 <= i < items.len() ==> 1 <= (#[trigger] items[i]).node.start_line
            <= items[i].node.end_line <= total
    &&& forall|i: int|
        0 <= i < items.len() ==> match (#[trigger] items[i]).parent {
            Some(p) => p < i && items[p as int].node.start_line <= items[i].node.start_line
                && items[i].node.end_line <= items[p as int].node.end_line,
            None => true,
        }
}

/// Nested item ranges give nested node ranges: every node that the forest
/// under `parent` holds lies within `lo..hi` (the whole file at top level,
/// else the parent item's range), and so do its descendants within theirs.
pub proof fn lemma_forest_ranges(
    items: Seq<FlatItemView>,
    parent: Option<usize>,
    from: int,
    lo: int,
    hi: int,
    total: int,
)
    requires
        items_nested(items, total),
        items.len() <= usize::MAX,
        0 <= from,
        parent is None ==> lo == 1 && hi == total,
        parent is Some ==> parent->0 < items.len() && lo == items[parent->0 as int].node.start_line
            && hi == items[parent->0 as int].node.end_line,
    ensures
        forall|k: int|
            0 <= k < forest(items, parent, from).len() ==> range_in(
                #[trigger] forest(items, parent, from)[k],
                lo,
                hi,
            ),
    decreases items.len() - from,
{
    if from < items.len() {
        let rest = forest(items, parent, from + 1);
        lemma_forest_ranges(items, parent, from + 1, lo, hi, total);
        if items[from].parent == parent {
            let it = items[from];
            let kids = forest(items, Some(from as usize), from + 1);
            lemma_forest_ranges(
                items,
                Some(from as usize),
                from + 1,
                it.node.start_line as int,
                it.node.end_line as int,
                total,
            );
            let head = with_children(it.node, kids);
            assert(range_in(head, lo, hi)) by {
                assert(head.children == kids);
            }
            let f = forest(items, parent, from);
            assert(f == seq![head] + rest);
            assert forall|k: int| 0 <= k < f.len() implies range_in(#[trigger] f[k], lo, hi) by {
                if k > 0 {
                    assert(f[k] == rest[k - 1]);
                }
            }
        }
    }
}

/// Every node that has children carries a level, and each child that
/// carries one is deeper than its parent, at every depth.
pub open spec fn levels_deepen(n: NodeView) -> bool
    decreases n,
{
    &&& n.children.len() > 0 ==> n.level is Some
    &&& forall|k: int|
        0 <= k < n.children.len() ==> {
            &&& ((#[trigger] n.children[k]).level is Some ==> n.children[k].level->0 > n.level->0)
            &&& levels_deepen(n.children[k])
        }
}

/// Every item with a parent has one that carries a level, lower than the
/// item's own level if it has one.
pub open spec fn items_deepen(items: Seq<FlatItemView>) -> bool {
    forall|i: int|
        0 <= i < items.len() ==> match (#[trigger] items[i]).parent {
            Some(p) => p < i && items[p as int].node.level is Some && (items[i].node.level is Some
                ==> items[i].node.level->0 > items[p as int].node.level->0),
            None => true,
        }
}

/// Deepening item levels give deepening node levels throughout the forest
/// under `parent`, whose nodes are, one level down, deeper than the parent.
pub proof fn lemma_forest_levels(items: Seq<FlatItemView>, parent: Option<usize>, from: int)
    requires
        items_deepen(items),
        items.len() <= usize::MAX,
        0 <= from,
        parent is Some ==> parent->0 < items.len(),
    ensures
        forall|k: int|
            0 <= k < forest(items, parent, from).len() ==> levels_deepen(
                #[trigger] forest(items, parent, from)[k],
            ) && (parent is Some ==> items[parent->0 as int].node.level is Some && (forest(
                items,
                parent,
                from,
            )[k].level is Some ==> forest(items, parent, from)[k].level->0
                > items[parent->0 as int].node.level->0)),
    decreases items.len() - from,
{
    if from < items.len() {
        let rest = forest(items, parent, from + 1);
        lemma_forest_levels(items, parent, from + 1);
        if items[from].parent == parent {
            let it = items[from];
            let kids = forest(items, Some(from as usize), from + 1);
            lemma_forest_levels(items, Some(from as usize), from + 1);
            let head = with_children(it.node, kids);
            assert(levels_deepen(head)) by {
                assert(head.children == kids);
                if kids.len() > 0 {
                    assert(levels_deepen(kids[0]));
                }
            }
            let f = forest(items, parent, from);
            assert(f == seq![head] + rest);
            assert forall|k: int| 0 <= k < f.len() implies levels_deepen(#[trigger] f[k]) && (parent is Some
                ==> items[parent->0 as int].node.level is Some && (f[k].level is Some ==> f[k].level->0
                > items[parent->0 as int].node.level->0)) by {
                if k > 0 {
                    assert(f[k] == rest[k - 1]);
                } else {
                    assert(f[0] == head);
                }
            }
        }
    }
}

/// The number of nodes in `n`'s tree, itself included.
pub open spec fn tree_size(n: NodeView) -> nat
    decreases n, 0int,
{
    1 + forest_size(n.children, 0)
}

/// The number of nodes in the trees of `ns[i..]`.
pub open spec fn forest_size(ns: Seq<NodeView>, i: int) -> nat
    decreases ns, ns.len() - i,
{
    if i < 0 || i >= ns.len() {
        0
    } else {
        tree_size(ns[i]) + forest_size(ns, i + 1)
    }
}

/// Item `j` lies in the forest under `parent` built from `from` on: going
/// up from `j` through enclosing items at `from` or after, one of them has
/// `parent` as its parent.
pub open spec fn reaches(items: Seq<FlatItemView>, j: int, parent: Option<usize>, from: int) -> bool
    decreases j,
{
    if j < from || j >= items.len() {
        false
    } else if items[j].parent == parent {
        true
    } else {
        match items[j].parent {
            Some(q) => from <= q < j && reaches(items, q as int, parent, from),
            None => false,
        }
    }
}

/// The number of items from `k` on that lie in the forest under `parent`
/// built from `from` on.
pub open spec fn reach_count(items: Seq<FlatItemView>, parent: Option<usize>, from: int, k: int) -> nat
    decreases items.len() - k,
{
    if k < 0 || k >= items.len() {
        0
    } else {
        (if reaches(items, k, parent, from) {
            1nat
        } else {
            0nat
        }) + reach_count(items, parent, from, k + 1)
    }
}

/// Whether `parent` names an item before `from` (or no item).
pub open spec fn before(parent: Option<usize>, from: int) -> bool {
    match parent {
        Some(p) => p < from,
        None => true,
    }
}

proof fn lemma_reaches_step(items: Seq<FlatItemView>, j: int, parent: Option<usize>, from: int)
    requires
        parents_precede(items),
        items.len() <= usize::MAX,
        0 <= from < j < items.len(),
        before(parent, from),
    ensures
        reaches(items, j, parent, from) == (reaches(items, j, parent, from + 1) || (items[from].parent
            == parent && reaches(items, j, Some(from as usize), from + 1))),
        !(reaches(items, j, parent, from + 1) && reaches(items, j, Some(from as usize), from + 1)),
    decreases j,
{
    match items[j].parent {
        Some(q) => {
            if q as int > from && (q as int) < j && items[j].parent != parent {
                lemma_reaches_step(items, q as int, parent, from);
            }
            if q as int == from {
                assert(reaches(items, from, parent, from) == (items[from].parent == parent));
            }
        },
        None => {},
    }
}

proof fn lemma_count_step(items: Seq<FlatItemView>, parent: Option<usize>, from: int, k: int)
    requires
        parents_precede(items),
        items.len() <= usize::MAX,
        0 <= from < k,
        from < items.len(),
        before(parent, from),
    ensures
        reach_count(items, parent, from, k) == reach_count(items, parent, from + 1, k) + (if items[from].parent
            == parent {
            reach_count(items, Some(from as usize), from + 1, k)
        } else {
            0
        }),
    decreases items.len() - k,
{
    if k < items.len() {
        lemma_reaches_step(items, k, parent, from);
        lemma_count_step(items, parent, from, k + 1);
    }
}

proof fn lemma_forest_size_cons(h: NodeView, rest: Seq<NodeView>, i: int)
    requires
        0 <= i,
    ensures
        forest_size(seq![h] + rest, i + 1) == forest_size(rest, i),
    decreases rest.len() - i,
{
    let s = seq![h] + rest;
    if i < rest.len() {
        assert(s[i + 1] == rest[i]);
        lemma_forest_size_cons(h, rest, i + 1);
    }
}

proof fn lemma_forest_count(items: Seq<FlatItemView>, parent: Option<usize>, from: int)
    requires
        parents_precede(items),
        items.len() <= usize::MAX,
        0 <= from <= items.len(),
        before(parent, from),
    ensures
        forest_size(forest(items, parent, from), 0) == reach_count(items, parent, from, from),
    decreases items.len() - from,
{
    if from < items.len() {
        lemma_forest_count(items, parent, from + 1);
        let rest = forest(items, parent, from + 1);
        assert(!reaches(items, from, parent, from + 1));
        assert(reaches(items, from, parent, from) == (items[from].parent == parent));
        assert(reach_count(items, parent, from, from) == (if items[from].parent == parent {
            1nat
        } else {
            0nat
        }) + reach_count(items, parent, from, from + 1));
        if from + 1 < items.len() {
            lemma_count_step(items, parent, from, from + 1);
        }
        if items[from].parent == parent {
            lemma_forest_count(items, Some(from as usize), from + 1);
            let kids = forest(items, Some(from as usize), from + 1);
            let head = with_children(items[from].node, kids);
            assert(forest(items, parent, from) == seq![head] + rest);
            lemma_forest_size_cons(head, rest, 0);
            assert((seq![head] + rest)[0] == head);
            assert(head.children == kids);
            assert(forest_size(seq![head] + rest, 0) == tree_size(head) + forest_size(seq![head] + rest, 1));
        } else {
            assert(forest(items, parent, from) == rest);
        }
    }
}

proof fn lemma_all_reach_top(items: Seq<FlatItemView>, j: int)
    requires
        parents_precede(items),
        0 <= j < items.len(),
    ensures
        reaches(items, j, None, 0),
    decreases j,
{
    match items[j].parent {
        Some(q) => {
            lemma_all_reach_top(items, q as int);
        },
        None => {},
    }
}

proof fn lemma_count_all(items: Seq<FlatItemView>, k: int)
    requires
        parents_precede(items),
        0 <= k <= items.len(),
    ensures
        reach_count(items, None, 0, k) == items.len() - k,
    decreases items.len() - k,
{
    if k < items.len() {
        lemma_all_reach_top(items, k);
        lemma_count_all(items, k + 1);
    }
}

/// Building the tree neither loses nor repeats an item: when every item's
/// parent comes before it, the outline holds exactly as many nodes, at all
/// depths together, as there are items.
pub proof fn law_outline_keeps_every_item(items: Seq<FlatItemView>)
    requires
        parents_precede(items),
        items.len() <= usize::MAX,
    ensures
        forest_size(outline_of(items), 0) == items.len(),
{
    lemma_outline_parents_first(items);
    lemma_forest_count(items, None, 0);
    lemma_count_all(items, 0);
}

/// The nodes whose parent is `parent`, taken from the items at `from` and
/// after, in index order, each with the items whose parent it is (wherever
/// they stand in the list) attached as its children. `fuel` is how many
/// more levels are explored below these nodes: an item that the top of
/// the outline reaches sits at most one level per distinct item down, so
/// the list's length is fuel enough for every level that can exist.
pub open spec fn children_of(items: Seq<FlatItemView>, parent: Option<usize>, from: int, fuel: nat) -> Seq<NodeView>
    decreases fuel, items.len() - from,
{
    if from < 0 || from >= items.len() {
        seq![]
    } else {
        let rest = children_of(items, parent, from + 1, fuel);
        if items[from].parent == parent {
            let kids = if fuel == 0 {
                seq![]
            } else {
                children_of(items, Some(from as usize), 0, (fuel - 1) as nat)
            };
            seq![with_children(items[from].node, kids)] + rest
        } else {
            rest
        }
    }
}

/// The outline described by a flat item list: its top-level nodes, the
/// items whose parent is `None`, each with its children nested below it.
pub open spec fn outline_of(items: Seq<FlatItemView>) -> Seq<NodeView> {
    children_of(items, None, 0, items.len())
}

proof fn lemma_children_skip(items: Seq<FlatItemView>, parent: Option<usize>, from0: int, from: int, fuel: nat)
    requires
        0 <= from0 <= from,
        forall|j: int| from0 <= j < from && j < items.len() ==> (#[trigger] items[j]).parent != parent,
    ensures
        children_of(items, parent, from0, fuel) == children_of(items, parent, from, fuel),
    decreases from - from0,
{
    if from0 < from {
        lemma_children_skip(items, parent, from0 + 1, from, fuel);
    }
}

proof fn lemma_children_forest(items: Seq<FlatItemView>, parent: Option<usize>, from: int, fuel: nat)
    requires
        parents_precede(items),
        items.len() <= usize::MAX,
        0 <= from,
        fuel + from >= items.len(),
    ensures
        children_of(items, parent, from, fuel) == forest(items, parent, from),
    decreases items.len() - from,
{
    if from < items.len() {
        lemma_children_forest(items, parent, from + 1, fuel);
        if items[from].parent == parent {
            let p = Some(from as usize);
            assert forall|j: int| 0 <= j < from + 1 && j < items.len() implies (#[trigger] items[j]).parent != p by {
                match items[j].parent {
                    Some(q) => assert(q < j),
                    None => {},
                }
            }
            lemma_children_skip(items, p, 0, from + 1, (fuel - 1) as nat);
            lemma_children_forest(items, p, from + 1, (fuel - 1) as nat);
        }
    }
}

/// On a list whose parents come first, the outline is the forest that
/// searches each item's children only among the items after it.
pub proof fn lemma_outline_parents_first(items: Seq<FlatItemView>)
    requires
        parents_precede(items),
        items.len() <= usize::MAX,
    ensures
        outline_of(items) == forest(items, None, 0),
{
    lemma_children_forest(items, None, 0, items.len());
}

/// The flat item list of the tree of `n` placed at index `base`: `n`
/// itself with parent `parent`, then its descendants in pre-order, each
/// naming the index of its parent item.
pub open spec fn flat_tree(n: NodeView, base: int, parent: Option<usize>) -> Seq<FlatItemView>
    decreases n, 0int,
{
    seq![FlatItemView { parent, node: n }] + flat_forest(n.children, 0, base + 1, Some(base as usize))
}

/// The flat item list of the trees of `ns[i..]`, one after another from
/// index `base` on, the top ones with parent `parent`.
pub open spec fn flat_forest(ns: Seq<NodeView>, i: int, base: int, parent: Option<usize>) -> Seq<FlatItemView>
    decreases ns, ns.len() - i,
{
    if i < 0 || i >= ns.len() {
        seq![]
    } else {
        flat_tree(ns[i], base, parent) + flat_forest(ns, i + 1, base + tree_size(ns[i]), parent)
    }
}

/// Item `k` of a flat list placed at `base` has parent `parent`, or an
/// item placed before it in the list.
pub open spec fn parent_within(items: Seq<FlatItemView>, k: int, base: int, parent: Option<usize>) -> bool {
    ||| items[k].parent == parent
    ||| (items[k].parent is Some && base <= items[k].parent->0 < base + k)
}

proof fn lemma_flat_tree(n: NodeView, base: int, parent: Option<usize>)
    requires
        0 <= base,
        base + tree_size(n) <= usize::MAX + 1,
    ensures
        flat_tree(n, base, parent).len() == tree_size(n),
        flat_tree(n, base, parent)[0].parent == parent,
        flat_tree(n, base, parent)[0].node == n,
        forall|k: int|
            1 <= k < tree_size(n) ==> (#[trigger] flat_tree(n, base, parent)[k]).parent is Some && base
                <= flat_tree(n, base, parent)[k].parent->0 < base + k,
    decreases n, 0int,
{
    let t = flat_tree(n, base, parent);
    let ff = flat_forest(n.children, 0, base + 1, Some(base as usize));
    lemma_flat_forest(n.children, 0, base + 1, Some(base as usize));
    assert forall|k: int| 1 <= k < tree_size(n) implies (#[trigger] t[k]).parent is Some && base <= t[k].parent->0
        < base + k by {
        assert(t[k] == ff[k - 1]);
        assert(parent_within(ff, k - 1, base + 1, Some(base as usize)));
    }
}

proof fn lemma_flat_forest(ns: Seq<NodeView>, i: int, base: int, parent: Option<usize>)
    requires
        0 <= base,
        base + forest_size(ns, i) <= usize::MAX + 1,
    ensures
        flat_forest(ns, i, base, parent).len() == forest_size(ns, i),
        forall|k: int|
            0 <= k < forest_size(ns, i) ==> #[trigger] parent_within(
                flat_forest(ns, i, base, parent),
                k,
                base,
                parent,
            ),
    decreases ns, ns.len() - i,
{
    if 0 <= i < ns.len() {
        let s = tree_size(ns[i]);
        let t = flat_tree(ns[i], base, parent);
        let rest = flat_forest(ns, i + 1, base + s, parent);
        lemma_flat_tree(ns[i], base, parent);
        lemma_flat_forest(ns, i + 1, base + s, parent);
        let f = flat_forest(ns, i, base, parent);
        assert(f == t + rest);
        assert forall|k: int| 0 <= k < forest_size(ns, i) implies #[trigger] parent_within(f, k, base, parent) by {
            if k < s {
                assert(f[k] == t[k]);
            } else {
                assert(f[k] == rest[k - s]);
                assert(parent_within(rest, k - s, base + s, parent));
            }
        }
    }
}

proof fn lemma_forest_skip(items: Seq<FlatItemView>, parent: Option<usize>, a: int, b: int)
    requires
        0 <= a <= b,
        forall|j: int| a <= j < b && j < items.len() ==> (#[trigger] items[j]).parent != parent,
    ensures
        forest(items, parent, a) == forest(items, parent, b),
    decreases b - a,
{
    if a < b {
        lemma_forest_skip(items, parent, a + 1, b);
    }
}

/// No item at `end` or later names `parent` or an item in `base..end`.
pub open spec fn closed_after(items: Seq<FlatItemView>, base: int, end: int, parent: Option<usize>) -> bool {
    forall|j: int|
        end <= j < items.len() ==> (#[trigger] items[j]).parent != parent && !(items[j].parent is Some
            && base <= items[j].parent->0 < end)
}

proof fn lemma_tree_of_flat(items: Seq<FlatItemView>, n: NodeView, base: int, parent: Option<usize>)
    requires
        items.len() <= usize::MAX,
        0 <= base,
        base + tree_size(n) <= items.len(),
        items.subrange(base, base + tree_size(n)) == flat_tree(n, base, parent),
        forall|j: int|
            base + tree_size(n) <= j < items.len() ==> !((#[trigger] items[j]).parent is Some && base
                <= items[j].parent->0 < base + tree_size(n)),
    ensures
        forest(items, Some(base as usize), base + 1) == n.children,
    decreases n, 0int,
{
    let s = tree_size(n);
    let t = flat_tree(n, base, parent);
    let ff = flat_forest(n.children, 0, base + 1, Some(base as usize));
    lemma_flat_tree(n, base, parent);
    assert(items.subrange(base + 1, base + s) =~= t.subrange(1, s as int));
    assert(t.subrange(1, s as int) =~= ff);
    assert forall|j: int| base + s <= j < items.len() implies (#[trigger] items[j]).parent != Some(base as usize)
        && !(items[j].parent is Some && base + 1 <= items[j].parent->0 < base + s) by {}
    lemma_forest_of_flat(items, n.children, 0, base + 1, Some(base as usize));
    assert(n.children.subrange(0, n.children.len() as int) =~= n.children);
}

proof fn lemma_forest_of_flat(items: Seq<FlatItemView>, ns: Seq<NodeView>, i: int, base: int, parent: Option<usize>)
    requires
        items.len() <= usize::MAX,
        0 <= base,
        0 <= i <= ns.len(),
        base + forest_size(ns, i) <= items.len(),
        items.subrange(base, base + forest_size(ns, i)) == flat_forest(ns, i, base, parent),
        before(parent, base),
        closed_after(items, base, base + forest_size(ns, i), parent),
    ensures
        forest(items, parent, base) == ns.subrange(i, ns.len() as int),
    decreases ns, ns.len() - i,
{
    let end = base + forest_size(ns, i);
    if i == ns.len() {
        lemma_forest_skip(items, parent, base, items.len() as int);
        assert(ns.subrange(i, ns.len() as int) =~= Seq::<NodeView>::empty());
    } else {
        let n = ns[i];
        let s = tree_size(n);
        let t = flat_tree(n, base, parent);
        let rest = flat_forest(ns, i + 1, base + s, parent);
        lemma_flat_tree(n, base, parent);
        lemma_flat_forest(ns, i + 1, base + s, parent);
        let seg = items.subrange(base, end);
        assert(seg == t + rest);
        assert(items.subrange(base, base + s) =~= t) by {
            assert forall|k: int| 0 <= k < s implies items.subrange(base, base + s)[k] == t[k] by {
                assert(items[base + k] == seg[k]);
            }
        }
        assert(items.subrange(base + s, end) =~= rest) by {
            assert forall|k: int| 0 <= k < end - (base + s) implies items.subrange(base + s, end)[k] == rest[k] by {
                assert(items[base + s + k] == seg[s + k]);
            }
        }
        assert(items[base] == t[0]);
        // the children of the first tree
        assert forall|j: int| base + s <= j < items.len() implies !((#[trigger] items[j]).parent is Some
            && base <= items[j].parent->0 < base + s) by {
            if j < end {
                assert(items[j] == rest[j - base - s]);
                assert(parent_within(rest, j - base - s, base + s, parent));
            }
        }
        lemma_tree_of_flat(items, n, base, parent);
        // the rest of the first tree has no item under `parent`
        assert forall|j: int| base + 1 <= j < base + s && j < items.len() implies (#[trigger] items[j]).parent
            != parent by {
            assert(items[j] == t[j - base]);
        }
        lemma_forest_skip(items, parent, base + 1, base + s);
        lemma_forest_of_flat(items, ns, i + 1, base + s, parent);
        let head = with_children(n, n.children);
        assert(head =~= n);
        assert(ns.subrange(i, ns.len() as int) =~= seq![n] + ns.subrange(i + 1, ns.len() as int));
    }
}

/// Building the tree undoes flattening: a forest listed in pre-order, each
/// node as an item naming the position of its parent's item, is built
/// back into the same forest.
pub proof fn law_build_undoes_flatten(ns: Seq<NodeView>)
    requires
        forest_size(ns, 0) <= usize::MAX,
    ensures
        outline_of(flat_forest(ns, 0, 0, None)) == ns,
{
    let f = flat_forest(ns, 0, 0, None);
    lemma_flat_forest(ns, 0, 0, None);
    assert forall|i: int| 0 <= i < f.len() implies match #[trigger] f[i].parent {
        Some(p) => p < i,
        None => true,
    } by {
        assert(parent_within(f, i, 0, None));
    }
    lemma_outline_parents_first(f);
    assert(f.subrange(0, f.len() as int) =~= f);
    lemma_forest_of_flat(f, ns, 0, 0, None);
    assert(ns.subrange(0, ns.len() as int) =~= ns);
}

/// Following `parent` up through the enclosing items reaches the top
/// after exactly `d` items.
pub open spec fn chain_len(items: Seq<FlatItemView>, parent: Option<usize>, d: nat) -> bool
    decreases d,
{
    match parent {
        None => d == 0,
        Some(p) => d > 0 && p < items.len() && chain_len(items, items[p as int].parent, (d - 1) as nat),
    }
}

/// The indices of the items on `parent`'s chain, nearest first.
pub open spec fn chain_seq(items: Seq<FlatItemView>, parent: Option<usize>, d: nat) -> Seq<int>
    decreases d,
{
    match parent {
        None => seq![],
        Some(p) => if d == 0 || p >= items.len() {
            seq![]
        } else {
            seq![p as int] + chain_seq(items, items[p as int].parent, (d - 1) as nat)
        },
    }
}

proof fn lemma_chain_unique(items: Seq<FlatItemView>, parent: Option<usize>, d1: nat, d2: nat)
    requires
        chain_len(items, parent, d1),
        chain_len(items, parent, d2),
    ensures
        d1 == d2,
    decreases d1,
{
    match parent {
        Some(p) => {
            lemma_chain_unique(items, items[p as int].parent, (d1 - 1) as nat, (d2 - 1) as nat);
        },
        None => {},
    }
}

proof fn lemma_chain_seq(items: Seq<FlatItemView>, parent: Option<usize>, d: nat)
    requires
        chain_len(items, parent, d),
    ensures
        chain_seq(items, parent, d).len() == d,
        forall|k: int|
            0 <= k < d ==> 0 <= #[trigger] chain_seq(items, parent, d)[k] < items.len() && chain_len(
                items,
                Some(chain_seq(items, parent, d)[k] as usize),
                (d - k) as nat,
            ),
    decreases d,
{
    match parent {
        Some(p) => {
            let q = items[p as int].parent;
            lemma_chain_seq(items, q, (d - 1) as nat);
            let cs = chain_seq(items, parent, d);
            let tail = chain_seq(items, q, (d - 1) as nat);
            assert forall|k: int| 0 <= k < d implies 0 <= #[trigger] cs[k] < items.len() && chain_len(
                items,
                Some(cs[k] as usize),
                (d - k) as nat,
            ) by {
                if k > 0 {
                    assert(cs[k] == tail[k - 1]);
                } else {
                    assert(cs[0] == p as int);
                }
            }
        },
        None => {},
    }
}

/// A chain that reaches the top passes through distinct items, so no
/// more of them than the list holds.
proof fn lemma_chain_bound(items: Seq<FlatItemView>, parent: Option<usize>, d: nat)
    requires
        chain_len(items, parent, d),
    ensures
        d <= items.len(),
{
    let cs = chain_seq(items, parent, d);
    lemma_chain_seq(items, parent, d);
    assert forall|a: int, b: int| 0 <= a < cs.len() && 0 <= b < cs.len() && a != b implies cs[a] != cs[b] by {
        if cs[a] == cs[b] {
            lemma_chain_unique(items, Some(cs[a] as usize), (d - a) as nat, (d - b) as nat);
        }
    }
    assert(cs.no_duplicates());
    cs.unique_seq_to_set();
    let range = vstd::set_lib::set_int_range(0, items.len() as int);
    vstd::set_lib::lemma_int_range(0, items.len() as int);
    assert(cs.to_set().subset_of(range)) by {
        assert forall|x: int| cs.to_set().contains(x) implies range.contains(x) by {
            let k = choose|k: int| 0 <= k < cs.len() && cs[k] == x;
            assert(0 <= cs[k] < items.len());
        }
    }
    vstd::set_lib::lemma_len_subset(cs.to_set(), range);
}

proof fn lemma_children_fuel(
    items: Seq<FlatItemView>,
    parent: Option<usize>,
    from: int,
    d: nat,
    f: nat,
    g: nat,
)
    requires
        items.len() <= usize::MAX,
        0 <= from,
        chain_len(items, parent, d),
        f + d >= items.len(),
        g + d >= items.len(),
    ensures
        children_of(items, parent, from, f) == children_of(items, parent, from, g),
    decreases f, items.len() - from,
{
    if from < items.len() {
        lemma_children_fuel(items, parent, from + 1, d, f, g);
        if items[from].parent == parent {
            let c = Some(from as usize);
            assert(chain_len(items, c, d + 1));
            lemma_chain_bound(items, c, d + 1);
            lemma_children_fuel(items, c, 0, d + 1, (f - 1) as nat, (g - 1) as nat);
        }
    }
}

/// The nodes that the tree lists under `parent`: the items with that
/// parent, in index order, each with its own children.
pub open spec fn tree_children(items: Seq<FlatItemView>, parent: Option<usize>) -> Seq<NodeView> {
    children_of(items, parent, 0, items.len())
}

/// The items from `from` on whose parent is `parent`, in index order, each
/// with the nodes that the tree lists under its own index as children.
pub open spec fn items_under(items: Seq<FlatItemView>, parent: Option<usize>, from: int) -> Seq<NodeView>
    decreases items.len() - from,
{
    if from < 0 || from >= items.len() {
        seq![]
    } else {
        let rest = items_under(items, parent, from + 1);
        if items[from].parent == parent {
            seq![with_children(items[from].node, tree_children(items, Some(from as usize)))] + rest
        } else {
            rest
        }
    }
}

proof fn lemma_items_under(items: Seq<FlatItemView>, parent: Option<usize>, from: int, d: nat)
    requires
        items.len() <= usize::MAX,
        0 <= from,
        chain_len(items, parent, d),
    ensures
        children_of(items, parent, from, items.len()) == items_under(items, parent, from),
    decreases items.len() - from,
{
    if from < items.len() {
        lemma_items_under(items, parent, from + 1, d);
        if items[from].parent == parent {
            let c = Some(from as usize);
            assert(chain_len(items, c, d + 1));
            lemma_children_fuel(items, c, 0, d + 1, (items.len() - 1) as nat, items.len());
        }
    }
}

/// For any parent whose chain of enclosing items reaches the top (`None`
/// itself included), the tree lists under it exactly the items with that
/// parent, in index order, each with its own children listed the same
/// way, at every depth; the top level is what `build_tree` gives.
pub proof fn law_tree_children(items: Seq<FlatItemView>, parent: Option<usize>, d: nat)
    requires
        items.len() <= usize::MAX,
        chain_len(items, parent, d),
    ensures
        tree_children(items, parent) == items_under(items, parent, 0),
        outline_of(items) == tree_children(items, None),
{
    lemma_items_under(items, parent, 0, d);
}

/// Item `k` lies in the subtree of item `p`: going up from `k` through
/// its parents reaches `p`.
pub open spec fn descends(items: Seq<FlatItemView>, k: int, p: int) -> bool
    decreases k,
{
    if k == p {
        true
    } else if 0 <= k < items.len() {
        match items[k].parent {
            Some(q) => p <= q < k && descends(items, q as int, p),
            None => false,
        }
    } else {
        false
    }
}

/// The list holds each subtree as one block: parents come first, and every
/// item between an item and its parent lies in that parent's subtree.
pub open spec fn contiguous(items: Seq<FlatItemView>) -> bool {
    &&& parents_precede(items)
    &&& forall|j: int, k: int|
        #![trigger items[j], items[k]]
        0 <= j < items.len() && 0 <= k < items.len() && items[j].parent is Some
            && items[j].parent->0 < k < j ==> descends(items, k, items[j].parent->0 as int)
}

/// The node without its children.
pub open spec fn head_of(n: NodeView) -> NodeView {
    with_children(n, seq![])
}

/// The nodes of the tree of `n`, in pre-order, without their children.
pub open spec fn preorder_tree(n: NodeView) -> Seq<NodeView>
    decreases n, 0int,
{
    seq![head_of(n)] + preorder(n.children, 0)
}

/// The nodes of the trees of `ns[i..]`, in pre-order, without their children.
pub open spec fn preorder(ns: Seq<NodeView>, i: int) -> Seq<NodeView>
    decreases ns, ns.len() - i,
{
    if i < 0 || i >= ns.len() {
        seq![]
    } else {
        preorder_tree(ns[i]) + preorder(ns, i + 1)
    }
}

/// The nodes of `items[a..b]`, without their children.
pub open spec fn item_heads(items: Seq<FlatItemView>, a: int, b: int) -> Seq<NodeView> {
    Seq::new((b - a) as nat, |k: int| head_of(items[a + k].node))
}

proof fn lemma_preorder_cons(h: NodeView, rest: Seq<NodeView>, i: int)
    requires
        0 <= i,
    ensures
        preorder(seq![h] + rest, i + 1) == preorder(rest, i),
    decreases rest.len() - i,
{
    let s = seq![h] + rest;
    if i < rest.len() {
        assert(s[i + 1] == rest[i]);
        lemma_preorder_cons(h, rest, i + 1);
    }
}

proof fn lemma_descends_trans(items: Seq<FlatItemView>, x: int, q: int, a: int)
    requires
        descends(items, x, q),
        descends(items, q, a),
    ensures
        descends(items, x, a),
    decreases x,
{
    if x != q {
        let r = items[x].parent->0 as int;
        lemma_descends_trans(items, r, q, a);
        lemma_descends_above(items, q, a);
    }
}

proof fn lemma_descends_above(items: Seq<FlatItemView>, k: int, p: int)
    requires
        descends(items, k, p),
    ensures
        p <= k,
    decreases k,
{
    if k != p {
        lemma_descends_above(items, items[k].parent->0 as int, p);
    }
}

proof fn lemma_descends_reaches(items: Seq<FlatItemView>, k: int, a: int)
    requires
        descends(items, k, a),
        a < k,
        a <= usize::MAX,
    ensures
        reaches(items, k, Some(a as usize), a + 1),
    decreases k,
{
    let q = items[k].parent->0 as int;
    if q != a {
        lemma_descends_reaches(items, q, a);
    }
}

proof fn lemma_reaches_past(items: Seq<FlatItemView>, k: int, parent: Option<usize>, a: int, e: int)
    requires
        a <= e <= k,
        reaches(items, k, parent, a),
        forall|x: int|
            e <= x < items.len() ==> !((#[trigger] items[x]).parent is Some && a <= items[x].parent->0 < e),
    ensures
        reaches(items, k, parent, e),
    decreases k,
{
    if items[k].parent != parent {
        let q = items[k].parent->0 as int;
        lemma_reaches_past(items, q, parent, a, e);
    }
}

/// The end of the block of the subtree of item `a`, searched from `k`.
pub open spec fn block_end(items: Seq<FlatItemView>, a: int, k: int, b: int) -> int
    decreases b - k,
{
    if k >= b {
        b
    } else if descends(items, k, a) {
        block_end(items, a, k + 1, b)
    } else {
        k
    }
}

proof fn lemma_block_end(items: Seq<FlatItemView>, a: int, k: int, b: int)
    requires
        k <= b,
        forall|x: int| a < x < k ==> descends(items, x, a),
    ensures
        k <= block_end(items, a, k, b) <= b,
        forall|x: int| a < x < block_end(items, a, k, b) ==> descends(items, x, a),
        block_end(items, a, k, b) < b ==> !descends(items, block_end(items, a, k, b), a),
    decreases b - k,
{
    if k < b && descends(items, k, a) {
        lemma_block_end(items, a, k + 1, b);
    }
}

proof fn lemma_preorder_block(items: Seq<FlatItemView>, parent: Option<usize>, a: int, b: int)
    requires
        contiguous(items),
        items.len() <= usize::MAX,
        0 <= a <= b <= items.len(),
        before(parent, a),
        forall|k: int| a <= k < b ==> #[trigger] reaches(items, k, parent, a),
        forall|k: int|
            b <= k < items.len() ==> (#[trigger] items[k]).parent != parent && !(items[k].parent is Some && a
                <= items[k].parent->0 < b),
    ensures
        preorder(forest(items, parent, a), 0) == item_heads(items, a, b),
    decreases b - a,
{
    if a == b {
        lemma_forest_skip(items, parent, a, items.len() as int);
        assert(item_heads(items, a, b) =~= Seq::<NodeView>::empty());
    } else {
        assert(reaches(items, a, parent, a));
        assert(items[a].parent == parent);
        lemma_block_end(items, a, a + 1, b);
        let e = block_end(items, a, a + 1, b);
        // nothing from `e` on hangs below `a..e`
        assert forall|x: int| e <= x < items.len() implies !((#[trigger] items[x]).parent is Some && a
            <= items[x].parent->0 < e) by {
            if x < b && items[x].parent is Some && a <= items[x].parent->0 < e {
                let q = items[x].parent->0 as int;
                assert(descends(items, q, a));
                if e == x {
                    assert(descends(items, e, a));
                } else {
                    assert(q < e < x);
                    assert(descends(items, e, q));
                    lemma_descends_trans(items, e, q, a);
                }
            }
        }
        // the children of `a`
        assert forall|k: int| a + 1 <= k < e implies #[trigger] reaches(items, k, Some(a as usize), a + 1) by {
            lemma_descends_reaches(items, k, a);
        }
        lemma_preorder_block(items, Some(a as usize), a + 1, e);
        // the siblings after `a`
        assert forall|k: int| e <= k < b implies #[trigger] reaches(items, k, parent, e) by {
            lemma_reaches_past(items, k, parent, a, e);
        }
        lemma_preorder_block(items, parent, e, b);
        assert forall|j: int| a + 1 <= j < e && j < items.len() implies (#[trigger] items[j]).parent != parent by {
            assert(descends(items, j, a));
        }
        lemma_forest_skip(items, parent, a + 1, e);
        let kids = forest(items, Some(a as usize), a + 1);
        let h = with_children(items[a].node, kids);
        let rest = forest(items, parent, e);
        assert(forest(items, parent, a) == seq![h] + rest);
        lemma_preorder_cons(h, rest, 0);
        assert((seq![h] + rest)[0] == h);
        assert(head_of(h) == head_of(items[a].node));
        assert(h.children == kids);
        assert(preorder(forest(items, parent, a), 0) == preorder_tree(h) + preorder(rest, 0));
        assert(item_heads(items, a, b) =~= seq![head_of(items[a].node)] + item_heads(items, a + 1, e)
            + item_heads(items, e, b));
    }
}

/// When the list holds each subtree as one block, the outline read in
/// pre-order gives back the items in list order.
pub proof fn law_preorder_of_contiguous(items: Seq<FlatItemView>)
    requires
        contiguous(items),
        items.len() <= usize::MAX,
    ensures
        preorder(outline_of(items), 0) == item_heads(items, 0, items.len() as int),
{
    lemma_outline_parents_first(items);
    assert forall|k: int| 0 <= k < items.len() implies #[trigger] reaches(items, k, None, 0) by {
        lemma_all_reach_top(items, k);
    }
    lemma_preorder_block(items, None, 0, items.len() as int);
}

fn same_parent(a: Option<usize>, b: Option<usize>) -> (r: bool)
    ensures
        r == (a == b),
{
    match (a, b) {
        (Some(x), Some(y)) => x == y,
        (None, None) => true,
        _ => false,
    }
}

/// The nodes whose parent is `parent`, in index order, each with its
/// children built `fuel` more levels down.
fn build_forest(items: &Vec<FlatItem>, parent: Option<usize>, fuel: usize) -> (r: Vec<Node>)
    ensures
        nodes_view(r@) == children_of(items_view(items@), parent, 0, fuel as nat),
    decreases fuel,
{
    let ghost iv = items_view(items@);
    let mut out: Vec<Node> = Vec::new();
    let mut i: usize = 0;
    proof {
        assert(nodes_view(out@) + children_of(iv, parent, 0, fuel as nat) =~= children_of(iv, parent, 0, fuel as nat));
    }
    while i < items.len()
        invariant
            i <= items@.len(),
            iv == items_view(items@),
            children_of(iv, parent, 0, fuel as nat) == nodes_view(out@) + children_of(iv, parent, i as int, fuel as nat),
        decreases items@.len() - i,
    {
        let item = &items[i];
        if same_parent(item.parent, parent) {
            let children = if fuel == 0 {
                Vec::new()
            } else {
                build_forest(items, Some(i), fuel - 1)
            };
            proof {
                if fuel == 0 {
                    assert(nodes_view(children@) =~= Seq::<NodeView>::empty());
                }
            }
            let node = Node {
                kind: item.node.kind.clone(),
                level: item.node.level,
                name: copy_opt_string(&item.node.name),
                start_line: item.node.start_line,
                end_line: item.node.end_line,
                preview: copy_opt_string(&item.node.preview),
                children,
            };
            let ghost before = out@;
            proof {
                assert(node_view(node).children =~= nodes_view(children@));
                assert(node_view(node) =~= with_children(iv[i as int].node, nodes_view(children@)));
            }
            out.push(node);
            proof {
                assert(nodes_view(out@) =~= nodes_view(before).push(node_view(node)));
                assert(nodes_view(out@) + children_of(iv, parent, i + 1, fuel as nat) =~= nodes_view(before)
                    + children_of(iv, parent, i as int, fuel as nat));
            }
        }
        i = i + 1;
    }
    proof {
        assert(nodes_view(out@) + children_of(iv, parent, i as int, fuel as nat) =~= nodes_view(out@));
    }
    out
}

/// The nested outline described by a flat item list.
///
/// Each item whose parent is `None` becomes a top-level node; each item
/// whose parent is `Some(k)` becomes a child of item `k`, wherever it
/// stands in the list, children in list order. Items whose chain of
/// parents does not lead to the top are left out.
pub fn build_tree(items: &Vec<FlatItem>) -> (r: Vec<Node>)
    ensures
        nodes_view(r@) == outline_of(items_view(items@)),
{
    build_forest(items, None, items.len())
}

} // verus!
