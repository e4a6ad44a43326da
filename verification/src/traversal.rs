//! What the depth-first order of a scene graph covers: every node, once.

use vstd::prelude::*;
use crate::scene_graph::{children_order, forest_order, forest_wf, in_subtree, is_node};
use crate::scene_graph::{lemma_subtree_above_root, subtree_order, NodeView};

verus! {

/// Whether `i` is a node of the subtree of one of the children of `n`, from
/// position `k` of the list of its children on.
pub open spec fn under_child_from(g: Seq<NodeView>, n: int, k: int, i: int) -> bool {
    exists|j: int| k <= j < g[n].children.len() && in_subtree(g, #[trigger] g[n].children[j], i)
}

/// Whether `i` is a node of a tree whose root stands in slot `r` or above.
pub open spec fn under_root_from(g: Seq<NodeView>, r: int, i: int) -> bool {
    exists|root: int|
        r <= root && is_node(g, root) && g[root].parent.is_none() && #[trigger] in_subtree(
            g,
            root,
            i,
        )
}

proof fn lemma_concat_contains(a: Seq<int>, b: Seq<int>, x: int)
    ensures
        (a + b).contains(x) <==> a.contains(x) || b.contains(x),
{
    if (a + b).contains(x) {
        let k = choose|k: int| 0 <= k < (a + b).len() && (a + b)[k] == x;
        if k < a.len() {
            assert(a[k] == x);
        } else {
            assert(b[k - a.len()] == x);
        }
    }
    if a.contains(x) {
        let k = choose|k: int| 0 <= k < a.len() && a[k] == x;
        assert((a + b)[k] == x);
    }
    if b.contains(x) {
        let k = choose|k: int| 0 <= k < b.len() && b[k] == x;
        assert((a + b)[a.len() + k] == x);
    }
}

proof fn lemma_concat_no_duplicates(a: Seq<int>, b: Seq<int>)
    requires
        a.no_duplicates(),
        b.no_duplicates(),
        forall|x: int| !(a.contains(x) && b.contains(x)),
    ensures
        (a + b).no_duplicates(),
{
    let s = a + b;
    assert forall|i: int, j: int| 0 <= i < s.len() && 0 <= j < s.len() && i != j implies s[i]
        != s[j] by {
        if i < a.len() && j >= a.len() {
            assert(a.contains(a[i]));
            assert(b.contains(b[j - a.len()]));
        } else if j < a.len() && i >= a.len() {
            assert(a.contains(a[j]));
            assert(b.contains(b[i - a.len()]));
        }
    }
}

/// A node below `n` stands in the subtree of one of the children of `n`.
proof fn lemma_below_is_under_child(g: Seq<NodeView>, n: int, i: int)
    requires
        forest_wf(g),
        in_subtree(g, n, i),
        i != n,
    ensures
        under_child_from(g, n, 0, i),
    decreases i,
{
    let p = g[i].parent.unwrap();
    lemma_subtree_above_root(g, n);
    if p == n {
        assert(is_node(g, i));
        assert(g[n].children.contains(i));
        let j = choose|j: int| 0 <= j < g[n].children.len() && g[n].children[j] == i;
        assert(in_subtree(g, g[n].children[j], i));
    } else {
        lemma_below_is_under_child(g, n, p);
        let j = choose|j: int|
            0 <= j < g[n].children.len() && in_subtree(g, #[trigger] g[n].children[j], p);
        assert(in_subtree(g, g[n].children[j], i));
    }
}

/// The subtree of a child is part of the subtree of its parent.
proof fn lemma_under_child_is_below(g: Seq<NodeView>, n: int, c: int, i: int)
    requires
        forest_wf(g),
        is_node(g, n),
        is_node(g, c),
        g[c].parent == Some(n),
        in_subtree(g, c, i),
    ensures
        in_subtree(g, n, i),
        i != n,
    decreases i,
{
    lemma_subtree_above_root(g, c);
    assert(in_subtree(g, n, n));
    assert(n < c);
    if i != c {
        lemma_under_child_is_below(g, n, c, g[i].parent.unwrap());
    } else {
        assert(in_subtree(g, n, c));
    }
}

/// No node stands in the subtrees of two nodes that have the same parent, or
/// that are both roots.
proof fn lemma_siblings_are_apart(g: Seq<NodeView>, a: int, b: int, i: int)
    requires
        forest_wf(g),
        is_node(g, a),
        is_node(g, b),
        a != b,
        g[a].parent == g[b].parent,
        in_subtree(g, a, i),
    ensures
        !in_subtree(g, b, i),
    decreases i,
{
    lemma_subtree_above_root(g, a);
    lemma_subtree_above_root(g, b);
    if in_subtree(g, b, i) {
        if i == a {
            match g[a].parent {
                Some(p) => {
                    assert(in_subtree(g, b, p));
                    assert(is_node(g, b) && p < b);
                },
                None => {},
            }
        } else if i == b {
            match g[b].parent {
                Some(p) => {
                    assert(in_subtree(g, a, p));
                    assert(is_node(g, a) && p < a);
                },
                None => {},
            }
        } else {
            lemma_siblings_are_apart(g, a, b, g[i].parent.unwrap());
        }
    }
}

/// The pre-order of a subtree lists exactly the nodes of the subtree, each
/// once.
pub proof fn lemma_subtree_order_covers(g: Seq<NodeView>, n: int)
    requires
        forest_wf(g),
        is_node(g, n),
    ensures
        subtree_order(g, n).no_duplicates(),
        forall|i: int| #[trigger] subtree_order(g, n).contains(i) <==> in_subtree(g, n, i),
    decreases g.len() - n, 1nat, 0nat,
{
    let rest = children_order(g, n, 0);
    lemma_children_order_covers(g, n, 0);
    lemma_subtree_above_root(g, n);
    assert forall|i: int| subtree_order(g, n).contains(i) <==> in_subtree(g, n, i) by {
        lemma_concat_contains(seq![n], rest, i);
        if seq![n].contains(i) {
            let k = choose|k: int| 0 <= k < seq![n].len() && seq![n][k] == i;
            assert(i == n);
        }
        if i == n {
            assert(seq![n][0] == n);
        }
        if rest.contains(i) {
            assert(under_child_from(g, n, 0, i));
            let j = choose|j: int|
                0 <= j < g[n].children.len() && in_subtree(g, #[trigger] g[n].children[j], i);
            lemma_under_child_is_below(g, n, g[n].children[j], i);
        }
        if in_subtree(g, n, i) && i != n {
            lemma_below_is_under_child(g, n, i);
            assert(rest.contains(i));
        }
    }
    assert forall|x: int| !(seq![n].contains(x) && rest.contains(x)) by {
        if seq![n].contains(x) && rest.contains(x) {
            let k = choose|k: int| 0 <= k < seq![n].len() && seq![n][k] == x;
            assert(under_child_from(g, n, 0, x));
            let j = choose|j: int|
                0 <= j < g[n].children.len() && in_subtree(g, #[trigger] g[n].children[j], x);
            lemma_under_child_is_below(g, n, g[n].children[j], x);
        }
    }
    lemma_concat_no_duplicates(seq![n], rest);
}

/// The pre-order of the children of a node from position `k` on lists
/// exactly the nodes of their subtrees, each once.
proof fn lemma_children_order_covers(g: Seq<NodeView>, n: int, k: int)
    requires
        forest_wf(g),
        is_node(g, n),
        0 <= k,
    ensures
        children_order(g, n, k).no_duplicates(),
        forall|i: int| #[trigger]
            children_order(g, n, k).contains(i) <==> under_child_from(g, n, k, i),
    decreases g.len() - n, 0nat, g[n].children.len() - k,
{
    if k < g[n].children.len() {
        let c = g[n].children[k];
        assert(is_node(g, c) && n < c && g[c].parent == Some(n));
        let first = subtree_order(g, c);
        let rest = children_order(g, n, k + 1);
        lemma_subtree_order_covers(g, c);
        lemma_children_order_covers(g, n, k + 1);
        assert forall|i: int| children_order(g, n, k).contains(i) <==> under_child_from(
            g,
            n,
            k,
            i,
        ) by {
            lemma_concat_contains(first, rest, i);
            assert(children_order(g, n, k) == first + rest);
            if rest.contains(i) {
                assert(under_child_from(g, n, k + 1, i));
                let j = choose|j: int|
                    k + 1 <= j < g[n].children.len() && in_subtree(g, #[trigger] g[n].children[j], i);
                assert(k <= j < g[n].children.len() && in_subtree(g, g[n].children[j], i));
            }
            if first.contains(i) {
                assert(in_subtree(g, g[n].children[k], i));
            }
            if under_child_from(g, n, k, i) {
                let j = choose|j: int|
                    k <= j < g[n].children.len() && in_subtree(g, #[trigger] g[n].children[j], i);
                if j != k {
                    assert(k + 1 <= j < g[n].children.len() && in_subtree(
                        g,
                        g[n].children[j],
                        i,
                    ));
                    assert(under_child_from(g, n, k + 1, i));
                    assert(rest.contains(i));
                } else {
                    assert(first.contains(i));
                }
            }
        }
        assert forall|x: int| !(first.contains(x) && rest.contains(x)) by {
            if first.contains(x) && rest.contains(x) {
                assert(under_child_from(g, n, k + 1, x));
                let j = choose|j: int|
                    k + 1 <= j < g[n].children.len() && in_subtree(g, #[trigger] g[n].children[j], x);
                let d = g[n].children[j];
                assert(g[n].children[k] < g[n].children[j]);
                assert(is_node(g, d) && g[d].parent == Some(n));
                lemma_siblings_are_apart(g, c, d, x);
            }
        }
        lemma_concat_no_duplicates(first, rest);
    } else {
        assert(children_order(g, n, k) =~= Seq::<int>::empty());
        assert forall|i: int| !under_child_from(g, n, k, i) by {}
    }
}

/// Every node stands in the tree of some root.
proof fn lemma_node_has_root(g: Seq<NodeView>, i: int)
    requires
        forest_wf(g),
        is_node(g, i),
    ensures
        under_root_from(g, 0, i),
    decreases i,
{
    match g[i].parent {
        Some(p) => {
            assert(is_node(g, p) && p < i);
            lemma_node_has_root(g, p);
            let root = choose|root: int|
                0 <= root && is_node(g, root) && g[root].parent.is_none() && #[trigger] in_subtree(
                    g,
                    root,
                    p,
                );
            assert(in_subtree(g, root, i));
        },
        None => {
            assert(in_subtree(g, i, i));
        },
    }
}

/// The pre-order of the trees with roots in slot `r` and above lists exactly
/// the nodes of those trees, each once.
proof fn lemma_forest_order_covers(g: Seq<NodeView>, r: int)
    requires
        forest_wf(g),
        0 <= r,
    ensures
        forest_order(g, r).no_duplicates(),
        forall|i: int| #[trigger] forest_order(g, r).contains(i) <==> under_root_from(g, r, i),
    decreases g.len() - r,
{
    if r < g.len() {
        let rest = forest_order(g, r + 1);
        lemma_forest_order_covers(g, r + 1);
        if g[r].live && g[r].parent.is_none() {
            let first = subtree_order(g, r);
            lemma_subtree_order_covers(g, r);
            assert forall|i: int| forest_order(g, r).contains(i) <==> under_root_from(g, r, i) by {
                lemma_concat_contains(first, rest, i);
                assert(forest_order(g, r) == first + rest);
                if first.contains(i) {
                    assert(in_subtree(g, r, i));
                }
                if rest.contains(i) {
                    assert(under_root_from(g, r + 1, i));
                    let root = choose|root: int|
                        r + 1 <= root && is_node(g, root) && g[root].parent.is_none()
                            && #[trigger] in_subtree(g, root, i);
                    assert(r <= root && in_subtree(g, root, i));
                }
                if under_root_from(g, r, i) {
                    let root = choose|root: int|
                        r <= root && is_node(g, root) && g[root].parent.is_none()
                            && #[trigger] in_subtree(g, root, i);
                    if root != r {
                        assert(r + 1 <= root && in_subtree(g, root, i));
                        assert(under_root_from(g, r + 1, i));
                        assert(rest.contains(i));
                    } else {
                        assert(first.contains(i));
                    }
                }
            }
            assert forall|x: int| !(first.contains(x) && rest.contains(x)) by {
                if first.contains(x) && rest.contains(x) {
                    assert(under_root_from(g, r + 1, x));
                    let root = choose|root: int|
                        r + 1 <= root && is_node(g, root) && g[root].parent.is_none()
                            && #[trigger] in_subtree(g, root, x);
                    lemma_siblings_are_apart(g, r, root, x);
                }
            }
            lemma_concat_no_duplicates(first, rest);
        } else {
            assert(forest_order(g, r) == rest);
            assert forall|i: int| forest_order(g, r).contains(i) <==> under_root_from(g, r, i) by {
                if under_root_from(g, r, i) {
                    let root = choose|root: int|
                        r <= root && is_node(g, root) && g[root].parent.is_none()
                            && #[trigger] in_subtree(g, root, i);
                    assert(r + 1 <= root && in_subtree(g, root, i));
                    assert(under_root_from(g, r + 1, i));
                }
                if rest.contains(i) {
                    assert(under_root_from(g, r + 1, i));
                    let root = choose|root: int|
                        r + 1 <= root && is_node(g, root) && g[root].parent.is_none()
                            && #[trigger] in_subtree(g, root, i);
                    assert(r <= root && in_subtree(g, root, i));
                }
            }
        }
    } else {
        assert(forest_order(g, r) =~= Seq::<int>::empty());
        assert forall|i: int| !under_root_from(g, r, i) by {
            if under_root_from(g, r, i) {
                let root = choose|root: int|
                    r <= root && is_node(g, root) && g[root].parent.is_none() && #[trigger] in_subtree(
                        g,
                        root,
                        i,
                    );
            }
        }
    }
}

/// The depth-first order of a well-formed graph visits every node, and each
/// node once.
pub proof fn law_walk_visits_every_node_once(g: Seq<NodeView>)
    requires
        forest_wf(g),
    ensures
        forest_order(g, 0).no_duplicates(),
        forall|i: int| forest_order(g, 0).contains(i) <==> is_node(g, i),
{
    lemma_forest_order_covers(g, 0);
    assert forall|i: int| forest_order(g, 0).contains(i) <==> is_node(g, i) by {
        if is_node(g, i) {
            lemma_node_has_root(g, i);
            assert(forest_order(g, 0).contains(i));
        }
        if forest_order(g, 0).contains(i) {
            assert(under_root_from(g, 0, i));
            let root = choose|root: int|
                0 <= root && is_node(g, root) && g[root].parent.is_none() && #[trigger] in_subtree(
                    g,
                    root,
                    i,
                );
        }
    }
}

} // verus!
