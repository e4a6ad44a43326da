//! The scene graph: a forest of nodes, each standing for one entity.
//!
//! Nodes live in an arena and are addressed by index. A node is always
//! created after its parent, so a parent's index is smaller than the index
//! of each of its children, and the children of a node are listed in the
//! order in which they were added. Removing a node removes its whole
//! subtree; the indices of the nodes that stay do not change.

use vstd::prelude::*;
use crate::entity::Entity;
use crate::error::WorldError;
use crate::traversal::law_walk_visits_every_node_once;

verus! {

/// Addresses a node of one scene graph.
#[derive(Clone, Copy, Debug, PartialEq, Eq, Hash, Structural)]
pub struct NodeIndex(pub usize);

impl NodeIndex {
    /// The node index with the given position in the arena.
    pub fn new(index: usize) -> (n: NodeIndex)
        ensures
            n == NodeIndex(index),
    {
        NodeIndex(index)
    }

    /// The position of the node in the arena.
    pub fn index(&self) -> (i: usize)
        ensures
            i == self.0,
    {
        self.0
    }
}

/// What a scene graph knows of one slot of its arena.
pub struct NodeView {
    /// Whether the slot holds a node. A slot whose node was removed stays
    /// empty for good.
    pub live: bool,
    /// The entity the node stands for.
    pub entity: Entity,
    /// The parent's slot, or `None` for a root.
    pub parent: Option<int>,
    /// The slots of the children, in the order in which they were added.
    pub children: Seq<int>,
}

struct Node {
    entity: Entity,
    parent: Option<usize>,
    children: Vec<usize>,
    live: bool,
}

impl Node {
    spec fn view_of(self) -> NodeView {
        NodeView {
            live: self.live,
            entity: self.entity,
            parent: match self.parent {
                Some(p) => Some(p as int),
                None => None,
            },
            children: self.children@.map_values(|c: usize| c as int),
        }
    }
}

/// A forest of nodes over entities.
pub struct SceneGraph {
    nodes: Vec<Node>,
}

impl View for SceneGraph {
    type V = Seq<NodeView>;

    /// The arena, slot by slot.
    closed spec fn view(&self) -> Seq<NodeView> {
        self.nodes@.map_values(|n: Node| n.view_of())
    }
}

/// Whether slot `i` of an arena holds a node.
pub open spec fn is_node(g: Seq<NodeView>, i: int) -> bool {
    0 <= i < g.len() && g[i].live
}

/// Whether `i` is a node of the subtree rooted at the node `root`.
pub open spec fn in_subtree(g: Seq<NodeView>, root: int, i: int) -> bool
    decreases i,
{
    if !is_node(g, i) {
        false
    } else if i == root {
        true
    } else {
        match g[i].parent {
            Some(p) => 0 <= p < i && in_subtree(g, root, p),
            None => false,
        }
    }
}

/// The well-formedness of an arena: parents and children agree, a parent
/// comes before its children, children are listed in ascending order, an
/// empty slot has no links, and no entity stands in two nodes.
pub open spec fn forest_wf(g: Seq<NodeView>) -> bool {
    &&& forall|i: int| #[trigger]
        is_node(g, i) ==> match g[i].parent {
            Some(p) => p < i && is_node(g, p) && g[p].children.contains(i),
            None => true,
        }
    &&& forall|p: int, k: int|
        is_node(g, p) && 0 <= k < g[p].children.len() ==> {
            let c = #[trigger] g[p].children[k];
            p < c && is_node(g, c) && g[c].parent == Some(p)
        }
    &&& forall|p: int, j: int, k: int|
        is_node(g, p) && 0 <= j < k < g[p].children.len() ==> #[trigger] g[p].children[j]
            < #[trigger] g[p].children[k]
    &&& forall|i: int|
        0 <= i < g.len() && !(#[trigger] g[i]).live ==> g[i].parent.is_none()
            && g[i].children.len() == 0
    &&& forall|i: int, j: int|
        is_node(g, i) && is_node(g, j) && i != j ==> (#[trigger] g[i]).entity != (
        #[trigger] g[j]).entity
}

/// Whether some node of the arena stands for the entity.
pub open spec fn has_entity(g: Seq<NodeView>, e: Entity) -> bool {
    exists|i: int| is_node(g, i) && (#[trigger] g[i]).entity == e
}

/// The slot of the node that stands for the entity.
pub open spec fn node_of(g: Seq<NodeView>, e: Entity) -> int {
    choose|i: int| is_node(g, i) && (#[trigger] g[i]).entity == e
}

/// A new root for an entity.
pub open spec fn root_view(e: Entity) -> NodeView {
    NodeView { live: true, entity: e, parent: None, children: Seq::empty() }
}

/// A new node for an entity under the parent `p`.
pub open spec fn child_view(e: Entity, p: int) -> NodeView {
    NodeView { live: true, entity: e, parent: Some(p), children: Seq::empty() }
}

/// An empty slot.
pub open spec fn vacant_view(e: Entity) -> NodeView {
    NodeView { live: false, entity: e, parent: None, children: Seq::empty() }
}

/// The arena after a new child of `p` for the entity `e` was added.
pub open spec fn with_child(g: Seq<NodeView>, p: int, e: Entity) -> Seq<NodeView> {
    g.update(p, NodeView { children: g[p].children.push(g.len() as int), ..g[p] }).push(
        child_view(e, p),
    )
}

/// The slots that a list of node indices names.
pub open spec fn slots_of(v: Seq<NodeIndex>) -> Seq<int> {
    v.map_values(|n: NodeIndex| n.0 as int)
}

/// The arena after the subtree rooted at the node `root` was removed: the
/// slots of the subtree are empty, the parent of `root` no longer lists it,
/// and every other slot is as it was.
pub open spec fn without_subtree(g: Seq<NodeView>, root: int) -> Seq<NodeView> {
    Seq::new(
        g.len(),
        |i: int|
            if in_subtree(g, root, i) {
                vacant_view(g[i].entity)
            } else if g[root].parent == Some(i) {
                NodeView { children: g[i].children.remove(g[i].children.index_of(root)), ..g[i] }
            } else {
                g[i]
            },
    )
}

/// The nodes of the subtree rooted at `n` in depth-first pre-order: `n`
/// itself, then the subtrees of its children in the order of the list.
pub open spec fn subtree_order(g: Seq<NodeView>, n: int) -> Seq<int>
    decreases g.len() - n, 1nat, 0nat,
{
    if 0 <= n < g.len() {
        seq![n] + children_order(g, n, 0)
    } else {
        Seq::empty()
    }
}

/// The pre-order of the subtrees of the children of `n` from position `k`
/// of its list on.
pub open spec fn children_order(g: Seq<NodeView>, n: int, k: int) -> Seq<int>
    decreases g.len() - n, 0nat, g[n].children.len() - k,
{
    if 0 <= n < g.len() && 0 <= k < g[n].children.len() {
        let c = g[n].children[k];
        if n < c < g.len() {
            subtree_order(g, c) + children_order(g, n, k + 1)
        } else {
            children_order(g, n, k + 1)
        }
    } else {
        Seq::empty()
    }
}

/// The pre-order of the trees whose roots stand in slots `i` and above, the
/// roots taken in ascending order.
pub open spec fn forest_order(g: Seq<NodeView>, i: int) -> Seq<int>
    decreases g.len() - i,
{
    if 0 <= i < g.len() {
        if g[i].live && g[i].parent.is_none() {
            subtree_order(g, i) + forest_order(g, i + 1)
        } else {
            forest_order(g, i + 1)
        }
    } else {
        Seq::empty()
    }
}

impl SceneGraph {
    /// The graph's invariant.
    pub open spec fn wf(&self) -> bool {
        forest_wf(self@)
    }

    /// An empty graph.
    pub fn new() -> (g: SceneGraph)
        ensures
            g.wf(),
            g@.len() == 0,
    {
        SceneGraph { nodes: Vec::new() }
    }

    /// The number of slots in the arena, empty ones included.
    pub fn slot_count(&self) -> (n: usize)
        ensures
            n == self@.len(),
    {
        self.nodes.len()
    }

    /// Whether the index names a node of this graph.
    pub fn contains_node(&self, node: NodeIndex) -> (b: bool)
        ensures
            b == is_node(self@, node.0 as int),
    {
        node.0 < self.nodes.len() && self.nodes[node.0].live
    }

    /// The entity that a node stands for, or `None` where the index names no
    /// node.
    pub fn entity(&self, node: NodeIndex) -> (e: Option<Entity>)
        ensures
            e == if is_node(self@, node.0 as int) {
                Some(self@[node.0 as int].entity)
            } else {
                None
            },
    {
        if node.0 < self.nodes.len() && self.nodes[node.0].live {
            Some(self.nodes[node.0].entity)
        } else {
            None
        }
    }

    /// The parent of a node, or `None` for a root and for an index that
    /// names no node.
    pub fn parent(&self, node: NodeIndex) -> (p: Option<NodeIndex>)
        ensures
            p == if is_node(self@, node.0 as int) {
                match self@[node.0 as int].parent {
                    Some(i) => Some(NodeIndex(i as usize)),
                    None => None,
                }
            } else {
                None
            },
            p.is_some() ==> self@[node.0 as int].parent == Some(p.unwrap().0 as int),
    {
        if node.0 < self.nodes.len() && self.nodes[node.0].live {
            match self.nodes[node.0].parent {
                Some(i) => Some(NodeIndex(i)),
                None => None,
            }
        } else {
            None
        }
    }

    /// The node that stands for an entity, if there is one.
    pub fn find_node(&self, e: Entity) -> (found: Option<NodeIndex>)
        ensures
            found.is_some() == has_entity(self@, e),
            found.is_some() ==> is_node(self@, found.unwrap().0 as int) && self@[found.unwrap().0 as int].entity
                == e,
            found.is_some() && self.wf() ==> found.unwrap().0 as int == node_of(self@, e),
    {
        let n: usize = self.nodes.len();
        let mut i: usize = 0;
        while i < n
            invariant
                i <= n,
                n == self.nodes.len(),
                forall|k: int| 0 <= k < i ==> !(is_node(self@, k) && (#[trigger] self@[k]).entity == e),
            decreases n - i,
        {
            if self.nodes[i].live && self.nodes[i].entity == e {
                assert(is_node(self@, i as int) && self@[i as int].entity == e);
                return Some(NodeIndex(i));
            }
            i = i + 1;
        }
        None
    }

    /// Adds a root for an entity and returns its index. Where the entity
    /// already has a node, the graph stays as it is and that node's index is
    /// returned.
    pub fn add_node(&mut self, e: Entity) -> (node: NodeIndex)
        requires
            old(self).wf(),
        ensures
            final(self).wf(),
            is_node(final(self)@, node.0 as int),
            final(self)@[node.0 as int].entity == e,
            has_entity(old(self)@, e) ==> final(self)@ == old(self)@ && node.0 == node_of(
                old(self)@,
                e,
            ),
            !has_entity(old(self)@, e) ==> node.0 == old(self)@.len() && final(self)@ == old(
                self,
            )@.push(root_view(e)),
    {
        match self.find_node(e) {
            Some(existing) => existing,
            None => {
                let i: usize = self.nodes.len();
                self.nodes.push(Node { entity: e, parent: None, children: Vec::new(), live: true });
                proof {
                    assert(self.nodes@.last().view_of() == root_view(e)) by {
                        assert(self.nodes@.last().view_of().children =~= Seq::<int>::empty());
                    }
                    assert(self@ =~= old(self)@.push(root_view(e)));
                    lemma_push_root_wf(old(self)@, e);
                }
                NodeIndex(i)
            },
        }
    }

    /// Adds a node for an entity under a parent and returns its index. A
    /// parent that is not a node of this graph is refused with
    /// `InvalidParent`. Where the entity already has a node, the graph stays
    /// as it is and that node's index is returned.
    pub fn add_child(&mut self, parent: NodeIndex, e: Entity) -> (r: Result<NodeIndex, WorldError>)
        requires
            old(self).wf(),
        ensures
            final(self).wf(),
            r.is_ok() == is_node(old(self)@, parent.0 as int),
            r.is_err() ==> r == Err::<NodeIndex, WorldError>(WorldError::InvalidParent),
            r.is_err() ==> final(self)@ == old(self)@,
            r.is_ok() ==> is_node(final(self)@, r.unwrap().0 as int) && final(self)@[r.unwrap().0 as int].entity
                == e,
            r.is_ok() && has_entity(old(self)@, e) ==> final(self)@ == old(self)@
                && r.unwrap().0 == node_of(old(self)@, e),
            r.is_ok() && !has_entity(old(self)@, e) ==> r.unwrap().0 == old(self)@.len()
                && final(self)@ == with_child(old(self)@, parent.0 as int, e),
    {
        if !self.contains_node(parent) {
            return Err(WorldError::InvalidParent);
        }
        match self.find_node(e) {
            Some(existing) => Ok(existing),
            None => {
                let i: usize = self.nodes.len();
                let p: usize = parent.0;
                self.nodes[p].children.push(i);
                self.nodes.push(
                    Node { entity: e, parent: Some(p), children: Vec::new(), live: true },
                );
                proof {
                    assert(self.nodes@.last().view_of() == child_view(e, p as int)) by {
                        assert(self.nodes@.last().view_of().children =~= Seq::<int>::empty());
                    }
                    assert(self@[p as int].children =~= old(self)@[p as int].children.push(i as int));
                    assert(self@ =~= with_child(old(self)@, p as int, e));
                    lemma_push_child_wf(old(self)@, p as int, e);
                }
                Ok(NodeIndex(i))
            },
        }
    }

    /// Whether a node has children. An index that names no node has none.
    pub fn has_children(&self, node: NodeIndex) -> (b: bool)
        ensures
            b == (is_node(self@, node.0 as int) && self@[node.0 as int].children.len() > 0),
    {
        node.0 < self.nodes.len() && self.nodes[node.0].live && self.nodes[node.0].children.len()
            > 0
    }

    /// The children of a node in the order in which they were added. An
    /// index that names no node has none.
    pub fn children_of(&self, node: NodeIndex) -> (children: Vec<NodeIndex>)
        ensures
            slots_of(children@) == if is_node(self@, node.0 as int) {
                self@[node.0 as int].children
            } else {
                Seq::<int>::empty()
            },
    {
        let mut children: Vec<NodeIndex> = Vec::new();
        if !self.contains_node(node) {
            assert(slots_of(children@) =~= Seq::<int>::empty());
            return children;
        }
        let list = &self.nodes[node.0].children;
        let count: usize = list.len();
        let mut k: usize = 0;
        while k < count
            invariant
                k <= count,
                count == list.len(),
                children.len() == k,
                forall|j: int| 0 <= j < k ==> (#[trigger] children[j]).0 == list[j],
            decreases count - k,
        {
            children.push(NodeIndex(list[k]));
            k = k + 1;
        }
        assert(slots_of(children@) =~= self@[node.0 as int].children);
        children
    }

    /// Every node of the graph in depth-first pre-order: the roots in
    /// ascending order of their slots, each followed by the subtrees of its
    /// children in the order in which the children were added.
    pub fn walk(&self) -> (order: Vec<NodeIndex>)
        requires
            self.wf(),
        ensures
            slots_of(order@) == forest_order(self@, 0),
            slots_of(order@).no_duplicates(),
            forall|i: int| #[trigger] slots_of(order@).contains(i) <==> is_node(self@, i),
    {
        let mut order: Vec<NodeIndex> = Vec::new();
        let n: usize = self.nodes.len();
        let mut i: usize = 0;
        assert(slots_of(order@) =~= Seq::<int>::empty());
        while i < n
            invariant
                self.wf(),
                i <= n,
                n == self.nodes.len(),
                slots_of(order@) + forest_order(self@, i as int) == forest_order(self@, 0),
            decreases n - i,
        {
            if self.nodes[i].live && self.nodes[i].parent.is_none() {
                let ghost before = slots_of(order@);
                self.visit(i, &mut order);
                assert((before + subtree_order(self@, i as int)) + forest_order(self@, i + 1) =~= before
                    + forest_order(self@, i as int));
            }
            i = i + 1;
        }
        assert(slots_of(order@) + Seq::<int>::empty() =~= slots_of(order@));
        proof {
            law_walk_visits_every_node_once(self@);
        }
        order
    }

    /// Appends the pre-order of the subtree of node `n` to `out`.
    fn visit(&self, n: usize, out: &mut Vec<NodeIndex>)
        requires
            self.wf(),
            is_node(self@, n as int),
        ensures
            slots_of(final(out)@) == slots_of(old(out)@) + subtree_order(self@, n as int),
        decreases self@.len() - n,
    {
        out.push(NodeIndex(n));
        assert(slots_of(out@) =~= slots_of(old(out)@) + seq![n as int]);
        let count: usize = self.nodes[n].children.len();
        let mut k: usize = 0;
        assert((slots_of(old(out)@) + seq![n as int]) + children_order(self@, n as int, 0) =~= slots_of(
            old(out)@,
        ) + subtree_order(self@, n as int));
        while k < count
            invariant
                self.wf(),
                is_node(self@, n as int),
                k <= count,
                count == self.nodes[n as int].children.len(),
                count == self@[n as int].children.len(),
                slots_of(out@) + children_order(self@, n as int, k as int) == slots_of(old(out)@)
                    + subtree_order(self@, n as int),
            decreases count - k,
        {
            let c: usize = self.nodes[n].children[k];
            let ghost before = slots_of(out@);
            assert(self@[n as int].children[k as int] == c);
            assert(is_node(self@, c as int) && n < c);
            self.visit(c, out);
            assert((before + subtree_order(self@, c as int)) + children_order(
                self@,
                n as int,
                k + 1,
            ) =~= before + children_order(self@, n as int, k as int));
            k = k + 1;
        }
        assert(slots_of(out@) + Seq::<int>::empty() =~= slots_of(out@));
    }

    /// Removes a node with its whole subtree. The slots of the removed nodes
    /// stay empty; no other node changes its index. An index that names no
    /// node is refused with `NotFound`.
    pub fn remove_node(&mut self, node: NodeIndex) -> (r: Result<(), WorldError>)
        requires
            old(self).wf(),
        ensures
            final(self).wf(),
            r.is_ok() == is_node(old(self)@, node.0 as int),
            r.is_err() ==> r == Err::<(), WorldError>(WorldError::NotFound),
            r.is_err() ==> final(self)@ == old(self)@,
            r.is_ok() ==> final(self)@ == without_subtree(old(self)@, node.0 as int),
    {
        if !self.contains_node(node) {
            return Err(WorldError::NotFound);
        }
        let n: usize = node.0;
        let len: usize = self.nodes.len();
        let ghost g = old(self)@;
        let ghost h = without_subtree(g, n as int);
        proof {
            lemma_subtree_above_root(g, n as int);
        }
        match self.nodes[n].parent {
            Some(p) => {
                assert(g[n as int].parent == Some(p as int));
                assert(is_node(g, p as int) && g[p as int].children.contains(n as int));
                let count: usize = self.nodes[p].children.len();
                let mut k: usize = 0;
                while k < count && self.nodes[p].children[k] != n
                    invariant
                        self@ == g,
                        p < n < len,
                        len == self.nodes.len(),
                        k <= count,
                        count == self.nodes[p as int].children.len(),
                        forall|j: int| 0 <= j < k ==> self.nodes[p as int].children[j] != n,
                        g[p as int].children.contains(n as int),
                    decreases count - k,
                {
                    k = k + 1;
                }
                proof {
                    let w = choose|w: int|
                        0 <= w < g[p as int].children.len() && g[p as int].children[w] == n as int;
                    assert(self.nodes[p as int].children[w] == n);
                    assert(k < count);
                    assert(g[p as int].children[k as int] == n as int);
                    lemma_sorted_index_of(g, p as int, k as int);
                }
                let _ = self.nodes[p].children.remove(k);
                assert(self@[p as int].children =~= g[p as int].children.remove(k as int));
            },
            None => {},
        }
        self.nodes[n].live = false;
        self.nodes[n].parent = None;
        self.nodes[n].children = Vec::new();
        assert(self@[n as int].children =~= Seq::<int>::empty());
        let mut i: usize = n + 1;
        assert forall|j: int| 0 <= j < i implies #[trigger] self@[j] == h[j] by {
            if j < n && g[n as int].parent != Some(j) {
                assert(self.nodes[j] == old(self).nodes[j]);
            }
        }
        while i < len
            invariant
                forest_wf(g),
                is_node(g, n as int),
                h == without_subtree(g, n as int),
                n < i <= len,
                len == self.nodes.len(),
                len == g.len(),
                forall|j: int| 0 <= j < i ==> #[trigger] self@[j] == h[j],
                forall|j: int| i <= j < len ==> #[trigger] self@[j] == g[j],
                forall|j: int| in_subtree(g, n as int, j) ==> n <= j,
            decreases len - i,
        {
            let mut cut: bool = false;
            assert(self@[i as int] == g[i as int]);
            if self.nodes[i].live {
                match self.nodes[i].parent {
                    Some(q) => {
                        assert(g[i as int].parent == Some(q as int));
                        assert(is_node(g, i as int));
                        assert(is_node(g, q as int) && q < i);
                        assert(self@[q as int] == h[q as int]);
                        cut = !self.nodes[q].live;
                        assert(cut == in_subtree(g, n as int, q as int));
                    },
                    None => {},
                }
            }
            assert(cut == in_subtree(g, n as int, i as int));
            let ghost before = self.nodes@;
            let ghost seen = self@;
            if cut {
                self.nodes[i].live = false;
                self.nodes[i].parent = None;
                self.nodes[i].children = Vec::new();
                assert(self@[i as int].children =~= Seq::<int>::empty());
            }
            assert(self@[i as int] == h[i as int]);
            assert forall|j: int| 0 <= j < len && j != i implies #[trigger] self@[j] == seen[j] by {
                assert(self.nodes@[j] == before[j]);
                assert(seen[j] == before[j].view_of());
            }
            i = i + 1;
        }
        proof {
            assert(self@ =~= h);
            lemma_without_subtree_wf(g, n as int);
        }
        Ok(())
    }
}

/// Adding a root for an entity that has no node keeps the arena well formed.
proof fn lemma_push_root_wf(g: Seq<NodeView>, e: Entity)
    requires
        forest_wf(g),
        !has_entity(g, e),
    ensures
        forest_wf(g.push(root_view(e))),
{
    let h = g.push(root_view(e));
    assert forall|i: int| is_node(h, i) implies is_node(g, i) || i == g.len() by {}
    assert forall|i: int| #[trigger] is_node(h, i) implies match h[i].parent {
        Some(p) => p < i && is_node(h, p) && h[p].children.contains(i),
        None => true,
    } by {
        if i < g.len() {
            assert(is_node(g, i));
        }
    }
    assert forall|p: int, k: int| is_node(h, p) && 0 <= k < h[p].children.len() implies {
        let c = #[trigger] h[p].children[k];
        p < c && is_node(h, c) && h[c].parent == Some(p)
    } by {
        assert(is_node(g, p));
        let c = g[p].children[k];
        assert(is_node(g, c));
    }
    assert forall|i: int, j: int| is_node(h, i) && is_node(h, j) && i != j implies (
    #[trigger] h[i]).entity != (#[trigger] h[j]).entity by {
        if i < g.len() && j < g.len() {
            assert(is_node(g, i) && is_node(g, j));
        } else if i < g.len() {
            assert(is_node(g, i));
        } else {
            assert(is_node(g, j));
        }
    }
}

/// Adding a child for an entity that has no node, under a node of the
/// arena, keeps the arena well formed.
proof fn lemma_push_child_wf(g: Seq<NodeView>, p: int, e: Entity)
    requires
        forest_wf(g),
        is_node(g, p),
        !has_entity(g, e),
    ensures
        forest_wf(with_child(g, p, e)),
{
    let h = with_child(g, p, e);
    let n = g.len() as int;
    assert(h.len() == n + 1);
    assert(h[n] == child_view(e, p));
    assert(h[p].children == g[p].children.push(n));
    assert forall|i: int| 0 <= i < n && i != p implies h[i] == g[i] by {}
    assert forall|i: int| 0 <= i < n implies h[i].live == g[i].live && h[i].parent == g[i].parent
        && h[i].entity == g[i].entity by {}
    assert forall|i: int| #[trigger] is_node(h, i) implies match h[i].parent {
        Some(q) => q < i && is_node(h, q) && h[q].children.contains(i),
        None => true,
    } by {
        if i < n {
            assert(is_node(g, i));
            match g[i].parent {
                Some(q) => {
                    assert(g[q].children.contains(i));
                    let k = choose|k: int| 0 <= k < g[q].children.len() && g[q].children[k] == i;
                    assert(h[q].children[k] == i);
                },
                None => {},
            }
        } else {
            assert(h[p].children[g[p].children.len() as int] == n);
        }
    }
    assert forall|q: int, k: int| is_node(h, q) && 0 <= k < h[q].children.len() implies {
        let c = #[trigger] h[q].children[k];
        q < c && is_node(h, c) && h[c].parent == Some(q)
    } by {
        if q < n {
            assert(is_node(g, q));
            if k < g[q].children.len() {
                let c = g[q].children[k];
                assert(is_node(g, c));
                assert(h[q].children[k] == c);
            }
        }
    }
    assert forall|q: int, j: int, k: int|
        is_node(h, q) && 0 <= j < k < h[q].children.len() implies #[trigger] h[q].children[j]
        < #[trigger] h[q].children[k] by {
        if q < n {
            assert(is_node(g, q));
            if k == g[q].children.len() {
                let c = g[q].children[j];
                assert(is_node(g, c));
            }
        }
    }
    assert forall|i: int| 0 <= i < h.len() && !(#[trigger] h[i]).live implies h[i].parent.is_none()
        && h[i].children.len() == 0 by {
        assert(!g[i].live);
    }
    assert forall|i: int, j: int| is_node(h, i) && is_node(h, j) && i != j implies (
    #[trigger] h[i]).entity != (#[trigger] h[j]).entity by {
        if i < n && j < n {
            assert(is_node(g, i) && is_node(g, j));
        } else if i < n {
            assert(is_node(g, i));
        } else {
            assert(is_node(g, j));
        }
    }
}

/// In a well-formed arena no entity stands in two nodes, and the parent of
/// every node is itself a node.
pub proof fn law_no_duplicate_entity_no_dangling_parent(g: Seq<NodeView>)
    requires
        forest_wf(g),
    ensures
        forall|i: int, j: int|
            is_node(g, i) && is_node(g, j) && (#[trigger] g[i]).entity == (#[trigger] g[j]).entity
                ==> i == j,
        forall|i: int| #[trigger]
            is_node(g, i) && g[i].parent.is_some() ==> is_node(g, g[i].parent.unwrap()),
        forall|i: int, k: int|
            is_node(g, i) && 0 <= k < g[i].children.len() ==> is_node(g, #[trigger] g[i].children[k]),
{
}

/// Every node of a subtree stands at or above the slot of its root.
pub proof fn lemma_subtree_above_root(g: Seq<NodeView>, root: int)
    ensures
        forall|j: int| in_subtree(g, root, j) ==> root <= j,
{
    assert forall|j: int| in_subtree(g, root, j) implies root <= j by {
        lemma_subtree_above_root_at(g, root, j);
    }
}

proof fn lemma_subtree_above_root_at(g: Seq<NodeView>, root: int, j: int)
    requires
        in_subtree(g, root, j),
    ensures
        root <= j,
    decreases j,
{
    if j != root {
        lemma_subtree_above_root_at(g, root, g[j].parent.unwrap());
    }
}

/// In a well-formed arena a child stands at one position of its parent's
/// list only.
proof fn lemma_sorted_index_of(g: Seq<NodeView>, p: int, k: int)
    requires
        forest_wf(g),
        is_node(g, p),
        0 <= k < g[p].children.len(),
    ensures
        g[p].children.index_of(g[p].children[k]) == k,
{
    let list = g[p].children;
    let value = list[k];
    let w = list.index_of(value);
    assert(list.contains(value));
    assert(0 <= w < list.len() && list[w] == value);
    if w < k {
        assert(g[p].children[w] < g[p].children[k]);
    } else if k < w {
        assert(g[p].children[k] < g[p].children[w]);
    }
}

/// Removing a subtree keeps the arena well formed.
pub proof fn lemma_without_subtree_wf(g: Seq<NodeView>, root: int)
    requires
        forest_wf(g),
        is_node(g, root),
    ensures
        forest_wf(without_subtree(g, root)),
{
    let h = without_subtree(g, root);
    lemma_subtree_above_root(g, root);
    assert forall|i: int| is_node(h, i) <==> (is_node(g, i) && !in_subtree(g, root, i)) by {}
    assert forall|i: int| is_node(h, i) implies h[i].parent == g[i].parent && h[i].entity
        == g[i].entity by {}
    // what a surviving node lists is what it listed, without the root
    assert forall|p: int, c: int| is_node(h, p) && g[p].children.contains(c) && c != root implies
        h[p].children.contains(c) by {
        if g[root].parent == Some(p) {
            let list = g[p].children;
            let at = list.index_of(root);
            assert(list.contains(root));
            let w = choose|w: int| 0 <= w < list.len() && list[w] == c;
            if w < at {
                assert(list.remove(at)[w] == c);
            } else {
                assert(list.remove(at)[w - 1] == c);
            }
        }
    }
    assert forall|p: int, k: int| is_node(h, p) && 0 <= k < h[p].children.len() implies g[p].children.contains(
        #[trigger] h[p].children[k],
    ) && h[p].children[k] != root by {
        if g[root].parent == Some(p) {
            let list = g[p].children;
            let at = list.index_of(root);
            assert(list.contains(root));
            if k < at {
                assert(list[k] == h[p].children[k]);
                assert(list[k] < list[at]);
            } else {
                assert(list[k + 1] == h[p].children[k]);
                assert(list[at] < list[k + 1]);
            }
        } else {
            let c = g[p].children[k];
            assert(g[c].parent == Some(p));
        }
    }
    assert forall|i: int| #[trigger] is_node(h, i) implies match h[i].parent {
        Some(p) => p < i && is_node(h, p) && h[p].children.contains(i),
        None => true,
    } by {
        assert(is_node(g, i));
        match g[i].parent {
            Some(p) => {
                assert(is_node(g, p));
                assert(!in_subtree(g, root, p));
                assert(g[p].children.contains(i));
            },
            None => {},
        }
    }
    assert forall|p: int, k: int| is_node(h, p) && 0 <= k < h[p].children.len() implies {
        let c = #[trigger] h[p].children[k];
        p < c && is_node(h, c) && h[c].parent == Some(p)
    } by {
        let c = h[p].children[k];
        assert(g[p].children.contains(c) && c != root);
        let w = choose|w: int| 0 <= w < g[p].children.len() && g[p].children[w] == c;
        assert(is_node(g, g[p].children[w]));
        assert(g[c].parent == Some(p));
        assert(!in_subtree(g, root, c));
    }
    assert forall|p: int, j: int, k: int|
        is_node(h, p) && 0 <= j < k < h[p].children.len() implies #[trigger] h[p].children[j]
        < #[trigger] h[p].children[k] by {
        if g[root].parent == Some(p) {
            let list = g[p].children;
            let at = list.index_of(root);
            assert(list.contains(root));
            let jj = if j < at { j } else { j + 1 };
            let kk = if k < at { k } else { k + 1 };
            assert(h[p].children[j] == list[jj]);
            assert(h[p].children[k] == list[kk]);
            assert(g[p].children[jj] < g[p].children[kk]);
        } else {
            assert(g[p].children[j] < g[p].children[k]);
        }
    }
    assert forall|i: int| 0 <= i < h.len() && !(#[trigger] h[i]).live implies h[i].parent.is_none()
        && h[i].children.len() == 0 by {
        if !in_subtree(g, root, i) {
            assert(!g[i].live);
            assert(g[root].parent != Some(i)) by {
                if g[root].parent == Some(i) {
                    assert(is_node(g, i));
                }
            }
        }
    }
    assert forall|i: int, j: int| is_node(h, i) && is_node(h, j) && i != j implies (
    #[trigger] h[i]).entity != (#[trigger] h[j]).entity by {
        assert(is_node(g, i) && is_node(g, j));
    }
}

} // verus!
