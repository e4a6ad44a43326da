//! The scene of a world: its graphs, and the global transforms read off
//! them.

use vstd::prelude::*;
use crate::components::{Row, Transform};
use crate::entity::Entity;
use crate::error::WorldError;
use crate::math::{is_decomposition_of, is_product_of, Mat4};
use crate::resolver::{global_transform, is_global_matrix, resolve_failure};
use crate::scene_graph::{forest_wf, has_entity, is_node, root_view, with_child};
use crate::scene_graph::{without_subtree, NodeIndex, NodeView, SceneGraph};
use crate::world::{in_scene, lemma_scene_wf_cut, scene_wf, stands_at, World};

verus! {

impl World {
    /// Adds an empty scene graph of the given name and returns its position.
    /// The current graph stays the current one.
    pub fn add_graph(&mut self, name: String) -> (a: usize)
        requires
            old(self).wf(),
        ensures
            final(self).wf(),
            a == old(self).graphs().len(),
            final(self).graphs() == old(self).graphs().push(Seq::<NodeView>::empty()),
            final(self).names() == old(self).names().push(name@),
            final(self).current() == old(self).current(),
            final(self).entities() == old(self).entities(),
            final(self).spent() == old(self).spent(),
            final(self).meshes() == old(self).meshes(),
            final(self).simulation() == old(self).simulation(),
    {
        let a: usize = self.graphs.len();
        self.graphs.push(SceneGraph::new());
        self.names.push(name);
        proof {
            assert(self.graphs() =~= old(self).graphs().push(Seq::<NodeView>::empty())) by {
                assert(self.graphs()[a as int] =~= Seq::<NodeView>::empty());
            }
            assert(self.names() =~= old(self).names().push(name@));
            let after = self.graphs();
            let before = old(self).graphs();
            assert forall|e: Entity, b: int, i: int| #[trigger]
                stands_at(after, e, b, i) implies stands_at(before, e, b, i) by {}
        }
        a
    }

    /// The position of the first scene graph of a name in a list, or -1.
    pub open spec fn position_of(names: Seq<Seq<char>>, name: Seq<char>) -> int
        decreases names.len(),
    {
        if names.len() == 0 {
            -1
        } else if names[0] == name {
            0
        } else {
            let rest = Self::position_of(names.skip(1), name);
            if rest < 0 {
                -1
            } else {
                rest + 1
            }
        }
    }

    /// The position of the first scene graph of the given name.
    pub fn find_graph(&self, name: &String) -> (found: Option<usize>)
        requires
            self.wf(),
        ensures
            found.is_some() == (Self::position_of(self.names(), name@) >= 0),
            found.is_some() ==> found.unwrap() == Self::position_of(self.names(), name@)
                && found.unwrap() < self.graphs().len(),
    {
        let n: usize = self.names.len();
        let mut k: usize = 0;
        assert(self.names().skip(0) =~= self.names());
        while k < n
            invariant
                k <= n,
                n == self.names.len(),
                n == self.names().len(),
                n == self.graphs().len(),
                Self::position_of(self.names().skip(k as int), name@) < 0 ==> Self::position_of(
                    self.names(),
                    name@,
                ) < 0,
                Self::position_of(self.names().skip(k as int), name@) >= 0 ==> Self::position_of(
                    self.names(),
                    name@,
                ) == k + Self::position_of(self.names().skip(k as int), name@),
            decreases n - k,
        {
            let rest = Ghost(self.names().skip(k as int));
            assert(rest@[0] == self.names@[k as int]@);
            assert(rest@.skip(1) =~= self.names().skip(k + 1));
            if self.names[k] == *name {
                return Some(k);
            }
            k = k + 1;
        }
        assert(self.names().skip(n as int).len() == 0);
        None
    }

    /// The name of a scene graph.
    pub fn graph_name(&self, a: usize) -> (name: Option<&String>)
        requires
            self.wf(),
        ensures
            name.is_some() == (a < self.graphs().len()),
            name.is_some() ==> name.unwrap()@ == self.names()[a as int],
    {
        if a < self.names.len() {
            Some(&self.names[a])
        } else {
            None
        }
    }

    /// The position of the current scene graph.
    pub fn current_graph(&self) -> (a: usize)
        requires
            self.wf(),
        ensures
            a == self.current(),
            a < self.graphs().len(),
    {
        self.current
    }

    /// Makes the first scene graph of the given name the current one. Where
    /// no graph has that name, `NotFound`, and nothing changes.
    pub fn select_graph(&mut self, name: &String) -> (r: Result<usize, WorldError>)
        requires
            old(self).wf(),
        ensures
            final(self).wf(),
            final(self).names() == old(self).names(),
            final(self).graphs() == old(self).graphs(),
            final(self).entities() == old(self).entities(),
            final(self).spent() == old(self).spent(),
            final(self).meshes() == old(self).meshes(),
            final(self).simulation() == old(self).simulation(),
            r.is_ok() == (Self::position_of(old(self).names(), name@) >= 0),
            r.is_err() ==> r == Err::<usize, WorldError>(WorldError::NotFound),
            r.is_err() ==> final(self).current() == old(self).current(),
            r.is_ok() ==> r.unwrap() == Self::position_of(old(self).names(), name@)
                && final(self).current() == r.unwrap(),
    {
        match self.find_graph(name) {
            Some(a) => {
                self.current = a;
                Ok(a)
            },
            None => Err(WorldError::NotFound),
        }
    }

    /// Why an entity cannot get a node in graph `a`, if it cannot: a graph
    /// that does not exist and an entity that is not live give `NotFound`;
    /// an entity that already stands in another graph gives `InvalidParent`.
    pub open spec fn placing_failure(&self, a: int, e: Entity) -> Option<WorldError> {
        if !(0 <= a < self.graphs().len()) || !self.entities().contains_key(e) {
            Some(WorldError::NotFound)
        } else if exists|b: int, j: int| b != a && stands_at(self.graphs(), e, b, j) {
            Some(WorldError::InvalidParent)
        } else {
            None
        }
    }

    /// Adds a root for a live entity to graph `a` and returns its node.
    /// Where the entity already has a node in that graph, nothing changes
    /// and that node is returned.
    pub fn add_node(&mut self, a: usize, e: Entity) -> (r: Result<NodeIndex, WorldError>)
        requires
            old(self).wf(),
        ensures
            final(self).wf(),
            final(self).same_outside_scene(old(self)),
            r.is_err() ==> old(self).placing_failure(a as int, e) == Some(r.unwrap_err()),
            r.is_err() ==> final(self).graphs() == old(self).graphs(),
            r.is_ok() ==> old(self).placing_failure(a as int, e).is_none(),
            r.is_ok() ==> stands_at(final(self).graphs(), e, a as int, r.unwrap().0 as int),
            r.is_ok() ==> final(self).graphs() == old(self).graphs().update(
                a as int,
                if has_entity(old(self).graphs()[a as int], e) {
                    old(self).graphs()[a as int]
                } else {
                    old(self).graphs()[a as int].push(root_view(e))
                },
            ),
    {
        if a >= self.graphs.len() || !self.ecs.contains(e) {
            return Err(WorldError::NotFound);
        }
        let ghost before = self.graphs();
        proof {
            assert(before[a as int] == self.graphs[a as int]@);
        }
        match self.locate(e) {
            Some((b, _)) => {
                if b != a {
                    return Err(WorldError::InvalidParent);
                }
            },
            None => {},
        }
        assert(old(self).placing_failure(a as int, e).is_none()) by {
            if exists|b: int, j: int| b != a && stands_at(before, e, b, j) {
                let (b, j) = choose|b: int, j: int| b != a && stands_at(before, e, b, j);
                assert(in_scene(before, e));
            }
        }
        let node = self.graphs[a].add_node(e);
        proof {
            let grown = self.graphs[a as int]@;
            assert(self.graphs() =~= before.update(a as int, grown));
            lemma_scene_wf_with(before, self.entities(), a as int, grown, e);
        }
        Ok(node)
    }

    /// Why an entity cannot get a node under a parent in graph `a`, if it
    /// cannot: a graph that does not exist and an entity that is not live
    /// give `NotFound`; a parent that is not a node of the graph, and an
    /// entity that already stands in another graph, give `InvalidParent`.
    pub open spec fn parenting_failure(&self, a: int, parent: int, e: Entity) -> Option<
        WorldError,
    > {
        if !(0 <= a < self.graphs().len()) || !self.entities().contains_key(e) {
            Some(WorldError::NotFound)
        } else if !is_node(self.graphs()[a], parent) {
            Some(WorldError::InvalidParent)
        } else {
            self.placing_failure(a, e)
        }
    }

    /// Adds a node for a live entity under a parent in graph `a` and returns
    /// it. Where the entity already has a node in that graph, nothing
    /// changes and that node is returned.
    pub fn add_child(&mut self, a: usize, parent: NodeIndex, e: Entity) -> (r: Result<
        NodeIndex,
        WorldError,
    >)
        requires
            old(self).wf(),
        ensures
            final(self).wf(),
            final(self).same_outside_scene(old(self)),
            r.is_err() ==> old(self).parenting_failure(a as int, parent.0 as int, e) == Some(
                r.unwrap_err(),
            ),
            r.is_err() ==> final(self).graphs() == old(self).graphs(),
            r.is_ok() ==> old(self).parenting_failure(a as int, parent.0 as int, e).is_none(),
            r.is_ok() ==> stands_at(final(self).graphs(), e, a as int, r.unwrap().0 as int),
            r.is_ok() ==> final(self).graphs() == old(self).graphs().update(
                a as int,
                if has_entity(old(self).graphs()[a as int], e) {
                    old(self).graphs()[a as int]
                } else {
                    with_child(old(self).graphs()[a as int], parent.0 as int, e)
                },
            ),
    {
        if a >= self.graphs.len() || !self.ecs.contains(e) {
            return Err(WorldError::NotFound);
        }
        let ghost before = self.graphs();
        proof {
            assert(before[a as int] == self.graphs[a as int]@);
        }
        if !self.graphs[a].contains_node(parent) {
            return Err(WorldError::InvalidParent);
        }
        match self.locate(e) {
            Some((b, _)) => {
                if b != a {
                    return Err(WorldError::InvalidParent);
                }
            },
            None => {},
        }
        assert(old(self).placing_failure(a as int, e).is_none()) by {
            if exists|b: int, j: int| b != a && stands_at(before, e, b, j) {
                let (b, j) = choose|b: int, j: int| b != a && stands_at(before, e, b, j);
                assert(in_scene(before, e));
            }
        }
        match self.graphs[a].add_child(parent, e) {
            Ok(node) => {
                proof {
                    let grown = self.graphs[a as int]@;
                    assert(self.graphs() =~= before.update(a as int, grown));
                    lemma_scene_wf_with(before, self.entities(), a as int, grown, e);
                }
                Ok(node)
            },
            Err(failure) => Err(failure),
        }
    }

    /// Removes a node of graph `a` with its whole subtree. The entities of
    /// the removed nodes stay alive. A graph that does not exist and an
    /// index that names no node are refused with `NotFound`.
    pub fn remove_node(&mut self, a: usize, node: NodeIndex) -> (r: Result<(), WorldError>)
        requires
            old(self).wf(),
        ensures
            final(self).wf(),
            final(self).same_outside_scene(old(self)),
            r.is_ok() == (a < old(self).graphs().len() && is_node(
                old(self).graphs()[a as int],
                node.0 as int,
            )),
            r.is_err() ==> r == Err::<(), WorldError>(WorldError::NotFound),
            r.is_err() ==> final(self).graphs() == old(self).graphs(),
            r.is_ok() ==> final(self).graphs() == old(self).graphs().update(
                a as int,
                without_subtree(old(self).graphs()[a as int], node.0 as int),
            ),
    {
        if a >= self.graphs.len() {
            return Err(WorldError::NotFound);
        }
        let ghost before = self.graphs();
        proof {
            assert(before[a as int] == self.graphs[a as int]@);
        }
        match self.graphs[a].remove_node(node) {
            Ok(()) => {
                proof {
                    assert(self.graphs() =~= before.update(
                        a as int,
                        without_subtree(before[a as int], node.0 as int),
                    ));
                    lemma_scene_wf_cut(before, self.entities(), a as int, node.0 as int);
                }
                Ok(())
            },
            Err(failure) => {
                assert(self.graphs() =~= before);
                Err(failure)
            },
        }
    }

    /// Why the global matrix of an entity cannot be resolved, if it cannot:
    /// an entity that stands in no graph gives `NotFound`; otherwise the
    /// chain of its node decides.
    pub open spec fn entity_failure(&self, e: Entity) -> Option<WorldError> {
        if !in_scene(self.graphs(), e) {
            Some(WorldError::NotFound)
        } else {
            let (a, i) = choose|a: int, i: int| stands_at(self.graphs(), e, a, i);
            resolve_failure(self.entities(), self.graphs()[a], i)
        }
    }

    /// Holds where `m` was computed as the global matrix of the node that
    /// the entity stands in.
    pub open spec fn is_entity_matrix(&self, e: Entity, m: Mat4) -> bool {
        exists|a: int, i: int| #[trigger]
            stands_at(self.graphs(), e, a, i) && is_global_matrix(
                self.entities(),
                self.graphs()[a],
                i,
                m,
            )
    }

    /// Holds where `t` is what the global matrix of the entity was taken
    /// apart into.
    pub open spec fn is_entity_transform(&self, e: Entity, t: Transform) -> bool {
        exists|m: Mat4|
            self.is_entity_matrix(e, m) && #[trigger] is_decomposition_of(
                m,
                (t.translation, t.rotation, t.scale),
            )
    }

    /// Resolves the global matrix of a node of graph `a`. A graph that does
    /// not exist is refused with `NotFound`.
    pub fn global_transform(&self, a: usize, node: NodeIndex) -> (r: Result<Mat4, WorldError>)
        requires
            self.wf(),
        ensures
            a >= self.graphs().len() ==> r == Err::<Mat4, WorldError>(WorldError::NotFound),
            a < self.graphs().len() && r.is_err() ==> resolve_failure(
                self.entities(),
                self.graphs()[a as int],
                node.0 as int,
            ) == Some(r.unwrap_err()),
            a < self.graphs().len() && r.is_ok() ==> resolve_failure(
                self.entities(),
                self.graphs()[a as int],
                node.0 as int,
            ).is_none() && is_global_matrix(
                self.entities(),
                self.graphs()[a as int],
                node.0 as int,
                r.unwrap(),
            ),
    {
        if a >= self.graphs.len() {
            return Err(WorldError::NotFound);
        }
        assert(self.graphs()[a as int] == self.graphs[a as int]@);
        global_transform(&self.ecs, &self.graphs[a], node)
    }

    /// Resolves the global matrix of an entity: that of the node it stands
    /// in.
    pub fn entity_global_transform_matrix(&self, e: Entity) -> (r: Result<Mat4, WorldError>)
        requires
            self.wf(),
        ensures
            r.is_err() ==> self.entity_failure(e) == Some(r.unwrap_err()),
            r.is_ok() ==> self.entity_failure(e).is_none(),
            r.is_ok() ==> self.is_entity_matrix(e, r.unwrap()),
    {
        match self.locate(e) {
            Some((a, node)) => {
                proof {
                    let (b, j) = choose|b: int, j: int| stands_at(self.graphs(), e, b, j);
                    assert(stands_at(self.graphs(), e, a as int, node.0 as int));
                    assert(stands_at(self.graphs(), e, b, j));
                    assert(b == a && j == node.0);
                }
                self.global_transform(a, node)
            },
            None => Err(WorldError::NotFound),
        }
    }

    /// Resolves the global transform of an entity: its global matrix, taken
    /// apart into translation, rotation and scale.
    pub fn entity_global_transform(&self, e: Entity) -> (r: Result<Transform, WorldError>)
        requires
            self.wf(),
        ensures
            r.is_err() ==> self.entity_failure(e) == Some(r.unwrap_err()),
            r.is_ok() ==> self.entity_failure(e).is_none(),
            r.is_ok() ==> self.is_entity_transform(e, r.unwrap()),
    {
        match self.entity_global_transform_matrix(e) {
            Ok(m) => Ok(Transform::from_matrix(&m)),
            Err(failure) => Err(failure),
        }
    }
}

/// Growing one graph by a node for a live entity that stands in no other
/// graph keeps the scene well formed.
pub proof fn lemma_scene_wf_with(
    graphs: Seq<Seq<NodeView>>,
    entities: Map<Entity, Row>,
    a: int,
    grown: Seq<NodeView>,
    e: Entity,
)
    requires
        scene_wf(graphs, entities),
        0 <= a < graphs.len(),
        entities.contains_key(e),
        forest_wf(grown),
        forall|b: int, j: int| b != a ==> !stands_at(graphs, e, b, j),
        grown.len() >= graphs[a].len(),
        forall|j: int|
            is_node(grown, j) ==> (#[trigger] grown[j]).entity == e || (is_node(graphs[a], j)
                && graphs[a][j].entity == grown[j].entity),
    ensures
        scene_wf(graphs.update(a, grown), entities),
{
    let after = graphs.update(a, grown);
    assert forall|b: int| 0 <= b < after.len() implies forest_wf(#[trigger] after[b]) by {
        if b != a {
            assert(after[b] == graphs[b]);
        }
    }
    assert forall|x: Entity, b: int, j: int| #[trigger]
        stands_at(after, x, b, j) implies x == e && b == a || stands_at(graphs, x, b, j) by {
        if b != a {
            assert(after[b] == graphs[b]);
        }
    }
    assert forall|b: int, j: int| 0 <= b < after.len() && is_node(after[b], j) implies entities.contains_key(
        (#[trigger] after[b][j]).entity,
    ) by {
        assert(stands_at(after, after[b][j].entity, b, j));
        if !(after[b][j].entity == e) {
            assert(stands_at(graphs, after[b][j].entity, b, j));
        }
    }
    assert forall|x: Entity, b: int, j: int, c: int, k: int|
        #[trigger] stands_at(after, x, b, j) && #[trigger] stands_at(
            after,
            x,
            c,
            k,
        ) implies b == c && j == k by {
        if x == e {
            assert(b == a) by {
                if b != a {
                    assert(stands_at(graphs, x, b, j));
                }
            }
            assert(c == a) by {
                if c != a {
                    assert(stands_at(graphs, x, c, k));
                }
            }
            assert(is_node(grown, j) && is_node(grown, k));
        } else {
            assert(stands_at(graphs, x, b, j));
            assert(stands_at(graphs, x, c, k));
        }
    }
}

/// Moving an entity under another parent, by removing its node and adding
/// it again under the new parent, leaves every local transform as it was;
/// and the global matrix of the new node is the product of the new parent's
/// global matrix with the matrix of the entity's unchanged local transform.
pub proof fn law_reparenting_keeps_local_transforms(
    before: &World,
    cut: &World,
    after: &World,
    a: int,
    new_parent: int,
    e: Entity,
    m: Mat4,
)
    requires
        cut.same_outside_scene(before),
        after.same_outside_scene(cut),
        0 <= a < cut.graphs().len(),
        is_node(cut.graphs()[a], new_parent),
        after.graphs() == cut.graphs().update(a, with_child(cut.graphs()[a], new_parent, e)),
    ensures
        after.entities() == before.entities(),
        is_global_matrix(after.entities(), after.graphs()[a], cut.graphs()[a].len() as int, m)
            <==> exists|pm: Mat4, lm: Mat4|
            {
                &&& is_global_matrix(after.entities(), after.graphs()[a], new_parent, pm)
                &&& Transform::is_matrix_of(before.entities()[e].transform.unwrap(), lm)
                &&& #[trigger] is_product_of(pm, lm, m)
            },
{
    let g = after.graphs()[a];
    let n = cut.graphs()[a].len() as int;
    assert(g == with_child(cut.graphs()[a], new_parent, e));
    assert(is_node(g, n));
    assert(g[n].parent == Some(new_parent));
    assert(g[n].entity == e);
}

} // verus!
