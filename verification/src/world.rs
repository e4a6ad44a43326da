//! The world: the component store, the scene graphs over its entities, the
//! cached geometry and the rigid-body simulation, kept consistent with each
//! other.
//!
//! The parts are private. Every change goes through a method of the world,
//! which keeps these promises: every node of every graph stands for a live
//! entity; no entity stands in two nodes; every `RigidBody` names a body of
//! the simulation, and no two entities name the same one; and removing an
//! entity takes its node (with the subtree below it) and its body with it.

use vstd::prelude::*;
use crate::components::{Component, FreeComponent, PhysicsHandle, RigidBody, Row};
use crate::entity::Entity;
use crate::error::WorldError;
use crate::geometry::{Geometry, Mesh};
use crate::math::Vec3;
use crate::scene_graph::{forest_wf, has_entity, in_subtree, is_node, lemma_without_subtree_wf};
use crate::scene_graph::{without_subtree, NodeIndex, NodeView, SceneGraph};
use crate::simulation::{body_poses, collider_owners, gravity_of, rigid_only, sim_new};
use crate::simulation::{sim_remove_body, ColliderHandle, Pose};
use crate::store::Store;

pub mod bridge;
pub mod cameras;
pub mod colliders;
pub mod scene;

verus! {

/// Whether the entity stands in node `i` of graph `a`.
pub open spec fn stands_at(graphs: Seq<Seq<NodeView>>, e: Entity, a: int, i: int) -> bool {
    0 <= a < graphs.len() && is_node(graphs[a], i) && graphs[a][i].entity == e
}

/// Whether the entity stands in some node of some graph.
pub open spec fn in_scene(graphs: Seq<Seq<NodeView>>, e: Entity) -> bool {
    exists|a: int, i: int| stands_at(graphs, e, a, i)
}

/// What a world keeps true of its graphs: each is a well-formed forest,
/// every node stands for a live entity, and no entity stands in two nodes.
pub open spec fn scene_wf(graphs: Seq<Seq<NodeView>>, entities: Map<Entity, Row>) -> bool {
    &&& forall|a: int| 0 <= a < graphs.len() ==> forest_wf(#[trigger] graphs[a])
    &&& forall|a: int, i: int|
        0 <= a < graphs.len() && is_node(graphs[a], i) ==> entities.contains_key(
            (#[trigger] graphs[a][i]).entity,
        )
    &&& forall|e: Entity, a: int, i: int, b: int, j: int|
        #[trigger] stands_at(graphs, e, a, i) && #[trigger] stands_at(graphs, e, b, j) ==> a == b
            && i == j
}

/// What a world keeps true of its bodies: every `RigidBody` names a body of
/// the simulation, and no two entities name the same body.
pub open spec fn bodies_owned(entities: Map<Entity, Row>, bodies: Map<PhysicsHandle, Pose>) -> bool {
    &&& forall|e: Entity|
        entities.contains_key(e) && (#[trigger] entities[e]).rigid_body.is_some()
            ==> bodies.contains_key(entities[e].rigid_body.unwrap().handle)
    &&& forall|a: Entity, b: Entity|
        entities.contains_key(a) && entities.contains_key(b) && (
        #[trigger] entities[a]).rigid_body.is_some() && (#[trigger] entities[b]).rigid_body.is_some()
            && entities[a].rigid_body.unwrap().handle == entities[b].rigid_body.unwrap().handle
            ==> a == b
}

/// The runtime world.
pub struct World {
    ecs: Store,
    graphs: Vec<SceneGraph>,
    names: Vec<String>,
    current: usize,
    geometry: Geometry,
    sim: rapier3d::pipeline::PhysicsWorld,
}

impl World {
    /// The live entities and what each of them holds.
    pub closed spec fn entities(&self) -> Map<Entity, Row> {
        self.ecs@
    }

    /// The handles of removed entities.
    pub closed spec fn spent(&self) -> Set<Entity> {
        self.ecs.spent()
    }

    /// The scene graphs, each as its arena.
    pub closed spec fn graphs(&self) -> Seq<Seq<NodeView>> {
        self.graphs@.map_values(|g: SceneGraph| g@)
    }

    /// The names of the scene graphs, graph by graph.
    pub closed spec fn names(&self) -> Seq<Seq<char>> {
        self.names@.map_values(|name: String| name@)
    }

    /// The position of the current scene graph.
    pub closed spec fn current(&self) -> int {
        self.current as int
    }

    /// Whether names and choice of the scene graphs are as in another world.
    pub open spec fn same_labels(&self, other: &World) -> bool {
        self.names() == other.names() && self.current() == other.current()
    }

    /// The cached meshes.
    pub closed spec fn meshes(&self) -> Seq<Mesh> {
        self.geometry.meshes@
    }

    /// The simulated bodies, each with its pose.
    pub closed spec fn bodies(&self) -> Map<PhysicsHandle, Pose> {
        body_poses(self.sim)
    }

    /// The simulated colliders, each with the body it is attached to.
    pub closed spec fn colliders(&self) -> Map<ColliderHandle, PhysicsHandle> {
        collider_owners(self.sim)
    }

    /// The gravity of the simulation.
    pub closed spec fn gravity(&self) -> Vec3 {
        gravity_of(self.sim)
    }

    /// The simulation itself, for the few contracts that record a call into
    /// it.
    pub closed spec fn simulation(&self) -> rapier3d::pipeline::PhysicsWorld {
        self.sim
    }

    /// The world's invariant.
    pub closed spec fn wf(&self) -> bool {
        &&& self.ecs.wf()
        &&& rigid_only(self.sim)
        &&& scene_wf(self.graphs(), self.entities())
        &&& bodies_owned(self.entities(), self.bodies())
        &&& self.names.len() == self.graphs.len()
        &&& self.current < self.graphs.len()
    }

    /// What a well-formed world keeps true of its graphs and entities.
    pub proof fn lemma_wf_scene(&self)
        requires
            self.wf(),
        ensures
            scene_wf(self.graphs(), self.entities()),
            bodies_owned(self.entities(), self.bodies()),
            self.entities().dom().disjoint(self.spent()),
            self.names().len() == self.graphs().len(),
            0 <= self.current() < self.graphs().len(),
    {
        assert forall|e: Entity| !(self.entities().contains_key(e) && self.spent().contains(e)) by {
            self.ecs.lemma_live_not_spent(e);
        }
    }

    /// Whether everything but the store is as in another world.
    pub open spec fn same_outside_store(&self, other: &World) -> bool {
        &&& self.same_labels(other)
        &&& self.graphs() == other.graphs()
        &&& self.meshes() == other.meshes()
        &&& self.simulation() == other.simulation()
    }

    /// Whether store, geometry and simulation are as in another world.
    pub open spec fn same_outside_scene(&self, other: &World) -> bool {
        &&& self.same_labels(other)
        &&& self.entities() == other.entities()
        &&& self.spent() == other.spent()
        &&& self.meshes() == other.meshes()
        &&& self.simulation() == other.simulation()
    }

    /// The name of the graph that every world starts with.
    pub open spec fn main_name() -> Seq<char> {
        "main"@
    }

    /// A world without entities, meshes or bodies, with one empty graph
    /// named `main`, which is the current one.
    pub fn new() -> (w: World)
        ensures
            w.wf(),
            w.names() == seq![Self::main_name()],
            w.current() == 0,
            w.entities() == Map::<Entity, Row>::empty(),
            w.spent() == Set::<Entity>::empty(),
            w.graphs() == seq![Seq::<NodeView>::empty()],
            w.meshes().len() == 0,
            w.bodies() == Map::<PhysicsHandle, Pose>::empty(),
            w.colliders() == Map::<ColliderHandle, PhysicsHandle>::empty(),
    {
        let mut graphs: Vec<SceneGraph> = Vec::new();
        graphs.push(SceneGraph::new());
        let mut names: Vec<String> = Vec::new();
        names.push("main".to_owned());
        let w = World {
            ecs: Store::new(),
            graphs,
            names,
            current: 0,
            geometry: Geometry::new(),
            sim: sim_new(),
        };
        assert(w.graphs() =~= seq![Seq::<NodeView>::empty()]) by {
            assert(w.graphs()[0] =~= Seq::<NodeView>::empty());
        }
        assert(w.names() =~= seq![Self::main_name()]);
        w
    }

    /// The component store, for reading.
    pub fn store(&self) -> (s: &Store)
        ensures
            s@ == self.entities(),
            s.spent() == self.spent(),
    {
        &self.ecs
    }

    /// The number of scene graphs.
    pub fn graph_count(&self) -> (n: usize)
        ensures
            n == self.graphs().len(),
    {
        self.graphs.len()
    }

    /// A scene graph, for reading.
    pub fn graph(&self, a: usize) -> (g: Option<&SceneGraph>)
        ensures
            g.is_some() == (a < self.graphs().len()),
            g.is_some() ==> g.unwrap()@ == self.graphs()[a as int],
            g.is_some() && self.wf() ==> g.unwrap().wf(),
    {
        if a < self.graphs.len() {
            Some(&self.graphs[a])
        } else {
            None
        }
    }

    /// The cached geometry, for reading.
    pub fn geometry(&self) -> (g: &Geometry)
        ensures
            g.meshes@ == self.meshes(),
    {
        &self.geometry
    }

    /// Adds a mesh to the cached geometry.
    pub fn insert_mesh(&mut self, mesh: Mesh)
        requires
            old(self).wf(),
        ensures
            final(self).wf(),
            final(self).meshes() == old(self).meshes().push(mesh),
            final(self).same_labels(old(self)),
            final(self).entities() == old(self).entities(),
            final(self).spent() == old(self).spent(),
            final(self).graphs() == old(self).graphs(),
            final(self).simulation() == old(self).simulation(),
    {
        self.geometry.insert(mesh);
    }

    /// Where the entity stands in the scene: the graph and the node.
    pub fn locate(&self, e: Entity) -> (place: Option<(usize, NodeIndex)>)
        ensures
            place.is_some() == in_scene(self.graphs(), e),
            place.is_some() ==> stands_at(
                self.graphs(),
                e,
                place.unwrap().0 as int,
                place.unwrap().1.0 as int,
            ),
    {
        let n: usize = self.graphs.len();
        let mut a: usize = 0;
        while a < n
            invariant
                a <= n,
                n == self.graphs.len(),
                forall|b: int, i: int| 0 <= b < a ==> !stands_at(self.graphs(), e, b, i),
            decreases n - a,
        {
            match self.graphs[a].find_node(e) {
                Some(node) => {
                    assert(self.graphs()[a as int] == self.graphs[a as int]@);
                    assert(stands_at(self.graphs(), e, a as int, node.0 as int));
                    return Some((a, node));
                },
                None => {
                    assert forall|i: int| !stands_at(self.graphs(), e, a as int, i) by {
                        assert(self.graphs()[a as int] == self.graphs[a as int]@);
                        if stands_at(self.graphs(), e, a as int, i) {
                            assert(has_entity(self.graphs[a as int]@, e));
                        }
                    }
                },
            }
            a = a + 1;
        }
        None
    }

    /// Allocates a new entity that holds nothing and stands in no graph.
    pub fn create_entity(&mut self) -> (e: Entity)
        requires
            old(self).wf(),
        ensures
            final(self).wf(),
            !old(self).entities().contains_key(e),
            !old(self).spent().contains(e),
            final(self).entities() == old(self).entities().insert(e, Row::empty()),
            final(self).spent() == old(self).spent(),
            final(self).same_outside_store(old(self)),
    {
        self.ecs.create()
    }

    /// Attaches a component to a live entity, in place of the one of that
    /// kind it held, if any. A handle that is not live is refused with
    /// `NotFound`.
    pub fn attach<T: FreeComponent>(&mut self, e: Entity, value: T) -> (r: Result<(), WorldError>)
        requires
            old(self).wf(),
        ensures
            final(self).wf(),
            final(self).spent() == old(self).spent(),
            final(self).same_outside_store(old(self)),
            r.is_ok() == old(self).entities().contains_key(e),
            r.is_err() ==> r == Err::<(), WorldError>(WorldError::NotFound),
            r.is_err() ==> final(self).entities() == old(self).entities(),
            r.is_ok() ==> final(self).entities() == old(self).entities().insert(
                e,
                T::with_column(old(self).entities()[e], Some(value)),
            ),
    {
        proof {
            T::keeps_rigid_body();
        }
        self.ecs.attach(e, value)
    }

    /// Detaches the component of kind `T` from a live entity and hands it
    /// back, or `None` where the entity held none. A handle that is not live
    /// is refused with `NotFound`.
    pub fn detach<T: FreeComponent>(&mut self, e: Entity) -> (r: Result<Option<T>, WorldError>)
        requires
            old(self).wf(),
        ensures
            final(self).wf(),
            final(self).spent() == old(self).spent(),
            final(self).same_outside_store(old(self)),
            r.is_ok() == old(self).entities().contains_key(e),
            r.is_err() ==> r == Err::<Option<T>, WorldError>(WorldError::NotFound),
            r.is_err() ==> final(self).entities() == old(self).entities(),
            r.is_ok() ==> r == Ok::<Option<T>, WorldError>(T::column(old(self).entities()[e])),
            r.is_ok() ==> final(self).entities() == old(self).entities().insert(
                e,
                T::with_column(old(self).entities()[e], None),
            ),
    {
        proof {
            T::keeps_rigid_body();
        }
        self.ecs.detach(e)
    }

    /// Whether a live entity holds a component of kind `T`.
    pub open spec fn holds<T: Component>(&self, e: Entity) -> bool {
        self.entities().contains_key(e) && T::column(self.entities()[e]).is_some()
    }

    /// Whether the handle is live and the entity holds a component of kind
    /// `T`.
    pub fn has<T: Component>(&self, e: Entity) -> (held: bool)
        ensures
            held == self.holds::<T>(e),
    {
        self.ecs.has::<T>(e)
    }

    /// Whether the handle names a live entity.
    pub fn contains(&self, e: Entity) -> (live: bool)
        ensures
            live == self.entities().contains_key(e),
    {
        self.ecs.contains(e)
    }

    /// Borrows the component of kind `T` of a live entity. A handle that is
    /// not live, and an entity without such a component, give `NotFound`.
    pub fn get<T: Component>(&self, e: Entity) -> (r: Result<&T, WorldError>)
        ensures
            r.is_ok() == self.holds::<T>(e),
            r.is_err() ==> r == Err::<&T, WorldError>(WorldError::NotFound),
            r.is_ok() ==> T::column(self.entities()[e]) == Some(*r.unwrap()),
    {
        self.ecs.get::<T>(e)
    }

    /// Borrows the component of kind `T` of a live entity for writing. What
    /// the caller leaves behind the reference is what the entity then holds;
    /// nothing else changes.
    pub fn get_mut<T: FreeComponent>(&mut self, e: Entity) -> (r: Result<&mut T, WorldError>)
        requires
            old(self).wf(),
        ensures
            final(self).wf(),
            final(self).spent() == old(self).spent(),
            final(self).same_outside_store(old(self)),
            r.is_ok() == old(self).holds::<T>(e),
            r.is_err() ==> r == Err::<&mut T, WorldError>(WorldError::NotFound),
            r.is_err() ==> final(self).entities() == old(self).entities(),
            r.is_ok() ==> T::column(old(self).entities()[e]) == Some(*r.unwrap()),
            r.is_ok() ==> final(self).entities() == old(self).entities().insert(
                e,
                T::with_column(old(self).entities()[e], Some(*final(r.unwrap()))),
            ),
    {
        proof {
            T::keeps_rigid_body();
        }
        self.ecs.get_mut::<T>(e)
    }

    /// The live entities that hold a component of kind `T`, each once, in
    /// ascending order of their slots.
    pub fn query<T: Component>(&self) -> (found: Vec<Entity>)
        ensures
            forall|e: Entity| found@.contains(e) <==> self.holds::<T>(e),
            forall|i: int, j: int|
                0 <= i < j < found.len() ==> (#[trigger] found[i]).index < (#[trigger] found[j]).index,
    {
        self.ecs.query::<T>()
    }

    /// The live entities that hold both a component of kind `A` and one of
    /// kind `B`, each once, in ascending order of their slots.
    pub fn query2<A: Component, B: Component>(&self) -> (found: Vec<Entity>)
        ensures
            forall|e: Entity| found@.contains(e) <==> (self.holds::<A>(e) && self.holds::<B>(e)),
            forall|i: int, j: int|
                0 <= i < j < found.len() ==> (#[trigger] found[i]).index < (#[trigger] found[j]).index,
    {
        self.ecs.query2::<A, B>()
    }

    /// The bodies that are left when the body of a row, if it has one, is
    /// released.
    pub open spec fn bodies_without(
        bodies: Map<PhysicsHandle, Pose>,
        row: Row,
    ) -> Map<PhysicsHandle, Pose> {
        match row.rigid_body {
            Some(body) => bodies.remove(body.handle),
            None => bodies,
        }
    }

    /// Whether `after` holds the colliders of `before` but those attached to
    /// the body of a row, if the row has one.
    pub open spec fn colliders_released(
        before: Map<ColliderHandle, PhysicsHandle>,
        after: Map<ColliderHandle, PhysicsHandle>,
        row: Row,
    ) -> bool {
        match row.rigid_body {
            Some(body) => {
                &&& forall|c: ColliderHandle|
                    after.contains_key(c) <==> (#[trigger] before.contains_key(c) && before[c]
                        != body.handle)
                &&& forall|c: ColliderHandle| #[trigger]
                    after.contains_key(c) ==> after[c] == before[c]
            },
            None => after == before,
        }
    }

    /// Removes an entity with everything it holds. Its node leaves the scene
    /// together with the subtree below it (the entities of that subtree stay
    /// alive), and the body that its `RigidBody` names leaves the simulation
    /// together with its colliders. A handle that is not live is refused
    /// with `NotFound`, and nothing changes.
    pub fn remove_entity(&mut self, e: Entity) -> (r: Result<(), WorldError>)
        requires
            old(self).wf(),
        ensures
            final(self).wf(),
            r.is_ok() == old(self).entities().contains_key(e),
            r.is_err() ==> r == Err::<(), WorldError>(WorldError::NotFound),
            r.is_err() ==> *final(self) == *old(self),
            r.is_ok() ==> final(self).entities() == old(self).entities().remove(e),
            r.is_ok() ==> final(self).spent() == old(self).spent().insert(e),
            r.is_ok() ==> final(self).bodies() == Self::bodies_without(
                old(self).bodies(),
                old(self).entities()[e],
            ),
            r.is_ok() ==> Self::colliders_released(
                old(self).colliders(),
                final(self).colliders(),
                old(self).entities()[e],
            ),
            r.is_ok() ==> !in_scene(final(self).graphs(), e),
            r.is_ok() ==> forall|a: int, i: int|
                stands_at(old(self).graphs(), e, a, i) ==> final(self).graphs() == old(
                    self,
                ).graphs().update(a, without_subtree(old(self).graphs()[a], i)),
            r.is_ok() && !in_scene(old(self).graphs(), e) ==> final(self).graphs() == old(
                self,
            ).graphs(),
            final(self).meshes() == old(self).meshes(),
            final(self).same_labels(old(self)),
            final(self).gravity() == old(self).gravity(),
    {
        if !self.ecs.contains(e) {
            return Err(WorldError::NotFound);
        }
        match self.ecs.get::<RigidBody>(e) {
            Ok(body) => {
                let handle = body.handle;
                sim_remove_body(&mut self.sim, handle);
            },
            Err(_) => {},
        }
        let ghost before = old(self).graphs();
        match self.locate(e) {
            Some((a, node)) => {
                assert(self.graphs[a as int]@ == before[a as int]);
                let _ = self.graphs[a].remove_node(node);
                proof {
                    assert(self.graphs() =~= before.update(
                        a as int,
                        without_subtree(before[a as int], node.0 as int),
                    ));
                    lemma_scene_wf_without(before, old(self).entities(), e, a as int, node.0 as int);
                    assert forall|b: int, i: int|
                        stands_at(before, e, b, i) implies self.graphs() == before.update(
                        b,
                        without_subtree(before[b], i),
                    ) by {
                        assert(stands_at(before, e, a as int, node.0 as int));
                    }
                }
            },
            None => {
                proof {
                    lemma_scene_wf_forget(before, old(self).entities(), e);
                }
            },
        }
        let _ = self.ecs.remove(e);
        proof {
            let before = old(self).entities();
            assert forall|x: Entity|
                self.entities().contains_key(x) && (#[trigger] self.entities()[x]).rigid_body.is_some() implies self.bodies().contains_key(
                self.entities()[x].rigid_body.unwrap().handle,
            ) by {
                assert(before.contains_key(x) && before[x].rigid_body.is_some());
                assert(before.contains_key(e));
                if before[e].rigid_body.is_some() {
                    assert(before[x].rigid_body.unwrap().handle
                        != before[e].rigid_body.unwrap().handle);
                }
            }
        }
        Ok(())
    }

    /// Removes every entity, every node, every mesh, and every body and
    /// collider. Every handle that was live is spent afterwards. One empty
    /// graph named `main` is left, and is the current one.
    pub fn clear(&mut self)
        requires
            old(self).wf(),
        ensures
            final(self).wf(),
            final(self).entities() == Map::<Entity, Row>::empty(),
            final(self).spent() == old(self).spent().union(old(self).entities().dom()),
            final(self).graphs() == seq![Seq::<NodeView>::empty()],
            final(self).names() == seq![Self::main_name()],
            final(self).current() == 0,
            final(self).meshes().len() == 0,
            final(self).bodies() == Map::<PhysicsHandle, Pose>::empty(),
            final(self).colliders() == Map::<ColliderHandle, PhysicsHandle>::empty(),
    {
        self.ecs.clear();
        let mut graphs: Vec<SceneGraph> = Vec::new();
        graphs.push(SceneGraph::new());
        self.graphs = graphs;
        let mut names: Vec<String> = Vec::new();
        names.push("main".to_owned());
        self.names = names;
        self.current = 0;
        assert(self.names() =~= seq![Self::main_name()]);
        self.geometry = Geometry::new();
        self.sim = sim_new();
        assert(self.graphs() =~= seq![Seq::<NodeView>::empty()]) by {
            assert(self.graphs()[0] =~= Seq::<NodeView>::empty());
        }
    }
}

/// In a well-formed scene no entity stands in two nodes, in one graph or
/// across graphs; every node stands for a live entity; and the parent of
/// every node is a node of the same graph.
pub proof fn law_scene_has_no_duplicates_no_dangling(
    graphs: Seq<Seq<NodeView>>,
    entities: Map<Entity, Row>,
)
    requires
        scene_wf(graphs, entities),
    ensures
        forall|e: Entity, a: int, i: int, b: int, j: int|
            #[trigger] stands_at(graphs, e, a, i) && #[trigger] stands_at(graphs, e, b, j) ==> a == b
                && i == j,
        forall|a: int, i: int|
            0 <= a < graphs.len() && is_node(graphs[a], i) ==> entities.contains_key(
                (#[trigger] graphs[a][i]).entity,
            ),
        forall|a: int, i: int|
            0 <= a < graphs.len() && is_node(graphs[a], i) && (#[trigger] graphs[a][i]).parent.is_some()
                ==> is_node(graphs[a], graphs[a][i].parent.unwrap()),
{
    assert forall|a: int, i: int|
        0 <= a < graphs.len() && is_node(graphs[a], i) && (
        #[trigger] graphs[a][i]).parent.is_some() implies is_node(
        graphs[a],
        graphs[a][i].parent.unwrap(),
    ) by {
        assert(forest_wf(graphs[a]));
    }
}

/// Cutting a subtree out of one graph keeps the scene well formed.
pub proof fn lemma_scene_wf_cut(
    graphs: Seq<Seq<NodeView>>,
    entities: Map<Entity, Row>,
    a: int,
    i: int,
)
    requires
        scene_wf(graphs, entities),
        0 <= a < graphs.len(),
        is_node(graphs[a], i),
    ensures
        scene_wf(graphs.update(a, without_subtree(graphs[a], i)), entities),
        forall|e: Entity, b: int, j: int| #[trigger]
            stands_at(graphs.update(a, without_subtree(graphs[a], i)), e, b, j) ==> stands_at(
                graphs,
                e,
                b,
                j,
            ) && !(b == a && in_subtree(graphs[a], i, j)),
{
    let after = graphs.update(a, without_subtree(graphs[a], i));
    lemma_without_subtree_wf(graphs[a], i);
    assert forall|e: Entity, b: int, j: int| #[trigger] stands_at(after, e, b, j) implies stands_at(
        graphs,
        e,
        b,
        j,
    ) && !(b == a && in_subtree(graphs[a], i, j)) by {
        if b == a {
            assert(after[a] == without_subtree(graphs[a], i));
        } else {
            assert(after[b] == graphs[b]);
        }
    }
    assert forall|b: int| 0 <= b < after.len() implies forest_wf(#[trigger] after[b]) by {
        if b != a {
            assert(after[b] == graphs[b]);
        }
    }
    assert forall|b: int, j: int| 0 <= b < after.len() && is_node(after[b], j) implies entities.contains_key(
        (#[trigger] after[b][j]).entity,
    ) by {
        assert(stands_at(after, after[b][j].entity, b, j));
        assert(graphs[b][j].entity == after[b][j].entity);
    }
}

/// Removing an entity together with the subtree of its node keeps the scene
/// well formed, and the entity stands nowhere afterwards.
pub proof fn lemma_scene_wf_without(
    graphs: Seq<Seq<NodeView>>,
    entities: Map<Entity, Row>,
    e: Entity,
    a: int,
    i: int,
)
    requires
        scene_wf(graphs, entities),
        stands_at(graphs, e, a, i),
    ensures
        scene_wf(graphs.update(a, without_subtree(graphs[a], i)), entities.remove(e)),
        !in_scene(graphs.update(a, without_subtree(graphs[a], i)), e),
{
    let after = graphs.update(a, without_subtree(graphs[a], i));
    lemma_scene_wf_cut(graphs, entities, a, i);
    assert forall|b: int, j: int| !stands_at(after, e, b, j) by {
        if stands_at(after, e, b, j) {
            assert(stands_at(graphs, e, b, j));
            assert(in_subtree(graphs[a], i, i));
        }
    }
    assert forall|b: int, j: int| 0 <= b < after.len() && is_node(after[b], j) implies entities.remove(
        e,
    ).contains_key((#[trigger] after[b][j]).entity) by {
        assert(stands_at(after, after[b][j].entity, b, j));
    }
}

/// Removing an entity that stands nowhere keeps the scene well formed.
pub proof fn lemma_scene_wf_forget(graphs: Seq<Seq<NodeView>>, entities: Map<Entity, Row>, e: Entity)
    requires
        scene_wf(graphs, entities),
        !in_scene(graphs, e),
    ensures
        scene_wf(graphs, entities.remove(e)),
{
    assert forall|b: int, j: int| 0 <= b < graphs.len() && is_node(graphs[b], j) implies entities.remove(
        e,
    ).contains_key((#[trigger] graphs[b][j]).entity) by {
        assert(stands_at(graphs, graphs[b][j].entity, b, j));
    }
}

} // verus!
