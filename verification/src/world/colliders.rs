//! Collision shapes for the bodies of a world.

use vstd::prelude::*;
use crate::components::{BodyType, MeshRender, PhysicsHandle, RigidBody, Row};
use crate::entity::Entity;
use crate::error::WorldError;
use crate::geometry::{Geometry, Mesh, Primitive};
use crate::math::{is_scaled_by, vec3_scale, Mat4, Scalar, Vec3};
use crate::resolver::{ancestor_chain, law_global_matrix_reads_chain_only};
use crate::scene_graph::forest_wf;
use crate::simulation::{accepts_cylinder, body_poses, collider_owners, gravity_of};
use crate::simulation::{rigid_only, sign_positive, sim_body_pose};
use crate::simulation::{sim_insert_cylinder, sim_insert_trimesh, ColliderHandle};
use crate::simulation::CollisionGroups;
use crate::world::{in_scene, stands_at, World};

verus! {

impl World {
    /// Why an entity cannot get a collider, if it cannot: a handle that is
    /// not live gives `NotFound`, an entity without a `RigidBody` gives
    /// `MissingComponent`.
    pub open spec fn collider_failure(&self, e: Entity) -> Option<WorldError> {
        if !self.entities().contains_key(e) {
            Some(WorldError::NotFound)
        } else if self.entities()[e].rigid_body.is_none() {
            Some(WorldError::MissingComponent)
        } else {
            None
        }
    }

    /// Whether only the colliders of a world differ from another's.
    pub open spec fn same_but_colliders(&self, other: &World) -> bool {
        &&& self.same_labels(other)
        &&& self.entities() == other.entities()
        &&& self.spent() == other.spent()
        &&& self.graphs() == other.graphs()
        &&& self.meshes() == other.meshes()
        &&& self.bodies() == other.bodies()
        &&& self.gravity() == other.gravity()
    }

    /// Attaches a cylinder of the given half height and radius to the body
    /// of an entity. The simulation accepts only dimensions without a sign
    /// bit; `try_add_cylinder_collider` tests that first.
    pub fn add_cylinder_collider(
        &mut self,
        e: Entity,
        half_height: Scalar,
        radius: Scalar,
        groups: CollisionGroups,
    ) -> (r: Result<(), WorldError>)
        requires
            old(self).wf(),
            accepts_cylinder(half_height, radius),
        ensures
            final(self).wf(),
            final(self).same_but_colliders(old(self)),
            r.is_err() ==> old(self).collider_failure(e) == Some(r.unwrap_err()),
            r.is_err() ==> final(self).colliders() == old(self).colliders(),
            r.is_ok() ==> old(self).collider_failure(e).is_none(),
            r.is_ok() ==> exists|c: ColliderHandle|
                !old(self).colliders().contains_key(c) && final(self).colliders() == #[trigger] old(
                    self,
                ).colliders().insert(c, old(self).entities()[e].rigid_body.unwrap().handle),
    {
        if !self.ecs.contains(e) {
            return Err(WorldError::NotFound);
        }
        let body = match self.ecs.get::<RigidBody>(e) {
            Ok(held) => held.handle,
            Err(_) => {
                return Err(WorldError::MissingComponent);
            },
        };
        if sim_body_pose(&self.sim, body).is_none() {
            return Err(WorldError::NotFound);
        }
        let c = sim_insert_cylinder(&mut self.sim, body, half_height, radius, groups);
        assert(self.colliders() == old(self).colliders().insert(c, body));
        Ok(())
    }

    /// Attaches a cylinder to the body of an entity where the simulation
    /// accepts its dimensions, and says whether it did: `Ok(false)` means
    /// that a dimension has its sign bit set and nothing was changed.
    pub fn try_add_cylinder_collider(
        &mut self,
        e: Entity,
        half_height: Scalar,
        radius: Scalar,
        groups: CollisionGroups,
    ) -> (r: Result<bool, WorldError>)
        requires
            old(self).wf(),
        ensures
            final(self).wf(),
            final(self).same_but_colliders(old(self)),
            r == Ok::<bool, WorldError>(false) <==> !accepts_cylinder(half_height, radius),
            r.is_err() ==> old(self).collider_failure(e) == Some(r.unwrap_err()),
            r.is_err() || r == Ok::<bool, WorldError>(false) ==> final(self).colliders() == old(
                self,
            ).colliders(),
            r == Ok::<bool, WorldError>(true) ==> old(self).collider_failure(e).is_none(),
            r == Ok::<bool, WorldError>(true) ==> exists|c: ColliderHandle|
                !old(self).colliders().contains_key(c) && final(self).colliders() == #[trigger] old(
                    self,
                ).colliders().insert(c, old(self).entities()[e].rigid_body.unwrap().handle),
    {
        if !(sign_positive(half_height) && sign_positive(radius)) {
            return Ok(false);
        }
        match self.add_cylinder_collider(e, half_height, radius, groups) {
            Ok(()) => Ok(true),
            Err(failure) => Err(failure),
        }
    }

    /// The colliders of a world after each of a list of new colliders was
    /// attached to a body.
    pub open spec fn attach_all(
        owners: Map<ColliderHandle, PhysicsHandle>,
        added: Seq<ColliderHandle>,
        body: PhysicsHandle,
    ) -> Map<ColliderHandle, PhysicsHandle>
        decreases added.len(),
    {
        if added.len() == 0 {
            owners
        } else {
            Self::attach_all(owners, added.drop_last(), body).insert(added.last(), body)
        }
    }

    /// The number of primitives that have at least one triangle.
    pub open spec fn solid_primitives(primitives: Seq<Primitive>) -> nat
        decreases primitives.len(),
    {
        if primitives.len() == 0 {
            0
        } else {
            Self::solid_primitives(primitives.drop_last()) + if primitives.last().triangles@.len()
                > 0 {
                1nat
            } else {
                0nat
            }
        }
    }

    /// The cached mesh that an entity's `MeshRender` names, if there is one.
    pub open spec fn mesh_of(&self, e: Entity) -> Option<Mesh> {
        let name = self.entities()[e].mesh_render.unwrap().name@;
        let at = Geometry::position_of(self.meshes(), name);
        if at >= 0 {
            Some(self.meshes()[at])
        } else {
            None
        }
    }

    /// Why an entity cannot get a triangle-mesh collider, if it cannot: a
    /// handle that is not live gives `NotFound`; an entity without a
    /// `MeshRender` or without a `RigidBody` gives `MissingComponent`; a
    /// mesh that is not cached, and a mesh with a triangle that names a
    /// vertex it does not have, give `NotFound`; otherwise what stands in
    /// the way of the entity's global transform decides.
    pub open spec fn trimesh_failure(&self, e: Entity) -> Option<WorldError> {
        if !self.entities().contains_key(e) {
            Some(WorldError::NotFound)
        } else if self.entities()[e].mesh_render.is_none() || self.entities()[e].rigid_body.is_none() {
            Some(WorldError::MissingComponent)
        } else if self.mesh_of(e).is_none() || !self.mesh_of(e).unwrap().closed() {
            Some(WorldError::NotFound)
        } else {
            self.entity_failure(e)
        }
    }

    /// Builds collision shapes from the mesh that the entity's `MeshRender`
    /// names, and attaches them to the entity's body: one triangle mesh for
    /// each primitive that has triangles, its vertices scaled by the
    /// entity's global scale.
    pub fn add_trimesh_collider(&mut self, e: Entity, groups: CollisionGroups) -> (r: Result<
        (),
        WorldError,
    >)
        requires
            old(self).wf(),
        ensures
            final(self).wf(),
            final(self).same_but_colliders(old(self)),
            r.is_err() ==> old(self).trimesh_failure(e) == Some(r.unwrap_err()),
            r.is_err() ==> final(self).colliders() == old(self).colliders(),
            r.is_ok() ==> old(self).trimesh_failure(e).is_none(),
            r.is_ok() ==> exists|added: Seq<ColliderHandle>|
                {
                    &&& added.len() == Self::solid_primitives(
                        old(self).mesh_of(e).unwrap().primitives@,
                    )
                    &&& added.no_duplicates()
                    &&& forall|k: int|
                        0 <= k < added.len() ==> !old(self).colliders().contains_key(
                            #[trigger] added[k],
                        )
                    &&& final(self).colliders() == #[trigger] Self::attach_all(
                        old(self).colliders(),
                        added,
                        old(self).entities()[e].rigid_body.unwrap().handle,
                    )
                },
    {
        if !self.ecs.contains(e) {
            return Err(WorldError::NotFound);
        }
        let render = match self.ecs.get::<MeshRender>(e) {
            Ok(render) => render,
            Err(_) => {
                return Err(WorldError::MissingComponent);
            },
        };
        let body = match self.ecs.get::<RigidBody>(e) {
            Ok(held) => held.handle,
            Err(_) => {
                return Err(WorldError::MissingComponent);
            },
        };
        if sim_body_pose(&self.sim, body).is_none() {
            return Err(WorldError::NotFound);
        }
        let mesh = match self.geometry.find(&render.name) {
            Some(mesh) => mesh,
            None => {
                return Err(WorldError::NotFound);
            },
        };
        if !mesh.is_closed() {
            return Err(WorldError::NotFound);
        }
        let scale = match self.entity_global_transform(e) {
            Ok(t) => t.scale,
            Err(failure) => {
                return Err(failure);
            },
        };
        let ghost owners = old(self).colliders();
        let ghost mut added: Seq<ColliderHandle> = Seq::empty();
        let n: usize = mesh.primitives.len();
        let mut k: usize = 0;
        assert(mesh.primitives@.take(0) =~= Seq::<Primitive>::empty());
        while k < n
            invariant
                k <= n,
                n == mesh.primitives.len(),
                mesh.closed(),
                rigid_only(self.sim),
                body_poses(self.sim) == old(self).bodies(),
                body_poses(self.sim).contains_key(body),
                gravity_of(self.sim) == old(self).gravity(),
                owners == old(self).colliders(),
                self.ecs == old(self).ecs,
                self.graphs == old(self).graphs,
                self.names == old(self).names,
                self.current == old(self).current,
                self.geometry == old(self).geometry,
                forall|j: int|
                    0 <= j < added.len() ==> collider_owners(self.sim).contains_key(
                        #[trigger] added[j],
                    ),
                forall|c: ColliderHandle| #[trigger]
                    owners.contains_key(c) ==> collider_owners(self.sim).contains_key(c),
                added.len() == Self::solid_primitives(mesh.primitives@.take(k as int)),
                added.no_duplicates(),
                forall|j: int| 0 <= j < added.len() ==> !owners.contains_key(#[trigger] added[j]),
                collider_owners(self.sim) == Self::attach_all(owners, added, body),
            decreases n - k,
        {
            let primitive = &mesh.primitives[k];
            let points = scaled_points(&primitive.positions, &scale);
            let made = sim_insert_trimesh(
                &mut self.sim,
                body,
                &points,
                &primitive.triangles,
                groups,
            );
            proof {
                assert(mesh.primitives@.take(k + 1).drop_last() =~= mesh.primitives@.take(k as int));
                assert(mesh.primitives@.take(k + 1).last() == mesh.primitives@[k as int]);
                match made {
                    Some(c) => {
                        let grown = added.push(c);
                        assert(!added.contains(c)) by {
                            if added.contains(c) {
                                let j = choose|j: int| 0 <= j < added.len() && added[j] == c;
                                assert(Self::attach_all(owners, added, body).contains_key(added[j]));
                            }
                        }
                        assert(grown.drop_last() =~= added);
                        assert(grown.last() == c);
                        added = grown;
                    },
                    None => {},
                }
            }
            k = k + 1;
        }
        assert(mesh.primitives@.take(n as int) =~= mesh.primitives@);
        Ok(())
    }

    /// Why an entity that holds a `MeshRender` cannot get a body with a
    /// collision shape of its mesh, if it cannot: what stands in the way of
    /// a body decides first; then a mesh that is not cached, or that has a
    /// triangle naming a vertex it does not have, gives `NotFound`.
    pub open spec fn solid_failure(&self, e: Entity) -> Option<WorldError> {
        if self.body_failure(e).is_some() {
            self.body_failure(e)
        } else if self.mesh_of(e).is_none() || !self.mesh_of(e).unwrap().closed() {
            Some(WorldError::NotFound)
        } else {
            None
        }
    }

    /// Whether a world differs from another only in the `RigidBody`
    /// components of its entities, and in the simulation.
    pub open spec fn same_but_bodies(&self, other: &World) -> bool {
        &&& self.same_labels(other)
        &&& self.spent() == other.spent()
        &&& self.graphs() == other.graphs()
        &&& self.meshes() == other.meshes()
        &&& self.gravity() == other.gravity()
        &&& self.entities().dom() == other.entities().dom()
        &&& forall|x: Entity| #[trigger]
            self.entities().contains_key(x) ==> self.entities()[x] == (Row {
                rigid_body: self.entities()[x].rigid_body,
                ..other.entities()[x]
            })
    }

    /// Whether an entity holds a `RigidBody` of the given type whose body is
    /// in the simulation.
    pub open spec fn has_body_of_type(&self, e: Entity, body_type: BodyType) -> bool {
        &&& self.entities().contains_key(e)
        &&& self.entities()[e].rigid_body.is_some()
        &&& self.entities()[e].rigid_body.unwrap().body_type == body_type
        &&& self.bodies().contains_key(self.entities()[e].rigid_body.unwrap().handle)
    }

    /// Gives every entity that holds a `MeshRender` a body of the given type
    /// and a collision shape built from its mesh, in ascending order of the
    /// entities' slots. The first entity for which that cannot be done stops
    /// the work and decides the failure; the entities before it keep what
    /// they were given.
    pub fn add_mesh_colliders(&mut self, body_type: BodyType, groups: CollisionGroups) -> (r:
        Result<(), WorldError>)
        requires
            old(self).wf(),
        ensures
            final(self).wf(),
            final(self).same_but_bodies(old(self)),
            r.is_ok() ==> forall|e: Entity| #[trigger]
                old(self).holds::<MeshRender>(e) ==> old(self).solid_failure(e).is_none()
                    && final(self).has_body_of_type(e, body_type),
            r.is_ok() ==> forall|e: Entity|
                final(self).entities().contains_key(e) && !old(self).holds::<MeshRender>(e)
                    ==> #[trigger] final(self).entities()[e] == old(self).entities()[e],
            r.is_err() ==> exists|e: Entity|
                {
                    &&& #[trigger] old(self).holds::<MeshRender>(e)
                    &&& old(self).solid_failure(e) == Some(r.unwrap_err())
                    &&& forall|x: Entity|
                        old(self).holds::<MeshRender>(x) && x.index < e.index ==> (
                        #[trigger] old(self).solid_failure(x)).is_none()
                },
    {
        let meshes = self.ecs.query::<MeshRender>();
        let n: usize = meshes.len();
        let mut k: usize = 0;
        while k < n
            invariant
                k <= n,
                n == meshes.len(),
                self.wf(),
                old(self).wf(),
                self.same_but_bodies(old(self)),
                forall|e: Entity| meshes@.contains(e) <==> old(self).holds::<MeshRender>(e),
                forall|i: int, j: int|
                    0 <= i < j < meshes.len() ==> (#[trigger] meshes[i]).index < (
                    #[trigger] meshes[j]).index,
                forall|j: int|
                    0 <= j < k ==> old(self).solid_failure(#[trigger] meshes[j]).is_none()
                        && self.has_body_of_type(meshes[j], body_type),
                forall|e: Entity|
                    self.entities().contains_key(e) && !(exists|j: int|
                        0 <= j < k && meshes[j] == e) ==> #[trigger] self.entities()[e] == old(
                        self,
                    ).entities()[e],
            decreases n - k,
        {
            let e = meshes[k];
            assert(meshes@.contains(e));
            assert(!(exists|j: int| 0 <= j < k && meshes[j] == e)) by {
                if exists|j: int| 0 <= j < k && meshes[j] == e {
                    let j = choose|j: int| 0 <= j < k && meshes[j] == e;
                    assert(meshes[j].index < meshes[k as int].index);
                }
            }
            let ghost here = *self;
            proof {
                lemma_failures_ignore_bodies(old(self), &here, e);
            }
            match self.add_rigid_body(e, body_type) {
                Ok(()) => {},
                Err(failure) => {
                    proof {
                        lemma_first_failure(old(self), meshes@, k as int, failure);
                    }
                    return Err(failure);
                },
            }
            let ghost bodied = *self;
            proof {
                assert(bodied.entities().dom() =~= here.entities().dom());
                assert forall|x: Entity| #[trigger]
                    bodied.entities().contains_key(x) implies bodied.entities()[x] == (Row {
                    rigid_body: bodied.entities()[x].rigid_body,
                    ..old(self).entities()[x]
                }) by {
                    assert(here.entities().contains_key(x));
                }
                assert(bodied.same_but_bodies(old(self)));
                lemma_failures_ignore_bodies(old(self), &bodied, e);
            }
            match self.add_trimesh_collider(e, groups) {
                Ok(()) => {},
                Err(failure) => {
                    proof {
                        lemma_first_failure(old(self), meshes@, k as int, failure);
                    }
                    return Err(failure);
                },
            }
            proof {
                assert forall|j: int| 0 <= j < k + 1 implies old(self).solid_failure(
                    #[trigger] meshes[j],
                ).is_none() && self.has_body_of_type(meshes[j], body_type) by {
                    if j < k {
                        assert(meshes[j].index < meshes[k as int].index);
                        assert(here.has_body_of_type(meshes[j], body_type));
                        assert(bodied.entities()[meshes[j]] == here.entities()[meshes[j]]);
                    }
                }
                assert forall|x: Entity|
                    self.entities().contains_key(x) && !(exists|j: int|
                        0 <= j < k + 1 && meshes[j] == x) implies #[trigger] self.entities()[x] == old(
                    self,
                ).entities()[x] by {
                    assert(x != e);
                    if exists|j: int| 0 <= j < k && meshes[j] == x {
                        let j = choose|j: int| 0 <= j < k && meshes[j] == x;
                        assert(0 <= j < k + 1 && meshes[j] == x);
                    }
                    assert(here.entities()[x] == old(self).entities()[x]);
                }
            }
            k = k + 1;
        }
        proof {
            assert forall|e: Entity| #[trigger] old(self).holds::<MeshRender>(e) implies old(
                self,
            ).solid_failure(e).is_none() && self.has_body_of_type(e, body_type) by {
                assert(meshes@.contains(e));
                let j = choose|j: int| 0 <= j < meshes@.len() && meshes@[j] == e;
                assert(meshes[j] == e);
            }
            assert forall|e: Entity|
                self.entities().contains_key(e) && !old(self).holds::<MeshRender>(
                    e,
                ) implies #[trigger] self.entities()[e] == old(self).entities()[e] by {
                if exists|j: int| 0 <= j < n && meshes[j] == e {
                    let j = choose|j: int| 0 <= j < n && meshes[j] == e;
                    assert(meshes@.contains(meshes@[j]));
                }
            }
        }
        Ok(())
    }
}

/// What stands in the way of a body, of a collider or of a global transform
/// does not depend on which bodies the entities of the world own, except
/// through the entity asked about.
pub proof fn lemma_failures_ignore_bodies(before: &World, after: &World, e: Entity)
    requires
        before.wf(),
        after.same_but_bodies(before),
    ensures
        after.entity_failure(e) == before.entity_failure(e),
        after.body_failure(e) == before.body_failure(e),
        after.entities().contains_key(e) ==> after.mesh_of(e) == before.mesh_of(e),
        after.entities().contains_key(e) ==> after.entities()[e].mesh_render
            == before.entities()[e].mesh_render,
        after.solid_failure(e) == before.solid_failure(e),
{
    before.lemma_wf_scene();
    if in_scene(before.graphs(), e) {
        let (a, i) = choose|a: int, i: int| stands_at(before.graphs(), e, a, i);
        let g = before.graphs()[a];
        assert(forest_wf(g));
        assert forall|k: int| 0 <= k < ancestor_chain(g, i).len() implies {
            let x = g[#[trigger] ancestor_chain(g, i)[k]].entity;
            &&& before.entities().contains_key(x) == after.entities().contains_key(x)
            &&& before.entities().contains_key(x) ==> before.entities()[x].transform
                == after.entities()[x].transform
        } by {
            let x = g[ancestor_chain(g, i)[k]].entity;
            if after.entities().contains_key(x) {
                assert(after.entities()[x] == (Row {
                    rigid_body: after.entities()[x].rigid_body,
                    ..before.entities()[x]
                }));
            }
        }
        let m = arbitrary::<Mat4>();
        law_global_matrix_reads_chain_only(before.entities(), after.entities(), g, i, m);
    }
    if after.entities().contains_key(e) {
        assert(after.entities()[e] == (Row {
            rigid_body: after.entities()[e].rigid_body,
            ..before.entities()[e]
        }));
    }
}

/// Among the holders of a `MeshRender`, listed in ascending order of their
/// slots, the one at position `k` is the first that fails if none before it
/// does.
proof fn lemma_first_failure(before: &World, meshes: Seq<Entity>, k: int, failure: WorldError)
    requires
        0 <= k < meshes.len(),
        forall|e: Entity| meshes.contains(e) <==> before.holds::<MeshRender>(e),
        forall|i: int, j: int|
            0 <= i < j < meshes.len() ==> (#[trigger] meshes[i]).index < (#[trigger] meshes[j]).index,
        forall|j: int| 0 <= j < k ==> before.solid_failure(#[trigger] meshes[j]).is_none(),
        before.solid_failure(meshes[k]) == Some(failure),
    ensures
        exists|e: Entity|
            {
                &&& #[trigger] before.holds::<MeshRender>(e)
                &&& before.solid_failure(e) == Some(failure)
                &&& forall|x: Entity|
                    before.holds::<MeshRender>(x) && x.index < e.index ==> (
                    #[trigger] before.solid_failure(x)).is_none()
            },
{
    let e = meshes[k];
    assert(meshes.contains(e));
    assert forall|x: Entity| before.holds::<MeshRender>(x) && x.index < e.index implies (
    #[trigger] before.solid_failure(x)).is_none() by {
        assert(meshes.contains(x));
        let j = choose|j: int| 0 <= j < meshes.len() && meshes[j] == x;
        if j > k {
            assert(meshes[k].index < meshes[j].index);
        }
    }
}

/// Scales every position of a list by per-axis factors.
fn scaled_points(positions: &Vec<Vec3>, factors: &Vec3) -> (scaled: Vec<Vec3>)
    ensures
        scaled@.len() == positions@.len(),
        forall|k: int|
            0 <= k < positions@.len() ==> is_scaled_by(positions@[k], *factors, #[trigger] scaled@[k]),
{
    let mut scaled: Vec<Vec3> = Vec::new();
    let n: usize = positions.len();
    let mut k: usize = 0;
    while k < n
        invariant
            k <= n,
            n == positions.len(),
            scaled@.len() == k,
            forall|j: int| 0 <= j < k ==> is_scaled_by(positions@[j], *factors, #[trigger] scaled@[j]),
        decreases n - k,
    {
        scaled.push(vec3_scale(&positions[k], factors));
        k = k + 1;
    }
    scaled
}

} // verus!
