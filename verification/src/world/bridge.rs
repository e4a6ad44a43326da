//! The physics bridge of a world: bodies for entities, and poses carried
//! between transforms and bodies in both directions.

use vstd::prelude::*;
use crate::components::{BodyType, PhysicsHandle, RigidBody, Row, Transform};
use crate::entity::Entity;
use crate::error::WorldError;
use crate::math::{Scalar, Vec3};
use crate::simulation::{pose_after_set, rigid_only, sim_apply_impulse, sim_body_pose};
use crate::simulation::{sim_gravity, sim_insert_body, sim_lock_rotations, sim_remove_body};
use crate::simulation::{sim_set_body_pose, sim_set_gravity, sim_step, simulated_type, Pose};
use crate::world::World;

verus! {

impl World {
    /// Why an entity cannot get a body, if it cannot: a handle that is not
    /// live gives `NotFound`, an entity without a `Transform` gives
    /// `MissingComponent`, and otherwise what stands in the way of its
    /// global transform decides.
    pub open spec fn body_failure(&self, e: Entity) -> Option<WorldError> {
        if !self.entities().contains_key(e) {
            Some(WorldError::NotFound)
        } else if self.entities()[e].transform.is_none() {
            Some(WorldError::MissingComponent)
        } else {
            self.entity_failure(e)
        }
    }

    /// Gives an entity a body of the simulation, placed at the entity's
    /// global translation and rotation, and a `RigidBody` component that
    /// names it. A body that the entity had before is released first,
    /// together with its colliders.
    pub fn add_rigid_body(&mut self, e: Entity, body_type: BodyType) -> (r: Result<(), WorldError>)
        requires
            old(self).wf(),
        ensures
            final(self).wf(),
            final(self).spent() == old(self).spent(),
            final(self).graphs() == old(self).graphs(),
            final(self).meshes() == old(self).meshes(),
            final(self).same_labels(old(self)),
            final(self).gravity() == old(self).gravity(),
            r.is_err() ==> old(self).body_failure(e) == Some(r.unwrap_err()),
            r.is_err() ==> *final(self) == *old(self),
            r.is_ok() ==> old(self).body_failure(e).is_none(),
            r.is_ok() ==> ({
                let row = old(self).entities()[e];
                let body = final(self).entities()[e].rigid_body;
                let kept = Self::bodies_without(old(self).bodies(), row);
                &&& body.is_some()
                &&& body.unwrap().body_type == body_type
                &&& final(self).entities() == old(self).entities().insert(
                    e,
                    Row { rigid_body: body, ..row },
                )
                &&& Self::colliders_released(old(self).colliders(), final(self).colliders(), row)
                &&& !kept.contains_key(body.unwrap().handle)
                &&& final(self).bodies().contains_key(body.unwrap().handle)
                &&& final(self).bodies() == kept.insert(
                    body.unwrap().handle,
                    final(self).bodies()[body.unwrap().handle],
                )
                &&& exists|t: Transform| #[trigger]
                    old(self).is_entity_transform(e, t) && final(self).bodies()[body.unwrap().handle]
                        == (Pose { translation: t.translation, rotation: t.rotation })
            }),
    {
        if !self.ecs.contains(e) {
            return Err(WorldError::NotFound);
        }
        if !self.ecs.has::<Transform>(e) {
            return Err(WorldError::MissingComponent);
        }
        let placed = match self.entity_global_transform(e) {
            Ok(t) => t,
            Err(failure) => {
                return Err(failure);
            },
        };
        match self.ecs.get::<RigidBody>(e) {
            Ok(held) => {
                let handle = held.handle;
                sim_remove_body(&mut self.sim, handle);
            },
            Err(_) => {},
        }
        let pose = Pose { translation: placed.translation, rotation: placed.rotation };
        let handle = sim_insert_body(&mut self.sim, simulated_type(body_type), pose);
        let _ = self.ecs.attach(e, RigidBody { handle, body_type });
        proof {
            let row = old(self).entities()[e];
            let body = Some(RigidBody { handle, body_type });
            assert(self.entities()[e] == (Row { rigid_body: body, ..row }));
            assert(self.bodies()[handle] == pose);
            assert(old(self).is_entity_transform(e, placed));
            let before = old(self).entities();
            let kept = Self::bodies_without(old(self).bodies(), row);
            assert forall|x: Entity| x != e && before.contains_key(x) && (
            #[trigger] before[x]).rigid_body.is_some() implies kept.contains_key(
                before[x].rigid_body.unwrap().handle,
            ) by {
                assert(before.contains_key(e));
                if before[e].rigid_body.is_some() {
                    assert(before[x].rigid_body.unwrap().handle
                        != before[e].rigid_body.unwrap().handle);
                }
            }
            assert forall|x: Entity|
                self.entities().contains_key(x) && (#[trigger] self.entities()[x]).rigid_body.is_some() implies self.bodies().contains_key(
                self.entities()[x].rigid_body.unwrap().handle,
            ) by {
                if x != e {
                    assert(before[x] == self.entities()[x]);
                }
            }
            assert forall|a: Entity, b: Entity|
                self.entities().contains_key(a) && self.entities().contains_key(b) && (
                #[trigger] self.entities()[a]).rigid_body.is_some() && (
                #[trigger] self.entities()[b]).rigid_body.is_some()
                    && self.entities()[a].rigid_body.unwrap().handle
                    == self.entities()[b].rigid_body.unwrap().handle implies a == b by {
                if a != e {
                    assert(before[a] == self.entities()[a]);
                }
                if b != e {
                    assert(before[b] == self.entities()[b]);
                }
            }
        }
        Ok(())
    }

    /// Takes the `RigidBody` from an entity and releases the body it names,
    /// together with the colliders attached to that body. A handle that is
    /// not live is refused with `NotFound`, an entity without a `RigidBody`
    /// with `MissingComponent`.
    pub fn remove_rigid_body(&mut self, e: Entity) -> (r: Result<(), WorldError>)
        requires
            old(self).wf(),
        ensures
            final(self).wf(),
            final(self).spent() == old(self).spent(),
            final(self).graphs() == old(self).graphs(),
            final(self).meshes() == old(self).meshes(),
            final(self).same_labels(old(self)),
            final(self).gravity() == old(self).gravity(),
            r.is_err() ==> old(self).collider_failure(e) == Some(r.unwrap_err()),
            r.is_err() ==> *final(self) == *old(self),
            r.is_ok() ==> old(self).collider_failure(e).is_none(),
            r.is_ok() ==> final(self).entities() == old(self).entities().insert(
                e,
                Row { rigid_body: None, ..old(self).entities()[e] },
            ),
            r.is_ok() ==> final(self).bodies() == old(self).bodies().remove(
                old(self).entities()[e].rigid_body.unwrap().handle,
            ),
            r.is_ok() ==> Self::colliders_released(
                old(self).colliders(),
                final(self).colliders(),
                old(self).entities()[e],
            ),
    {
        if !self.ecs.contains(e) {
            return Err(WorldError::NotFound);
        }
        if !self.ecs.has::<RigidBody>(e) {
            return Err(WorldError::MissingComponent);
        }
        let body = match self.ecs.detach::<RigidBody>(e) {
            Ok(Some(held)) => held.handle,
            _ => {
                return Err(WorldError::MissingComponent);
            },
        };
        sim_remove_body(&mut self.sim, body);
        proof {
            let before = old(self).entities();
            assert(body == before[e].rigid_body.unwrap().handle);
            assert(Self::colliders_released(
                old(self).colliders(),
                self.colliders(),
                old(self).entities()[e],
            ));
            assert forall|x: Entity|
                self.entities().contains_key(x) && (#[trigger] self.entities()[x]).rigid_body.is_some() implies self.bodies().contains_key(
                self.entities()[x].rigid_body.unwrap().handle,
            ) by {
                assert(x != e);
                assert(before[x] == self.entities()[x]);
                assert(before.contains_key(e) && before.contains_key(x));
            }
            assert forall|a: Entity, b: Entity|
                self.entities().contains_key(a) && self.entities().contains_key(b) && (
                #[trigger] self.entities()[a]).rigid_body.is_some() && (
                #[trigger] self.entities()[b]).rigid_body.is_some()
                    && self.entities()[a].rigid_body.unwrap().handle
                    == self.entities()[b].rigid_body.unwrap().handle implies a == b by {
                assert(before[a] == self.entities()[a]);
                assert(before[b] == self.entities()[b]);
            }
        }
        Ok(())
    }

    /// Why poses cannot be carried between an entity and its body, if they
    /// cannot: a handle that is not live gives `NotFound`; an entity without
    /// a `RigidBody` or without a `Transform` gives `MissingComponent`.
    pub open spec fn sync_failure(&self, e: Entity) -> Option<WorldError> {
        if !self.entities().contains_key(e) {
            Some(WorldError::NotFound)
        } else if self.entities()[e].rigid_body.is_none() || self.entities()[e].transform.is_none() {
            Some(WorldError::MissingComponent)
        } else {
            None
        }
    }

    /// The pose that an entity's local transform asks of its body.
    pub open spec fn wanted_pose(&self, e: Entity) -> Pose {
        Pose {
            translation: self.entities()[e].transform.unwrap().translation,
            rotation: self.entities()[e].transform.unwrap().rotation,
        }
    }

    /// What pushing the transform of `e` into its body makes of a world: the
    /// simulation was told to set the body's pose to translation and
    /// rotation of the entity's `Transform`, and nothing else changed.
    pub open spec fn pushed(before: &World, after: &World, e: Entity) -> bool {
        let body = before.entities()[e].rigid_body.unwrap().handle;
        &&& after.entities() == before.entities()
        &&& after.spent() == before.spent()
        &&& after.graphs() == before.graphs()
        &&& after.meshes() == before.meshes()
        &&& after.colliders() == before.colliders()
        &&& after.gravity() == before.gravity()
        &&& after.bodies() == before.bodies().insert(
            body,
            pose_after_set(before.simulation(), body, before.wanted_pose(e)),
        )
        &&& pose_after_set(after.simulation(), body, before.wanted_pose(e)) == pose_after_set(
            before.simulation(),
            body,
            before.wanted_pose(e),
        )
    }

    /// Pushes the entity's `Transform` into the pose of its body: the body
    /// is set to the transform's translation and rotation.
    pub fn sync_rigid_body_to_transform(&mut self, e: Entity) -> (r: Result<(), WorldError>)
        requires
            old(self).wf(),
        ensures
            final(self).wf(),
            r.is_err() ==> old(self).sync_failure(e) == Some(r.unwrap_err()),
            r.is_err() ==> *final(self) == *old(self),
            r.is_ok() ==> old(self).sync_failure(e).is_none(),
            r.is_ok() ==> Self::pushed(old(self), final(self), e),
    {
        if !self.ecs.contains(e) {
            return Err(WorldError::NotFound);
        }
        let body = match self.ecs.get::<RigidBody>(e) {
            Ok(held) => held.handle,
            Err(_) => {
                return Err(WorldError::MissingComponent);
            },
        };
        let pose = match self.ecs.get::<Transform>(e) {
            Ok(t) => Pose { translation: t.translation, rotation: t.rotation },
            Err(_) => {
                return Err(WorldError::MissingComponent);
            },
        };
        if sim_body_pose(&self.sim, body).is_none() {
            return Err(WorldError::NotFound);
        }
        sim_set_body_pose(&mut self.sim, body, pose);
        Ok(())
    }

    /// The row of an entity after the pose of a body was written into its
    /// `Transform`: translation and rotation are the body's, the scale and
    /// every other component stay.
    pub open spec fn pulled_row(row: Row, pose: Pose) -> Row {
        Row {
            transform: Some(
                Transform {
                    translation: pose.translation,
                    rotation: pose.rotation,
                    scale: row.transform.unwrap().scale,
                },
            ),
            ..row
        }
    }

    /// Pulls the pose of the entity's body back into its `Transform`:
    /// translation and rotation become the body's, the scale stays.
    pub fn sync_transform_to_rigid_body(&mut self, e: Entity) -> (r: Result<(), WorldError>)
        requires
            old(self).wf(),
        ensures
            final(self).wf(),
            final(self).spent() == old(self).spent(),
            final(self).same_outside_store(old(self)),
            r.is_err() ==> old(self).sync_failure(e) == Some(r.unwrap_err()),
            r.is_err() ==> final(self).entities() == old(self).entities(),
            r.is_ok() ==> old(self).sync_failure(e).is_none(),
            r.is_ok() ==> final(self).entities() == old(self).entities().insert(
                e,
                Self::pulled_row(
                    old(self).entities()[e],
                    old(self).bodies()[old(self).entities()[e].rigid_body.unwrap().handle],
                ),
            ),
    {
        if !self.ecs.contains(e) {
            return Err(WorldError::NotFound);
        }
        let body = match self.ecs.get::<RigidBody>(e) {
            Ok(held) => held.handle,
            Err(_) => {
                return Err(WorldError::MissingComponent);
            },
        };
        if !self.ecs.has::<Transform>(e) {
            return Err(WorldError::MissingComponent);
        }
        let pose = match sim_body_pose(&self.sim, body) {
            Some(pose) => pose,
            None => {
                return Err(WorldError::NotFound);
            },
        };
        match self.ecs.get_mut::<Transform>(e) {
            Ok(t) => {
                t.translation = pose.translation;
                t.rotation = pose.rotation;
            },
            Err(_) => {},
        }
        Ok(())
    }

    /// Whether the model of a world is that of another: entities, scene,
    /// geometry, poses, colliders and gravity.
    pub open spec fn same_model(&self, other: &World) -> bool {
        &&& self.same_labels(other)
        &&& self.entities() == other.entities()
        &&& self.spent() == other.spent()
        &&& self.graphs() == other.graphs()
        &&& self.meshes() == other.meshes()
        &&& self.bodies() == other.bodies()
        &&& self.colliders() == other.colliders()
        &&& self.gravity() == other.gravity()
    }

    /// Applies an impulse to the body of an entity, at its centre of mass.
    /// The simulation changes the body's velocity at once; poses change only
    /// with the next step.
    pub fn apply_impulse(&mut self, e: Entity, impulse: &Vec3) -> (r: Result<(), WorldError>)
        requires
            old(self).wf(),
        ensures
            final(self).wf(),
            final(self).same_model(old(self)),
            r.is_err() ==> old(self).collider_failure(e) == Some(r.unwrap_err()),
            r.is_err() ==> *final(self) == *old(self),
            r.is_ok() ==> old(self).collider_failure(e).is_none(),
    {
        if !self.ecs.contains(e) {
            return Err(WorldError::NotFound);
        }
        let body = match self.ecs.get::<RigidBody>(e) {
            Ok(held) => held.handle,
            Err(_) => {
                return Err(WorldError::MissingComponent);
            },
        };
        sim_apply_impulse(&mut self.sim, body, impulse);
        Ok(())
    }

    /// Keeps the body of an entity from turning in later steps.
    pub fn lock_rotations(&mut self, e: Entity) -> (r: Result<(), WorldError>)
        requires
            old(self).wf(),
        ensures
            final(self).wf(),
            final(self).same_model(old(self)),
            r.is_err() ==> old(self).collider_failure(e) == Some(r.unwrap_err()),
            r.is_err() ==> *final(self) == *old(self),
            r.is_ok() ==> old(self).collider_failure(e).is_none(),
    {
        if !self.ecs.contains(e) {
            return Err(WorldError::NotFound);
        }
        let body = match self.ecs.get::<RigidBody>(e) {
            Ok(held) => held.handle,
            Err(_) => {
                return Err(WorldError::MissingComponent);
            },
        };
        sim_lock_rotations(&mut self.sim, body);
        Ok(())
    }

    /// Sets the gravity of the simulation.
    pub fn set_gravity(&mut self, gravity: &Vec3)
        requires
            old(self).wf(),
        ensures
            final(self).wf(),
            final(self).gravity() == *gravity,
            final(self).entities() == old(self).entities(),
            final(self).spent() == old(self).spent(),
            final(self).graphs() == old(self).graphs(),
            final(self).meshes() == old(self).meshes(),
            final(self).same_labels(old(self)),
            final(self).bodies() == old(self).bodies(),
            final(self).colliders() == old(self).colliders(),
    {
        sim_set_gravity(&mut self.sim, gravity);
    }

    /// The gravity of the simulation.
    pub fn current_gravity(&self) -> (g: Vec3)
        ensures
            g == self.gravity(),
    {
        sim_gravity(&self.sim)
    }

    /// The pose of a body of the simulation, if the handle names one.
    pub fn body_pose(&self, body: PhysicsHandle) -> (pose: Option<Pose>)
        ensures
            pose.is_some() == self.bodies().contains_key(body),
            pose.is_some() ==> pose.unwrap() == self.bodies()[body],
    {
        sim_body_pose(&self.sim, body)
    }

    /// Whether a step of the simulation writes the pose of an entity's body
    /// back into its `Transform`: the entity holds a `Transform` and a
    /// `RigidBody` of the `Dynamic` type whose body is in the simulation.
    pub open spec fn follows_body(row: Row, bodies: Map<PhysicsHandle, Pose>) -> bool {
        &&& row.transform.is_some()
        &&& row.rigid_body.is_some()
        &&& row.rigid_body.unwrap().body_type == BodyType::Dynamic
        &&& bodies.contains_key(row.rigid_body.unwrap().handle)
    }

    /// The row of an entity after a step of the simulation that left the
    /// bodies with the given poses.
    pub open spec fn row_after_step(row: Row, bodies: Map<PhysicsHandle, Pose>) -> Row {
        if Self::follows_body(row, bodies) {
            Self::pulled_row(row, bodies[row.rigid_body.unwrap().handle])
        } else {
            row
        }
    }

    /// Advances the simulation by one step of length `dt`, then pulls the
    /// pose of every `Dynamic` body back into the `Transform` of the entity
    /// that owns it. The transforms of all other entities stay as they were.
    pub fn tick(&mut self, dt: Scalar)
        requires
            old(self).wf(),
        ensures
            final(self).wf(),
            final(self).spent() == old(self).spent(),
            final(self).graphs() == old(self).graphs(),
            final(self).meshes() == old(self).meshes(),
            final(self).same_labels(old(self)),
            final(self).colliders() == old(self).colliders(),
            final(self).gravity() == old(self).gravity(),
            final(self).bodies().dom() == old(self).bodies().dom(),
            final(self).entities().dom() == old(self).entities().dom(),
            forall|e: Entity| #[trigger]
                final(self).entities().contains_key(e) ==> final(self).entities()[e]
                    == Self::row_after_step(old(self).entities()[e], final(self).bodies()),
    {
        sim_step(&mut self.sim, dt);
        let moved = self.ecs.query2::<RigidBody, Transform>();
        let n: usize = moved.len();
        let mut k: usize = 0;
        let ghost start = self.ecs@;
        let ghost stepped = *self;
        let ghost bodies = self.bodies();
        while k < n
            invariant
                k <= n,
                n == moved.len(),
                self.wf(),
                self.spent() == old(self).spent(),
                self.same_outside_store(&stepped),
                stepped.bodies() == bodies,
                start == old(self).entities(),
                self.entities().dom() == start.dom(),
                forall|e: Entity|
                    moved@.contains(e) <==> (start.contains_key(e) && start[e].rigid_body.is_some()
                        && start[e].transform.is_some()),
                forall|i: int, j: int|
                    0 <= i < j < moved.len() ==> (#[trigger] moved[i]).index < (
                    #[trigger] moved[j]).index,
                forall|e: Entity| #[trigger]
                    start.contains_key(e) ==> self.entities()[e] == if exists|j: int|
                        0 <= j < k && moved[j] == e {
                        Self::row_after_step(start[e], bodies)
                    } else {
                        start[e]
                    },
            decreases n - k,
        {
            let e = moved[k];
            assert(moved@.contains(e));
            assert(!(exists|j: int| 0 <= j < k && moved[j] == e)) by {
                if exists|j: int| 0 <= j < k && moved[j] == e {
                    let j = choose|j: int| 0 <= j < k && moved[j] == e;
                    assert(moved[j].index < moved[k as int].index);
                }
            }
            assert(self.entities()[e] == start[e]);
            let ghost seen = self.entities();
            let dynamic = match self.ecs.get::<RigidBody>(e) {
                Ok(held) => held.body_type == BodyType::Dynamic,
                Err(_) => false,
            };
            if dynamic {
                let _ = self.sync_transform_to_rigid_body(e);
                assert(self.entities().dom() =~= start.dom());
            }
            assert(self.entities()[e] == Self::row_after_step(start[e], bodies));
            assert forall|x: Entity| #[trigger] start.contains_key(x) implies self.entities()[x] == if exists|
                j: int,
            | 0 <= j < k + 1 && moved[j] == x {
                Self::row_after_step(start[x], bodies)
            } else {
                start[x]
            } by {
                if x == e {
                    assert(moved[k as int] == x);
                } else {
                    assert(self.entities()[x] == seen[x]);
                    if exists|j: int| 0 <= j < k + 1 && moved[j] == x {
                        let j = choose|j: int| 0 <= j < k + 1 && moved[j] == x;
                        assert(j < k);
                    }
                }
            }
            k = k + 1;
        }
        proof {
            assert forall|e: Entity| #[trigger] self.entities().contains_key(e) implies self.entities()[e]
                == Self::row_after_step(old(self).entities()[e], self.bodies()) by {
                if start[e].rigid_body.is_some() && start[e].transform.is_some() {
                    assert(moved@.contains(e));
                    let j = choose|j: int| 0 <= j < moved@.len() && moved@[j] == e;
                    assert(moved[j] == e);
                } else {
                    if exists|j: int| 0 <= j < n && moved[j] == e {
                        let j = choose|j: int| 0 <= j < n && moved[j] == e;
                        assert(moved@.contains(moved@[j]));
                    }
                }
            }
        }
    }
}

/// Pushing the transform of an entity into its body twice in a row leaves
/// the poses of the bodies after the second push as they were after the
/// first.
pub proof fn law_push_twice_is_push_once(w0: &World, w1: &World, w2: &World, e: Entity)
    requires
        w0.sync_failure(e).is_none(),
        World::pushed(w0, w1, e),
        World::pushed(w1, w2, e),
    ensures
        w1.sync_failure(e).is_none(),
        w2.bodies() == w1.bodies(),
        w2.entities() == w1.entities(),
{
    let body = w0.entities()[e].rigid_body.unwrap().handle;
    assert(w1.wanted_pose(e) == w0.wanted_pose(e));
    assert(w2.bodies() =~= w1.bodies());
}

/// Once an entity is removed, the body it owned is no longer in the
/// simulation, and every later attempt to carry poses between the entity and
/// a body, or to give it a body or a collider, is refused with `NotFound`.
pub proof fn law_removed_entity_is_released(before: &World, after: &World, e: Entity)
    requires
        before.entities().contains_key(e),
        after.entities() == before.entities().remove(e),
        after.bodies() == World::bodies_without(before.bodies(), before.entities()[e]),
    ensures
        before.entities()[e].rigid_body.is_some() ==> !after.bodies().contains_key(
            before.entities()[e].rigid_body.unwrap().handle,
        ),
        after.sync_failure(e) == Some(WorldError::NotFound),
        after.body_failure(e) == Some(WorldError::NotFound),
        after.collider_failure(e) == Some(WorldError::NotFound),
        after.trimesh_failure(e) == Some(WorldError::NotFound),
{
}

} // verus!
