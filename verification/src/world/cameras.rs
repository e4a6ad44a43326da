//! Looking at a world: the active camera, picking, and selection.

use vstd::prelude::*;
use crate::components::{Camera, PhysicsHandle, Projection, RigidBody, Row, Selected, Transform};
use crate::entity::Entity;
use crate::error::WorldError;
use crate::math::{is_scalar_quotient_of, Mat4, Scalar, Vec2};
use crate::picking::{MouseRayConfiguration, Viewport};
use crate::simulation::{is_ray_hit, sim_cast_ray, sim_collider_owner, ColliderHandle};
use crate::simulation::{CollisionGroups, Ray};
use crate::world::World;

verus! {

impl World {
    /// Whether the entity holds a `RigidBody` that names the body.
    pub open spec fn is_owner(&self, e: Entity, body: PhysicsHandle) -> bool {
        &&& self.entities().contains_key(e)
        &&& self.entities()[e].rigid_body.is_some()
        &&& self.entities()[e].rigid_body.unwrap().handle == body
    }

    /// Whether `picked` is the entity that a ray cast with the result `hit`
    /// selects: the owner of the body that the collider is attached to, and
    /// among several owners the one in the lowest slot; none where nothing
    /// was hit, where the collider is attached to no body, or where no
    /// entity owns that body.
    pub open spec fn is_picked(&self, hit: Option<ColliderHandle>, picked: Option<Entity>) -> bool {
        if hit.is_some() && self.colliders().contains_key(hit.unwrap()) {
            let body = self.colliders()[hit.unwrap()];
            match picked {
                Some(e) => self.is_owner(e, body) && forall|x: Entity| #[trigger]
                    self.is_owner(x, body) ==> e.index <= x.index,
                None => forall|x: Entity| !#[trigger] self.is_owner(x, body),
            }
        } else {
            picked.is_none()
        }
    }

    /// The entity that owns a body: among several owners the one in the
    /// lowest slot.
    pub fn owner_of(&self, body: PhysicsHandle) -> (owner: Option<Entity>)
        ensures
            match owner {
                Some(e) => self.is_owner(e, body) && forall|x: Entity| #[trigger]
                    self.is_owner(x, body) ==> e.index <= x.index,
                None => forall|x: Entity| !#[trigger] self.is_owner(x, body),
            },
    {
        let owners = self.ecs.query::<RigidBody>();
        let n: usize = owners.len();
        let mut k: usize = 0;
        while k < n
            invariant
                k <= n,
                n == owners.len(),
                forall|e: Entity| owners@.contains(e) <==> self.ecs.holds::<RigidBody>(e),
                forall|i: int, j: int|
                    0 <= i < j < owners.len() ==> (#[trigger] owners[i]).index < (
                    #[trigger] owners[j]).index,
                forall|j: int| 0 <= j < k ==> !self.is_owner(#[trigger] owners[j], body),
            decreases n - k,
        {
            let e = owners[k];
            assert(owners@.contains(e));
            match self.ecs.get::<RigidBody>(e) {
                Ok(held) => {
                    if held.handle == body {
                        assert forall|x: Entity| #[trigger] self.is_owner(x, body) implies e.index
                            <= x.index by {
                            assert(owners@.contains(x));
                            let j = choose|j: int| 0 <= j < owners@.len() && owners@[j] == x;
                            assert(owners[j] == x);
                            if j < k {
                                assert(!self.is_owner(owners[j], body));
                            } else if j > k {
                                assert(owners[k as int].index < owners[j].index);
                            }
                        }
                        return Some(e);
                    }
                },
                Err(_) => {},
            }
            k = k + 1;
        }
        assert forall|x: Entity| !#[trigger] self.is_owner(x, body) by {
            if self.is_owner(x, body) {
                assert(owners@.contains(x));
                let j = choose|j: int| 0 <= j < owners@.len() && owners@[j] == x;
                assert(owners[j] == x);
            }
        }
        None
    }

    /// Casts a ray against the colliders of the simulation that match the
    /// groups, no further than `max_distance`, and returns the entity that
    /// owns the body of the collider that the simulation reports as hit.
    pub fn pick_object(&self, ray: &Ray, max_distance: Scalar, groups: CollisionGroups) -> (picked:
        Option<Entity>)
        ensures
            exists|hit: Option<ColliderHandle>| #[trigger]
                is_ray_hit(self.simulation(), *ray, max_distance, groups, hit) && self.is_picked(
                    hit,
                    picked,
                ),
    {
        let hit = sim_cast_ray(&self.sim, ray, max_distance, groups);
        let picked = match hit {
            Some(c) => match sim_collider_owner(&self.sim, c) {
                Some(body) => self.owner_of(body),
                None => None,
            },
            None => None,
        };
        assert(is_ray_hit(self.simulation(), *ray, max_distance, groups, hit) && self.is_picked(
            hit,
            picked,
        ));
        picked
    }

    /// Whether the entity holds an enabled camera.
    pub open spec fn has_enabled_camera(&self, e: Entity) -> bool {
        &&& self.entities().contains_key(e)
        &&& self.entities()[e].camera.is_some()
        &&& self.entities()[e].camera.unwrap().enabled
    }

    /// The active camera: the entity with an enabled `Camera`, and among
    /// several the one in the lowest slot of the store. Where no camera is
    /// enabled, `NoActiveCamera`.
    pub fn active_camera(&self) -> (r: Result<Entity, WorldError>)
        ensures
            match r {
                Ok(e) => self.has_enabled_camera(e) && forall|x: Entity| #[trigger]
                    self.has_enabled_camera(x) ==> e.index <= x.index,
                Err(failure) => failure == WorldError::NoActiveCamera && forall|x: Entity|
                    !#[trigger] self.has_enabled_camera(x),
            },
    {
        let cameras = self.ecs.query::<Camera>();
        let n: usize = cameras.len();
        let mut k: usize = 0;
        while k < n
            invariant
                k <= n,
                n == cameras.len(),
                forall|e: Entity| cameras@.contains(e) <==> self.ecs.holds::<Camera>(e),
                forall|i: int, j: int|
                    0 <= i < j < cameras.len() ==> (#[trigger] cameras[i]).index < (
                    #[trigger] cameras[j]).index,
                forall|j: int| 0 <= j < k ==> !self.has_enabled_camera(#[trigger] cameras[j]),
            decreases n - k,
        {
            let e = cameras[k];
            assert(cameras@.contains(e));
            match self.ecs.get::<Camera>(e) {
                Ok(camera) => {
                    if camera.enabled {
                        assert forall|x: Entity| #[trigger]
                            self.has_enabled_camera(x) implies e.index <= x.index by {
                            assert(cameras@.contains(x));
                            let j = choose|j: int| 0 <= j < cameras@.len() && cameras@[j] == x;
                            assert(cameras[j] == x);
                            if j < k {
                                assert(!self.has_enabled_camera(cameras[j]));
                            } else if j > k {
                                assert(cameras[k as int].index < cameras[j].index);
                            }
                        }
                        return Ok(e);
                    }
                },
                Err(_) => {},
            }
            k = k + 1;
        }
        assert forall|x: Entity| !#[trigger] self.has_enabled_camera(x) by {
            if self.has_enabled_camera(x) {
                assert(cameras@.contains(x));
                let j = choose|j: int| 0 <= j < cameras@.len() && cameras@[j] == x;
                assert(cameras[j] == x);
            }
        }
        Err(WorldError::NoActiveCamera)
    }


    /// Whether the entity is the active camera: it holds an enabled camera,
    /// and no entity in a lower slot does.
    pub open spec fn is_active_camera(&self, e: Entity) -> bool {
        self.has_enabled_camera(e) && forall|x: Entity| #[trigger]
            self.has_enabled_camera(x) ==> e.index <= x.index
    }

    /// Why the matrices of the active camera cannot be computed, if they
    /// cannot: `NoActiveCamera` where no camera is enabled; otherwise what
    /// stands in the way of the global transform of the active camera.
    pub open spec fn camera_failure(&self) -> Option<WorldError> {
        if forall|x: Entity| !#[trigger] self.has_enabled_camera(x) {
            Some(WorldError::NoActiveCamera)
        } else {
            self.entity_failure(choose|e: Entity| self.is_active_camera(e))
        }
    }

    /// Holds where the two matrices were computed for the active camera:
    /// the projection from its `Camera` and the aspect ratio, the view from
    /// translation and rotation of its global transform.
    pub open spec fn are_camera_matrices(
        &self,
        aspect_ratio: Scalar,
        projection: Mat4,
        view: Mat4,
    ) -> bool {
        exists|e: Entity, t: Transform|
            {
                &&& self.is_active_camera(e)
                &&& #[trigger] self.is_entity_transform(e, t)
                &&& Projection::is_matrix_of(
                    self.entities()[e].camera.unwrap().projection,
                    aspect_ratio,
                    projection,
                )
                &&& Transform::is_view_of(t, view)
            }
    }

    /// The projection matrix and the view matrix of the active camera, in
    /// that order, for a viewport of the given aspect ratio.
    pub fn active_camera_matrices(&self, aspect_ratio: Scalar) -> (r: Result<
        (Mat4, Mat4),
        WorldError,
    >)
        requires
            self.wf(),
        ensures
            r.is_err() ==> self.camera_failure() == Some(r.unwrap_err()),
            r.is_ok() ==> self.camera_failure().is_none(),
            r.is_ok() ==> self.are_camera_matrices(aspect_ratio, r.unwrap().0, r.unwrap().1),
    {
        let e = match self.active_camera() {
            Ok(e) => e,
            Err(failure) => {
                return Err(failure);
            },
        };
        proof {
            assert(self.is_active_camera(e));
            let chosen = choose|x: Entity| self.is_active_camera(x);
            assert(self.has_enabled_camera(chosen) && self.has_enabled_camera(e));
            self.ecs.lemma_live_slots_differ(e, chosen);
        }
        let placed = match self.entity_global_transform(e) {
            Ok(t) => t,
            Err(failure) => {
                return Err(failure);
            },
        };
        let projection = match self.ecs.get::<Camera>(e) {
            Ok(camera) => camera.projection.matrix(aspect_ratio),
            Err(_) => {
                return Err(WorldError::NoActiveCamera);
            },
        };
        let view = placed.view_matrix();
        assert(self.is_entity_transform(e, placed));
        Ok((projection, view))
    }

    /// Puts together what it takes to turn a mouse position into a ray: the
    /// viewport, the mouse position, and the matrices of the active camera
    /// for the aspect ratio of the viewport.
    pub fn mouse_ray_configuration(&self, viewport: Viewport, mouse_position: Vec2) -> (r: Result<
        MouseRayConfiguration,
        WorldError,
    >)
        requires
            self.wf(),
        ensures
            r.is_err() ==> self.camera_failure() == Some(r.unwrap_err()),
            r.is_ok() ==> self.camera_failure().is_none(),
            r.is_ok() ==> r.unwrap().viewport == viewport && r.unwrap().mouse_position
                == mouse_position,
            r.is_ok() ==> exists|ratio: Scalar| #[trigger]
                is_scalar_quotient_of(viewport.width, viewport.height, ratio)
                    && self.are_camera_matrices(
                    ratio,
                    r.unwrap().projection_matrix,
                    r.unwrap().view_matrix,
                ),
    {
        let ratio = viewport.aspect_ratio();
        match self.active_camera_matrices(ratio) {
            Ok((projection_matrix, view_matrix)) => Ok(
                MouseRayConfiguration { viewport, projection_matrix, view_matrix, mouse_position },
            ),
            Err(failure) => Err(failure),
        }
    }

    /// The rows after the camera of entity `active` was disabled and entity
    /// `e` was given the camera `camera`, enabled.
    pub open spec fn with_camera_switched(
        rows: Map<Entity, Row>,
        active: Entity,
        e: Entity,
        camera: Camera,
    ) -> Map<Entity, Row> {
        let disabled = Camera { enabled: false, ..rows[active].camera.unwrap() };
        let dimmed = rows.insert(active, Row { camera: Some(disabled), ..rows[active] });
        dimmed.insert(e, Row { camera: Some(Camera { enabled: true, ..camera }), ..dimmed[e] })
    }

    /// Disables the active camera and gives a live entity the given camera,
    /// enabled. A handle that is not live is refused with `NotFound`, a
    /// world without an enabled camera with `NoActiveCamera`; nothing
    /// changes then.
    pub fn switch_camera(&mut self, e: Entity, camera: Camera) -> (r: Result<(), WorldError>)
        requires
            old(self).wf(),
        ensures
            final(self).wf(),
            final(self).spent() == old(self).spent(),
            final(self).same_outside_store(old(self)),
            r.is_err() ==> final(self).entities() == old(self).entities(),
            r.is_err() ==> r.unwrap_err() == if !old(self).entities().contains_key(e) {
                WorldError::NotFound
            } else {
                WorldError::NoActiveCamera
            },
            r.is_ok() <==> old(self).entities().contains_key(e) && exists|x: Entity| #[trigger]
                old(self).has_enabled_camera(x),
            r.is_ok() ==> exists|active: Entity| #[trigger]
                old(self).is_active_camera(active) && final(self).entities()
                    == Self::with_camera_switched(old(self).entities(), active, e, camera),
    {
        if !self.ecs.contains(e) {
            return Err(WorldError::NotFound);
        }
        let active = match self.active_camera() {
            Ok(active) => active,
            Err(failure) => {
                return Err(failure);
            },
        };
        assert(old(self).is_active_camera(active));
        match self.get_mut::<Camera>(active) {
            Ok(held) => {
                held.enabled = false;
            },
            Err(_) => {},
        }
        let _ = self.attach(e, Camera { enabled: true, ..camera });
        assert(self.entities() =~= Self::with_camera_switched(
            old(self).entities(),
            active,
            e,
            camera,
        ));
        Ok(())
    }

    /// Takes the `Selected` mark from every entity. Nothing else changes.
    pub fn deselect_all(&mut self)
        requires
            old(self).wf(),
        ensures
            final(self).wf(),
            final(self).spent() == old(self).spent(),
            final(self).same_outside_store(old(self)),
            final(self).entities().dom() == old(self).entities().dom(),
            forall|e: Entity| #[trigger]
                final(self).entities().contains_key(e) ==> final(self).entities()[e] == (Row {
                    selected: None,
                    ..old(self).entities()[e]
                }),
    {
        let marked = self.ecs.query::<Selected>();
        let n: usize = marked.len();
        let mut k: usize = 0;
        let ghost start = self.ecs@;
        while k < n
            invariant
                k <= n,
                n == marked.len(),
                self.ecs.wf(),
                self.ecs.spent() == old(self).spent(),
                self.graphs == old(self).graphs,
                self.names == old(self).names,
                self.current == old(self).current,
                self.geometry == old(self).geometry,
                self.sim == old(self).sim,
                start == old(self).entities(),
                self.ecs@.dom() == start.dom(),
                forall|e: Entity|
                    marked@.contains(e) <==> (start.contains_key(e) && start[e].selected.is_some()),
                forall|e: Entity| #[trigger]
                    start.contains_key(e) ==> self.ecs@[e] == start[e] || self.ecs@[e] == (Row {
                        selected: None,
                        ..start[e]
                    }),
                forall|j: int|
                    0 <= j < k ==> self.ecs@[#[trigger] marked[j]].selected.is_none(),
            decreases n - k,
        {
            let e = marked[k];
            assert(marked@.contains(e));
            let ghost seen = self.ecs@;
            let _ = self.ecs.detach::<Selected>(e);
            assert(self.ecs@.dom() =~= start.dom());
            assert forall|j: int| 0 <= j < k + 1 implies self.ecs@[#[trigger] marked[j]].selected.is_none() by {
                if marked[j] != e {
                    assert(self.ecs@[marked[j]] == seen[marked[j]]);
                }
            }
            k = k + 1;
        }
        proof {
            assert forall|e: Entity| #[trigger] self.entities().contains_key(e) implies self.entities()[e]
                == (Row { selected: None, ..old(self).entities()[e] }) by {
                if start[e].selected.is_some() {
                    assert(marked@.contains(e));
                    let j = choose|j: int| 0 <= j < marked@.len() && marked@[j] == e;
                    assert(marked[j] == e);
                }
            }
        }
    }

    /// Makes a live entity the only selected one. Where it is selected
    /// already, nothing changes (other marks stay too). A handle that is
    /// not live is refused with `NotFound`.
    pub fn select(&mut self, e: Entity) -> (r: Result<(), WorldError>)
        requires
            old(self).wf(),
        ensures
            final(self).wf(),
            final(self).spent() == old(self).spent(),
            final(self).same_outside_store(old(self)),
            final(self).entities().dom() == old(self).entities().dom(),
            r.is_ok() == old(self).entities().contains_key(e),
            r.is_err() ==> r == Err::<(), WorldError>(WorldError::NotFound),
            r.is_err() || old(self).holds::<Selected>(e) ==> final(self).entities() == old(
                self,
            ).entities(),
            r.is_ok() && !old(self).holds::<Selected>(e) ==> forall|x: Entity| #[trigger]
                final(self).entities().contains_key(x) ==> final(self).entities()[x] == (Row {
                    selected: if x == e {
                        Some(Selected)
                    } else {
                        None
                    },
                    ..old(self).entities()[x]
                }),
    {
        if !self.ecs.contains(e) {
            return Err(WorldError::NotFound);
        }
        if self.ecs.has::<Selected>(e) {
            return Ok(());
        }
        self.deselect_all();
        let ghost cleared = self.ecs@;
        let _ = self.ecs.attach(e, Selected);
        assert(self.ecs@.dom() =~= cleared.dom());
        Ok(())
    }
}

} // verus!
