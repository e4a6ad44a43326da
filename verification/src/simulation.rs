//! The rigid-body simulation, as the world sees it.
//!
//! The simulation itself is `rapier3d`'s `PhysicsWorld`. Every call into it
//! is made by one of the small functions of this file, whose contracts are
//! believed rather than proved. They speak of two maps that stand for what
//! the simulation holds: the pose of each body, and the body that each
//! attached collider belongs to. What a simulation step does to the poses,
//! and which collider a ray hits, is left to the simulation.

use vstd::prelude::*;
use vstd::float::FloatBitsProperties;
use crate::components::{BodyType, PhysicsHandle};
use crate::math::{Quat, Scalar, Vec3};
use rapier3d::dynamics::{RigidBodyBuilder, RigidBodyHandle, RigidBodyType};
use rapier3d::geometry::{ColliderBuilder, Group, InteractionGroups, InteractionTestMode};
use rapier3d::math::Vector;
use rapier3d::pipeline::{PhysicsWorld, QueryFilter};

verus! {

/// Declares `rapier3d`'s `PhysicsWorld`, which bundles the bodies, the
/// colliders and the pipelines of one simulation. Nothing is known of what
/// a value holds but what the functions of this file say.
#[verifier::external_type_specification]
#[verifier::external_body]
pub struct ExPhysicsWorld(PhysicsWorld);

/// Declares `rapier3d`'s `RigidBodyType` with its variants, so that the
/// type of a body can be chosen in verified code.
#[verifier::external_type_specification]
pub struct ExRigidBodyType(RigidBodyType);

/// Position and orientation of a body.
#[derive(Clone, Copy, Debug, PartialEq)]
pub struct Pose {
    pub translation: Vec3,
    pub rotation: Quat,
}

/// Identifies a collider of the simulation by slot and generation.
#[derive(Clone, Copy, Debug, PartialEq, Eq, Hash, Structural)]
pub struct ColliderHandle {
    pub index: u32,
    pub generation: u32,
}

/// The groups a collider belongs to and the groups it interacts with, one
/// bit per group. Two colliders interact where each one's memberships meet
/// the other's filter.
#[derive(Clone, Copy, Debug, PartialEq, Eq, Structural)]
pub struct CollisionGroups {
    pub memberships: u32,
    pub filter: u32,
}

impl CollisionGroups {
    /// The groups with the given membership and filter bits.
    pub fn new(memberships: u32, filter: u32) -> (g: CollisionGroups)
        ensures
            g == (CollisionGroups { memberships, filter }),
    {
        CollisionGroups { memberships, filter }
    }

    /// Member of every group, interacting with every group.
    pub fn all() -> (g: CollisionGroups)
        ensures
            g == (CollisionGroups { memberships: u32::MAX, filter: u32::MAX }),
    {
        CollisionGroups { memberships: u32::MAX, filter: u32::MAX }
    }
}

/// A half-line in world space.
#[derive(Clone, Copy, Debug, PartialEq)]
pub struct Ray {
    pub origin: Vec3,
    pub direction: Vec3,
}

/// Three positions of a mesh's vertex list that form a triangle.
#[derive(Clone, Copy, Debug, PartialEq, Eq, Structural)]
pub struct Triangle {
    pub a: u32,
    pub b: u32,
    pub c: u32,
}

/// The bodies of a simulation, each with its current pose.
pub uninterp spec fn body_poses(sim: PhysicsWorld) -> Map<PhysicsHandle, Pose>;

/// The colliders of a simulation that are attached to a body, each with
/// that body.
pub uninterp spec fn collider_owners(sim: PhysicsWorld) -> Map<
    ColliderHandle,
    PhysicsHandle,
>;

/// The gravity of a simulation.
pub uninterp spec fn gravity_of(sim: PhysicsWorld) -> Vec3;

/// Holds of a simulation without soft bodies, and so without the proxy
/// bodies that stand for their clusters.
pub uninterp spec fn rigid_only(sim: PhysicsWorld) -> bool;

/// The pose that a body of the simulation has after `RigidBody::set_position`
/// was called on it with the given pose. (The call keeps the stored pose
/// where it compares equal to the given one.)
pub uninterp spec fn pose_after_set(
    sim: PhysicsWorld,
    body: PhysicsHandle,
    pose: Pose,
) -> Pose;

/// Holds where `hit` is what `PhysicsWorld::cast_ray` returned for the ray,
/// the distance and the groups on this simulation: the collider it found, or
/// none.
pub uninterp spec fn is_ray_hit(
    sim: PhysicsWorld,
    ray: Ray,
    max_distance: Scalar,
    groups: CollisionGroups,
    hit: Option<ColliderHandle>,
) -> bool;

/// The bodies of an empty simulation.
pub open spec fn no_bodies() -> Map<PhysicsHandle, Pose> {
    Map::empty()
}

/// The attached colliders of an empty simulation.
pub open spec fn no_colliders() -> Map<ColliderHandle, PhysicsHandle> {
    Map::empty()
}

/// What stays as it was when only the poses of bodies may have changed.
pub open spec fn same_colliders_and_gravity(
    before: PhysicsWorld,
    after: PhysicsWorld,
) -> bool {
    &&& collider_owners(after) == collider_owners(before)
    &&& gravity_of(after) == gravity_of(before)
}

/// The dimensions that `rapier3d` accepts for a cylinder: neither has its
/// sign bit set.
pub open spec fn accepts_cylinder(half_height: Scalar, radius: Scalar) -> bool {
    !half_height.is_sign_negative_spec() && !radius.is_sign_negative_spec()
}

/// Whether every triangle names three positions of a list of `count`
/// vertices.
pub open spec fn triangles_within(triangles: Seq<Triangle>, count: nat) -> bool {
    forall|k: int|
        0 <= k < triangles.len() ==> {
            &&& (#[trigger] triangles[k]).a < count
            &&& triangles[k].b < count
            &&& triangles[k].c < count
        }
}

/// Calls `f32::is_sign_positive`, which std documents as true exactly where
/// the sign bit is clear.
#[verifier::external_body]
pub(crate) fn sign_positive(x: Scalar) -> (b: bool)
    ensures
        b == !x.is_sign_negative_spec(),
{
    x.is_sign_positive()
}

/// Calls `PhysicsWorld::new`: a simulation without bodies, colliders or
/// soft bodies.
#[verifier::external_body]
pub(crate) fn sim_new() -> (made: PhysicsWorld)
    ensures
        rigid_only(made),
        body_poses(made) == no_bodies(),
        collider_owners(made) == no_colliders(),
{
    PhysicsWorld::new()
}

/// How the simulation treats a body of a type: `Dynamic` bodies are
/// simulated; `Static` and `Fixed` bodies are both fixed in place.
pub open spec fn simulated_as(body_type: BodyType) -> RigidBodyType {
    match body_type {
        BodyType::Dynamic => RigidBodyType::Dynamic,
        BodyType::Static => RigidBodyType::Fixed,
        BodyType::Fixed => RigidBodyType::Fixed,
    }
}

/// Chooses how the simulation treats a body of a type.
pub fn simulated_type(body_type: BodyType) -> (kind: RigidBodyType)
    ensures
        kind == simulated_as(body_type),
{
    match body_type {
        BodyType::Dynamic => RigidBodyType::Dynamic,
        BodyType::Static => RigidBodyType::Fixed,
        BodyType::Fixed => RigidBodyType::Fixed,
    }
}

/// Builds a body with `RigidBodyBuilder::new(..).pose(..)` and adds it with
/// `PhysicsWorld::insert_body`. The handle that comes back named no body
/// before; the new body has exactly the given pose; nothing else changes.
#[verifier::external_body]
pub(crate) fn sim_insert_body(
    sim: &mut PhysicsWorld,
    kind: RigidBodyType,
    pose: Pose,
) -> (body: PhysicsHandle)
    requires
        rigid_only(*old(sim)),
    ensures
        rigid_only(*final(sim)),
        !body_poses(*old(sim)).contains_key(body),
        body_poses(*final(sim)) == body_poses(*old(sim)).insert(body, pose),
        same_colliders_and_gravity(*old(sim), *final(sim)),
{
    let (t, r) = (pose.translation, pose.rotation);
    let placed = rapier3d::math::Pose::from_parts(
        Vector::new(t.x, t.y, t.z),
        rapier3d::math::Rotation::from_xyzw(r.i, r.j, r.k, r.w),
    );
    let built = RigidBodyBuilder::new(kind).pose(placed);
    let (index, generation) = sim.insert_body(built).into_raw_parts();
    PhysicsHandle { index, generation }
}

/// Calls `PhysicsWorld::remove_body`, which removes the body together with
/// the colliders attached to it. Every other body and collider stays as it
/// was. A handle that names no body changes nothing.
#[verifier::external_body]
pub(crate) fn sim_remove_body(sim: &mut PhysicsWorld, body: PhysicsHandle)
    requires
        rigid_only(*old(sim)),
    ensures
        rigid_only(*final(sim)),
        body_poses(*final(sim)) == body_poses(*old(sim)).remove(body),
        forall|c: ColliderHandle|
            collider_owners(*final(sim)).contains_key(c) <==> (#[trigger] collider_owners(
                *old(sim),
            ).contains_key(c) && collider_owners(*old(sim))[c] != body),
        forall|c: ColliderHandle| #[trigger]
            collider_owners(*final(sim)).contains_key(c) ==> collider_owners(*final(sim))[c]
                == collider_owners(*old(sim))[c],
        gravity_of(*final(sim)) == gravity_of(*old(sim)),
{
    let handle = RigidBodyHandle::from_raw_parts(body.index, body.generation);
    let _ = sim.remove_body(handle);
}

/// Reads a body's pose with `RigidBodySet::get` and `RigidBody::position`.
#[verifier::external_body]
pub(crate) fn sim_body_pose(sim: &PhysicsWorld, body: PhysicsHandle) -> (pose:
    Option<Pose>)
    ensures
        pose.is_some() == body_poses(*sim).contains_key(body),
        pose.is_some() ==> pose.unwrap() == body_poses(*sim)[body],
{
    let handle = RigidBodyHandle::from_raw_parts(body.index, body.generation);
    let (t, r) = match sim.bodies.get(handle) {
        Some(found) => (found.position().translation, found.position().rotation),
        None => return None,
    };
    Some(
        Pose {
            translation: nalgebra_glm::vec3(t.x, t.y, t.z),
            rotation: nalgebra_glm::quat(r.x, r.y, r.z, r.w),
        },
    )
}

/// Calls `RigidBody::set_position` on a body of the simulation, waking it.
/// Only that body's pose changes. Setting the same pose once more would
/// leave what is stored now.
#[verifier::external_body]
pub(crate) fn sim_set_body_pose(
    sim: &mut PhysicsWorld,
    body: PhysicsHandle,
    pose: Pose,
)
    requires
        rigid_only(*old(sim)),
        body_poses(*old(sim)).contains_key(body),
    ensures
        rigid_only(*final(sim)),
        body_poses(*final(sim)) == body_poses(*old(sim)).insert(
            body,
            pose_after_set(*old(sim), body, pose),
        ),
        pose_after_set(*final(sim), body, pose) == pose_after_set(*old(sim), body, pose),
        same_colliders_and_gravity(*old(sim), *final(sim)),
{
    let (t, r) = (pose.translation, pose.rotation);
    let placed = rapier3d::math::Pose::from_parts(
        Vector::new(t.x, t.y, t.z),
        rapier3d::math::Rotation::from_xyzw(r.i, r.j, r.k, r.w),
    );
    let handle = RigidBodyHandle::from_raw_parts(body.index, body.generation);
    if let Some(found) = sim.bodies.get_mut(handle) {
        found.set_position(placed, true);
    }
}

/// Builds a cylinder with `ColliderBuilder::cylinder` and attaches it to a
/// body with `PhysicsWorld::insert_collider`. The handle that comes back
/// named no collider before; no pose changes.
#[verifier::external_body]
pub(crate) fn sim_insert_cylinder(
    sim: &mut PhysicsWorld,
    body: PhysicsHandle,
    half_height: Scalar,
    radius: Scalar,
    groups: CollisionGroups,
) -> (collider: ColliderHandle)
    requires
        rigid_only(*old(sim)),
        body_poses(*old(sim)).contains_key(body),
        accepts_cylinder(half_height, radius),
    ensures
        rigid_only(*final(sim)),
        !collider_owners(*old(sim)).contains_key(collider),
        collider_owners(*final(sim)) == collider_owners(*old(sim)).insert(collider, body),
        body_poses(*final(sim)) == body_poses(*old(sim)),
        gravity_of(*final(sim)) == gravity_of(*old(sim)),
{
    let handle = RigidBodyHandle::from_raw_parts(body.index, body.generation);
    let grouped = InteractionGroups::new(
        Group::from_bits_retain(groups.memberships),
        Group::from_bits_retain(groups.filter),
        InteractionTestMode::And,
    );
    let built = ColliderBuilder::cylinder(half_height, radius)
        .collision_groups(grouped);
    let (index, generation) = sim.insert_collider(built, Some(handle)).into_raw_parts();
    ColliderHandle { index, generation }
}

/// Builds a triangle mesh with `ColliderBuilder::trimesh` and attaches it to
/// a body with `PhysicsWorld::insert_collider`. A mesh without triangles is
/// refused by the builder: `None` comes back and nothing changes. Otherwise
/// the handle that comes back named no collider before; no pose changes.
#[verifier::external_body]
pub(crate) fn sim_insert_trimesh(
    sim: &mut PhysicsWorld,
    body: PhysicsHandle,
    points: &Vec<Vec3>,
    triangles: &Vec<Triangle>,
    groups: CollisionGroups,
) -> (collider: Option<ColliderHandle>)
    requires
        rigid_only(*old(sim)),
        body_poses(*old(sim)).contains_key(body),
        triangles_within(triangles@, points@.len()),
    ensures
        rigid_only(*final(sim)),
        collider.is_some() == (triangles@.len() > 0),
        collider.is_some() ==> !collider_owners(*old(sim)).contains_key(collider.unwrap()),
        collider_owners(*final(sim)) == match collider {
            Some(c) => collider_owners(*old(sim)).insert(c, body),
            None => collider_owners(*old(sim)),
        },
        body_poses(*final(sim)) == body_poses(*old(sim)),
        gravity_of(*final(sim)) == gravity_of(*old(sim)),
{
    let handle = RigidBodyHandle::from_raw_parts(body.index, body.generation);
    let vertices = points.iter().map(|p| Vector::new(p.x, p.y, p.z)).collect();
    let indices = triangles.iter().map(|t| [t.a, t.b, t.c]).collect();
    let grouped = InteractionGroups::new(
        Group::from_bits_retain(groups.memberships),
        Group::from_bits_retain(groups.filter),
        InteractionTestMode::And,
    );
    let built = ColliderBuilder::trimesh(vertices, indices).ok()?;
    let added = sim.insert_collider(built.collision_groups(grouped), Some(handle));
    let (index, generation) = added.into_raw_parts();
    Some(ColliderHandle { index, generation })
}

/// Reads the body a collider is attached to, with `ColliderSet::get` and
/// `Collider::parent`.
#[verifier::external_body]
pub(crate) fn sim_collider_owner(
    sim: &PhysicsWorld,
    collider: ColliderHandle,
) -> (owner: Option<PhysicsHandle>)
    ensures
        owner.is_some() == collider_owners(*sim).contains_key(collider),
        owner.is_some() ==> owner.unwrap() == collider_owners(*sim)[collider],
{
    let handle = rapier3d::geometry::ColliderHandle::from_raw_parts(
        collider.index,
        collider.generation,
    );
    let (index, generation) = sim.colliders.get(handle)?.parent()?.into_raw_parts();
    Some(PhysicsHandle { index, generation })
}

/// Calls `PhysicsWorld::cast_ray` with a solid ray and a filter on the
/// groups. The contract only records the call.
#[verifier::external_body]
pub(crate) fn sim_cast_ray(
    sim: &PhysicsWorld,
    ray: &Ray,
    max_distance: Scalar,
    groups: CollisionGroups,
) -> (hit: Option<ColliderHandle>)
    ensures
        is_ray_hit(*sim, *ray, max_distance, groups, hit),
{
    let (o, d) = (ray.origin, ray.direction);
    let cast = rapier3d::geometry::Ray::new(
        Vector::new(o.x, o.y, o.z),
        Vector::new(d.x, d.y, d.z),
    );
    let grouped = InteractionGroups::new(
        Group::from_bits_retain(groups.memberships),
        Group::from_bits_retain(groups.filter),
        InteractionTestMode::And,
    );
    let filter = QueryFilter::default().groups(grouped);
    let (index, generation) = sim.cast_ray(&cast, max_distance, true, filter)?.0.into_raw_parts();
    Some(ColliderHandle { index, generation })
}

/// Calls `RigidBody::apply_impulse` on a body of the simulation, waking it.
/// The call changes the body's velocity and nothing that this file speaks
/// of.
#[verifier::external_body]
pub(crate) fn sim_apply_impulse(sim: &mut PhysicsWorld, body: PhysicsHandle, impulse: &Vec3)
    requires
        rigid_only(*old(sim)),
    ensures
        rigid_only(*final(sim)),
        body_poses(*final(sim)) == body_poses(*old(sim)),
        same_colliders_and_gravity(*old(sim), *final(sim)),
{
    let handle = RigidBodyHandle::from_raw_parts(body.index, body.generation);
    if let Some(found) = sim.bodies.get_mut(handle) {
        found.apply_impulse(Vector::new(impulse.x, impulse.y, impulse.z), true);
    }
}

/// Calls `RigidBody::lock_rotations` on a body of the simulation, waking it.
/// The call keeps the body from turning in later steps and changes nothing
/// that this file speaks of.
#[verifier::external_body]
pub(crate) fn sim_lock_rotations(sim: &mut PhysicsWorld, body: PhysicsHandle)
    requires
        rigid_only(*old(sim)),
    ensures
        rigid_only(*final(sim)),
        body_poses(*final(sim)) == body_poses(*old(sim)),
        same_colliders_and_gravity(*old(sim), *final(sim)),
{
    let handle = RigidBodyHandle::from_raw_parts(body.index, body.generation);
    if let Some(found) = sim.bodies.get_mut(handle) {
        found.lock_rotations(true, true);
    }
}

/// Sets the length of a step and calls `PhysicsWorld::step`. A step adds and
/// removes nothing; what it does to the poses is left open.
#[verifier::external_body]
pub(crate) fn sim_step(sim: &mut PhysicsWorld, dt: Scalar)
    requires
        rigid_only(*old(sim)),
    ensures
        rigid_only(*final(sim)),
        body_poses(*final(sim)).dom() == body_poses(*old(sim)).dom(),
        same_colliders_and_gravity(*old(sim), *final(sim)),
{
    sim.integration_parameters.dt = dt;
    sim.step();
}

/// Writes the simulation's public `gravity` field.
#[verifier::external_body]
pub(crate) fn sim_set_gravity(sim: &mut PhysicsWorld, gravity: &Vec3)
    ensures
        rigid_only(*final(sim)) == rigid_only(*old(sim)),
        gravity_of(*final(sim)) == *gravity,
        body_poses(*final(sim)) == body_poses(*old(sim)),
        collider_owners(*final(sim)) == collider_owners(*old(sim)),
{
    sim.gravity = Vector::new(gravity.x, gravity.y, gravity.z);
}

/// Reads the simulation's public `gravity` field.
#[verifier::external_body]
pub(crate) fn sim_gravity(sim: &PhysicsWorld) -> (gravity: Vec3)
    ensures
        gravity == gravity_of(*sim),
{
    nalgebra_glm::vec3(sim.gravity.x, sim.gravity.y, sim.gravity.z)
}

} // verus!
