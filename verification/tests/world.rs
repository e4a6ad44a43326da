use dragonglass_world::components::{BodyType, Camera, MeshRender, Name, PerspectiveCamera};
use dragonglass_world::components::{PhysicsHandle, Projection, RigidBody, Selected, Transform};
use dragonglass_world::entity::Entity;
use dragonglass_world::error::WorldError;
use dragonglass_world::geometry::{Mesh, Primitive};
use dragonglass_world::scene_graph::NodeIndex;
use dragonglass_world::simulation::{CollisionGroups, Ray, Triangle};
use dragonglass_world::world::World;
use nalgebra_glm as glm;

fn transform_at(x: f32, y: f32, z: f32) -> Transform {
    Transform::new(glm::vec3(x, y, z), glm::quat_identity(), glm::vec3(1.0, 1.0, 1.0))
}

fn camera(name: &str, enabled: bool) -> Camera {
    Camera {
        name: name.to_string(),
        projection: Projection::Perspective(PerspectiveCamera {
            aspect_ratio: None,
            y_fov_rad: 1.2,
            z_far: Some(1000.0),
            z_near: 0.1,
        }),
        enabled,
    }
}

/// An entity with a transform, standing as a root of graph 0.
fn spawn(world: &mut World, x: f32, y: f32, z: f32) -> Entity {
    let e = world.create_entity();
    world.attach(e, transform_at(x, y, z)).unwrap();
    world.add_node(0, e).unwrap();
    e
}

fn body_of(world: &World, e: Entity) -> PhysicsHandle {
    world.get::<RigidBody>(e).unwrap().handle
}

fn down_the_z_axis() -> Ray {
    Ray { origin: glm::vec3(0.0, 0.0, 10.0), direction: glm::vec3(0.0, 0.0, -1.0) }
}

#[test]
fn new_world_has_one_empty_graph() {
    let world = World::new();
    assert_eq!(world.graph_count(), 1);
    assert_eq!(world.graph(0).unwrap().slot_count(), 0);
    assert!(world.graph(1).is_none());
    assert_eq!(world.query::<Transform>(), Vec::<Entity>::new());
    assert_eq!(world.geometry().meshes.len(), 0);
    assert_eq!(world.active_camera(), Err(WorldError::NoActiveCamera));
}

#[test]
fn picking_finds_the_body_within_reach() {
    let mut world = World::new();
    let e = spawn(&mut world, 0.0, 0.0, 0.0);
    assert_eq!(world.add_rigid_body(e, BodyType::Static), Ok(()));
    assert_eq!(world.try_add_cylinder_collider(e, 1.0, 1.0, CollisionGroups::all()), Ok(true));
    world.tick(0.016);
    assert_eq!(world.pick_object(&down_the_z_axis(), 100.0, CollisionGroups::all()), Some(e));
    assert_eq!(world.pick_object(&down_the_z_axis(), 5.0, CollisionGroups::all()), None);
    assert_eq!(world.pick_object(&down_the_z_axis(), 9.5, CollisionGroups::all()), Some(e));
    assert_eq!(world.pick_object(&down_the_z_axis(), 8.5, CollisionGroups::all()), None);
}

#[test]
fn picking_returns_the_nearest_of_two() {
    let mut world = World::new();
    let far = spawn(&mut world, 0.0, 0.0, -5.0);
    let near = spawn(&mut world, 0.0, 0.0, 3.0);
    for e in [far, near] {
        world.add_rigid_body(e, BodyType::Static).unwrap();
        world.try_add_cylinder_collider(e, 1.0, 1.0, CollisionGroups::all()).unwrap();
    }
    world.tick(0.016);
    assert_eq!(world.pick_object(&down_the_z_axis(), 100.0, CollisionGroups::all()), Some(near));
    world.remove_entity(near).unwrap();
    world.tick(0.016);
    assert_eq!(world.pick_object(&down_the_z_axis(), 100.0, CollisionGroups::all()), Some(far));
}

#[test]
fn picking_respects_collision_groups() {
    let mut world = World::new();
    let e = spawn(&mut world, 0.0, 0.0, 0.0);
    world.add_rigid_body(e, BodyType::Static).unwrap();
    let level = CollisionGroups::new(0b01, 0b10);
    world.try_add_cylinder_collider(e, 1.0, 1.0, level).unwrap();
    world.tick(0.016);
    let player = CollisionGroups::new(0b10, 0b01);
    let other = CollisionGroups::new(0b100, 0b100);
    assert_eq!(world.pick_object(&down_the_z_axis(), 100.0, player), Some(e));
    assert_eq!(world.pick_object(&down_the_z_axis(), 100.0, other), None);
}

#[test]
fn first_enabled_camera_in_store_order_is_active() {
    let mut world = World::new();
    let a = world.create_entity();
    let b = world.create_entity();
    let c = world.create_entity();
    world.attach(a, camera("disabled", false)).unwrap();
    assert_eq!(world.active_camera(), Err(WorldError::NoActiveCamera));
    world.attach(c, camera("late", true)).unwrap();
    world.attach(b, camera("early", true)).unwrap();
    assert_eq!(world.active_camera(), Ok(b));
    assert_eq!(world.active_camera(), Ok(b));
    world.get_mut::<Camera>(b).unwrap().enabled = false;
    assert_eq!(world.active_camera(), Ok(c));
    world.get_mut::<Camera>(a).unwrap().enabled = true;
    assert_eq!(world.active_camera(), Ok(a));
    world.remove_entity(a).unwrap();
    world.remove_entity(c).unwrap();
    assert_eq!(world.active_camera(), Err(WorldError::NoActiveCamera));
}

#[test]
fn add_rigid_body_needs_a_transform_in_the_scene() {
    let mut world = World::new();
    let stale = Entity::from_raw_parts(3, 0);
    assert_eq!(world.add_rigid_body(stale, BodyType::Dynamic), Err(WorldError::NotFound));
    let bare = world.create_entity();
    assert_eq!(world.add_rigid_body(bare, BodyType::Dynamic), Err(WorldError::MissingComponent));
    world.attach(bare, transform_at(0.0, 0.0, 0.0)).unwrap();
    assert_eq!(world.add_rigid_body(bare, BodyType::Dynamic), Err(WorldError::NotFound));
    world.add_node(0, bare).unwrap();
    assert_eq!(world.add_rigid_body(bare, BodyType::Dynamic), Ok(()));
    assert_eq!(world.get::<RigidBody>(bare).unwrap().body_type, BodyType::Dynamic);
    let parent = world.create_entity();
    let child = world.create_entity();
    world.attach(child, transform_at(1.0, 0.0, 0.0)).unwrap();
    let p = world.add_node(0, parent).unwrap();
    world.add_child(0, p, child).unwrap();
    assert_eq!(world.add_rigid_body(child, BodyType::Fixed), Err(WorldError::MissingComponent));
    assert!(!world.has::<RigidBody>(child));
}

#[test]
fn body_is_created_at_the_global_pose() {
    let mut world = World::new();
    let parent = spawn(&mut world, 1.0, 2.0, 3.0);
    let child = world.create_entity();
    world.attach(child, transform_at(10.0, 0.0, 0.0)).unwrap();
    let p = world.locate(parent).unwrap().1;
    world.add_child(0, p, child).unwrap();
    world.add_rigid_body(child, BodyType::Static).unwrap();
    let pose = world.body_pose(body_of(&world, child)).unwrap();
    assert_eq!(pose.translation, glm::vec3(11.0, 2.0, 3.0));
    assert!((pose.rotation.coords - glm::quat_identity::<f32>().coords).norm() < 1e-6);
    assert_eq!(world.get::<Transform>(child).unwrap().translation, glm::vec3(10.0, 0.0, 0.0));
}

#[test]
fn a_second_body_replaces_the_first() {
    let mut world = World::new();
    let e = spawn(&mut world, 0.0, 0.0, 0.0);
    world.add_rigid_body(e, BodyType::Static).unwrap();
    let first = body_of(&world, e);
    world.try_add_cylinder_collider(e, 1.0, 1.0, CollisionGroups::all()).unwrap();
    world.add_rigid_body(e, BodyType::Dynamic).unwrap();
    let second = body_of(&world, e);
    assert_ne!(first, second);
    assert!(world.body_pose(first).is_none());
    assert!(world.body_pose(second).is_some());
    world.tick(0.016);
    assert_eq!(world.pick_object(&down_the_z_axis(), 100.0, CollisionGroups::all()), None);
}

#[test]
fn sync_body_to_transform_twice_changes_nothing_more() {
    let mut world = World::new();
    let e = spawn(&mut world, 0.0, 0.0, 0.0);
    world.add_rigid_body(e, BodyType::Dynamic).unwrap();
    let body = body_of(&world, e);
    world.get_mut::<Transform>(e).unwrap().translation = glm::vec3(4.0, 5.0, 6.0);
    assert_eq!(world.body_pose(body).unwrap().translation, glm::vec3(0.0, 0.0, 0.0));
    assert_eq!(world.sync_rigid_body_to_transform(e), Ok(()));
    let once = world.body_pose(body).unwrap();
    assert_eq!(once.translation, glm::vec3(4.0, 5.0, 6.0));
    assert_eq!(world.sync_rigid_body_to_transform(e), Ok(()));
    let twice = world.body_pose(body).unwrap();
    assert_eq!(twice.translation, once.translation);
    assert_eq!(twice.rotation, once.rotation);
    assert_eq!(world.get::<Transform>(e).unwrap().translation, glm::vec3(4.0, 5.0, 6.0));
}

#[test]
fn sync_transform_to_body_copies_the_pose_and_keeps_the_scale() {
    let mut world = World::new();
    let e = world.create_entity();
    let t = Transform::new(glm::vec3(1.0, 1.0, 1.0), glm::quat_identity(), glm::vec3(2.0, 3.0, 4.0));
    world.attach(e, t).unwrap();
    world.add_node(0, e).unwrap();
    world.add_rigid_body(e, BodyType::Dynamic).unwrap();
    world.get_mut::<Transform>(e).unwrap().translation = glm::vec3(9.0, 9.0, 9.0);
    assert_eq!(world.sync_transform_to_rigid_body(e), Ok(()));
    let after = *world.get::<Transform>(e).unwrap();
    assert_eq!(after.translation, glm::vec3(1.0, 1.0, 1.0));
    assert_eq!(after.scale, glm::vec3(2.0, 3.0, 4.0));
}

#[test]
fn sync_fails_without_components_or_body() {
    let mut world = World::new();
    let stale = Entity::from_raw_parts(5, 0);
    assert_eq!(world.sync_rigid_body_to_transform(stale), Err(WorldError::NotFound));
    assert_eq!(world.sync_transform_to_rigid_body(stale), Err(WorldError::NotFound));
    let e = spawn(&mut world, 0.0, 0.0, 0.0);
    assert_eq!(world.sync_rigid_body_to_transform(e), Err(WorldError::MissingComponent));
    assert_eq!(world.sync_transform_to_rigid_body(e), Err(WorldError::MissingComponent));
    world.add_rigid_body(e, BodyType::Dynamic).unwrap();
    assert_eq!(world.sync_rigid_body_to_transform(e), Ok(()));
    world.detach::<Transform>(e).unwrap();
    assert_eq!(world.sync_rigid_body_to_transform(e), Err(WorldError::MissingComponent));
    assert_eq!(world.sync_transform_to_rigid_body(e), Err(WorldError::MissingComponent));
}

#[test]
fn remove_rigid_body_releases_the_body() {
    let mut world = World::new();
    let e = spawn(&mut world, 0.0, 0.0, 0.0);
    assert_eq!(world.remove_rigid_body(e), Err(WorldError::MissingComponent));
    assert_eq!(world.remove_rigid_body(Entity::from_raw_parts(4, 4)), Err(WorldError::NotFound));
    world.add_rigid_body(e, BodyType::Static).unwrap();
    world.try_add_cylinder_collider(e, 1.0, 1.0, CollisionGroups::all()).unwrap();
    let body = body_of(&world, e);
    assert_eq!(RigidBody::new(body, BodyType::Static), *world.get::<RigidBody>(e).unwrap());
    assert_eq!(world.remove_rigid_body(e), Ok(()));
    assert!(!world.has::<RigidBody>(e));
    assert!(world.has::<Transform>(e));
    assert!(world.body_pose(body).is_none());
    assert!(world.body_pose(PhysicsHandle { index: 40, generation: 2 }).is_none());
    world.tick(0.016);
    assert_eq!(world.pick_object(&down_the_z_axis(), 100.0, CollisionGroups::all()), None);
    assert_eq!(world.sync_rigid_body_to_transform(e), Err(WorldError::MissingComponent));
}

#[test]
fn removing_an_entity_releases_its_body() {
    let mut world = World::new();
    let e = spawn(&mut world, 0.0, 0.0, 0.0);
    let other = spawn(&mut world, 5.0, 0.0, 0.0);
    world.add_rigid_body(e, BodyType::Dynamic).unwrap();
    world.add_rigid_body(other, BodyType::Dynamic).unwrap();
    let body = body_of(&world, e);
    let kept = body_of(&world, other);
    assert_eq!(world.remove_entity(e), Ok(()));
    assert!(world.body_pose(body).is_none());
    assert!(world.body_pose(kept).is_some());
    assert_eq!(world.sync_rigid_body_to_transform(e), Err(WorldError::NotFound));
    assert_eq!(world.sync_transform_to_rigid_body(e), Err(WorldError::NotFound));
    assert_eq!(world.add_rigid_body(e, BodyType::Dynamic), Err(WorldError::NotFound));
    assert_eq!(world.remove_entity(e), Err(WorldError::NotFound));
    assert_eq!(world.locate(e), None);
    assert!(world.locate(other).is_some());
}

#[test]
fn removing_an_entity_detaches_its_subtree() {
    let mut world = World::new();
    let root = spawn(&mut world, 0.0, 0.0, 0.0);
    let mid = world.create_entity();
    let leaf = world.create_entity();
    let r = world.locate(root).unwrap().1;
    let m = world.add_child(0, r, mid).unwrap();
    world.add_child(0, m, leaf).unwrap();
    world.remove_entity(mid).unwrap();
    assert!(world.contains(leaf));
    assert_eq!(world.locate(leaf), None);
    assert_eq!(world.locate(mid), None);
    assert_eq!(world.locate(root), Some((0, NodeIndex::new(0))));
    assert!(!world.graph(0).unwrap().has_children(r));
}

#[test]
fn tick_moves_dynamic_bodies_only() {
    let mut world = World::new();
    world.set_gravity(&glm::vec3(0.0, -14.0, 0.0));
    assert_eq!(world.current_gravity(), glm::vec3(0.0, -14.0, 0.0));
    let falling = spawn(&mut world, 0.0, 10.0, 0.0);
    let ground = spawn(&mut world, 0.0, -10.0, 0.0);
    let plain = spawn(&mut world, 3.0, 3.0, 3.0);
    world.add_rigid_body(falling, BodyType::Dynamic).unwrap();
    world.add_rigid_body(ground, BodyType::Fixed).unwrap();
    world.try_add_cylinder_collider(falling, 0.5, 0.5, CollisionGroups::all()).unwrap();
    world.try_add_cylinder_collider(ground, 0.5, 5.0, CollisionGroups::all()).unwrap();
    for _ in 0..10 {
        world.tick(1.0 / 60.0);
    }
    let moved = world.get::<Transform>(falling).unwrap().translation;
    assert!(moved.y < 10.0);
    assert_eq!(moved.x, 0.0);
    assert_eq!(world.body_pose(body_of(&world, falling)).unwrap().translation, moved);
    assert_eq!(world.get::<Transform>(ground).unwrap().translation, glm::vec3(0.0, -10.0, 0.0));
    assert_eq!(world.get::<Transform>(plain).unwrap().translation, glm::vec3(3.0, 3.0, 3.0));
}

#[test]
fn cylinder_collider_needs_a_body_and_plain_dimensions() {
    let mut world = World::new();
    let all = CollisionGroups::all();
    let stale = Entity::from_raw_parts(9, 9);
    assert_eq!(world.try_add_cylinder_collider(stale, 1.0, 1.0, all), Err(WorldError::NotFound));
    let e = spawn(&mut world, 0.0, 0.0, 0.0);
    assert_eq!(world.try_add_cylinder_collider(e, 1.0, 1.0, all), Err(WorldError::MissingComponent));
    world.add_rigid_body(e, BodyType::Static).unwrap();
    assert_eq!(world.try_add_cylinder_collider(e, -1.0, 1.0, all), Ok(false));
    assert_eq!(world.try_add_cylinder_collider(e, 1.0, -0.5, all), Ok(false));
    assert_eq!(world.try_add_cylinder_collider(stale, -1.0, 1.0, all), Ok(false));
    world.tick(0.016);
    assert_eq!(world.pick_object(&down_the_z_axis(), 100.0, all), None);
    assert_eq!(world.add_cylinder_collider(e, 1.0, 0.5, all), Ok(()));
    world.tick(0.016);
    assert_eq!(world.pick_object(&down_the_z_axis(), 100.0, all), Some(e));
}

fn quad(name: &str) -> Mesh {
    Mesh {
        name: name.to_string(),
        primitives: vec![
            Primitive {
                positions: vec![
                    glm::vec3(-1.0, -1.0, 0.0),
                    glm::vec3(1.0, -1.0, 0.0),
                    glm::vec3(1.0, 1.0, 0.0),
                    glm::vec3(-1.0, 1.0, 0.0),
                ],
                triangles: vec![Triangle { a: 0, b: 1, c: 2 }, Triangle { a: 0, b: 2, c: 3 }],
            },
            Primitive { positions: vec![glm::vec3(0.0, 0.0, 0.0)], triangles: vec![] },
        ],
    }
}

#[test]
fn trimesh_collider_is_built_from_the_cached_mesh() {
    let mut world = World::new();
    world.insert_mesh(quad("wall"));
    let all = CollisionGroups::all();
    let e = world.create_entity();
    let t = Transform::new(glm::vec3(0.0, 0.0, 2.0), glm::quat_identity(), glm::vec3(3.0, 3.0, 1.0));
    world.attach(e, t).unwrap();
    world.add_node(0, e).unwrap();
    assert_eq!(world.add_trimesh_collider(e, all), Err(WorldError::MissingComponent));
    world.attach(e, MeshRender { name: "wall".to_string() }).unwrap();
    assert_eq!(world.add_trimesh_collider(e, all), Err(WorldError::MissingComponent));
    world.add_rigid_body(e, BodyType::Static).unwrap();
    assert_eq!(world.add_trimesh_collider(e, all), Ok(()));
    world.tick(0.016);
    assert_eq!(world.pick_object(&down_the_z_axis(), 100.0, all), Some(e));
    assert_eq!(world.pick_object(&down_the_z_axis(), 7.5, all), None);
    let off_axis = Ray { origin: glm::vec3(2.5, 2.5, 10.0), direction: glm::vec3(0.0, 0.0, -1.0) };
    assert_eq!(world.pick_object(&off_axis, 100.0, all), Some(e));
    let outside = Ray { origin: glm::vec3(3.5, 0.0, 10.0), direction: glm::vec3(0.0, 0.0, -1.0) };
    assert_eq!(world.pick_object(&outside, 100.0, all), None);
}

#[test]
fn trimesh_collider_refuses_unknown_and_open_meshes() {
    let mut world = World::new();
    let all = CollisionGroups::all();
    let mut open = quad("open");
    open.primitives[0].triangles.push(Triangle { a: 0, b: 1, c: 4 });
    assert!(!open.is_closed());
    assert!(quad("closed").is_closed());
    world.insert_mesh(open);
    let e = spawn(&mut world, 0.0, 0.0, 0.0);
    world.add_rigid_body(e, BodyType::Static).unwrap();
    world.attach(e, MeshRender { name: "missing".to_string() }).unwrap();
    assert_eq!(world.add_trimesh_collider(e, all), Err(WorldError::NotFound));
    world.attach(e, MeshRender { name: "open".to_string() }).unwrap();
    assert_eq!(world.add_trimesh_collider(e, all), Err(WorldError::NotFound));
    assert_eq!(world.add_trimesh_collider(Entity::from_raw_parts(8, 1), all), Err(WorldError::NotFound));
    world.tick(0.016);
    assert_eq!(world.pick_object(&down_the_z_axis(), 100.0, all), None);
}

#[test]
fn an_entity_stands_in_one_graph_only() {
    let mut world = World::new();
    let second = world.add_graph("props".to_string());
    assert_eq!(second, 1);
    let e = world.create_entity();
    let f = world.create_entity();
    let n = world.add_node(0, e).unwrap();
    assert_eq!(world.add_node(0, e), Ok(n));
    assert_eq!(world.add_node(1, e), Err(WorldError::InvalidParent));
    assert_eq!(world.add_node(2, f), Err(WorldError::NotFound));
    assert_eq!(world.add_node(1, Entity::from_raw_parts(50, 0)), Err(WorldError::NotFound));
    let m = world.add_node(1, f).unwrap();
    assert_eq!(world.add_child(1, m, e), Err(WorldError::InvalidParent));
    assert_eq!(world.add_child(0, NodeIndex::new(7), f), Err(WorldError::InvalidParent));
    assert_eq!(world.add_child(0, n, f), Err(WorldError::InvalidParent));
    assert_eq!(world.locate(e), Some((0, n)));
    assert_eq!(world.locate(f), Some((1, m)));
    assert_eq!(world.remove_node(1, m), Ok(()));
    assert_eq!(world.remove_node(1, m), Err(WorldError::NotFound));
    assert_eq!(world.remove_node(3, m), Err(WorldError::NotFound));
    assert_eq!(world.add_child(0, n, f), Ok(NodeIndex::new(1)));
    assert_eq!(world.locate(f), Some((0, NodeIndex::new(1))));
}

#[test]
fn reparenting_keeps_the_local_transform() {
    let mut world = World::new();
    let a = spawn(&mut world, 1.0, 0.0, 0.0);
    let b = spawn(&mut world, 0.0, 5.0, 0.0);
    let child = world.create_entity();
    world.attach(child, transform_at(0.0, 0.0, 2.0)).unwrap();
    let na = world.locate(a).unwrap().1;
    let nb = world.locate(b).unwrap().1;
    let first = world.add_child(0, na, child).unwrap();
    let under_a = world.entity_global_transform(child).unwrap();
    assert_eq!(under_a.translation, glm::vec3(1.0, 0.0, 2.0));
    world.remove_node(0, first).unwrap();
    assert_eq!(world.entity_global_transform(child), Err(WorldError::NotFound));
    world.add_child(0, nb, child).unwrap();
    let under_b = world.entity_global_transform(child).unwrap();
    assert_eq!(under_b.translation, glm::vec3(0.0, 5.0, 2.0));
    assert_eq!(world.get::<Transform>(child).unwrap().translation, glm::vec3(0.0, 0.0, 2.0));
    let m = world.entity_global_transform_matrix(child).unwrap();
    let expected = world.get::<Transform>(b).unwrap().matrix()
        * world.get::<Transform>(child).unwrap().matrix();
    assert_eq!(m, expected);
}

#[test]
fn clear_empties_the_world() {
    let mut world = World::new();
    world.insert_mesh(quad("wall"));
    let e = spawn(&mut world, 0.0, 0.0, 0.0);
    world.attach(e, Name("thing".to_string())).unwrap();
    world.attach(e, Selected).unwrap();
    world.add_rigid_body(e, BodyType::Static).unwrap();
    world.try_add_cylinder_collider(e, 1.0, 1.0, CollisionGroups::all()).unwrap();
    let body = body_of(&world, e);
    world.add_graph("extra".to_string());
    world.clear();
    assert_eq!(world.graph_name(0).unwrap(), "main");
    assert_eq!(world.current_graph(), 0);
    assert!(!world.contains(e));
    assert_eq!(world.graph_count(), 1);
    assert_eq!(world.graph(0).unwrap().slot_count(), 0);
    assert_eq!(world.geometry().meshes.len(), 0);
    assert!(world.body_pose(body).is_none());
    world.tick(0.016);
    assert_eq!(world.pick_object(&down_the_z_axis(), 100.0, CollisionGroups::all()), None);
    let fresh = world.create_entity();
    assert_ne!(fresh, e);
}

#[test]
fn impulse_moves_a_dynamic_body_with_the_next_step() {
    let mut world = World::new();
    world.set_gravity(&glm::vec3(0.0, 0.0, 0.0));
    let e = spawn(&mut world, 0.0, 0.0, 0.0);
    let still = spawn(&mut world, 5.0, 0.0, 0.0);
    assert_eq!(world.apply_impulse(e, &glm::vec3(0.0, 10.0, 0.0)), Err(WorldError::MissingComponent));
    assert_eq!(
        world.apply_impulse(Entity::from_raw_parts(30, 0), &glm::vec3(0.0, 10.0, 0.0)),
        Err(WorldError::NotFound)
    );
    for x in [e, still] {
        world.add_rigid_body(x, BodyType::Dynamic).unwrap();
        world.try_add_cylinder_collider(x, 0.5, 0.5, CollisionGroups::all()).unwrap();
    }
    assert_eq!(world.apply_impulse(e, &glm::vec3(0.0, 10.0, 0.0)), Ok(()));
    assert_eq!(world.body_pose(body_of(&world, e)).unwrap().translation, glm::vec3(0.0, 0.0, 0.0));
    world.tick(0.1);
    assert!(world.get::<Transform>(e).unwrap().translation.y > 0.0);
    assert_eq!(world.get::<Transform>(still).unwrap().translation, glm::vec3(5.0, 0.0, 0.0));
}

#[test]
fn lock_rotations_needs_a_body() {
    let mut world = World::new();
    let e = spawn(&mut world, 0.0, 0.0, 0.0);
    assert_eq!(world.lock_rotations(e), Err(WorldError::MissingComponent));
    assert_eq!(world.lock_rotations(Entity::from_raw_parts(30, 0)), Err(WorldError::NotFound));
    world.add_rigid_body(e, BodyType::Dynamic).unwrap();
    let before = world.body_pose(body_of(&world, e)).unwrap();
    assert_eq!(world.lock_rotations(e), Ok(()));
    assert_eq!(world.body_pose(body_of(&world, e)).unwrap(), before);
}

#[test]
fn switch_camera_disables_the_active_one() {
    let mut world = World::new();
    let first = world.create_entity();
    let player = world.create_entity();
    assert_eq!(world.switch_camera(player, camera("player", false)), Err(WorldError::NoActiveCamera));
    world.attach(first, camera("main", true)).unwrap();
    assert_eq!(
        world.switch_camera(Entity::from_raw_parts(12, 0), camera("nobody", true)),
        Err(WorldError::NotFound)
    );
    assert_eq!(world.active_camera(), Ok(first));
    assert_eq!(world.switch_camera(player, camera("player", false)), Ok(()));
    assert_eq!(world.active_camera(), Ok(player));
    assert!(!world.get::<Camera>(first).unwrap().enabled);
    assert_eq!(world.get::<Camera>(first).unwrap().name, "main");
    assert!(world.get::<Camera>(player).unwrap().enabled);
    assert_eq!(world.get::<Camera>(player).unwrap().name, "player");
    assert_eq!(world.switch_camera(player, camera("again", true)), Ok(()));
    assert_eq!(world.get::<Camera>(player).unwrap().name, "again");
    assert_eq!(world.active_camera(), Ok(player));
}

#[test]
fn walk_lists_every_node_of_a_world_graph_once() {
    let mut world = World::new();
    let a = spawn(&mut world, 0.0, 0.0, 0.0);
    let b = world.create_entity();
    let c = world.create_entity();
    let na = world.locate(a).unwrap().1;
    let nb = world.add_child(0, na, b).unwrap();
    let nc = world.add_child(0, na, c).unwrap();
    let d = world.create_entity();
    let nd = world.add_child(0, nb, d).unwrap();
    let order = world.graph(0).unwrap().walk();
    assert_eq!(order, vec![na, nb, nd, nc]);
    world.remove_node(0, nb).unwrap();
    assert_eq!(world.graph(0).unwrap().walk(), vec![na, nc]);
}

#[test]
fn graphs_are_found_and_chosen_by_name() {
    let mut world = World::new();
    assert_eq!(world.graph_name(0).unwrap(), "main");
    assert_eq!(world.graph_name(1), None);
    assert_eq!(world.current_graph(), 0);
    let level = world.add_graph("level".to_string());
    let again = world.add_graph("level".to_string());
    assert_eq!((level, again), (1, 2));
    assert_eq!(world.current_graph(), 0);
    assert_eq!(world.find_graph(&"level".to_string()), Some(1));
    assert_eq!(world.find_graph(&"main".to_string()), Some(0));
    assert_eq!(world.find_graph(&"cellar".to_string()), None);
    assert_eq!(world.select_graph(&"cellar".to_string()), Err(WorldError::NotFound));
    assert_eq!(world.current_graph(), 0);
    assert_eq!(world.select_graph(&"level".to_string()), Ok(1));
    assert_eq!(world.current_graph(), 1);
    assert_eq!(world.graph_name(2).unwrap(), "level");
    let e = world.create_entity();
    let at = world.current_graph();
    world.add_node(at, e).unwrap();
    assert_eq!(world.locate(e), Some((1, NodeIndex::new(0))));
}
