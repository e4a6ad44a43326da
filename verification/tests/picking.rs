use dragonglass_world::components::{BodyType, Camera, MeshRender, OrthographicCamera};
use dragonglass_world::components::{PerspectiveCamera, Projection, RigidBody, Selected, Transform};
use dragonglass_world::entity::Entity;
use dragonglass_world::error::WorldError;
use dragonglass_world::geometry::{Mesh, Primitive};
use dragonglass_world::picking::{mouse_ray, MouseRayConfiguration, Viewport};
use dragonglass_world::simulation::{CollisionGroups, Triangle};
use dragonglass_world::world::World;
use nalgebra_glm as glm;

fn transform_at(x: f32, y: f32, z: f32) -> Transform {
    Transform::new(glm::vec3(x, y, z), glm::quat_identity(), glm::vec3(1.0, 1.0, 1.0))
}

fn perspective(aspect_ratio: Option<f32>, z_far: Option<f32>) -> Projection {
    Projection::Perspective(PerspectiveCamera { aspect_ratio, y_fov_rad: 1.0, z_far, z_near: 0.5 })
}

fn spawn(world: &mut World, x: f32, y: f32, z: f32) -> Entity {
    let e = world.create_entity();
    world.attach(e, transform_at(x, y, z)).unwrap();
    world.add_node(0, e).unwrap();
    e
}

fn window() -> Viewport {
    Viewport { x: 0.0, y: 0.0, width: 800.0, height: 600.0 }
}

fn close(a: &glm::Mat4, b: &glm::Mat4) -> bool {
    (a - b).norm() < 1e-5
}

#[test]
fn viewport_aspect_ratio_is_width_over_height() {
    assert_eq!(window().aspect_ratio(), 800.0 / 600.0);
    assert_eq!(Viewport { x: 10.0, y: 20.0, width: 300.0, height: 150.0 }.aspect_ratio(), 2.0);
}

#[test]
fn perspective_matrix_uses_the_cameras_own_ratio_first() {
    let own = perspective(Some(2.0), Some(100.0)).matrix(1.5);
    let from_viewport = perspective(None, Some(100.0)).matrix(1.5);
    assert!(close(&own, &glm::perspective_zo(2.0, 1.0, 0.5, 100.0)));
    assert!(close(&from_viewport, &glm::perspective_zo(1.5, 1.0, 0.5, 100.0)));
    assert!(!close(&own, &from_viewport));
}

#[test]
fn perspective_without_far_plane_is_infinite() {
    let m = perspective(None, None).matrix(1.5);
    assert_eq!(m, glm::infinite_perspective_rh_zo(1.5, 1.0, 0.5));
}

#[test]
fn orthographic_matrix_spans_the_magnitudes() {
    let camera = OrthographicCamera { x_mag: 4.0, y_mag: 3.0, z_far: 50.0, z_near: 1.0 };
    let m = Projection::Orthographic(camera).matrix(7.0);
    assert_eq!(m, glm::ortho(-4.0, 4.0, -3.0, 3.0, 1.0, 50.0));
    assert_eq!(m[(0, 0)], 0.25);
    assert_eq!(m[(1, 1)], 1.0 / 3.0);
}

#[test]
fn view_matrix_undoes_translation_and_rotation() {
    let rotation = glm::quat_angle_axis(0.7, &glm::vec3(0.0, 1.0, 0.0));
    let t = Transform::new(glm::vec3(1.0, 2.0, 3.0), rotation, glm::vec3(5.0, 5.0, 5.0));
    let view = t.view_matrix();
    let placed = glm::translation(&glm::vec3(1.0, 2.0, 3.0)) * glm::quat_to_mat4(&rotation);
    assert!(close(&(view * placed), &glm::Mat4::identity()));
    let eye = view * glm::vec4(1.0, 2.0, 3.0, 1.0);
    assert!((eye - glm::vec4(0.0, 0.0, 0.0, 1.0)).norm() < 1e-5);
}

#[test]
fn camera_matrices_need_an_enabled_camera_in_the_scene() {
    let mut world = World::new();
    assert_eq!(world.active_camera_matrices(1.0), Err(WorldError::NoActiveCamera));
    let e = world.create_entity();
    let camera = Camera { name: "main".to_string(), projection: perspective(None, None), enabled: true };
    world.attach(e, camera).unwrap();
    assert_eq!(world.active_camera_matrices(1.0), Err(WorldError::NotFound));
    world.add_node(0, e).unwrap();
    assert_eq!(world.active_camera_matrices(1.0), Err(WorldError::MissingComponent));
    world.attach(e, transform_at(0.0, 0.0, 10.0)).unwrap();
    let (projection, view) = world.active_camera_matrices(1.5).unwrap();
    assert_eq!(projection, glm::infinite_perspective_rh_zo(1.5, 1.0, 0.5));
    assert!(close(&view, &glm::translation(&glm::vec3(0.0, 0.0, -10.0))));
    world.get_mut::<Camera>(e).unwrap().enabled = false;
    assert_eq!(world.active_camera_matrices(1.0), Err(WorldError::NoActiveCamera));
    assert!(matches!(
        world.mouse_ray_configuration(window(), glm::vec2(1.0, 1.0)),
        Err(WorldError::NoActiveCamera)
    ));
}

#[test]
fn mouse_ray_through_the_centre_runs_along_the_view_axis() {
    let c = MouseRayConfiguration {
        viewport: window(),
        projection_matrix: glm::perspective(800.0 / 600.0, 1.0, 0.5, 100.0),
        view_matrix: glm::translation(&glm::vec3(0.0, 0.0, -10.0)),
        mouse_position: glm::vec2(400.0, 300.0),
    };
    let ray = mouse_ray(&c);
    assert!((ray.origin - glm::vec3(0.0, 0.0, 9.5)).norm() < 1e-4);
    assert!((ray.direction - glm::vec3(0.0, 0.0, -1.0)).norm() < 1e-5);
}

#[test]
fn mouse_ray_counts_y_from_the_bottom() {
    let c = MouseRayConfiguration {
        viewport: window(),
        projection_matrix: glm::perspective(800.0 / 600.0, 1.0, 0.5, 100.0),
        view_matrix: glm::Mat4::identity(),
        mouse_position: glm::vec2(400.0, 0.0),
    };
    let up = mouse_ray(&c);
    assert!(up.direction.y > 0.1);
    assert!(up.direction.x.abs() < 1e-5);
    assert!(up.direction.z < 0.0);
    assert!((up.direction.norm() - 1.0).abs() < 1e-5);
    let mut lower = c;
    lower.mouse_position = glm::vec2(800.0, 600.0);
    let down_right = mouse_ray(&lower);
    assert!(down_right.direction.y < -0.1);
    assert!(down_right.direction.x > 0.1);
}

#[test]
fn clicking_the_centre_picks_what_the_camera_looks_at() {
    let mut world = World::new();
    let target = spawn(&mut world, 0.0, 0.0, 0.0);
    let aside = spawn(&mut world, 6.0, 0.0, 0.0);
    for e in [target, aside] {
        world.add_rigid_body(e, BodyType::Static).unwrap();
        world.try_add_cylinder_collider(e, 1.0, 1.0, CollisionGroups::all()).unwrap();
    }
    let eye = spawn(&mut world, 0.0, 0.0, 10.0);
    let camera = Camera {
        name: "main".to_string(),
        projection: perspective(None, Some(100.0)),
        enabled: true,
    };
    world.attach(eye, camera).unwrap();
    world.tick(0.016);
    let centre = world.mouse_ray_configuration(window(), glm::vec2(400.0, 300.0)).unwrap();
    assert_eq!(centre.viewport, window());
    assert_eq!(centre.mouse_position, glm::vec2(400.0, 300.0));
    let ray = mouse_ray(&centre);
    assert_eq!(world.pick_object(&ray, 100.0, CollisionGroups::all()), Some(target));
    assert_eq!(world.pick_object(&ray, 5.0, CollisionGroups::all()), None);
    let corner = world.mouse_ray_configuration(window(), glm::vec2(5.0, 5.0)).unwrap();
    assert_eq!(world.pick_object(&mouse_ray(&corner), 100.0, CollisionGroups::all()), None);
    let right = world.mouse_ray_configuration(window(), glm::vec2(690.0, 300.0)).unwrap();
    assert_eq!(world.pick_object(&mouse_ray(&right), 100.0, CollisionGroups::all()), Some(aside));
}

#[test]
fn select_marks_one_entity_only() {
    let mut world = World::new();
    let a = world.create_entity();
    let b = world.create_entity();
    let c = world.create_entity();
    assert_eq!(world.select(Entity::from_raw_parts(9, 0)), Err(WorldError::NotFound));
    assert_eq!(world.select(a), Ok(()));
    assert_eq!(world.query::<Selected>(), vec![a]);
    assert_eq!(world.select(c), Ok(()));
    assert_eq!(world.query::<Selected>(), vec![c]);
    world.attach(b, Selected).unwrap();
    assert_eq!(world.select(c), Ok(()));
    assert_eq!(world.query::<Selected>(), vec![b, c]);
    assert_eq!(world.select(a), Ok(()));
    assert_eq!(world.query::<Selected>(), vec![a]);
    world.deselect_all();
    assert_eq!(world.query::<Selected>(), Vec::<Entity>::new());
    assert!(world.contains(a) && world.contains(b) && world.contains(c));
}

fn floor(name: &str) -> Mesh {
    Mesh {
        name: name.to_string(),
        primitives: vec![Primitive {
            positions: vec![
                glm::vec3(-1.0, -1.0, 0.0),
                glm::vec3(1.0, -1.0, 0.0),
                glm::vec3(0.0, 1.0, 0.0),
            ],
            triangles: vec![Triangle { a: 0, b: 1, c: 2 }],
        }],
    }
}

#[test]
fn every_mesh_holder_gets_a_body_and_a_collider() {
    let mut world = World::new();
    world.insert_mesh(floor("floor"));
    let a = spawn(&mut world, 0.0, 0.0, 0.0);
    let plain = spawn(&mut world, 0.0, 0.0, 5.0);
    let b = spawn(&mut world, 0.0, 0.0, -5.0);
    world.attach(a, MeshRender { name: "floor".to_string() }).unwrap();
    world.attach(b, MeshRender { name: "floor".to_string() }).unwrap();
    assert_eq!(world.add_mesh_colliders(BodyType::Fixed, CollisionGroups::all()), Ok(()));
    assert_eq!(world.get::<RigidBody>(a).unwrap().body_type, BodyType::Fixed);
    assert_eq!(world.get::<RigidBody>(b).unwrap().body_type, BodyType::Fixed);
    assert!(!world.has::<RigidBody>(plain));
    world.tick(0.016);
    let ray = dragonglass_world::simulation::Ray {
        origin: glm::vec3(0.0, 0.0, 10.0),
        direction: glm::vec3(0.0, 0.0, -1.0),
    };
    assert_eq!(world.pick_object(&ray, 100.0, CollisionGroups::all()), Some(a));
    assert_eq!(world.pick_object(&ray, 9.0, CollisionGroups::all()), None);
}

#[test]
fn the_first_failing_mesh_holder_stops_the_setup() {
    let mut world = World::new();
    world.insert_mesh(floor("floor"));
    let a = spawn(&mut world, 0.0, 0.0, 0.0);
    let b = spawn(&mut world, 1.0, 0.0, 0.0);
    let c = spawn(&mut world, 2.0, 0.0, 0.0);
    world.attach(a, MeshRender { name: "floor".to_string() }).unwrap();
    world.attach(b, MeshRender { name: "absent".to_string() }).unwrap();
    world.attach(c, MeshRender { name: "floor".to_string() }).unwrap();
    world.detach::<Transform>(c).unwrap();
    let r = world.add_mesh_colliders(BodyType::Static, CollisionGroups::all());
    assert_eq!(r, Err(WorldError::NotFound));
    assert!(world.has::<RigidBody>(a));
    assert!(!world.has::<RigidBody>(c));
    world.attach(b, MeshRender { name: "floor".to_string() }).unwrap();
    let r = world.add_mesh_colliders(BodyType::Static, CollisionGroups::all());
    assert_eq!(r, Err(WorldError::MissingComponent));
    assert!(world.has::<RigidBody>(b));
}
