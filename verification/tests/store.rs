use dragonglass_world::components::{Camera, MeshRender, Name, PerspectiveCamera, Projection};
use dragonglass_world::components::{Selected, Transform};
use dragonglass_world::entity::Entity;
use dragonglass_world::error::WorldError;
use dragonglass_world::store::Store;
use nalgebra_glm as glm;

fn transform_at(x: f32, y: f32, z: f32) -> Transform {
    Transform::new(glm::vec3(x, y, z), glm::quat_identity(), glm::vec3(1.0, 1.0, 1.0))
}

fn camera(name: &str, enabled: bool) -> Camera {
    Camera {
        name: name.to_string(),
        projection: Projection::Perspective(PerspectiveCamera {
            aspect_ratio: None,
            y_fov_rad: 1.2,
            z_far: Some(1000.0),
            z_near: 0.1,
        }),
        enabled,
    }
}

#[test]
fn create_gives_distinct_live_handles() {
    let mut store = Store::new();
    let a = store.create();
    let b = store.create();
    assert_ne!(a, b);
    assert!(store.contains(a));
    assert!(store.contains(b));
    assert_eq!(a, Entity::from_raw_parts(0, 0));
    assert_eq!(b, Entity::from_raw_parts(1, 0));
}

#[test]
fn unknown_handle_is_not_found() {
    let mut store = Store::new();
    let ghost = Entity::from_raw_parts(7, 0);
    assert!(!store.contains(ghost));
    assert_eq!(store.attach(ghost, Selected), Err(WorldError::NotFound));
    assert!(matches!(store.detach::<Selected>(ghost), Err(WorldError::NotFound)));
    assert!(matches!(store.get::<Selected>(ghost), Err(WorldError::NotFound)));
    assert!(matches!(store.get_mut::<Selected>(ghost), Err(WorldError::NotFound)));
    assert_eq!(store.remove(ghost), Err(WorldError::NotFound));
}

#[test]
fn attach_then_get_returns_the_value() {
    let mut store = Store::new();
    let e = store.create();
    assert_eq!(store.attach(e, Name("crate".to_string())), Ok(()));
    assert_eq!(store.get::<Name>(e).unwrap().0, "crate");
    assert!(store.has::<Name>(e));
    assert!(!store.has::<Selected>(e));
    assert!(matches!(store.get::<Selected>(e), Err(WorldError::NotFound)));
}

#[test]
fn attach_detach_round_trip() {
    let mut store = Store::new();
    let e = store.create();
    store.attach(e, Name("old".to_string())).unwrap();
    let taken = store.detach::<Name>(e).unwrap();
    assert_eq!(taken.unwrap().0, "old");
    assert!(matches!(store.get::<Name>(e), Err(WorldError::NotFound)));
    assert!(store.detach::<Name>(e).unwrap().is_none());
    store.attach(e, Name("fresh".to_string())).unwrap();
    assert_eq!(store.get::<Name>(e).unwrap().0, "fresh");
}

#[test]
fn attach_replaces_only_its_own_kind() {
    let mut store = Store::new();
    let e = store.create();
    store.attach(e, Name("one".to_string())).unwrap();
    store.attach(e, MeshRender { name: "cube".to_string() }).unwrap();
    store.attach(e, Name("two".to_string())).unwrap();
    assert_eq!(store.get::<Name>(e).unwrap().0, "two");
    assert_eq!(store.get::<MeshRender>(e).unwrap().name, "cube");
}

#[test]
fn get_mut_writes_through() {
    let mut store = Store::new();
    let e = store.create();
    store.attach(e, transform_at(1.0, 2.0, 3.0)).unwrap();
    store.get_mut::<Transform>(e).unwrap().translation = glm::vec3(4.0, 5.0, 6.0);
    assert_eq!(store.get::<Transform>(e).unwrap().translation, glm::vec3(4.0, 5.0, 6.0));
    assert_eq!(store.get::<Transform>(e).unwrap().scale, glm::vec3(1.0, 1.0, 1.0));
}

#[test]
fn removed_handle_stays_stale_when_slot_is_reused() {
    let mut store = Store::new();
    let a = store.create();
    store.attach(a, Name("first".to_string())).unwrap();
    assert_eq!(store.remove(a), Ok(()));
    assert!(!store.contains(a));
    assert!(matches!(store.get::<Name>(a), Err(WorldError::NotFound)));
    let b = store.create();
    assert_eq!(b.index(), a.index());
    assert_eq!(b.generation(), a.generation() + 1);
    assert!(store.contains(b));
    assert!(!store.contains(a));
    assert!(!store.has::<Name>(b));
    assert_eq!(store.remove(a), Err(WorldError::NotFound));
}

#[test]
fn query_lists_holders_in_slot_order() {
    let mut store = Store::new();
    let a = store.create();
    let b = store.create();
    let c = store.create();
    store.attach(c, Selected).unwrap();
    store.attach(a, Selected).unwrap();
    store.attach(b, Name("b".to_string())).unwrap();
    store.attach(c, Name("c".to_string())).unwrap();
    assert_eq!(store.query::<Selected>(), vec![a, c]);
    assert_eq!(store.query::<Name>(), vec![b, c]);
    assert_eq!(store.query2::<Selected, Name>(), vec![c]);
    assert_eq!(store.query::<Camera>(), Vec::<Entity>::new());
    assert_eq!(store.query::<Selected>(), vec![a, c]);
}

#[test]
fn clear_spends_every_handle() {
    let mut store = Store::new();
    let a = store.create();
    let b = store.create();
    store.attach(a, camera("main", true)).unwrap();
    store.clear();
    assert!(!store.contains(a));
    assert!(!store.contains(b));
    assert_eq!(store.query::<Camera>(), Vec::<Entity>::new());
    let c = store.create();
    assert_ne!(c, a);
    assert_ne!(c, b);
}

#[test]
fn error_messages_differ() {
    let all = [
        WorldError::NotFound,
        WorldError::InvalidParent,
        WorldError::MissingComponent,
        WorldError::NoActiveCamera,
    ];
    for (i, a) in all.iter().enumerate() {
        for (j, b) in all.iter().enumerate() {
            assert_eq!(i == j, a.message() == b.message());
        }
    }
    assert_eq!(WorldError::NoActiveCamera.message(), "no enabled camera in the world");
}
