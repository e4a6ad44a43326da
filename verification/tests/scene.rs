use dragonglass_world::components::Transform;
use dragonglass_world::entity::Entity;
use dragonglass_world::error::WorldError;
use dragonglass_world::resolver::global_transform;
use dragonglass_world::scene_graph::{NodeIndex, SceneGraph};
use dragonglass_world::store::Store;
use nalgebra_glm as glm;

fn entity(i: usize) -> Entity {
    Entity::from_raw_parts(i, 0)
}

fn indices(nodes: &[NodeIndex]) -> Vec<usize> {
    nodes.iter().map(|n| n.index()).collect()
}

/// root 0 with children 1 and 2; 1 has children 3 and 4; root 5.
fn sample() -> SceneGraph {
    let mut g = SceneGraph::new();
    let r0 = g.add_node(entity(10));
    let c1 = g.add_child(r0, entity(11)).unwrap();
    let _c2 = g.add_child(r0, entity(12)).unwrap();
    let _c3 = g.add_child(c1, entity(13)).unwrap();
    let _c4 = g.add_child(c1, entity(14)).unwrap();
    let _r5 = g.add_node(entity(15));
    g
}

#[test]
fn add_node_makes_roots() {
    let mut g = SceneGraph::new();
    let a = g.add_node(entity(1));
    let b = g.add_node(entity(2));
    assert_eq!(a, NodeIndex::new(0));
    assert_eq!(b, NodeIndex::new(1));
    assert_eq!(g.parent(a), None);
    assert_eq!(g.parent(b), None);
    assert_eq!(g.entity(a), Some(entity(1)));
    assert_eq!(g.entity(NodeIndex::new(9)), None);
    assert!(!g.has_children(a));
    assert_eq!(g.slot_count(), 2);
}

#[test]
fn add_child_with_missing_parent_is_invalid_parent() {
    let mut g = SceneGraph::new();
    assert_eq!(g.add_child(NodeIndex::new(0), entity(1)), Err(WorldError::InvalidParent));
    let root = g.add_node(entity(1));
    assert_eq!(g.add_child(NodeIndex::new(5), entity(2)), Err(WorldError::InvalidParent));
    g.remove_node(root).unwrap();
    assert_eq!(g.add_child(root, entity(2)), Err(WorldError::InvalidParent));
    assert_eq!(g.slot_count(), 1);
}

#[test]
fn children_keep_insertion_order() {
    let g = sample();
    assert_eq!(indices(&g.children_of(NodeIndex::new(0))), vec![1, 2]);
    assert_eq!(indices(&g.children_of(NodeIndex::new(1))), vec![3, 4]);
    assert_eq!(indices(&g.children_of(NodeIndex::new(2))), Vec::<usize>::new());
    assert_eq!(indices(&g.children_of(NodeIndex::new(42))), Vec::<usize>::new());
    assert!(g.has_children(NodeIndex::new(0)));
    assert!(!g.has_children(NodeIndex::new(4)));
    assert!(!g.has_children(NodeIndex::new(42)));
    assert_eq!(g.parent(NodeIndex::new(3)), Some(NodeIndex::new(1)));
}

#[test]
fn walk_is_depth_first_pre_order() {
    let g = sample();
    assert_eq!(indices(&g.walk()), vec![0, 1, 3, 4, 2, 5]);
    assert_eq!(indices(&SceneGraph::new().walk()), Vec::<usize>::new());
}

#[test]
fn an_entity_gets_one_node_only() {
    let mut g = sample();
    let again = g.add_node(entity(13));
    assert_eq!(again, NodeIndex::new(3));
    let under = g.add_child(NodeIndex::new(5), entity(12)).unwrap();
    assert_eq!(under, NodeIndex::new(2));
    assert_eq!(g.slot_count(), 6);
    assert_eq!(g.parent(NodeIndex::new(2)), Some(NodeIndex::new(0)));
    assert_eq!(indices(&g.walk()), vec![0, 1, 3, 4, 2, 5]);
    assert_eq!(g.find_node(entity(14)), Some(NodeIndex::new(4)));
    assert_eq!(g.find_node(entity(99)), None);
}

#[test]
fn remove_node_takes_the_subtree() {
    let mut g = sample();
    assert_eq!(g.remove_node(NodeIndex::new(1)), Ok(()));
    assert!(!g.contains_node(NodeIndex::new(1)));
    assert!(!g.contains_node(NodeIndex::new(3)));
    assert!(!g.contains_node(NodeIndex::new(4)));
    assert!(g.contains_node(NodeIndex::new(0)));
    assert!(g.contains_node(NodeIndex::new(2)));
    assert!(g.contains_node(NodeIndex::new(5)));
    assert_eq!(indices(&g.children_of(NodeIndex::new(0))), vec![2]);
    assert_eq!(indices(&g.walk()), vec![0, 2, 5]);
    assert_eq!(g.find_node(entity(13)), None);
    assert_eq!(g.parent(NodeIndex::new(3)), None);
    assert_eq!(g.remove_node(NodeIndex::new(1)), Err(WorldError::NotFound));
    assert_eq!(g.remove_node(NodeIndex::new(77)), Err(WorldError::NotFound));
}

#[test]
fn indices_stay_stable_after_removal() {
    let mut g = sample();
    g.remove_node(NodeIndex::new(2)).unwrap();
    assert_eq!(g.entity(NodeIndex::new(4)), Some(entity(14)));
    let fresh = g.add_child(NodeIndex::new(0), entity(12)).unwrap();
    assert_eq!(fresh, NodeIndex::new(6));
    assert_eq!(indices(&g.children_of(NodeIndex::new(0))), vec![1, 6]);
    assert_eq!(indices(&g.walk()), vec![0, 1, 3, 4, 6, 5]);
}

#[test]
fn removing_a_root_empties_its_tree() {
    let mut g = sample();
    g.remove_node(NodeIndex::new(0)).unwrap();
    assert_eq!(indices(&g.walk()), vec![5]);
    for i in 0..5 {
        assert!(!g.contains_node(NodeIndex::new(i)));
    }
}

fn place(store: &mut Store, translation: glm::Vec3, scale: f32) -> Entity {
    let e = store.create();
    let t = Transform::new(translation, glm::quat_identity(), glm::vec3(scale, scale, scale));
    store.attach(e, t).unwrap();
    e
}

#[test]
fn transform_matrix_is_translate_rotate_scale() {
    let rotation = glm::quat_angle_axis(0.5, &glm::vec3(0.0, 1.0, 0.0));
    let t = Transform::new(glm::vec3(1.0, 2.0, 3.0), rotation, glm::vec3(2.0, 3.0, 4.0));
    let expected = glm::translation(&glm::vec3(1.0, 2.0, 3.0))
        * glm::quat_to_mat4(&rotation)
        * glm::scaling(&glm::vec3(2.0, 3.0, 4.0));
    assert_eq!(t.matrix(), expected);
    assert_ne!(t.matrix(), glm::Mat4::identity());
}

#[test]
fn from_matrix_recovers_the_parts() {
    let rotation = glm::quat_angle_axis(0.5, &glm::vec3(0.0, 1.0, 0.0));
    let t = Transform::new(glm::vec3(1.0, 2.0, 3.0), rotation, glm::vec3(2.0, 3.0, 4.0));
    let back = Transform::from_matrix(&t.matrix());
    assert!((back.translation - t.translation).norm() < 1e-5);
    assert!((back.scale - t.scale).norm() < 1e-5);
    assert!((back.rotation.coords - t.rotation.coords).norm() < 1e-5);
}

#[test]
fn global_transform_multiplies_from_the_root() {
    let mut store = Store::new();
    let root = place(&mut store, glm::vec3(1.0, 2.0, 3.0), 2.0);
    let mid = place(&mut store, glm::vec3(10.0, 0.0, 0.0), 1.0);
    let leaf = place(&mut store, glm::vec3(0.0, 0.0, 1.0), 0.5);
    let mut g = SceneGraph::new();
    let n0 = g.add_node(root);
    let n1 = g.add_child(n0, mid).unwrap();
    let n2 = g.add_child(n1, leaf).unwrap();
    let m0 = store.get::<Transform>(root).unwrap().matrix();
    let m1 = store.get::<Transform>(mid).unwrap().matrix();
    let m2 = store.get::<Transform>(leaf).unwrap().matrix();
    assert_eq!(global_transform(&store, &g, n0), Ok(m0));
    assert_eq!(global_transform(&store, &g, n1), Ok(m0 * m1));
    assert_eq!(global_transform(&store, &g, n2), Ok((m0 * m1) * m2));
    let origin = global_transform(&store, &g, n2).unwrap() * glm::vec4(0.0, 0.0, 0.0, 1.0);
    assert_eq!(origin, glm::vec4(21.0, 2.0, 5.0, 1.0));
}

#[test]
fn global_transform_reports_the_first_obstacle_from_the_node_up() {
    let mut store = Store::new();
    let root = store.create();
    let mid = place(&mut store, glm::vec3(1.0, 0.0, 0.0), 1.0);
    let leaf = store.create();
    let mut g = SceneGraph::new();
    let n0 = g.add_node(root);
    let n1 = g.add_child(n0, mid).unwrap();
    let n2 = g.add_child(n1, leaf).unwrap();
    assert_eq!(global_transform(&store, &g, NodeIndex::new(9)), Err(WorldError::NotFound));
    assert_eq!(global_transform(&store, &g, n0), Err(WorldError::MissingComponent));
    assert_eq!(global_transform(&store, &g, n1), Err(WorldError::MissingComponent));
    assert_eq!(global_transform(&store, &g, n2), Err(WorldError::MissingComponent));
    store.remove(leaf).unwrap();
    assert_eq!(global_transform(&store, &g, n2), Err(WorldError::NotFound));
}
