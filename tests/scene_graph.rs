use bone_static::scene::{LoadError, Model, Node, Skin};
use glam::{vec3, Mat4};
use std::collections::HashMap;

fn node(local: Mat4, children: Vec<usize>) -> Node {
    Node { local, children, mesh: None, skin: None }
}

fn t(x: f32, y: f32, z: f32) -> Mat4 {
    Mat4::from_translation(vec3(x, y, z))
}

#[test]
fn chain_of_two_translations() {
    let model = Model::new(
        vec![node(t(1.0, 0.0, 0.0), vec![1]), node(t(0.0, 2.0, 0.0), vec![])],
        0,
        vec![],
        vec![],
    )
    .unwrap();
    assert_eq!(model.global_mat(1), t(1.0, 2.0, 0.0));
    assert_eq!(model.global_mat(0), t(1.0, 0.0, 0.0));
}

#[test]
fn child_of_root_is_root_times_child() {
    let root = Mat4::from_scale(vec3(2.0, 2.0, 2.0));
    let child = t(1.0, 0.0, 0.0);
    let model = Model::new(vec![node(root, vec![1]), node(child, vec![])], 0, vec![], vec![]).unwrap();
    assert_eq!(model.global_mat(1), root * child);
    assert_eq!(model.global_mat(1), t(2.0, 0.0, 0.0) * Mat4::from_scale(vec3(2.0, 2.0, 2.0)));
}

#[test]
fn deep_chain_multiplies_root_to_leaf() {
    let a = t(1.0, 0.0, 0.0);
    let b = Mat4::from_scale(vec3(3.0, 3.0, 3.0));
    let c = t(0.0, 1.0, 0.0);
    let model = Model::new(
        vec![node(a, vec![2]), node(c, vec![]), node(b, vec![1])],
        0,
        vec![],
        vec![],
    )
    .unwrap();
    assert_eq!(model.global_mat(1), a * b * c);
    assert_eq!(model.global_mat(1), t(1.0, 3.0, 0.0) * Mat4::from_scale(vec3(3.0, 3.0, 3.0)));
    assert_eq!(model.node_path(1), Some(vec![0, 2, 1]));
}

#[test]
fn override_replaces_local_transform() {
    let model = Model::new(
        vec![node(t(1.0, 0.0, 0.0), vec![1]), node(t(0.0, 2.0, 0.0), vec![])],
        0,
        vec![],
        vec![],
    )
    .unwrap();
    let mut change = HashMap::new();
    change.insert(1usize, t(0.0, 0.0, 5.0));
    assert_eq!(model.global_mat_change(1, &change), t(1.0, 0.0, 5.0));
    change.insert(0usize, Mat4::IDENTITY);
    assert_eq!(model.global_mat_change(1, &change), t(0.0, 0.0, 5.0));
    assert_eq!(model.global_mat_change(0, &change), Mat4::IDENTITY);
}

#[test]
fn disconnected_node_uses_its_own_transform() {
    let model = Model::new(
        vec![node(t(1.0, 0.0, 0.0), vec![]), node(t(0.0, 2.0, 0.0), vec![])],
        0,
        vec![],
        vec![],
    )
    .unwrap();
    assert_eq!(model.node_path(1), None);
    assert_eq!(model.global_mat(1), t(0.0, 2.0, 0.0));
    let mut change = HashMap::new();
    change.insert(1usize, t(7.0, 0.0, 0.0));
    assert_eq!(model.global_mat_change(1, &change), t(7.0, 0.0, 0.0));
}

#[test]
fn node_without_skin_has_no_joint_matrices() {
    let model = Model::new(
        vec![node(t(1.0, 0.0, 0.0), vec![1]), node(t(0.0, 2.0, 0.0), vec![])],
        0,
        vec![],
        vec![],
    )
    .unwrap();
    assert_eq!(model.joint_mat(0), None);
    assert_eq!(model.joint_mat(1), None);
    assert_eq!(model.joint_mat_change(1, &HashMap::new()), None);
}

#[test]
fn joint_matrices_follow_joint_order() {
    let mut skinned = node(Mat4::IDENTITY, vec![]);
    skinned.skin = Some(0);
    let nodes = vec![
        node(t(1.0, 0.0, 0.0), vec![1, 2, 3]),
        node(t(0.0, 2.0, 0.0), vec![]),
        node(t(0.0, 0.0, 3.0), vec![]),
        skinned,
    ];
    let ib1 = t(0.0, -2.0, 0.0);
    let ib2 = Mat4::from_scale(vec3(2.0, 2.0, 2.0));
    let skin = Skin { joints: vec![2, 1], inverse_bind: vec![ib2, ib1] };
    let model = Model::new(nodes, 0, vec![skin], vec![]).unwrap();
    let mats = model.joint_mat(3).unwrap();
    assert_eq!(mats.len(), 2);
    assert_eq!(mats[0], t(1.0, 0.0, 3.0) * ib2);
    assert_eq!(mats[1], t(1.0, 0.0, 0.0));
    let mut change = HashMap::new();
    change.insert(1usize, t(0.0, 4.0, 0.0));
    let mats = model.joint_mat_change(3, &change).unwrap();
    assert_eq!(mats[1], t(1.0, 2.0, 0.0));
}

#[test]
fn rejects_root_out_of_range() {
    let r = Model::new(vec![node(Mat4::IDENTITY, vec![])], 1, vec![], vec![]);
    assert_eq!(r.err(), Some(LoadError::RootOutOfRange));
}

#[test]
fn rejects_child_out_of_range() {
    let r = Model::new(vec![node(Mat4::IDENTITY, vec![3])], 0, vec![], vec![]);
    assert_eq!(r.err(), Some(LoadError::ChildOutOfRange));
}

#[test]
fn rejects_root_as_child() {
    let r = Model::new(
        vec![node(Mat4::IDENTITY, vec![1]), node(Mat4::IDENTITY, vec![0])],
        0,
        vec![],
        vec![],
    );
    assert_eq!(r.err(), Some(LoadError::RootIsChild));
}

#[test]
fn rejects_shared_child() {
    let r = Model::new(
        vec![
            node(Mat4::IDENTITY, vec![1, 2]),
            node(Mat4::IDENTITY, vec![2]),
            node(Mat4::IDENTITY, vec![]),
        ],
        0,
        vec![],
        vec![],
    );
    assert_eq!(r.err(), Some(LoadError::SharedChild));
    let r = Model::new(
        vec![node(Mat4::IDENTITY, vec![1, 1]), node(Mat4::IDENTITY, vec![])],
        0,
        vec![],
        vec![],
    );
    assert_eq!(r.err(), Some(LoadError::SharedChild));
}

#[test]
fn rejects_bad_skins() {
    let mut skinned = node(Mat4::IDENTITY, vec![]);
    skinned.skin = Some(1);
    let r = Model::new(vec![skinned], 0, vec![], vec![]);
    assert_eq!(r.err(), Some(LoadError::SkinOutOfRange));

    let skin = Skin { joints: vec![0, 0], inverse_bind: vec![Mat4::IDENTITY] };
    let r = Model::new(vec![node(Mat4::IDENTITY, vec![])], 0, vec![skin], vec![]);
    assert_eq!(r.err(), Some(LoadError::SkinLengthMismatch));

    let skin = Skin { joints: vec![4], inverse_bind: vec![Mat4::IDENTITY] };
    let r = Model::new(vec![node(Mat4::IDENTITY, vec![])], 0, vec![skin], vec![]);
    assert_eq!(r.err(), Some(LoadError::JointOutOfRange));
}
