use bone_static::keyframe::{Channel, Keyframes};
use bone_static::player::{PlayMode, PlayState};
use bone_static::scene::{LoadError, Model, Node, Skin};
use glam::{vec3, Mat4, Quat};

const SECOND: u64 = 1_000_000;

fn t(x: f32, y: f32, z: f32) -> Mat4 {
    Mat4::from_translation(vec3(x, y, z))
}

/// Root (mesh 0) with one child joint; a skinned mesh node; the joint moves
/// from x = 0 to x = 10 over two seconds.
fn model() -> Model {
    let root = Node { local: t(0.0, 1.0, 0.0), children: vec![1, 2], mesh: Some(0), skin: None };
    let joint = Node { local: t(0.0, 0.0, 0.0), children: vec![], mesh: None, skin: None };
    let skinned = Node { local: Mat4::IDENTITY, children: vec![], mesh: Some(1), skin: Some(0) };
    let skin = Skin { joints: vec![1], inverse_bind: vec![Mat4::IDENTITY] };
    let channel = Channel::new(
        1,
        vec![0, 2 * SECOND],
        Keyframes::Translations(vec![vec3(0.0, 0.0, 0.0), vec3(10.0, 0.0, 0.0)]),
    )
    .unwrap();
    Model::new(vec![root, joint, skinned], 0, vec![skin], vec![channel]).unwrap()
}

fn joint_x(model: &Model, time: u64) -> Vec<Mat4> {
    let mut p = model.player();
    p.time(time);
    p.update_animation(PlayMode::Once);
    p.meshes()[1].joints_mat.clone().unwrap()
}

#[test]
fn new_player_holds_bind_pose() {
    let model = model();
    let p = model.player();
    assert_eq!(p.state(), PlayState::Idle);
    assert_eq!(p.current_time(), 0);
    let meshes = p.meshes();
    assert_eq!(meshes.len(), 2);
    assert_eq!(meshes[0].node, 0);
    assert_eq!(meshes[1].node, 2);
    assert_eq!(meshes[0].transfrom, t(0.0, 1.0, 0.0));
    assert!(meshes[0].joints_mat.is_none());
    assert_eq!(meshes[1].joints_mat, Some(vec![t(0.0, 1.0, 0.0)]));
}

#[test]
fn evaluate_poses_joints() {
    let model = model();
    let mut p = model.player();
    p.time_add(SECOND);
    p.update_animation(PlayMode::Once);
    assert_eq!(p.state(), PlayState::Playing);
    assert_eq!(p.meshes()[1].joints_mat, Some(vec![t(5.0, 1.0, 0.0)]));
    assert_eq!(p.meshes()[1].transfrom, t(0.0, 1.0, 0.0));
}

#[test]
fn once_past_the_end_finishes_at_the_end_pose() {
    let model = model();
    let mut p = model.player();
    p.time_add(3 * SECOND);
    p.update_animation(PlayMode::Once);
    assert_eq!(p.state(), PlayState::Finished);
    assert_eq!(p.current_time(), 3 * SECOND);
    assert_eq!(p.meshes()[1].joints_mat, Some(joint_x(&model, 2 * SECOND)));
    assert_eq!(p.meshes()[1].joints_mat, Some(vec![t(10.0, 1.0, 0.0)]));
    p.time_add(SECOND);
    p.update_animation(PlayMode::Once);
    assert_eq!(p.state(), PlayState::Finished);
    assert_eq!(p.current_time(), 4 * SECOND);
    assert_eq!(p.meshes()[1].joints_mat, Some(vec![t(10.0, 1.0, 0.0)]));
}

#[test]
fn repeat_past_the_end_restarts() {
    let model = model();
    let mut p = model.player();
    p.time_add(SECOND);
    p.update_animation(PlayMode::Repeat(0));
    p.time_add(SECOND + SECOND / 2);
    p.update_animation(PlayMode::Repeat(0));
    assert_eq!(p.current_time(), 0);
    assert_eq!(p.state(), PlayState::Playing);
    assert_eq!(p.meshes()[1].joints_mat, Some(joint_x(&model, 0)));
    assert_eq!(p.meshes()[1].joints_mat, Some(vec![t(0.0, 1.0, 0.0)]));
}

#[test]
fn repeat_to_a_later_start() {
    let model = model();
    let mut p = model.player();
    p.time(5 * SECOND);
    p.update_animation(PlayMode::Repeat(SECOND));
    assert_eq!(p.current_time(), SECOND);
    assert_eq!(p.meshes()[1].joints_mat, Some(vec![t(5.0, 1.0, 0.0)]));
}

#[test]
fn evaluating_twice_gives_the_same_pose() {
    let model = model();
    let mut p = model.player();
    p.time_add(SECOND / 2);
    p.update_animation(PlayMode::Repeat(0));
    let first: Vec<(Mat4, Option<Vec<Mat4>>)> =
        p.meshes().iter().map(|m| (m.transfrom, m.joints_mat.clone())).collect();
    p.update_animation(PlayMode::Repeat(0));
    let second: Vec<(Mat4, Option<Vec<Mat4>>)> =
        p.meshes().iter().map(|m| (m.transfrom, m.joints_mat.clone())).collect();
    assert_eq!(first, second);
    assert_eq!(p.meshes()[1].joints_mat, Some(vec![t(2.5, 1.0, 0.0)]));
}

#[test]
fn channels_on_one_node_compose_by_multiplication() {
    let root = Node { local: Mat4::IDENTITY, children: vec![1], mesh: None, skin: None };
    let child = Node { local: t(9.0, 9.0, 9.0), children: vec![], mesh: Some(0), skin: None };
    let translate = Channel::new(
        1,
        vec![0, SECOND],
        Keyframes::Translations(vec![vec3(2.0, 0.0, 0.0), vec3(2.0, 0.0, 0.0)]),
    )
    .unwrap();
    let rotate = Channel::new(
        1,
        vec![0, SECOND],
        Keyframes::Rotations(vec![Quat::from_rotation_z(1.0), Quat::from_rotation_z(1.0)]),
    )
    .unwrap();
    let model = Model::new(vec![root, child], 0, vec![], vec![translate, rotate]).unwrap();
    let mut p = model.player();
    p.update_animation(PlayMode::Once);
    let expected = t(2.0, 0.0, 0.0) * Mat4::from_quat(Quat::from_rotation_z(1.0));
    assert_eq!(p.meshes()[0].transfrom, expected);
}

#[test]
fn rejects_channel_target_out_of_range() {
    let root = Node { local: Mat4::IDENTITY, children: vec![], mesh: None, skin: None };
    let ch = Channel::new(4, vec![0], Keyframes::Scales(vec![vec3(1.0, 1.0, 1.0)])).unwrap();
    let r = Model::new(vec![root], 0, vec![], vec![ch]);
    assert_eq!(r.err(), Some(LoadError::TargetOutOfRange));
}

#[test]
fn no_channels_keeps_bind_pose() {
    let root = Node { local: t(1.0, 0.0, 0.0), children: vec![], mesh: Some(0), skin: None };
    let model = Model::new(vec![root], 0, vec![], vec![]).unwrap();
    let mut p = model.player();
    p.time_add(10 * SECOND);
    p.update_animation(PlayMode::Once);
    assert_eq!(p.state(), PlayState::Playing);
    assert_eq!(p.meshes()[0].transfrom, t(1.0, 0.0, 0.0));
}
