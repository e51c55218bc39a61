use bone_static::keyframe::{stable_order, Channel, Keyframes};
use bone_static::scene::LoadError;
use glam::{vec3, Mat4, Quat};

const SECOND: u64 = 1_000_000;

fn translations(times: Vec<u64>, xs: Vec<f32>) -> Channel {
    let values = xs.into_iter().map(|x| vec3(x, 0.0, 0.0)).collect();
    Channel::new(0, times, Keyframes::Translations(values)).unwrap()
}

#[test]
fn translation_halfway() {
    let ch = translations(vec![0, 2 * SECOND], vec![0.0, 10.0]);
    assert_eq!(ch.sample(SECOND), Some(Mat4::from_translation(vec3(5.0, 0.0, 0.0))));
}

#[test]
fn boundaries_are_exact() {
    let ch = translations(vec![0, SECOND, 3 * SECOND], vec![0.3, 7.1, -2.9]);
    assert_eq!(ch.sample(0), Some(Mat4::from_translation(vec3(0.3, 0.0, 0.0))));
    assert_eq!(ch.sample(3 * SECOND), Some(Mat4::from_translation(vec3(-2.9, 0.0, 0.0))));
    assert_eq!(ch.sample(SECOND), Some(Mat4::from_translation(vec3(7.1, 0.0, 0.0))));
}

#[test]
fn past_the_end_is_none() {
    let ch = translations(vec![0, 2 * SECOND], vec![0.0, 10.0]);
    assert_eq!(ch.sample(2 * SECOND + 1), None);
    assert_eq!(ch.sample(u64::MAX), None);
    assert!(ch.sample(2 * SECOND).is_some());
    assert_eq!(ch.last_time(), 2 * SECOND);
}

#[test]
fn unsorted_keyframes_are_sorted_with_their_values() {
    let ch = translations(vec![2 * SECOND, 0], vec![10.0, 0.0]);
    assert_eq!(ch.sample(0), Some(Mat4::from_translation(vec3(0.0, 0.0, 0.0))));
    assert_eq!(ch.sample(SECOND), Some(Mat4::from_translation(vec3(5.0, 0.0, 0.0))));
    assert_eq!(ch.last_time(), 2 * SECOND);
}

#[test]
fn stable_order_keeps_ties() {
    assert_eq!(stable_order(&vec![5, 1, 5, 0, 1]), vec![3, 1, 4, 0, 2]);
    assert_eq!(stable_order(&vec![]), Vec::<usize>::new());
}

#[test]
fn duplicate_times_take_the_first_value() {
    let ch = translations(vec![0, SECOND, SECOND, 2 * SECOND], vec![0.0, 4.0, 8.0, 10.0]);
    assert_eq!(ch.sample(SECOND), Some(Mat4::from_translation(vec3(4.0, 0.0, 0.0))));
    assert_eq!(ch.sample(SECOND + SECOND / 2), Some(Mat4::from_translation(vec3(9.0, 0.0, 0.0))));
}

#[test]
fn before_the_first_keyframe_extrapolates_the_first_interval() {
    let ch = translations(vec![SECOND, 2 * SECOND], vec![1.0, 3.0]);
    assert_eq!(ch.sample(0), Some(Mat4::from_translation(vec3(-1.0, 0.0, 0.0))));
    assert_eq!(ch.sample(SECOND / 2), Some(Mat4::from_translation(vec3(0.0, 0.0, 0.0))));
    assert_eq!(ch.sample(SECOND), Some(Mat4::from_translation(vec3(1.0, 0.0, 0.0))));
}

#[test]
fn before_a_zero_length_first_interval_gives_the_first_value() {
    let ch = translations(vec![SECOND, SECOND, 2 * SECOND], vec![1.0, 5.0, 3.0]);
    assert_eq!(ch.sample(0), Some(Mat4::from_translation(vec3(1.0, 0.0, 0.0))));
}

#[test]
fn single_keyframe() {
    let ch = translations(vec![SECOND], vec![6.0]);
    assert_eq!(ch.sample(SECOND), Some(Mat4::from_translation(vec3(6.0, 0.0, 0.0))));
    assert_eq!(ch.sample(0), Some(Mat4::from_translation(vec3(6.0, 0.0, 0.0))));
    assert_eq!(ch.sample(SECOND + 1), None);
}

#[test]
fn rotation_is_slerped() {
    let a = Quat::IDENTITY;
    let b = Quat::from_rotation_z(std::f32::consts::FRAC_PI_2);
    let ch = Channel::new(0, vec![0, 2 * SECOND], Keyframes::Rotations(vec![a, b])).unwrap();
    let m = ch.sample(SECOND).unwrap();
    let expected = Mat4::from_quat(Quat::from_rotation_z(std::f32::consts::FRAC_PI_4));
    assert!(m.abs_diff_eq(expected, 1e-5));
    assert_ne!(m, Mat4::from_quat(a));
    assert_eq!(ch.sample(2 * SECOND), Some(Mat4::from_quat(b)));
}

#[test]
fn scale_is_lerped() {
    let ch = Channel::new(
        0,
        vec![0, 4 * SECOND],
        Keyframes::Scales(vec![vec3(1.0, 1.0, 1.0), vec3(3.0, 5.0, 1.0)]),
    )
    .unwrap();
    assert_eq!(ch.sample(SECOND), Some(Mat4::from_scale(vec3(1.5, 2.0, 1.0))));
}

#[test]
fn rejects_empty_channel() {
    let r = Channel::new(0, vec![], Keyframes::Translations(vec![]));
    assert_eq!(r.err(), Some(LoadError::EmptyKeyframes));
}

#[test]
fn rejects_length_mismatch() {
    let r = Channel::new(0, vec![0, 1], Keyframes::Scales(vec![vec3(1.0, 1.0, 1.0)]));
    assert_eq!(r.err(), Some(LoadError::KeyframeLengthMismatch));
}
