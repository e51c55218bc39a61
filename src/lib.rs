//! Skeletal animation of hierarchical models: world transforms of a node
//! tree under per-frame overrides, skinning matrices, keyframe sampling on
//! integer microsecond times and a playback state machine.
pub mod math;
pub mod scene;
pub mod keyframe;
pub mod player;
pub mod gl_define;
