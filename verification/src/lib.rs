use vstd::prelude::*;

pub mod ability;
pub mod diagnostics;
pub mod entity;
pub mod gameplay;
pub mod geometry;
pub mod health_bar;
pub mod hierarchy;
pub mod hit_detection;
pub mod map;
pub mod names;
pub mod network;
pub mod physics;
pub mod player;
pub mod ranking;
pub mod scalar;
pub mod seqs;
pub mod sprite_rig;
pub mod tick;
pub mod ui;
pub mod vox_model;

verus! {

} // verus!
