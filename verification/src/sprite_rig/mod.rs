//! Two-dimensional characters: skeletons of bones with pictures on them, and their animations.
pub mod animation;
pub mod bones;
pub mod clips;
pub mod graph;
pub mod mesh;
