//! Abilities: what they are made of, how they are activated and what their effects do.
pub mod types;
pub mod activation;
pub mod effects;
pub mod lifetimes;
pub mod loading;
pub mod manifest;
pub mod phases;
pub mod spawn;
pub mod world;
