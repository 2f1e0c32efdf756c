//! Voxel models: from a list of coloured voxels to the quads of a mesh.
pub mod meshing;
pub mod types;
