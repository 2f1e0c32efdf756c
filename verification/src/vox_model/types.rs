//! Voxels of a model.
use vstd::prelude::*;

verus! {

/// `block_mesh::VoxelVisibility`, whether a voxel can be seen through; its variants have no fields.
#[verifier::external_type_specification]
pub struct ExVoxelVisibility(block_mesh::VoxelVisibility);

/// A voxel of a model.
#[derive(Clone, Copy, Debug, PartialEq, Eq, Structural)]
pub enum VoxModelVoxel {
    Empty,
    /// Filled with the colour at an index of the palette.
    Filled(u8),
}

impl Default for VoxModelVoxel {
    fn default() -> (voxel: VoxModelVoxel)
        ensures
            voxel == VoxModelVoxel::Empty,
    {
        VoxModelVoxel::Empty
    }
}

impl VoxModelVoxel {
    /// The value by which neighbouring voxels are merged: the colour, or zero.
    pub open spec fn merge_key(self) -> u8 {
        match self {
            VoxModelVoxel::Filled(index) => index,
            VoxModelVoxel::Empty => 0,
        }
    }

    /// The value by which neighbouring voxels are merged.
    pub fn merge_value(&self) -> (value: u8)
        ensures
            value == self.merge_key(),
    {
        match self {
            VoxModelVoxel::Filled(index) => *index,
            VoxModelVoxel::Empty => 0,
        }
    }

    /// The value by which the voxels that a face looks at are merged; it is that of the face's own.
    pub fn merge_value_facing_neighbour(&self) -> (value: u8)
        ensures
            value == self.merge_key(),
    {
        self.merge_value()
    }
}

impl block_mesh::Voxel for VoxModelVoxel {
    fn get_visibility(&self) -> (visibility: block_mesh::VoxelVisibility)
        ensures
            visibility == match *self {
                VoxModelVoxel::Empty => block_mesh::VoxelVisibility::Empty,
                VoxModelVoxel::Filled(_) => block_mesh::VoxelVisibility::Opaque,
            },
    {
        match self {
            VoxModelVoxel::Empty => block_mesh::VoxelVisibility::Empty,
            VoxModelVoxel::Filled(_) => block_mesh::VoxelVisibility::Opaque,
        }
    }
}

impl block_mesh::MergeVoxel for VoxModelVoxel {
    type MergeValue = u8;

    fn merge_value(&self) -> (value: u8)
        ensures
            value == self.merge_key(),
    {
        match self {
            VoxModelVoxel::Filled(index) => *index,
            VoxModelVoxel::Empty => 0,
        }
    }
}

/// A colour of a palette.
#[derive(Clone, Copy, Debug, PartialEq, Eq, Structural)]
pub struct PaletteColor {
    pub r: u8,
    pub g: u8,
    pub b: u8,
    pub a: u8,
}

/// The colour at an index of the palette, if there is one.
pub fn palette_color(palette: &Vec<PaletteColor>, index: u8) -> (color: Option<PaletteColor>)
    ensures
        color == (if (index as int) < palette@.len() {
            Some(palette@[index as int])
        } else {
            None
        }),
{
    if (index as usize) < palette.len() {
        Some(palette[index as usize])
    } else {
        None
    }
}

} // verus!
