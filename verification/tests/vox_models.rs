use block_mesh::{Voxel, VoxelVisibility};
use lightyear_arena::vox_model::meshing::{
    is_meshable, mesh_vox_model, padded_dimensions, rasterize_model, GridShape, ModelSize,
    ModelVoxel, VoxModel,
};
use lightyear_arena::vox_model::types::{palette_color, PaletteColor, VoxModelVoxel};

fn make_palette() -> Vec<PaletteColor> {
    (0..=255u8).map(|i| PaletteColor { r: i, g: 255 - i, b: i / 2, a: 255 }).collect()
}

fn make_2x2x2_model() -> VoxModel {
    let mut voxels = Vec::new();
    for x in 0..2u8 {
        for y in 0..2u8 {
            for z in 0..2u8 {
                voxels.push(ModelVoxel { x, y, z, i: x * 4 + y * 2 + z });
            }
        }
    }
    VoxModel { size: ModelSize { x: 2, y: 2, z: 2 }, voxels }
}

fn single_voxel(size: ModelSize, voxel: ModelVoxel) -> VoxModel {
    VoxModel { size, voxels: vec![voxel] }
}

#[test]
fn mesh_2x2x2_has_expected_attributes() {
    let model = make_2x2x2_model();
    assert!(is_meshable(&model));
    let mesh = mesh_vox_model(&model)
        .expect("few quads")
        .expect("2x2x2 model should produce a mesh");
    let palette = make_palette();
    assert!(mesh.quads.iter().all(|q| palette_color(&palette, q.palette_index).is_some()));

    let vertex_count = mesh.quads.len() * 4;
    let index_count = mesh.indices.len();
    assert_eq!(vertex_count % 4, 0);
    assert_eq!(index_count % 6, 0);
    assert_eq!(index_count / 6, vertex_count / 4);
    assert!(vertex_count > 0, "2x2x2 solid cube should produce vertices");
    assert!(mesh.indices.iter().all(|i| (*i as usize) < vertex_count));
}

#[test]
fn empty_model_returns_none() {
    let model = VoxModel { size: ModelSize { x: 4, y: 4, z: 4 }, voxels: vec![] };
    assert!(mesh_vox_model(&model).expect("few quads").is_none());
}

#[test]
fn rasterize_maps_magicavoxel_coords_to_bevy_coords() {
    let model = single_voxel(
        ModelSize { x: 4, y: 4, z: 4 },
        ModelVoxel { x: 1, y: 2, z: 3, i: 42 },
    );
    let shape = padded_dimensions(&model.size);
    assert_eq!(shape, GridShape { x: 6, y: 6, z: 6 });
    let voxels = rasterize_model(&model.voxels, shape);
    let pos = [1usize + 1, 3 + 1, 2 + 1];
    let idx = pos[0] + 6 * pos[1] + 36 * pos[2];
    assert_eq!(voxels[idx], VoxModelVoxel::Filled(42));
    assert_eq!(voxels.iter().filter(|v| **v != VoxModelVoxel::Empty).count(), 1);
}

#[test]
fn one_voxel_has_six_sides() {
    let model = single_voxel(
        ModelSize { x: 3, y: 4, z: 5 },
        ModelVoxel { x: 0, y: 1, z: 2, i: 9 },
    );
    let mesh = mesh_vox_model(&model).expect("few quads").expect("a visible voxel");
    assert_eq!(mesh.quads.len(), 6);
    for (face, quad) in mesh.quads.iter().enumerate() {
        assert_eq!(quad.face, face);
        assert_eq!(quad.palette_index, 9);
        assert_eq!((quad.quad.x, quad.quad.y, quad.quad.z), (1, 3, 2));
        assert_eq!((quad.quad.width, quad.quad.height), (1, 1));
    }
    assert_eq!(&mesh.indices[0..6], &[0, 1, 2, 1, 3, 2]);
    assert_eq!(&mesh.indices[6..12], &[4, 6, 5, 5, 6, 7]);
}

#[test]
fn neighbours_of_one_colour_are_merged() {
    let voxels = (0..4u8).map(|x| ModelVoxel { x, y: 0, z: 0, i: 3 }).collect();
    let model = VoxModel { size: ModelSize { x: 4, y: 1, z: 1 }, voxels };
    let mesh = mesh_vox_model(&model).expect("few quads").expect("visible voxels");
    assert_eq!(mesh.quads.len(), 6);
    assert!(mesh.quads.iter().any(|q| q.quad.width == 4 || q.quad.height == 4));
}

#[test]
fn later_voxels_win() {
    let shape = padded_dimensions(&ModelSize { x: 1, y: 1, z: 1 });
    let voxels = vec![
        ModelVoxel { x: 0, y: 0, z: 0, i: 1 },
        ModelVoxel { x: 0, y: 0, z: 0, i: 2 },
    ];
    let cells = rasterize_model(&voxels, shape);
    assert_eq!(cells[1 + 3 + 9], VoxModelVoxel::Filled(2));
}

#[test]
fn misplaced_voxels_and_huge_models_cannot_be_meshed() {
    let outside = single_voxel(
        ModelSize { x: 1, y: 1, z: 1 },
        ModelVoxel { x: 0, y: 9, z: 0, i: 1 },
    );
    assert!(!is_meshable(&outside));
    let huge = VoxModel { size: ModelSize { x: 4_000_000, y: 4_000_000, z: 4 }, voxels: vec![] };
    assert!(!is_meshable(&huge));
    let large = VoxModel { size: ModelSize { x: 1, y: 0x8000, z: 0x8000 }, voxels: vec![] };
    assert!(is_meshable(&large));
    let endless = VoxModel { size: ModelSize { x: u32::MAX, y: 1, z: 1 }, voxels: vec![] };
    assert!(!is_meshable(&endless));
}

#[test]
fn palettes_may_be_short() {
    let palette = vec![PaletteColor { r: 1, g: 2, b: 3, a: 4 }];
    assert_eq!(palette_color(&palette, 0), Some(palette[0]));
    assert_eq!(palette_color(&palette, 1), None);
}

#[test]
fn voxels_are_opaque_and_merge_by_colour() {
    assert_eq!(VoxModelVoxel::default(), VoxModelVoxel::Empty);
    assert!(matches!(VoxModelVoxel::Empty.get_visibility(), VoxelVisibility::Empty));
    assert!(matches!(VoxModelVoxel::Filled(0).get_visibility(), VoxelVisibility::Opaque));
    assert_eq!(VoxModelVoxel::Filled(7).merge_value(), 7);
    assert_eq!(VoxModelVoxel::Filled(7).merge_value_facing_neighbour(), 7);
    assert_eq!(VoxModelVoxel::Empty.merge_value(), 0);
}
