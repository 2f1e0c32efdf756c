//! Turning a voxel model into quads.
use crate::seqs::cuts;
use crate::vox_model::types::VoxModelVoxel;
use block_mesh::{greedy_quads, GreedyQuadsBuffer, RIGHT_HANDED_Y_UP_CONFIG};
use ndshape::{RuntimeShape, Shape};
use vstd::prelude::*;

verus! {

/// The extent of a model, with its z axis pointing up.
#[derive(Clone, Copy, Debug, PartialEq, Eq, Structural)]
pub struct ModelSize {
    pub x: u32,
    pub y: u32,
    pub z: u32,
}

/// A voxel of a model, with its z axis pointing up, and the index of its colour.
#[derive(Clone, Copy, Debug, PartialEq, Eq, Structural)]
pub struct ModelVoxel {
    pub x: u8,
    pub y: u8,
    pub z: u8,
    pub i: u8,
}

/// A voxel model.
#[derive(Debug)]
pub struct VoxModel {
    pub size: ModelSize,
    pub voxels: Vec<ModelVoxel>,
}

/// The extent of a grid of cells, with its y axis pointing up. Cells are numbered along x first,
/// then along y, then along z.
#[derive(Clone, Copy, Debug, PartialEq, Eq, Structural)]
pub struct GridShape {
    pub x: u32,
    pub y: u32,
    pub z: u32,
}

/// The most cells that a grid to be meshed may have: as many as can be numbered.
pub const MAX_CELLS: u32 = 0xffff_ffff;

impl GridShape {
    /// The number of cells.
    pub open spec fn cells(self) -> int {
        self.x * self.y * self.z
    }

    /// The number of the cell at the given coordinates.
    pub open spec fn index(self, x: int, y: int, z: int) -> int {
        x + self.x * y + self.x * self.y * z
    }

    /// Whether a grid can be meshed: it has a border on each side, and not too many cells.
    pub open spec fn meshable(self) -> bool {
        &&& self.x >= 2
        &&& self.y >= 2
        &&& self.z >= 2
        &&& self.cells() <= MAX_CELLS
    }

    /// Whether a cell has neighbours on all sides.
    pub open spec fn is_interior(self, x: int, y: int, z: int) -> bool {
        1 <= x < self.x - 1 && 1 <= y < self.y - 1 && 1 <= z < self.z - 1
    }
}

/// `RuntimeShape::usize`, of the shape that `RuntimeShape::new` makes: the number of cells.
///
/// `RuntimeShape::new` multiplies the extents from the left, and must not overflow.
#[verifier::external_body]
fn shape_usize(shape: GridShape) -> (cells: usize)
    requires
        shape.x * shape.y <= u32::MAX,
        shape.cells() <= u32::MAX,
    ensures
        cells == shape.cells(),
{
    RuntimeShape::<u32, 3>::new([shape.x, shape.y, shape.z]).usize()
}

/// `RuntimeShape::linearize`, of the shape that `RuntimeShape::new` makes: the number of a cell.
///
/// It adds up the coordinates times their strides, and must not overflow.
#[verifier::external_body]
fn shape_linearize(shape: GridShape, x: u32, y: u32, z: u32) -> (index: u32)
    requires
        shape.x * shape.y <= u32::MAX,
        shape.cells() <= u32::MAX,
        shape.index(x as int, y as int, z as int) <= u32::MAX,
    ensures
        index == shape.index(x as int, y as int, z as int),
{
    RuntimeShape::<u32, 3>::new([shape.x, shape.y, shape.z]).linearize([x, y, z])
}

/// A rectangle of cell faces: the first of its cells, and its extent.
#[derive(Clone, Copy, Debug, PartialEq, Eq, Structural)]
pub struct Quad {
    pub x: u32,
    pub y: u32,
    pub z: u32,
    pub width: u32,
    pub height: u32,
}

/// The voxel in a cell.
pub open spec fn voxel_at(
    voxels: Seq<VoxModelVoxel>,
    shape: GridShape,
    x: int,
    y: int,
    z: int,
) -> VoxModelVoxel {
    voxels[shape.index(x, y, z)]
}

/// The voxel in the cell that a face looks at. Faces look towards smaller x, y and z, then towards
/// greater x, y and z.
pub open spec fn voxel_faced(
    voxels: Seq<VoxModelVoxel>,
    shape: GridShape,
    face: int,
    x: int,
    y: int,
    z: int,
) -> VoxModelVoxel {
    if face == 0 {
        voxel_at(voxels, shape, x - 1, y, z)
    } else if face == 1 {
        voxel_at(voxels, shape, x, y - 1, z)
    } else if face == 2 {
        voxel_at(voxels, shape, x, y, z - 1)
    } else if face == 3 {
        voxel_at(voxels, shape, x + 1, y, z)
    } else if face == 4 {
        voxel_at(voxels, shape, x, y + 1, z)
    } else {
        voxel_at(voxels, shape, x, y, z + 1)
    }
}

/// Whether a face of a cell can be seen: the cell is filled, and the one it looks at is not.
pub open spec fn face_visible(
    voxels: Seq<VoxModelVoxel>,
    shape: GridShape,
    face: int,
    x: int,
    y: int,
    z: int,
) -> bool {
    &&& shape.is_interior(x, y, z)
    &&& voxel_at(voxels, shape, x, y, z) is Filled
    &&& voxel_faced(voxels, shape, face, x, y, z) is Empty
}

/// Whether a quad starts at a filled cell of the interior.
pub open spec fn starts_filled(voxels: Seq<VoxModelVoxel>, shape: GridShape, quad: Quad) -> bool {
    &&& shape.is_interior(quad.x as int, quad.y as int, quad.z as int)
    &&& voxel_at(voxels, shape, quad.x as int, quad.y as int, quad.z as int) is Filled
}

/// The quads into which greedy meshing merges the visible faces of a grid, for each face.
pub uninterp spec fn greedy_quads_of(voxels: Seq<VoxModelVoxel>, x: u32, y: u32, z: u32) -> Seq<
    Seq<Quad>,
>;

/// `block_mesh::greedy_quads`, with the faces of `RIGHT_HANDED_Y_UP_CONFIG`, over a whole grid.
///
/// The quads of each face are a function of the voxels and the grid's extent. There are six faces. A
/// quad starts at a filled cell of the interior, and a face of which something can be seen has a
/// quad. How faces are merged into quads is not stated.
#[verifier::external_body]
fn greedy_quad_groups(
    voxels: &Vec<VoxModelVoxel>,
    shape: GridShape,
    min: GridShape,
    max: GridShape,
) -> (groups: Vec<Vec<Quad>>)
    requires
        shape.meshable(),
        voxels@.len() == shape.cells(),
        min == (GridShape { x: 0, y: 0, z: 0 }),
        max.x == shape.x - 1,
        max.y == shape.y - 1,
        max.z == shape.z - 1,
    ensures
        groups@.len() == 6,
        groups@.map_values(|g: Vec<Quad>| g@) == greedy_quads_of(
            voxels@,
            shape.x,
            shape.y,
            shape.z,
        ),
        forall|f: int, k: int|
            0 <= f < 6 && 0 <= k < groups@[f]@.len() ==> starts_filled(
                voxels@,
                shape,
                #[trigger] groups@[f]@[k],
            ),
        forall|f: int, x: int, y: int, z: int|
            0 <= f < 6 && #[trigger] face_visible(voxels@, shape, f, x, y, z) ==> groups@[f]@.len()
                > 0,
{
    let mut buffer = GreedyQuadsBuffer::new(voxels.len());
    greedy_quads(
        voxels,
        &RuntimeShape::<u32, 3>::new([shape.x, shape.y, shape.z]),
        [min.x, min.y, min.z],
        [max.x, max.y, max.z],
        &RIGHT_HANDED_Y_UP_CONFIG.faces,
        &mut buffer,
    );
    let quad = |q: &block_mesh::UnorientedQuad| {
        let [x, y, z] = q.minimum;
        Quad { x, y, z, width: q.width, height: q.height }
    };
    buffer.quads.groups.iter().map(|group| group.iter().map(quad).collect()).collect()
}

/// Whether the triangles of a face's quads start with the corners in their order.
pub open spec fn winds_forward(face: int) -> bool {
    face == 0 || face == 4 || face == 5
}

/// The corners of the two triangles of a quad whose first corner is `start`.
pub open spec fn face_indices(face: int, start: int) -> Seq<u32> {
    if winds_forward(face) {
        seq![
            start as u32,
            (start + 1) as u32,
            (start + 2) as u32,
            (start + 1) as u32,
            (start + 3) as u32,
            (start + 2) as u32,
        ]
    } else {
        seq![
            start as u32,
            (start + 2) as u32,
            (start + 1) as u32,
            (start + 1) as u32,
            (start + 2) as u32,
            (start + 3) as u32,
        ]
    }
}

/// `OrientedBlockFace::quad_mesh_indices`, of a face of `RIGHT_HANDED_Y_UP_CONFIG`: the corners of a
/// quad's triangles, wound so that the quad is seen from outside.
#[verifier::external_body]
fn face_quad_indices(face: usize, start: u32) -> (indices: [u32; 6])
    requires
        face < 6,
        start + 3 <= u32::MAX,
    ensures
        indices@ == face_indices(face as int, start as int),
{
    RIGHT_HANDED_Y_UP_CONFIG.faces[face].quad_mesh_indices(start)
}

/// The grid that holds a model: its y and z axes are swapped, and it has a border on each side.
pub open spec fn padded_shape(size: ModelSize) -> GridShape {
    GridShape { x: (size.x + 2) as u32, y: (size.z + 2) as u32, z: (size.y + 2) as u32 }
}

/// Whether the grid that holds a model can be meshed.
pub open spec fn size_meshable(size: ModelSize) -> bool {
    &&& size.x + 2 <= u32::MAX
    &&& size.y + 2 <= u32::MAX
    &&& size.z + 2 <= u32::MAX
    &&& padded_shape(size).meshable()
}

pub fn padded_dimensions(size: &ModelSize) -> (shape: GridShape)
    requires
        size.x + 2 <= u32::MAX,
        size.y + 2 <= u32::MAX,
        size.z + 2 <= u32::MAX,
    ensures
        shape == padded_shape(*size),
{
    GridShape { x: size.x + 2, y: size.z + 2, z: size.y + 2 }
}

/// The number of the cell that a voxel of a model goes to.
pub open spec fn cell_of(shape: GridShape, voxel: ModelVoxel) -> int {
    shape.index(voxel.x + 1, voxel.z + 1, voxel.y + 1)
}

/// Whether all voxels of a model have a cell.
pub open spec fn voxels_have_cells(voxels: Seq<ModelVoxel>, shape: GridShape) -> bool {
    forall|j: int| 0 <= j < voxels.len() ==> cell_of(shape, #[trigger] voxels[j]) < shape.cells()
}

/// What the first `n` voxels put into the cell of the given number: the last that goes there wins.
pub open spec fn cell_content(
    voxels: Seq<ModelVoxel>,
    n: int,
    shape: GridShape,
    cell: int,
) -> VoxModelVoxel
    decreases n,
{
    if n <= 0 {
        VoxModelVoxel::Empty
    } else if cell_of(shape, voxels[n - 1]) == cell {
        VoxModelVoxel::Filled(voxels[n - 1].i)
    } else {
        cell_content(voxels, n - 1, shape, cell)
    }
}

/// The cells of the grid that holds a model.
pub open spec fn rasterized(voxels: Seq<ModelVoxel>, shape: GridShape) -> Seq<VoxModelVoxel> {
    Seq::new(
        shape.cells() as nat,
        |cell: int| cell_content(voxels, voxels.len() as int, shape, cell),
    )
}

proof fn lemma_shape_bounds(shape: GridShape)
    requires
        shape.meshable(),
    ensures
        shape.x * shape.y <= u32::MAX,
        0 <= shape.cells() <= MAX_CELLS,
{
    let a = shape.x as int;
    let b = shape.y as int;
    let c = shape.z as int;
    assert(a * b <= a * b * c) by (nonlinear_arith)
        requires
            a >= 2,
            b >= 2,
            c >= 2,
    ;
}

/// Puts the voxels of a model into the cells of a grid.
pub fn rasterize_model(voxels: &Vec<ModelVoxel>, shape: GridShape) -> (cells: Vec<VoxModelVoxel>)
    requires
        shape.meshable(),
        voxels_have_cells(voxels@, shape),
    ensures
        cells@ == rasterized(voxels@, shape),
{
    proof {
        lemma_shape_bounds(shape);
    }
    let count: usize = shape_usize(shape);
    let mut cells: Vec<VoxModelVoxel> = Vec::new();
    let mut k: usize = 0;
    while k < count
        invariant
            k <= count,
            cells@.len() == k,
            forall|c: int| 0 <= c < k ==> #[trigger] cells@[c] == VoxModelVoxel::Empty,
        decreases count - k,
    {
        cells.push(VoxModelVoxel::Empty);
        k = k + 1;
    }
    let mut i: usize = 0;
    while i < voxels.len()
        invariant
            i <= voxels@.len(),
            shape.meshable(),
            shape.x * shape.y <= u32::MAX,
            shape.cells() <= MAX_CELLS,
            voxels_have_cells(voxels@, shape),
            cells@.len() == shape.cells(),
            forall|c: int|
                0 <= c < cells@.len() ==> #[trigger] cells@[c] == cell_content(
                    voxels@,
                    i as int,
                    shape,
                    c,
                ),
        decreases voxels@.len() - i,
    {
        let v = voxels[i];
        assert(cell_of(shape, voxels@[i as int]) < shape.cells());
        let cell: u32 = shape_linearize(shape, v.x as u32 + 1, v.z as u32 + 1, v.y as u32 + 1);
        cells.set(cell as usize, VoxModelVoxel::Filled(v.i));
        i = i + 1;
    }
    assert(cells@ =~= rasterized(voxels@, shape));
    cells
}

/// A quad of a mesh: the face it is on, and the index of its colour.
#[derive(Clone, Copy, Debug, PartialEq, Eq, Structural)]
pub struct MeshQuad {
    pub face: usize,
    pub quad: Quad,
    pub palette_index: u8,
}

/// The quads of a mesh, with four corners each, and the corners of their triangles.
#[derive(Debug)]
pub struct VoxMesh {
    pub quads: Vec<MeshQuad>,
    pub indices: Vec<u32>,
}

/// A quad has the colour of the cell it starts at.
pub open spec fn mesh_quad(
    voxels: Seq<VoxModelVoxel>,
    shape: GridShape,
    face: int,
    quad: Quad,
) -> MeshQuad {
    MeshQuad {
        face: face as usize,
        quad,
        palette_index: voxel_at(voxels, shape, quad.x as int, quad.y as int, quad.z as int).merge_key(),
    }
}

/// The quads of a face.
pub open spec fn face_quads(
    voxels: Seq<VoxModelVoxel>,
    shape: GridShape,
    face: int,
    quads: Seq<Quad>,
) -> Seq<MeshQuad> {
    quads.map_values(|q: Quad| mesh_quad(voxels, shape, face, q))
}

/// The quads of the first `n` faces, face by face.
pub open spec fn quads_of_faces(
    voxels: Seq<VoxModelVoxel>,
    shape: GridShape,
    groups: Seq<Seq<Quad>>,
    n: int,
) -> Seq<MeshQuad>
    decreases n,
{
    if n <= 0 {
        Seq::empty()
    } else {
        quads_of_faces(voxels, shape, groups, n - 1) + face_quads(
            voxels,
            shape,
            n - 1,
            groups[n - 1],
        )
    }
}

/// The corners of the triangles of the first `n` quads.
pub open spec fn indices_of(quads: Seq<MeshQuad>, n: int) -> Seq<u32>
    decreases n,
{
    if n <= 0 {
        Seq::empty()
    } else {
        indices_of(quads, n - 1) + face_indices(quads[n - 1].face as int, 4 * (n - 1))
    }
}

/// The number of quads of the first `n` faces.
pub open spec fn quad_count(groups: Seq<Seq<Quad>>, n: int) -> int
    decreases n,
{
    if n <= 0 {
        0
    } else {
        quad_count(groups, n - 1) + groups[n - 1].len()
    }
}

/// Whether every quad starts at a cell of the grid.
pub open spec fn quads_start_in(shape: GridShape, groups: Seq<Seq<Quad>>) -> bool {
    forall|f: int, k: int|
        0 <= f < groups.len() && 0 <= k < groups[f].len() ==> {
            let q = #[trigger] groups[f][k];
            q.x < shape.x && q.y < shape.y && q.z < shape.z
        }
}

/// The plain contents of grouped quads.
pub open spec fn group_views(groups: Seq<Vec<Quad>>) -> Seq<Seq<Quad>> {
    groups.map_values(|g: Vec<Quad>| g@)
}

proof fn lemma_index_in_grid(shape: GridShape, x: int, y: int, z: int)
    requires
        0 <= x < shape.x,
        0 <= y < shape.y,
        0 <= z < shape.z,
    ensures
        0 <= shape.index(x, y, z) < shape.cells(),
{
    let a = shape.x as int;
    let b = shape.y as int;
    let c = shape.z as int;
    assert(0 <= x + a * y + a * b * z < a * b * c) by (nonlinear_arith)
        requires
            0 <= x < a,
            0 <= y < b,
            0 <= z < c,
    ;
}

proof fn lemma_indices_grow(quads: Seq<MeshQuad>, more: MeshQuad, n: int)
    requires
        0 <= n <= quads.len(),
    ensures
        indices_of(quads.push(more), n) == indices_of(quads, n),
    decreases n,
{
    if n > 0 {
        lemma_indices_grow(quads, more, n - 1);
    }
}

proof fn lemma_quad_count(
    voxels: Seq<VoxModelVoxel>,
    shape: GridShape,
    groups: Seq<Seq<Quad>>,
    n: int,
)
    requires
        0 <= n <= groups.len(),
    ensures
        quads_of_faces(voxels, shape, groups, n).len() == quad_count(groups, n),
    decreases n,
{
    if n > 0 {
        lemma_quad_count(voxels, shape, groups, n - 1);
    }
}

proof fn lemma_count_monotone(groups: Seq<Seq<Quad>>, n: int, m: int)
    requires
        0 <= n <= m <= groups.len(),
    ensures
        0 <= quad_count(groups, n) <= quad_count(groups, m),
    decreases m,
{
    if n < m {
        lemma_count_monotone(groups, n, m - 1);
    } else if n > 0 {
        lemma_count_monotone(groups, n - 1, m - 1);
    }
}

/// Whether `mesh` holds the quads of all faces with their triangles.
pub open spec fn is_mesh_of(
    mesh: VoxMesh,
    voxels: Seq<VoxModelVoxel>,
    shape: GridShape,
    groups: Seq<Seq<Quad>>,
) -> bool {
    &&& mesh.quads@ == quads_of_faces(voxels, shape, groups, groups.len() as int)
    &&& mesh.indices@ == indices_of(mesh.quads@, mesh.quads@.len() as int)
}

/// Lays out the mesh of the quads of each face.
pub fn build_mesh(
    groups: &Vec<Vec<Quad>>,
    voxels: &Vec<VoxModelVoxel>,
    shape: GridShape,
) -> (mesh: VoxMesh)
    requires
        shape.meshable(),
        voxels@.len() == shape.cells(),
        groups@.len() == 6,
        quads_start_in(shape, group_views(groups@)),
        4 * quad_count(group_views(groups@), 6) <= u32::MAX,
    ensures
        is_mesh_of(mesh, voxels@, shape, group_views(groups@)),
{
    let ghost views = group_views(groups@);
    let mut quads: Vec<MeshQuad> = Vec::new();
    let mut indices: Vec<u32> = Vec::new();
    let mut face: usize = 0;
    proof {
        lemma_shape_bounds(shape);
    }
    while face < 6
        invariant
            face <= 6,
            groups@.len() == 6,
            views == group_views(groups@),
            shape.meshable(),
            shape.x * shape.y <= u32::MAX,
            shape.cells() <= MAX_CELLS,
            voxels@.len() == shape.cells(),
            quads_start_in(shape, views),
            4 * quad_count(views, 6) <= u32::MAX,
            quads@ == quads_of_faces(voxels@, shape, views, face as int),
            indices@ == indices_of(quads@, quads@.len() as int),
        decreases 6 - face,
    {
        let group = &groups[face];
        let ghost before = quads@;
        let ghost added = face_quads(voxels@, shape, face as int, views[face as int]);
        let mut k: usize = 0;
        assert(before + added.take(0) =~= before);
        while k < group.len()
            invariant
                face < 6,
                groups@.len() == 6,
                views == group_views(groups@),
                group@ == views[face as int],
                k <= group@.len(),
                shape.meshable(),
                shape.x * shape.y <= u32::MAX,
                shape.cells() <= MAX_CELLS,
                voxels@.len() == shape.cells(),
                quads_start_in(shape, views),
                4 * quad_count(views, 6) <= u32::MAX,
                before == quads_of_faces(voxels@, shape, views, face as int),
                added == face_quads(voxels@, shape, face as int, views[face as int]),
                quads@ == before + added.take(k as int),
                indices@ == indices_of(quads@, quads@.len() as int),
            decreases group@.len() - k,
        {
            let quad = group[k];
            proof {
                assert(views[face as int][k as int] == quad);
                lemma_index_in_grid(shape, quad.x as int, quad.y as int, quad.z as int);
                lemma_quad_count(voxels@, shape, views, face as int);
                lemma_count_monotone(views, face + 1, 6);
            }
            let cell: u32 = shape_linearize(shape, quad.x, quad.y, quad.z);
            let palette_index: u8 = voxels[cell as usize].merge_value();
            let start: u32 = 4 * (quads.len() as u32);
            let triangles = face_quad_indices(face, start);
            let ghost quads_before = quads@;
            let ghost indices_before = indices@;
            quads.push(MeshQuad { face, quad, palette_index });
            let mut c: usize = 0;
            while c < 6
                invariant
                    c <= 6,
                    triangles@.len() == 6,
                    indices@ == indices_before + triangles@.take(c as int),
                decreases 6 - c,
            {
                indices.push(triangles[c]);
                c = c + 1;
                assert(indices@ =~= indices_before + triangles@.take(c as int));
            }
            proof {
                assert(triangles@.take(6) =~= triangles@);
                lemma_indices_grow(
                    quads_before,
                    MeshQuad { face, quad, palette_index },
                    quads_before.len() as int,
                );
                assert(added[k as int] == mesh_quad(voxels@, shape, face as int, quad));
                assert(quads@ =~= before + added.take(k + 1));
            }
            k = k + 1;
        }
        assert(added.take(k as int) =~= added);
        face = face + 1;
    }
    VoxMesh { quads, indices }
}

/// A mesh with more corners than can be numbered.
#[derive(Clone, Copy, Debug, PartialEq, Eq, Structural)]
pub struct TooManyQuads;

/// Whether every voxel of a model is within its extent.
pub open spec fn voxels_in_size(model: &VoxModel) -> bool {
    forall|j: int|
        0 <= j < model.voxels@.len() ==> {
            let v = #[trigger] model.voxels@[j];
            v.x < model.size.x && v.y < model.size.y && v.z < model.size.z
        }
}

/// The number of quads of a model's mesh.
pub open spec fn model_quad_count(model: &VoxModel) -> int {
    let shape = padded_shape(model.size);
    quad_count(
        greedy_quads_of(rasterized(model.voxels@, shape), shape.x, shape.y, shape.z),
        6,
    )
}

fn count_quads(groups: &Vec<Vec<Quad>>) -> (count: u64)
    requires
        groups@.len() == 6,
    ensures
        count == quad_count(group_views(groups@), 6) || (count == u64::MAX && quad_count(
            group_views(groups@),
            6,
        ) > u32::MAX),
{
    let ghost views = group_views(groups@);
    let mut count: u64 = 0;
    let mut face: usize = 0;
    while face < 6
        invariant
            face <= 6,
            groups@.len() == 6,
            views == group_views(groups@),
            count == quad_count(views, face as int),
            count <= u32::MAX,
        decreases 6 - face,
    {
        assert(views[face as int] == groups@[face as int]@);
        let len: u64 = groups[face].len() as u64;
        proof {
            lemma_count_monotone(views, face + 1, 6);
        }
        if len > 0xffff_ffff - count {
            return u64::MAX;
        }
        count = count + len;
        face = face + 1;
    }
    count
}

/// Whether a model can be meshed: its size leaves room for a border, its grid is not too large, and
/// each of its voxels has a cell.
pub fn is_meshable(model: &VoxModel) -> (meshable: bool)
    ensures
        meshable == (size_meshable(model.size) && voxels_have_cells(
            model.voxels@,
            padded_shape(model.size),
        )),
{
    let size: ModelSize = model.size;
    if size.x > 0xffff_fffd || size.y > 0xffff_fffd || size.z > 0xffff_fffd {
        return false;
    }
    let shape: GridShape = padded_dimensions(&size);
    let ghost (a, b, c) = (shape.x as int, shape.y as int, shape.z as int);
    proof {
        assert(0 <= a * b <= 0xffff_ffff * 0xffff_ffff) by (nonlinear_arith)
            requires
                0 <= a <= 0xffff_ffff,
                0 <= b <= 0xffff_ffff,
        ;
        let area = a * b;
        assert(0 <= area * c <= 0xffff_ffff * 0xffff_ffff * 0xffff_ffff) by (nonlinear_arith)
            requires
                0 <= area <= 0xffff_ffff * 0xffff_ffff,
                0 <= c <= 0xffff_ffff,
        ;
    }
    let area: u128 = shape.x as u128 * shape.y as u128;
    let cells: u128 = area * shape.z as u128;
    if cells > MAX_CELLS as u128 {
        return false;
    }
    let mut i: usize = 0;
    while i < model.voxels.len()
        invariant
            i <= model.voxels@.len(),
            area == shape.x * shape.y,
            area <= 0xffff_ffff * 0xffff_ffff,
            cells == shape.cells(),
            shape == padded_shape(model.size),
            forall|j: int| 0 <= j < i ==> cell_of(shape, #[trigger] model.voxels@[j]) < cells,
        decreases model.voxels@.len() - i,
    {
        let voxel: ModelVoxel = model.voxels[i];
        let y: u128 = voxel.z as u128 + 1;
        let z: u128 = voxel.y as u128 + 1;
        proof {
            let width = shape.x as int;
            let plane = area as int;
            assert(0 <= width * y <= 0xffff_ffff * 256) by (nonlinear_arith)
                requires
                    0 <= width <= 0xffff_ffff,
                    0 <= y <= 256,
            ;
            assert(0 <= plane * z <= 0xffff_ffff * 0xffff_ffff * 256) by (nonlinear_arith)
                requires
                    0 <= plane <= 0xffff_ffff * 0xffff_ffff,
                    0 <= z <= 256,
            ;
        }
        let cell: u128 = voxel.x as u128 + 1 + shape.x as u128 * y + area * z;
        assert(cell == cell_of(shape, model.voxels@[i as int]));
        if cell >= cells {
            return false;
        }
        i = i + 1;
    }
    true
}

/// The mesh of a model, if anything of it can be seen.
pub fn mesh_vox_model(model: &VoxModel) -> (mesh: Result<Option<VoxMesh>, TooManyQuads>)
    requires
        size_meshable(model.size),
        voxels_have_cells(model.voxels@, padded_shape(model.size)),
    ensures
        mesh is Err <==> 4 * model_quad_count(model) > u32::MAX,
        (mesh matches Ok(None)) <==> model_quad_count(model) == 0,
        mesh matches Ok(Some(mesh)) ==> {
            let shape = padded_shape(model.size);
            let voxels = rasterized(model.voxels@, shape);
            &&& is_mesh_of(mesh, voxels, shape, greedy_quads_of(voxels, shape.x, shape.y, shape.z))
            &&& mesh.quads@.len() == model_quad_count(model)
        },
        voxels_in_size(model) ==> (mesh matches Ok(None) <==> model.voxels@.len() == 0),
{
    let shape = padded_dimensions(&model.size);
    let voxels = rasterize_model(&model.voxels, shape);
    let groups = greedy_quad_groups(
        &voxels,
        shape,
        GridShape { x: 0, y: 0, z: 0 },
        GridShape { x: shape.x - 1, y: shape.y - 1, z: shape.z - 1 },
    );
    let ghost views = group_views(groups@);
    let count: u64 = count_quads(&groups);
    proof {
        lemma_shape_bounds(shape);
        assert(views == greedy_quads_of(voxels@, shape.x, shape.y, shape.z));
        lemma_quad_count(voxels@, shape, views, 6);
        assert(quads_start_in(shape, views)) by {
            assert forall|f: int, k: int| 0 <= f < views.len() && 0 <= k < views[f].len() implies {
                let q = #[trigger] views[f][k];
                q.x < shape.x && q.y < shape.y && q.z < shape.z
            } by {
                assert(starts_filled(voxels@, shape, groups@[f]@[k]));
            }
        }
        if voxels_in_size(model) {
            if model.voxels@.len() == 0 {
                lemma_nothing_filled(model.voxels@, shape, views);
            } else {
                lemma_something_visible(model);
                let (x, y, z) = choose|x: int, y: int, z: int|
                    face_visible(voxels@, shape, 3, x, y, z);
                assert(face_visible(voxels@, shape, 3, x, y, z));
                assert(views[3].len() > 0);
                lemma_count_monotone(views, 3, 4);
                lemma_count_monotone(views, 4, 6);
                lemma_count_monotone(views, 0, 3);
            }
        }
    }
    if count > 0x3fff_ffff {
        return Err(TooManyQuads);
    }
    if count == 0 {
        return Ok(None);
    }
    Ok(Some(build_mesh(&groups, &voxels, shape)))
}

/// Without voxels no quad starts anywhere.
proof fn lemma_nothing_filled(voxels: Seq<ModelVoxel>, shape: GridShape, groups: Seq<Seq<Quad>>)
    requires
        voxels.len() == 0,
        shape.meshable(),
        groups.len() == 6,
        forall|f: int, k: int|
            0 <= f < 6 && 0 <= k < groups[f].len() ==> starts_filled(
                rasterized(voxels, shape),
                shape,
                #[trigger] groups[f][k],
            ),
    ensures
        quad_count(groups, 6) == 0,
{
    let cells = rasterized(voxels, shape);
    assert forall|f: int| 0 <= f < 6 implies (#[trigger] groups[f]).len() == 0 by {
        if groups[f].len() > 0 {
            let q = groups[f][0];
            assert(starts_filled(cells, shape, q));
            lemma_index_in_grid(shape, q.x as int, q.y as int, q.z as int);
        }
    }
    reveal_with_fuel(quad_count, 7);
}

proof fn lemma_index_injective(
    shape: GridShape,
    x: int,
    y: int,
    z: int,
    u: int,
    v: int,
    w: int,
)
    requires
        0 <= x < shape.x,
        0 <= y < shape.y,
        0 <= u < shape.x,
        0 <= v < shape.y,
        shape.index(x, y, z) == shape.index(u, v, w),
    ensures
        x == u,
        y == v,
        z == w,
{
    let a = shape.x as int;
    let b = shape.y as int;
    assert((y + b * z) * a + x == x + a * y + a * b * z) by (nonlinear_arith);
    assert((v + b * w) * a + u == u + a * v + a * b * w) by (nonlinear_arith);
    assert(b * z == z * b) by (nonlinear_arith);
    assert(b * w == w * b) by (nonlinear_arith);
    vstd::arithmetic::div_mod::lemma_fundamental_div_mod_converse(
        shape.index(x, y, z),
        a,
        y + b * z,
        x,
    );
    vstd::arithmetic::div_mod::lemma_fundamental_div_mod_converse(
        shape.index(x, y, z),
        a,
        v + b * w,
        u,
    );
    vstd::arithmetic::div_mod::lemma_fundamental_div_mod_converse(y + b * z, b, z, y);
    vstd::arithmetic::div_mod::lemma_fundamental_div_mod_converse(y + b * z, b, w, v);
}

/// The first of the first `n` voxels that is furthest along x.
proof fn lemma_furthest(voxels: Seq<ModelVoxel>, n: int) -> (j: int)
    requires
        0 < n <= voxels.len(),
    ensures
        0 <= j < n,
        forall|k: int| 0 <= k < n ==> (#[trigger] voxels[k]).x <= voxels[j].x,
    decreases n,
{
    if n == 1 {
        0
    } else {
        let j = lemma_furthest(voxels, n - 1);
        if voxels[n - 1].x > voxels[j].x {
            n - 1
        } else {
            j
        }
    }
}

proof fn lemma_content_filled(voxels: Seq<ModelVoxel>, n: int, shape: GridShape, j: int)
    requires
        0 <= j < n <= voxels.len(),
    ensures
        cell_content(voxels, n, shape, cell_of(shape, voxels[j])) is Filled,
    decreases n,
{
    if j < n - 1 {
        lemma_content_filled(voxels, n - 1, shape, j);
    }
}

proof fn lemma_content_empty(voxels: Seq<ModelVoxel>, n: int, shape: GridShape, cell: int)
    requires
        0 <= n <= voxels.len(),
        forall|j: int| 0 <= j < n ==> cell_of(shape, #[trigger] voxels[j]) != cell,
    ensures
        cell_content(voxels, n, shape, cell) is Empty,
    decreases n,
{
    if n > 0 {
        lemma_content_empty(voxels, n - 1, shape, cell);
    }
}

/// Of a model with voxels, the side towards greater x of the voxel furthest that way can be seen.
proof fn lemma_something_visible(model: &VoxModel)
    requires
        size_meshable(model.size),
        voxels_in_size(model),
        model.voxels@.len() > 0,
    ensures
        ({
            let shape = padded_shape(model.size);
            exists|x: int, y: int, z: int|
                face_visible(rasterized(model.voxels@, shape), shape, 3, x, y, z)
        }),
{
    let shape = padded_shape(model.size);
    let voxels = model.voxels@;
    let n = voxels.len() as int;
    let cells = rasterized(voxels, shape);
    let j = lemma_furthest(voxels, n);
    let v = voxels[j];
    let (x, y, z) = (v.x + 1, v.z + 1, v.y + 1);
    lemma_index_in_grid(shape, x, y, z);
    lemma_index_in_grid(shape, x + 1, y, z);
    lemma_content_filled(voxels, n, shape, j);
    let beside = shape.index(x + 1, y, z);
    assert forall|k: int| 0 <= k < n implies cell_of(shape, #[trigger] voxels[k]) != beside by {
        let w = voxels[k];
        if cell_of(shape, w) == beside {
            lemma_index_injective(shape, w.x + 1, w.z + 1, w.y + 1, x + 1, y, z);
        }
    }
    lemma_content_empty(voxels, n, shape, beside);
    assert(face_visible(cells, shape, 3, x, y, z));
}

/// A model with voxels, all within its extent, fits the grid that holds it.
pub proof fn law_voxels_fit(model: &VoxModel)
    requires
        size_meshable(model.size),
        voxels_in_size(model),
    ensures
        voxels_have_cells(model.voxels@, padded_shape(model.size)),
{
    let shape = padded_shape(model.size);
    assert forall|j: int| 0 <= j < model.voxels@.len() implies cell_of(
        shape,
        #[trigger] model.voxels@[j],
    ) < shape.cells() by {
        let v = model.voxels@[j];
        lemma_index_in_grid(shape, v.x + 1, v.z + 1, v.y + 1);
    }
}

/// A voxel's colour is found in the cell it goes to, unless a later voxel goes there too.
pub proof fn law_voxel_keeps_colour(model: &VoxModel, j: int)
    requires
        size_meshable(model.size),
        voxels_in_size(model),
        0 <= j < model.voxels@.len(),
        forall|k: int|
            j < k < model.voxels@.len() ==> {
                let v = #[trigger] model.voxels@[k];
                (v.x, v.y, v.z) != (
                    model.voxels@[j].x,
                    model.voxels@[j].y,
                    model.voxels@[j].z,
                )
            },
    ensures
        ({
            let shape = padded_shape(model.size);
            let v = model.voxels@[j];
            voxel_at(rasterized(model.voxels@, shape), shape, v.x + 1, v.z + 1, v.y + 1)
                == VoxModelVoxel::Filled(v.i)
        }),
{
    let shape = padded_shape(model.size);
    let v = model.voxels@[j];
    lemma_index_in_grid(shape, v.x + 1, v.z + 1, v.y + 1);
    lemma_last_wins(model, j, model.voxels@.len() as int);
}

proof fn lemma_last_wins(model: &VoxModel, j: int, n: int)
    requires
        size_meshable(model.size),
        voxels_in_size(model),
        0 <= j < n <= model.voxels@.len(),
        forall|k: int|
            j < k < n ==> {
                let v = #[trigger] model.voxels@[k];
                (v.x, v.y, v.z) != (
                    model.voxels@[j].x,
                    model.voxels@[j].y,
                    model.voxels@[j].z,
                )
            },
    ensures
        cell_content(
            model.voxels@,
            n,
            padded_shape(model.size),
            cell_of(padded_shape(model.size), model.voxels@[j]),
        ) == VoxModelVoxel::Filled(model.voxels@[j].i),
    decreases n,
{
    let shape = padded_shape(model.size);
    let v = model.voxels@[j];
    if j < n - 1 {
        lemma_last_wins(model, j, n - 1);
        let w = model.voxels@[n - 1];
        if cell_of(shape, w) == cell_of(shape, v) {
            lemma_index_injective(
                shape,
                w.x + 1,
                w.z + 1,
                w.y + 1,
                v.x + 1,
                v.z + 1,
                v.y + 1,
            );
        }
    }
}

proof fn lemma_quads_by_face(
    voxels: Seq<VoxModelVoxel>,
    shape: GridShape,
    groups: Seq<Seq<Quad>>,
    n: int,
) -> (starts: Seq<int>)
    requires
        0 <= n <= groups.len() <= usize::MAX,
    ensures
        cuts(starts, n, quads_of_faces(voxels, shape, groups, n).len() as int),
        forall|f: int, k: int|
            #![trigger groups[f][k]]
            0 <= f < n && 0 <= k < groups[f].len() ==> starts[f] + k < starts[f + 1] && {
                let q = groups[f][k];
                let m = quads_of_faces(voxels, shape, groups, n)[starts[f] + k];
                &&& m.quad == q
                &&& m.face == f
                &&& voxels[q.x + shape.x * q.y + shape.x * shape.y * q.z] is Filled ==> voxels[q.x
                    + shape.x * q.y + shape.x * shape.y * q.z] == VoxModelVoxel::Filled(
                    m.palette_index,
                )
            },
        forall|f: int|
            0 <= f < n ==> starts[f + 1] - starts[f] == (#[trigger] groups[f]).len(),
    decreases n,
{
    let whole = quads_of_faces(voxels, shape, groups, n);
    if n == 0 {
        seq![0int]
    } else {
        let before = lemma_quads_by_face(voxels, shape, groups, n - 1);
        let part = quads_of_faces(voxels, shape, groups, n - 1);
        let added = face_quads(voxels, shape, n - 1, groups[n - 1]);
        let starts = before.push(whole.len() as int);
        assert(whole == part + added);
        assert forall|i: int, j: int| 0 <= i <= j <= n implies #[trigger] starts[i]
            <= #[trigger] starts[j] by {
            if j < n {
                assert(before[i] <= before[j]);
            } else if i < n {
                assert(before[i] <= before[n - 1]);
            }
        }
        assert forall|f: int, k: int|
            #![trigger groups[f][k]]
            0 <= f < n && 0 <= k < groups[f].len() implies starts[f] + k < starts[f + 1] && {
            let q = groups[f][k];
            let m = whole[starts[f] + k];
            &&& m.quad == q
            &&& m.face == f
            &&& voxels[q.x + shape.x * q.y + shape.x * shape.y * q.z] is Filled ==> voxels[q.x
                + shape.x * q.y + shape.x * shape.y * q.z] == VoxModelVoxel::Filled(m.palette_index)
        } by {
            if f < n - 1 {
                assert(starts[f] == before[f] && starts[f + 1] == before[f + 1]);
                assert(before[f + 1] <= before[n - 1]);
                assert(before[0] <= before[f]);
                assert(whole[starts[f] + k] == part[before[f] + k]);
            } else {
                assert(starts[f] == part.len());
                assert(whole[starts[f] + k] == added[k]);
            }
        }
        assert forall|f: int| 0 <= f < n implies starts[f + 1] - starts[f] == (
        #[trigger] groups[f]).len() by {
            if f < n - 1 {
                assert(starts[f] == before[f] && starts[f + 1] == before[f + 1]);
            }
        }
        starts
    }
}

/// A mesh holds the very quads that greedy meshing gave, with their extent, face by face: the quads of
/// the face `f` stand from `starts[f]` on, in their order, and each has the colour of the voxel in the
/// cell at which it starts.
pub proof fn law_mesh_holds_the_greedy_quads(
    mesh: VoxMesh,
    voxels: Seq<VoxModelVoxel>,
    shape: GridShape,
    groups: Seq<Seq<Quad>>,
) -> (starts: Seq<int>)
    requires
        is_mesh_of(mesh, voxels, shape, groups),
        groups.len() <= usize::MAX,
    ensures
        cuts(starts, groups.len() as int, mesh.quads@.len() as int),
        forall|f: int|
            0 <= f < groups.len() ==> starts[f + 1] - starts[f] == (#[trigger] groups[f]).len(),
        forall|f: int, k: int|
            #![trigger groups[f][k]]
            0 <= f < groups.len() && 0 <= k < groups[f].len() ==> starts[f] + k < starts[f + 1] && {
                let q = groups[f][k];
                let m = mesh.quads@[starts[f] + k];
                &&& m.quad == q
                &&& m.face == f
                &&& voxels[q.x + shape.x * q.y + shape.x * shape.y * q.z] is Filled ==> voxels[q.x
                    + shape.x * q.y + shape.x * shape.y * q.z] == VoxModelVoxel::Filled(
                    m.palette_index,
                )
            },
{
    lemma_quads_by_face(voxels, shape, groups, groups.len() as int)
}

proof fn lemma_indices_of(quads: Seq<MeshQuad>, n: int)
    requires
        0 <= n <= quads.len(),
    ensures
        indices_of(quads, n).len() == 6 * n,
        forall|q: int, j: int|
            0 <= q < n && 0 <= j < 6 ==> #[trigger] indices_of(quads, n)[6 * q + j] == face_indices(
                quads[q].face as int,
                4 * q,
            )[j],
    decreases n,
{
    if n > 0 {
        lemma_indices_of(quads, n - 1);
        let part = indices_of(quads, n - 1);
        assert forall|q: int, j: int| 0 <= q < n && 0 <= j < 6 implies #[trigger] indices_of(
            quads,
            n,
        )[6 * q + j] == face_indices(quads[q].face as int, 4 * q)[j] by {
            if q < n - 1 {
                assert(indices_of(quads, n)[6 * q + j] == part[6 * q + j]);
            }
        }
    }
}

/// Each quad has four corners of its own and two triangles, which share the corners in the middle and
/// together have all four; the two orders in which they are wound are those of opposite sides.
pub proof fn law_quads_are_two_triangles(
    mesh: VoxMesh,
    voxels: Seq<VoxModelVoxel>,
    shape: GridShape,
    groups: Seq<Seq<Quad>>,
    q: int,
)
    requires
        is_mesh_of(mesh, voxels, shape, groups),
        0 <= q < mesh.quads@.len(),
        4 * mesh.quads@.len() <= u32::MAX,
    ensures
        mesh.indices@.len() == 6 * mesh.quads@.len(),
        ({
            let face = mesh.quads@[q].face;
            let at = |j: int| mesh.indices@[6 * q + j] - 4 * q;
            if face == 0 || face == 4 || face == 5 {
                at(0) == 0 && at(1) == 1 && at(2) == 2 && at(3) == 1 && at(4) == 3 && at(5) == 2
            } else {
                at(0) == 0 && at(1) == 2 && at(2) == 1 && at(3) == 1 && at(4) == 2 && at(5) == 3
            }
        }),
{
    let n = mesh.quads@.len() as int;
    lemma_indices_of(mesh.quads@, n);
    let all = indices_of(mesh.quads@, n);
    assert(all[6 * q + 0] == face_indices(mesh.quads@[q].face as int, 4 * q)[0]);
    assert(all[6 * q + 1] == face_indices(mesh.quads@[q].face as int, 4 * q)[1]);
    assert(all[6 * q + 2] == face_indices(mesh.quads@[q].face as int, 4 * q)[2]);
    assert(all[6 * q + 3] == face_indices(mesh.quads@[q].face as int, 4 * q)[3]);
    assert(all[6 * q + 4] == face_indices(mesh.quads@[q].face as int, 4 * q)[4]);
    assert(all[6 * q + 5] == face_indices(mesh.quads@[q].face as int, 4 * q)[5]);
}

/// A model's mesh has as many quads as its six faces have together.
pub proof fn law_faces_make_up_the_mesh(groups: Seq<Seq<Quad>>)
    requires
        groups.len() == 6,
    ensures
        quad_count(groups, 6) == groups[0].len() + groups[1].len() + groups[2].len()
            + groups[3].len() + groups[4].len() + groups[5].len(),
{
    reveal_with_fuel(quad_count, 7);
}

/// The grid of a model is one cell wider than it on each side, and stands upright: the model's height
/// is along z, that of the grid along y.
pub proof fn law_grid_holds_the_model(size: ModelSize)
    requires
        size_meshable(size),
    ensures
        padded_shape(size).x == size.x + 2,
        padded_shape(size).y == size.z + 2,
        padded_shape(size).z == size.y + 2,
        (size.x + 2) * (size.z + 2) * (size.y + 2) <= 0xffff_ffff,
{
    let (a, b, c) = (size.x + 2, size.z + 2, size.y + 2);
    assert(padded_shape(size).cells() == a * b * c);
}

/// A model can be meshed as long as the cells of its grid can be numbered.
pub proof fn law_numbered_grids_can_be_meshed(size: ModelSize)
    requires
        (size.x + 2) * (size.z + 2) * (size.y + 2) <= 0xffff_ffff,
    ensures
        size_meshable(size),
{
    let (a, b, c) = (size.x + 2, size.z + 2, size.y + 2);
    assert(a <= a * b * c && b <= a * b * c && c <= a * b * c) by (nonlinear_arith)
        requires
            a >= 2,
            b >= 2,
            c >= 2,
    ;
    assert(padded_shape(size).cells() == a * b * c);
}

proof fn lemma_cell_content(voxels: Seq<ModelVoxel>, n: int, shape: GridShape, cell: int) -> (j: int)
    requires
        0 <= n <= voxels.len(),
    ensures
        -1 <= j < n,
        forall|k: int|
            j < k < n ==> {
                let v = #[trigger] voxels[k];
                (v.x + 1) + shape.x * (v.z + 1) + shape.x * shape.y * (v.y + 1) != cell
            },
        j < 0 ==> cell_content(voxels, n, shape, cell) == VoxModelVoxel::Empty,
        j >= 0 ==> {
            let v = voxels[j];
            &&& (v.x + 1) + shape.x * (v.z + 1) + shape.x * shape.y * (v.y + 1) == cell
            &&& cell_content(voxels, n, shape, cell) == VoxModelVoxel::Filled(v.i)
        },
    decreases n,
{
    if n == 0 {
        -1
    } else if cell_of(shape, voxels[n - 1]) == cell {
        n - 1
    } else {
        lemma_cell_content(voxels, n - 1, shape, cell)
    }
}

/// A cell of the grid holds the last voxel that lies there, one cell off the border, and is empty if
/// none does. Cells are numbered along x, then upwards, then along z. Gives that voxel, or a negative
/// number.
pub proof fn law_cells_hold_the_last_voxel(
    voxels: Seq<ModelVoxel>,
    shape: GridShape,
    cell: int,
) -> (j: int)
    requires
        0 <= cell < shape.x * shape.y * shape.z,
    ensures
        rasterized(voxels, shape).len() == shape.x * shape.y * shape.z,
        -1 <= j < voxels.len(),
        forall|k: int|
            j < k < voxels.len() ==> {
                let v = #[trigger] voxels[k];
                (v.x + 1) + shape.x * (v.z + 1) + shape.x * shape.y * (v.y + 1) != cell
            },
        j < 0 ==> rasterized(voxels, shape)[cell] == VoxModelVoxel::Empty,
        j >= 0 ==> {
            let v = voxels[j];
            &&& (v.x + 1) + shape.x * (v.z + 1) + shape.x * shape.y * (v.y + 1) == cell
            &&& rasterized(voxels, shape)[cell] == VoxModelVoxel::Filled(v.i)
        },
{
    lemma_cell_content(voxels, voxels.len() as int, shape, cell)
}

} // verus!
