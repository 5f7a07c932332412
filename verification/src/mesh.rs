//! Vertices and meshes as plain integer data.

use vstd::prelude::*;

verus! {

/// One corner of a quad.
///
/// `position` is in half-block units, so that the centre of the block at
/// world position `p` is `2 * p` and its corners are one unit away from it.
/// `tex_coords` counts tiles of the 16 by 16 atlas from its top left corner.
/// `ao` is the number of blocks that shade the corner, from 0 to 3.
#[derive(Debug, Clone, Copy, PartialEq, Eq)]
pub struct MeshVertex {
    pub position: [i64; 3],
    pub tex_coords: [u32; 2],
    pub normal: [i32; 3],
    pub ao: u8,
}

impl MeshVertex {
    /// A corner of a block's face around the block's centre, without shading.
    pub fn corner(x: i64, y: i64, z: i64, u: u32, v: u32) -> (r: MeshVertex)
        ensures
            r == (MeshVertex {
                position: [x, y, z],
                tex_coords: [u, v],
                normal: [0i32, 0i32, 0i32],
                ao: 0,
            }),
    {
        MeshVertex { position: [x, y, z], tex_coords: [u, v], normal: [0, 0, 0], ao: 0 }
    }
}

/// The corners of quad number `quad` in the order of its two triangles.
pub open spec fn quad_corners(quad: int) -> Seq<u32> {
    let o = 4 * quad;
    seq![o as u32, (o + 2) as u32, (o + 1) as u32, (o + 2) as u32, (o + 3) as u32, (o + 1) as u32]
}

/// The indices of a mesh of `quads` quads: six for each quad, which name the
/// four vertices of that quad.
pub open spec fn quad_indices(quads: nat) -> Seq<u32>
    decreases quads,
{
    if quads == 0 {
        Seq::empty()
    } else {
        quad_indices((quads - 1) as nat) + quad_corners(quads - 1)
    }
}

/// A mesh in main memory: vertices, and indices that make triangles of them.
#[derive(Debug)]
pub struct CMesh {
    pub vertices: Vec<MeshVertex>,
    pub indices: Vec<u32>,
}

impl CMesh {
    /// Whether the mesh is made of quads: four vertices and two triangles
    /// for each.
    pub open spec fn is_quad_mesh(self) -> bool {
        &&& self.vertices@.len() % 4 == 0
        &&& self.indices@ == quad_indices(self.vertices@.len() / 4)
    }

    /// A mesh of these vertices and indices.
    pub fn new(vertices: Vec<MeshVertex>, indices: Vec<u32>) -> (mesh: CMesh)
        ensures
            mesh.vertices == vertices,
            mesh.indices == indices,
    {
        CMesh { vertices, indices }
    }
}

/// A mesh of quads has six indices for each quad.
pub proof fn lemma_quad_indices_len(quads: nat)
    ensures
        quad_indices(quads).len() == 6 * quads,
    decreases quads,
{
    if quads > 0 {
        lemma_quad_indices_len((quads - 1) as nat);
    }
}

/// In a mesh of quads, the six indices of quad `q` name its own four
/// vertices, as the triangles 0-2-1 and 2-3-1.
pub proof fn lemma_quad_indices_at(quads: nat, q: int)
    requires
        0 <= q < quads,
        4 * quads <= u32::MAX,
    ensures
        quad_indices(quads).len() == 6 * quads,
        quad_indices(quads)[6 * q] == 4 * q,
        quad_indices(quads)[6 * q + 1] == 4 * q + 2,
        quad_indices(quads)[6 * q + 2] == 4 * q + 1,
        quad_indices(quads)[6 * q + 3] == 4 * q + 2,
        quad_indices(quads)[6 * q + 4] == 4 * q + 3,
        quad_indices(quads)[6 * q + 5] == 4 * q + 1,
    decreases quads,
{
    lemma_quad_indices_len(quads);
    lemma_quad_indices_len((quads - 1) as nat);
    if q < quads - 1 {
        lemma_quad_indices_at((quads - 1) as nat, q);
    }
}

} // verus!
