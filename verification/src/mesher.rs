//! Meshing: from a chunk and its neighbours to the quads of the faces that
//! can be seen, each corner with its texture and its shade.

use vstd::prelude::*;
use crate::block::{all_faces, BlockFace, BlockType};
use crate::chunk::{
    cell_x, cell_y, cell_z, in_chunk, Chunk, CHUNK_AREA, CHUNK_SIZE, CHUNK_VOLUME, NEIGHBORHOOD,
};
use crate::coords::IVec3;
use crate::mesh::{quad_corners, quad_indices, CMesh, MeshVertex};

verus! {

/// The number of tiles along an edge of the texture atlas.
pub const ATLAS_SIZE: u32 = 16;

/// The shade of a corner: the number of blocks that darken it, out of the two
/// beside it and the one across. The one across counts only where one of the
/// two others is there.
pub open spec fn corner_shade(side1: bool, side2: bool, across: bool) -> int {
    (if side1 { 1int } else { 0int }) + (if side2 { 1int } else { 0int }) + (if (side1 || side2)
        && across { 1int } else { 0int })
}

/// The position `(x, y, z)` as a triple.
pub open spec fn probe(x: int, y: int, z: int) -> IVec3 {
    IVec3 { x: x as i32, y: y as i32, z: z as i32 }
}

/// The block that the block stored at `i` looks at through a face.
pub open spec fn facing_block(chunk: Chunk, neighbors: Seq<Chunk>, i: int, face: BlockFace)
    -> BlockType {
    let n = face.spec_normal();
    chunk.spec_get_block_border(neighbors, probe(cell_x(i) + n.0, cell_y(i) + n.1, cell_z(i) + n.2))
}

/// Whether a face of the block stored at `i` can be seen: the block is not
/// air, and the block that the face looks at is.
pub open spec fn face_visible(chunk: Chunk, neighbors: Seq<Chunk>, i: int, face: BlockFace)
    -> bool {
    chunk.blocks@[i] != BlockType::Air && facing_block(chunk, neighbors, i, face)
        == BlockType::Air
}

/// Whether an opaque block stands at `(x, y, z)`, a position in the chunk or
/// one block outside of it.
pub open spec fn shades(chunk: Chunk, neighbors: Seq<Chunk>, x: int, y: int, z: int) -> bool {
    chunk.spec_get_block_border(neighbors, probe(x, y, z)).spec_opaque()
}

/// The shade of the corner of the block stored at `i` that lies in the
/// direction `(cx, cy, cz)` from the block's centre.
pub open spec fn vertex_shade(
    chunk: Chunk,
    neighbors: Seq<Chunk>,
    i: int,
    cx: int,
    cy: int,
    cz: int,
) -> int {
    let x = cell_x(i);
    let y = cell_y(i);
    let z = cell_z(i);
    corner_shade(
        shades(chunk, neighbors, x + cx, y + cy, z),
        shades(chunk, neighbors, x, y + cy, z + cz),
        shades(chunk, neighbors, x + cx, y + cy, z + cz),
    )
}

/// Corner `k` of a face of the block stored at `i`, as the mesh holds it:
/// placed in the world, on its tile of the atlas, with its shade.
pub open spec fn mesh_vertex(
    chunk_pos: IVec3,
    chunk: Chunk,
    neighbors: Seq<Chunk>,
    i: int,
    face: BlockFace,
    k: int,
) -> MeshVertex {
    let c = face.spec_corner(k);
    let tile = chunk.blocks@[i].spec_texture(face);
    MeshVertex {
        position: [
            (2 * (32 * chunk_pos.x + cell_x(i)) + c.0) as i64,
            (2 * (32 * chunk_pos.y + cell_y(i)) + c.1) as i64,
            (2 * (32 * chunk_pos.z + cell_z(i)) + c.2) as i64,
        ],
        tex_coords: [(tile % 16 + c.3) as u32, (tile / 16 + c.4) as u32],
        normal: [0i32, 0i32, 0i32],
        ao: vertex_shade(chunk, neighbors, i, c.0, c.1, c.2) as u8,
    }
}

/// The four corners of a face of the block stored at `i`.
pub open spec fn face_quad(
    chunk_pos: IVec3,
    chunk: Chunk,
    neighbors: Seq<Chunk>,
    i: int,
    face: BlockFace,
) -> Seq<MeshVertex> {
    Seq::new(4, |k: int| mesh_vertex(chunk_pos, chunk, neighbors, i, face, k))
}

/// The vertices of the mesh after the first `steps` faces: the mesher goes
/// through the blocks in the order in which they are stored, and for each
/// block through its six faces; a face that can be seen adds its quad.
pub open spec fn mesh_vertices(chunk_pos: IVec3, chunk: Chunk, neighbors: Seq<Chunk>, steps: nat)
    -> Seq<MeshVertex>
    decreases steps,
{
    if steps == 0 {
        Seq::empty()
    } else {
        let before = mesh_vertices(chunk_pos, chunk, neighbors, (steps - 1) as nat);
        let i = (steps - 1) / 6;
        let face = all_faces()[(steps - 1) % 6];
        if face_visible(chunk, neighbors, i, face) {
            before + face_quad(chunk_pos, chunk, neighbors, i, face)
        } else {
            before
        }
    }
}

/// The number of faces that can be seen among the first `steps` faces.
pub open spec fn visible_faces(chunk: Chunk, neighbors: Seq<Chunk>, steps: nat) -> nat
    decreases steps,
{
    if steps == 0 {
        0
    } else {
        let before = visible_faces(chunk, neighbors, (steps - 1) as nat);
        if face_visible(chunk, neighbors, (steps - 1) / 6, all_faces()[(steps - 1) % 6]) {
            before + 1
        } else {
            before
        }
    }
}

/// The mesh holds four vertices for each face that can be seen, and none for
/// any other.
pub proof fn lemma_mesh_counts_visible_faces(
    chunk_pos: IVec3,
    chunk: Chunk,
    neighbors: Seq<Chunk>,
    steps: nat,
)
    ensures
        mesh_vertices(chunk_pos, chunk, neighbors, steps).len() == 4 * visible_faces(
            chunk,
            neighbors,
            steps,
        ),
        visible_faces(chunk, neighbors, steps) <= steps,
    decreases steps,
{
    if steps > 0 {
        lemma_mesh_counts_visible_faces(chunk_pos, chunk, neighbors, (steps - 1) as nat);
    }
}

/// A corner is shaded by at most three blocks.
pub proof fn lemma_shade_range(side1: bool, side2: bool, across: bool)
    ensures
        0 <= corner_shade(side1, side2, across) <= 3,
{
}

/// A block more beside or across a corner never makes its shade lighter.
pub proof fn lemma_shade_monotonic(
    side1: bool,
    side2: bool,
    across: bool,
    more_side1: bool,
    more_side2: bool,
    more_across: bool,
)
    requires
        side1 ==> more_side1,
        side2 ==> more_side2,
        across ==> more_across,
    ensures
        corner_shade(side1, side2, across) <= corner_shade(more_side1, more_side2, more_across),
{
}

/// The shade of a vertex of the mesh is the number of blocks that shade its
/// corner, from 0 to 3.
pub proof fn lemma_vertex_shade_range(
    chunk_pos: IVec3,
    chunk: Chunk,
    neighbors: Seq<Chunk>,
    i: int,
    face: BlockFace,
    k: int,
)
    ensures
        ({
            let c = face.spec_corner(k);
            &&& 0 <= vertex_shade(chunk, neighbors, i, c.0, c.1, c.2) <= 3
            &&& mesh_vertex(chunk_pos, chunk, neighbors, i, face, k).ao == vertex_shade(
                chunk,
                neighbors,
                i,
                c.0,
                c.1,
                c.2,
            )
        }),
{
}

/// Where a second neighbourhood has an opaque block at each of the three
/// positions around a corner at which the first has one, the corner is no
/// lighter in the second than in the first.
pub proof fn lemma_vertex_shade_monotonic(
    chunk: Chunk,
    neighbors: Seq<Chunk>,
    more_chunk: Chunk,
    more_neighbors: Seq<Chunk>,
    i: int,
    cx: int,
    cy: int,
    cz: int,
)
    requires
        shades(chunk, neighbors, cell_x(i) + cx, cell_y(i) + cy, cell_z(i)) ==> shades(
            more_chunk,
            more_neighbors,
            cell_x(i) + cx,
            cell_y(i) + cy,
            cell_z(i),
        ),
        shades(chunk, neighbors, cell_x(i), cell_y(i) + cy, cell_z(i) + cz) ==> shades(
            more_chunk,
            more_neighbors,
            cell_x(i),
            cell_y(i) + cy,
            cell_z(i) + cz,
        ),
        shades(chunk, neighbors, cell_x(i) + cx, cell_y(i) + cy, cell_z(i) + cz) ==> shades(
            more_chunk,
            more_neighbors,
            cell_x(i) + cx,
            cell_y(i) + cy,
            cell_z(i) + cz,
        ),
    ensures
        vertex_shade(chunk, neighbors, i, cx, cy, cz) <= vertex_shade(
            more_chunk,
            more_neighbors,
            i,
            cx,
            cy,
            cz,
        ),
{
}

/// One more face adds its quad where the face can be seen, and nothing else.
pub proof fn lemma_mesh_step(
    chunk_pos: IVec3,
    chunk: Chunk,
    neighbors: Seq<Chunk>,
    i: int,
    f: int,
)
    requires
        0 <= i,
        0 <= f < 6,
    ensures
        mesh_vertices(chunk_pos, chunk, neighbors, (6 * i + f + 1) as nat) == (if face_visible(
            chunk,
            neighbors,
            i,
            all_faces()[f],
        ) {
            mesh_vertices(chunk_pos, chunk, neighbors, (6 * i + f) as nat) + face_quad(
                chunk_pos,
                chunk,
                neighbors,
                i,
                all_faces()[f],
            )
        } else {
            mesh_vertices(chunk_pos, chunk, neighbors, (6 * i + f) as nat)
        }),
{
    assert((6 * i + f) / 6 == i);
    assert((6 * i + f) % 6 == f);
}

/// A block of air adds nothing to the mesh.
pub proof fn lemma_mesh_skips_air(chunk_pos: IVec3, chunk: Chunk, neighbors: Seq<Chunk>, i: int)
    requires
        0 <= i,
        chunk.blocks@[i] == BlockType::Air,
    ensures
        mesh_vertices(chunk_pos, chunk, neighbors, (6 * i + 6) as nat) == mesh_vertices(
            chunk_pos,
            chunk,
            neighbors,
            (6 * i) as nat,
        ),
{
    lemma_mesh_step(chunk_pos, chunk, neighbors, i, 0);
    lemma_mesh_step(chunk_pos, chunk, neighbors, i, 1);
    lemma_mesh_step(chunk_pos, chunk, neighbors, i, 2);
    lemma_mesh_step(chunk_pos, chunk, neighbors, i, 3);
    lemma_mesh_step(chunk_pos, chunk, neighbors, i, 4);
    lemma_mesh_step(chunk_pos, chunk, neighbors, i, 5);
}

/// A chunk of air has no mesh, whatever stands around it: nothing is lost by
/// not meshing a chunk that is empty.
pub proof fn lemma_empty_chunk_has_no_mesh(
    chunk_pos: IVec3,
    chunk: Chunk,
    neighbors: Seq<Chunk>,
    steps: nat,
)
    requires
        chunk.all_air(),
        steps <= 6 * CHUNK_VOLUME,
    ensures
        mesh_vertices(chunk_pos, chunk, neighbors, steps) == Seq::<MeshVertex>::empty(),
    decreases steps,
{
    if steps > 0 {
        lemma_empty_chunk_has_no_mesh(chunk_pos, chunk, neighbors, (steps - 1) as nat);
        assert(0 <= (steps - 1) / 6 < CHUNK_VOLUME);
    }
}

/// Counts the blocks that shade the corner of the block at `(x, y, z)` that
/// lies in the direction `(cx, cy, cz)`.
fn shade_corner(
    chunk: &Chunk,
    neighbors: &[Chunk],
    x: i32,
    y: i32,
    z: i32,
    cx: i32,
    cy: i32,
    cz: i32,
) -> (ao: u8)
    requires
        in_chunk(x as int, y as int, z as int),
        cx == 1 || cx == -1,
        cy == 1 || cy == -1,
        cz == 1 || cz == -1,
        neighbors@.len() == NEIGHBORHOOD,
    ensures
        ao == corner_shade(
            shades(*chunk, neighbors@, x + cx, y + cy, z as int),
            shades(*chunk, neighbors@, x as int, y + cy, z + cz),
            shades(*chunk, neighbors@, x + cx, y + cy, z + cz),
        ),
{
    let mut ao: u8 = 0;
    let mut cv: bool = false;
    if chunk.get_block_border(neighbors, IVec3 { x: x + cx, y: y + cy, z }).opaque() {
        ao += 1;
        cv = true;
    }
    if chunk.get_block_border(neighbors, IVec3 { x, y: y + cy, z: z + cz }).opaque() {
        ao += 1;
        cv = true;
    }
    if cv && chunk.get_block_border(neighbors, IVec3 { x: x + cx, y: y + cy, z: z + cz }).opaque() {
        ao += 1;
    }
    ao
}

/// Makes a vertex of the mesh from corner `k` of a face of the block stored
/// at `i`.
fn make_vertex(
    chunk_pos: IVec3,
    chunk: &Chunk,
    neighbors: &[Chunk],
    i: usize,
    face: BlockFace,
    corner: &MeshVertex,
    Ghost(k): Ghost<int>,
) -> (v: MeshVertex)
    requires
        i < CHUNK_VOLUME,
        0 <= k < 4,
        *corner == face.spec_vertex(k),
        neighbors@.len() == NEIGHBORHOOD,
    ensures
        v == mesh_vertex(chunk_pos, *chunk, neighbors@, i as int, face, k),
{
    let x: usize = i % CHUNK_SIZE;
    let y: usize = (i / CHUNK_SIZE) % CHUNK_SIZE;
    let z: usize = i / CHUNK_AREA;
    let cx: i64 = corner.position[0];
    let cy: i64 = corner.position[1];
    let cz: i64 = corner.position[2];
    proof {
        crate::block::lemma_corner_on_face(face, k);
    }
    let ao = shade_corner(
        chunk,
        neighbors,
        x as i32,
        y as i32,
        z as i32,
        cx as i32,
        cy as i32,
        cz as i32,
    );
    let tile: u32 = chunk.blocks[i].texture(&face);
    MeshVertex {
        position: [
            2 * (32 * (chunk_pos.x as i64) + x as i64) + cx,
            2 * (32 * (chunk_pos.y as i64) + y as i64) + cy,
            2 * (32 * (chunk_pos.z as i64) + z as i64) + cz,
        ],
        tex_coords: [
            tile % ATLAS_SIZE + corner.tex_coords[0],
            tile / ATLAS_SIZE + corner.tex_coords[1],
        ],
        normal: corner.normal,
        ao,
    }
}

/// The position that the block stored at `i` looks at through a face.
fn facing_position(i: usize, face: BlockFace) -> (n: IVec3)
    requires
        i < CHUNK_VOLUME,
    ensures
        n == probe(
            cell_x(i as int) + face.spec_normal().0,
            cell_y(i as int) + face.spec_normal().1,
            cell_z(i as int) + face.spec_normal().2,
        ),
        -1 <= n.x <= 32,
        -1 <= n.y <= 32,
        -1 <= n.z <= 32,
{
    let x: i32 = (i % CHUNK_SIZE) as i32;
    let y: i32 = ((i / CHUNK_SIZE) % CHUNK_SIZE) as i32;
    let z: i32 = (i / CHUNK_AREA) as i32;
    let mut n = IVec3 { x, y, z };
    match face {
        BlockFace::Top => n.y += 1,
        BlockFace::Bottom => n.y -= 1,
        BlockFace::Front => n.z += 1,
        BlockFace::Back => n.z -= 1,
        BlockFace::Right => n.x += 1,
        BlockFace::Left => n.x -= 1,
    }
    n
}

/// Appends the four corners of a face of the block stored at `i`.
fn push_quad_vertices(
    vertices: &mut Vec<MeshVertex>,
    chunk_pos: IVec3,
    chunk: &Chunk,
    neighbors: &[Chunk],
    i: usize,
    face: BlockFace,
)
    requires
        i < CHUNK_VOLUME,
        neighbors@.len() == NEIGHBORHOOD,
    ensures
        final(vertices)@ == old(vertices)@ + face_quad(
            chunk_pos,
            *chunk,
            neighbors@,
            i as int,
            face,
        ),
{
    let quad = face.get_vertices();
    let v0 = make_vertex(chunk_pos, chunk, neighbors, i, face, &quad[0], Ghost(0));
    let v1 = make_vertex(chunk_pos, chunk, neighbors, i, face, &quad[1], Ghost(1));
    let v2 = make_vertex(chunk_pos, chunk, neighbors, i, face, &quad[2], Ghost(2));
    let v3 = make_vertex(chunk_pos, chunk, neighbors, i, face, &quad[3], Ghost(3));
    vertices.push(v0);
    vertices.push(v1);
    vertices.push(v2);
    vertices.push(v3);
    assert(vertices@ =~= old(vertices)@ + face_quad(chunk_pos, *chunk, neighbors@, i as int, face));
}

/// Appends the two triangles of the quad whose first vertex is `o`.
fn push_quad_indices(indices: &mut Vec<u32>, o: u32)
    requires
        o % 4 == 0,
        o <= 0x1000_0000,
        old(indices)@ == quad_indices((o / 4) as nat),
    ensures
        final(indices)@ == quad_indices((o / 4 + 1) as nat),
{
    indices.push(o);
    indices.push(o + 2);
    indices.push(o + 1);
    indices.push(o + 2);
    indices.push(o + 3);
    indices.push(o + 1);
    assert(indices@ =~= old(indices)@ + quad_corners(o as int / 4));
}

/// Looks at one face of the block stored at `i`, which is not air, and
/// appends its quad if the face can be seen. `o` is the number of vertices so
/// far; the number afterwards is given back.
fn mesh_face(
    vertices: &mut Vec<MeshVertex>,
    indices: &mut Vec<u32>,
    o: u32,
    chunk_pos: IVec3,
    chunk: &Chunk,
    neighbors: &[Chunk],
    i: usize,
    face: BlockFace,
) -> (next: u32)
    requires
        i < CHUNK_VOLUME,
        neighbors@.len() == NEIGHBORHOOD,
        chunk.blocks@[i as int] != BlockType::Air,
        o % 4 == 0,
        o <= 0x1000_0000,
        old(vertices)@.len() == o,
        old(indices)@ == quad_indices((o / 4) as nat),
    ensures
        final(vertices)@ == (if face_visible(*chunk, neighbors@, i as int, face) {
            old(vertices)@ + face_quad(chunk_pos, *chunk, neighbors@, i as int, face)
        } else {
            old(vertices)@
        }),
        next == (if face_visible(*chunk, neighbors@, i as int, face) {
            o + 4
        } else {
            o as int
        }),
        final(vertices)@.len() == next,
        final(indices)@ == quad_indices((next / 4) as nat),
{
    let n = facing_position(i, face);
    match chunk.get_block_border(neighbors, n) {
        BlockType::Air => {
            push_quad_vertices(vertices, chunk_pos, chunk, neighbors, i, face);
            push_quad_indices(indices, o);
            o + 4
        },
        _ => o,
    }
}

/// Builds the mesh of a chunk. `neighbors` lists the 27 chunks around the
/// chunk, itself included, the one at `(dx, dy, dz)` at
/// `neighbor_index(dx, dy, dz)`.
///
/// The mesh holds a quad for each face of a block that is not air and looks
/// at a block of air, in this chunk or in a neighbour, and for no other face.
pub fn mesh_chunk(chunk_pos: IVec3, chunk: Chunk, neighbors: &[Chunk]) -> (mesh: CMesh)
    requires
        neighbors@.len() == NEIGHBORHOOD,
    ensures
        mesh.vertices@ == mesh_vertices(chunk_pos, chunk, neighbors@, (6 * CHUNK_VOLUME) as nat),
        mesh.is_quad_mesh(),
{
    let mut chunk_vertices: Vec<MeshVertex> = Vec::new();
    let mut chunk_indices: Vec<u32> = Vec::new();
    let mut o: u32 = 0;
    let faces = BlockFace::iterator();
    let mut i: usize = 0;
    while i < CHUNK_VOLUME
        invariant
            i <= CHUNK_VOLUME,
            neighbors@.len() == NEIGHBORHOOD,
            faces@ == all_faces(),
            chunk_vertices@ == mesh_vertices(chunk_pos, chunk, neighbors@, (6 * i) as nat),
            chunk_vertices@.len() == o,
            o % 4 == 0,
            o <= 4 * (6 * i),
            chunk_indices@ == quad_indices((o / 4) as nat),
        decreases CHUNK_VOLUME - i,
    {
        match chunk.blocks[i] {
            BlockType::Air => {
                proof {
                    lemma_mesh_skips_air(chunk_pos, chunk, neighbors@, i as int);
                }
            },
            _ => {
                let mut f: usize = 0;
                while f < 6
                    invariant
                        i < CHUNK_VOLUME,
                        f <= 6,
                        neighbors@.len() == NEIGHBORHOOD,
                        faces@ == all_faces(),
                        chunk.blocks@[i as int] != BlockType::Air,
                        chunk_vertices@ == mesh_vertices(
                            chunk_pos,
                            chunk,
                            neighbors@,
                            (6 * i + f) as nat,
                        ),
                        chunk_vertices@.len() == o,
                        o % 4 == 0,
                        o <= 4 * (6 * i + f),
                        chunk_indices@ == quad_indices((o / 4) as nat),
                    decreases 6 - f,
                {
                    proof {
                        lemma_mesh_step(chunk_pos, chunk, neighbors@, i as int, f as int);
                    }
                    o = mesh_face(
                        &mut chunk_vertices,
                        &mut chunk_indices,
                        o,
                        chunk_pos,
                        &chunk,
                        neighbors,
                        i,
                        faces[f],
                    );
                    f += 1;
                }
            },
        }
        i += 1;
    }
    CMesh::new(chunk_vertices, chunk_indices)
}

} // verus!
