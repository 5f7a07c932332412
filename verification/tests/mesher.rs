use voxel_terrain::block::{BlockFace, BlockType};
use voxel_terrain::chunk::{Chunk, CHUNK_VOLUME, NEIGHBORHOOD};
use voxel_terrain::coords::{IVec3, UVec3};
use voxel_terrain::mesh::{CMesh, MeshVertex};
use voxel_terrain::mesher::{mesh_chunk, ATLAS_SIZE};

fn neighborhood(chunk: &Chunk) -> Vec<Chunk> {
    let mut chunks = Vec::new();
    for n in 0..NEIGHBORHOOD {
        chunks.push(if n == 13 { chunk.clone() } else { Chunk::new() });
    }
    chunks
}

fn single(block: BlockType, at: UVec3) -> Chunk {
    let mut chunk = Chunk::new();
    chunk.set_block(block, at);
    chunk
}

fn assert_quads(mesh: &CMesh) {
    assert_eq!(mesh.vertices.len() % 4, 0);
    let quads = mesh.vertices.len() / 4;
    assert_eq!(mesh.indices.len(), 6 * quads);
    for q in 0..quads {
        let o = 4 * q as u32;
        assert_eq!(mesh.indices[6 * q..6 * q + 6], [o, o + 2, o + 1, o + 2, o + 3, o + 1]);
    }
}

fn quads_in_plane(mesh: &CMesh, axis: usize, at: i64) -> usize {
    mesh.vertices.chunks(4).filter(|quad| quad.iter().all(|v| v.position[axis] == at)).count()
}

#[test]
fn air_has_no_mesh() {
    let chunk = Chunk::new();
    let mesh = mesh_chunk(IVec3::new(0, 0, 0), chunk.clone(), &neighborhood(&chunk));
    assert!(mesh.vertices.is_empty());
    assert!(mesh.indices.is_empty());
}

#[test]
fn a_block_in_the_air_shows_six_faces() {
    let chunk = single(BlockType::Stone, UVec3::new(1, 1, 1));
    let mesh = mesh_chunk(IVec3::new(0, 0, 0), chunk.clone(), &neighborhood(&chunk));
    assert_eq!(mesh.vertices.len(), 24);
    assert_eq!(mesh.indices.len(), 36);
    assert_quads(&mesh);
    assert_eq!(mesh.indices[..6], [0, 2, 1, 2, 3, 1]);
    assert_eq!(mesh.indices[30..], [20, 22, 21, 22, 23, 21]);
    for v in &mesh.vertices {
        assert_eq!(v.ao, 0);
        assert_eq!(v.normal, [0, 0, 0]);
    }
}

#[test]
fn vertices_are_placed_in_half_blocks() {
    let chunk = single(BlockType::Stone, UVec3::new(1, 2, 3));
    let mesh = mesh_chunk(IVec3::new(0, 0, 0), chunk.clone(), &neighborhood(&chunk));
    // The block's centre is at (2, 4, 6); the front face looks along z.
    assert_eq!(
        mesh.vertices[0],
        MeshVertex { position: [1, 5, 7], tex_coords: [3, 0], normal: [0, 0, 0], ao: 0 }
    );
    assert_eq!(mesh.vertices[1].position, [3, 5, 7]);
    assert_eq!(mesh.vertices[2].position, [1, 3, 7]);
    assert_eq!(mesh.vertices[3].position, [3, 3, 7]);
    // The back face comes next.
    assert_eq!(mesh.vertices[4].position, [3, 5, 5]);
    // Then top, bottom, left and right.
    for v in &mesh.vertices[8..12] {
        assert_eq!(v.position[1], 5);
    }
    for v in &mesh.vertices[12..16] {
        assert_eq!(v.position[1], 3);
    }
    for v in &mesh.vertices[16..20] {
        assert_eq!(v.position[0], 1);
    }
    for v in &mesh.vertices[20..24] {
        assert_eq!(v.position[0], 3);
    }
}

#[test]
fn vertices_follow_the_chunk_into_the_world() {
    let chunk = single(BlockType::Stone, UVec3::new(1, 2, 3));
    let mesh = mesh_chunk(IVec3::new(2, -1, 0), chunk.clone(), &neighborhood(&chunk));
    // The block is at (65, -30, 3) of the world.
    assert_eq!(mesh.vertices[0].position, [129, -59, 7]);
    let far = mesh_chunk(
        IVec3::new(i32::MAX, i32::MIN, 0),
        chunk.clone(),
        &neighborhood(&chunk),
    );
    assert_eq!(
        far.vertices[0].position,
        [2 * (32 * i32::MAX as i64 + 1) - 1, 2 * (32 * i32::MIN as i64 + 2) + 1, 7]
    );
}

#[test]
fn texture_coordinates_count_tiles() {
    assert_eq!(ATLAS_SIZE, 16);
    let chunk = single(BlockType::Wood, UVec3::new(5, 5, 5));
    let mesh = mesh_chunk(IVec3::new(0, 0, 0), chunk.clone(), &neighborhood(&chunk));
    // Sides show tile 6, top and bottom tile 22, which is tile (6, 1).
    let front: Vec<[u32; 2]> = mesh.vertices[0..4].iter().map(|v| v.tex_coords).collect();
    assert_eq!(front, [[6, 0], [7, 0], [6, 1], [7, 1]]);
    let top: Vec<[u32; 2]> = mesh.vertices[8..12].iter().map(|v| v.tex_coords).collect();
    assert_eq!(top, [[6, 1], [7, 1], [6, 2], [7, 2]]);
    let bottom: Vec<[u32; 2]> = mesh.vertices[12..16].iter().map(|v| v.tex_coords).collect();
    assert_eq!(bottom, [[6, 2], [7, 2], [6, 1], [7, 1]]);
}

#[test]
fn faces_between_blocks_are_left_out() {
    let mut chunk = Chunk::new();
    chunk.set_block(BlockType::Stone, UVec3::new(4, 4, 4));
    chunk.set_block(BlockType::Dirt, UVec3::new(5, 4, 4));
    let mesh = mesh_chunk(IVec3::new(0, 0, 0), chunk.clone(), &neighborhood(&chunk));
    assert_eq!(mesh.vertices.len(), 4 * 10);
    assert_quads(&mesh);
    // The first five quads are the faces of the stone, the others those of
    // the dirt; no quad lies in the plane between the two.
    for v in &mesh.vertices[..20] {
        assert!(v.tex_coords[0] == 3 || v.tex_coords[0] == 4);
    }
    for v in &mesh.vertices[20..] {
        assert!(v.tex_coords[0] == 2 || v.tex_coords[0] == 3);
    }
    assert_eq!(quads_in_plane(&mesh, 0, 9), 0);
    assert_eq!(quads_in_plane(&mesh, 0, 7), 1);
    assert_eq!(quads_in_plane(&mesh, 0, 11), 1);
}

#[test]
fn a_full_chunk_among_full_chunks_has_no_mesh() {
    let mut chunk = Chunk::new();
    chunk.set([BlockType::Stone; CHUNK_VOLUME]);
    let mut around = Vec::new();
    for _ in 0..NEIGHBORHOOD {
        around.push(chunk.clone());
    }
    let mesh = mesh_chunk(IVec3::new(0, 0, 0), chunk, &around);
    assert!(mesh.vertices.is_empty());
    assert!(mesh.indices.is_empty());
}

#[test]
fn a_full_chunk_in_the_air_shows_its_six_sides() {
    let mut chunk = Chunk::new();
    chunk.set([BlockType::Stone; CHUNK_VOLUME]);
    let mesh = mesh_chunk(IVec3::new(0, 0, 0), chunk.clone(), &neighborhood(&chunk));
    assert_eq!(mesh.vertices.len(), 4 * 6 * 32 * 32);
    assert_quads(&mesh);
}

#[test]
fn faces_are_culled_across_the_border_of_the_chunk() {
    let chunk = single(BlockType::Stone, UVec3::new(31, 5, 5));
    let mut around = neighborhood(&chunk);
    around[14].set_block(BlockType::Stone, UVec3::new(0, 5, 5));
    let mesh = mesh_chunk(IVec3::new(0, 0, 0), chunk.clone(), &around);
    assert_eq!(mesh.vertices.len(), 4 * 5);
    assert_eq!(quads_in_plane(&mesh, 0, 63), 0);
    assert_eq!(quads_in_plane(&mesh, 0, 61), 1);
    // The neighbour on the other side is air: without the block over the
    // border all six faces show.
    let open = mesh_chunk(IVec3::new(0, 0, 0), chunk.clone(), &neighborhood(&chunk));
    assert_eq!(open.vertices.len(), 4 * 6);
    assert_eq!(quads_in_plane(&open, 0, 63), 1);
}

#[test]
fn every_face_is_culled_by_the_block_it_looks_at() {
    let looks_at = [
        (BlockFace::Front, (0, 0, 1)),
        (BlockFace::Back, (0, 0, -1)),
        (BlockFace::Top, (0, 1, 0)),
        (BlockFace::Bottom, (0, -1, 0)),
        (BlockFace::Left, (-1, 0, 0)),
        (BlockFace::Right, (1, 0, 0)),
    ];
    for (n, (_, d)) in looks_at.iter().enumerate() {
        let mut chunk = single(BlockType::Stone, UVec3::new(8, 8, 8));
        let other = UVec3::new((8 + d.0) as usize, (8 + d.1) as usize, (8 + d.2) as usize);
        chunk.set_block(BlockType::Leaves, other);
        let mesh = mesh_chunk(IVec3::new(0, 0, 0), chunk.clone(), &neighborhood(&chunk));
        assert_eq!(mesh.vertices.len(), 4 * 10);
        // The block at (8, 8, 8) comes first in the mesh unless the other one
        // is stored before it.
        let stone: Vec<&MeshVertex> =
            mesh.vertices.iter().filter(|v| v.tex_coords[0] == 3 || v.tex_coords[0] == 4).collect();
        assert_eq!(stone.len(), 20);
        let axis = if d.0 != 0 { 0 } else if d.1 != 0 { 1 } else { 2 };
        let side = 16 + [d.0, d.1, d.2][axis] as i64;
        // Four of the five faces that are left touch the culled side along
        // an edge: two corners each.
        let on_side = stone.iter().filter(|v| v.position[axis] == side).count();
        assert_eq!(on_side, 8, "face {}", n);
        assert_eq!(quads_in_plane(&mesh, axis, side), 0, "face {}", n);
    }
}

#[test]
fn a_block_beside_a_corner_shades_it() {
    let mut chunk = single(BlockType::Stone, UVec3::new(1, 1, 1));
    chunk.set_block(BlockType::Stone, UVec3::new(2, 2, 1));
    let mesh = mesh_chunk(IVec3::new(0, 0, 0), chunk.clone(), &neighborhood(&chunk));
    assert_eq!(mesh.vertices.len(), 48);
    // The top face of the first block: its corners on the side of the second
    // block are shaded once.
    let top: Vec<u8> = mesh.vertices[8..12].iter().map(|v| v.ao).collect();
    assert_eq!(top, [0, 1, 0, 1]);
    // The bottom face is not shaded.
    let bottom: Vec<u8> = mesh.vertices[12..16].iter().map(|v| v.ao).collect();
    assert_eq!(bottom, [0, 0, 0, 0]);
}

#[test]
fn the_block_across_counts_only_beside_another() {
    // Corner (+1, +1, +1) of the block at (1, 1, 1): beside it are (2, 2, 1)
    // and (1, 2, 2), across is (2, 2, 2).
    let shade = |blocks: &[(usize, usize, usize)]| -> u8 {
        let mut chunk = single(BlockType::Stone, UVec3::new(1, 1, 1));
        for (x, y, z) in blocks {
            chunk.set_block(BlockType::Dirt, UVec3::new(*x, *y, *z));
        }
        let mesh = mesh_chunk(IVec3::new(0, 0, 0), chunk.clone(), &neighborhood(&chunk));
        // The first block is stored first; its front face is never culled
        // here, and its second vertex is the corner (+1, +1, +1).
        assert_eq!(mesh.vertices[1].position, [3, 3, 3]);
        mesh.vertices[1].ao
    };
    assert_eq!(shade(&[]), 0);
    assert_eq!(shade(&[(2, 2, 2)]), 0);
    assert_eq!(shade(&[(2, 2, 1)]), 1);
    assert_eq!(shade(&[(1, 2, 2)]), 1);
    assert_eq!(shade(&[(2, 2, 1), (2, 2, 2)]), 2);
    assert_eq!(shade(&[(1, 2, 2), (2, 2, 2)]), 2);
    assert_eq!(shade(&[(2, 2, 1), (1, 2, 2)]), 2);
    assert_eq!(shade(&[(2, 2, 1), (1, 2, 2), (2, 2, 2)]), 3);
}

#[test]
fn one_more_block_never_lightens_a_corner() {
    let places = [(2usize, 2usize, 1usize), (1, 2, 2), (2, 2, 2)];
    let shade = |set: usize| -> u8 {
        let mut chunk = single(BlockType::Stone, UVec3::new(1, 1, 1));
        for (n, (x, y, z)) in places.iter().enumerate() {
            if set & (1 << n) != 0 {
                chunk.set_block(BlockType::Stone, UVec3::new(*x, *y, *z));
            }
        }
        let mesh = mesh_chunk(IVec3::new(0, 0, 0), chunk.clone(), &neighborhood(&chunk));
        mesh.vertices[1].ao
    };
    for set in 0..8 {
        assert!(shade(set) <= 3);
        for n in 0..3 {
            assert!(shade(set) <= shade(set | (1 << n)));
        }
    }
}

#[test]
fn shade_comes_from_neighbors_too() {
    let chunk = single(BlockType::Stone, UVec3::new(31, 31, 31));
    let mut around = neighborhood(&chunk);
    // The chunk above: the block over the one beside ours on the right is in
    // the chunk that lies right and above.
    around[17].set_block(BlockType::Stone, UVec3::new(0, 0, 31));
    let mesh = mesh_chunk(IVec3::new(0, 0, 0), chunk.clone(), &around);
    assert_eq!(mesh.vertices.len(), 24);
    // Top face: the corners on the right are shaded once.
    let top: Vec<u8> = mesh.vertices[8..12].iter().map(|v| v.ao).collect();
    assert_eq!(top, [0, 1, 0, 1]);
}
