//! Block types, block faces and their lookup tables.

use vstd::prelude::*;
use crate::mesh::MeshVertex;

verus! {

/// The atlas tile shown where a block has no texture of its own.
pub const MISSING_TEXTURE: u32 = 255;

/// The kinds of blocks. Air is the absence of a block.
#[derive(Debug, Clone, Copy, PartialEq, Eq, Structural)]
pub enum BlockType {
    Air,
    Grass,
    Dirt,
    Stone,
    Sand,
    Wood,
    Leaves,
}

/// The six faces of a block: front and back look along `z`, top and bottom
/// along `y`, right and left along `x`.
#[derive(Debug, Clone, Copy, PartialEq, Eq, Structural)]
pub enum BlockFace {
    Front,
    Back,
    Top,
    Bottom,
    Left,
    Right,
}

impl BlockType {
    /// The atlas tile of a face of this block. Grass and wood show another
    /// tile on top and bottom than on their sides; air has no texture.
    pub open spec fn spec_texture(self, face: BlockFace) -> u32 {
        match self {
            BlockType::Air => MISSING_TEXTURE,
            BlockType::Grass => match face {
                BlockFace::Top => 0,
                BlockFace::Bottom => 2,
                _ => 1,
            },
            BlockType::Dirt => 2,
            BlockType::Stone => 3,
            BlockType::Sand => 4,
            BlockType::Wood => match face {
                BlockFace::Top | BlockFace::Bottom => 22,
                _ => 6,
            },
            BlockType::Leaves => 7,
        }
    }

    /// Whether the block hides what lies behind it: every block but air does.
    pub open spec fn spec_opaque(self) -> bool {
        self != BlockType::Air
    }

    /// The atlas tile of a face of this block.
    pub fn texture(&self, face: &BlockFace) -> (tile: u32)
        ensures
            tile == self.spec_texture(*face),
            tile <= 255,
    {
        match *self {
            BlockType::Grass => match face {
                BlockFace::Top => 0,
                BlockFace::Bottom => 2,
                _ => 1,
            },
            BlockType::Dirt => 2,
            BlockType::Stone => 3,
            BlockType::Sand => 4,
            BlockType::Wood => match face {
                BlockFace::Top => 22,
                BlockFace::Bottom => 22,
                _ => 6,
            },
            BlockType::Leaves => 7,
            _ => MISSING_TEXTURE,
        }
    }

    /// Whether the block hides what lies behind it.
    pub fn opaque(&self) -> (r: bool)
        ensures
            r == self.spec_opaque(),
    {
        match *self {
            BlockType::Air => false,
            _ => true,
        }
    }
}

/// The six faces in the order in which a mesh lists them.
pub open spec fn all_faces() -> Seq<BlockFace> {
    seq![
        BlockFace::Front,
        BlockFace::Back,
        BlockFace::Top,
        BlockFace::Bottom,
        BlockFace::Left,
        BlockFace::Right,
    ]
}

impl BlockFace {
    /// The direction in which the face looks, one unit along one axis.
    pub open spec fn spec_normal(self) -> (int, int, int) {
        match self {
            BlockFace::Front => (0, 0, 1),
            BlockFace::Back => (0, 0, -1),
            BlockFace::Top => (0, 1, 0),
            BlockFace::Bottom => (0, -1, 0),
            BlockFace::Left => (-1, 0, 0),
            BlockFace::Right => (1, 0, 0),
        }
    }

    /// Corner `k` of the face's quad as `(x, y, z, u, v)`: the position in
    /// half-block units around the block's centre, and the corner of the tile.
    pub open spec fn spec_corner(self, k: int) -> (int, int, int, int, int) {
        match self {
            BlockFace::Front => if k == 0 {
                (-1, 1, 1, 0, 0)
            } else if k == 1 {
                (1, 1, 1, 1, 0)
            } else if k == 2 {
                (-1, -1, 1, 0, 1)
            } else {
                (1, -1, 1, 1, 1)
            },
            BlockFace::Back => if k == 0 {
                (1, 1, -1, 0, 0)
            } else if k == 1 {
                (-1, 1, -1, 1, 0)
            } else if k == 2 {
                (1, -1, -1, 0, 1)
            } else {
                (-1, -1, -1, 1, 1)
            },
            BlockFace::Top => if k == 0 {
                (-1, 1, -1, 0, 0)
            } else if k == 1 {
                (1, 1, -1, 1, 0)
            } else if k == 2 {
                (-1, 1, 1, 0, 1)
            } else {
                (1, 1, 1, 1, 1)
            },
            BlockFace::Bottom => if k == 0 {
                (-1, -1, 1, 0, 1)
            } else if k == 1 {
                (1, -1, 1, 1, 1)
            } else if k == 2 {
                (-1, -1, -1, 0, 0)
            } else {
                (1, -1, -1, 1, 0)
            },
            BlockFace::Left => if k == 0 {
                (-1, 1, -1, 0, 0)
            } else if k == 1 {
                (-1, 1, 1, 1, 0)
            } else if k == 2 {
                (-1, -1, -1, 0, 1)
            } else {
                (-1, -1, 1, 1, 1)
            },
            BlockFace::Right => if k == 0 {
                (1, 1, 1, 0, 0)
            } else if k == 1 {
                (1, 1, -1, 1, 0)
            } else if k == 2 {
                (1, -1, 1, 0, 1)
            } else {
                (1, -1, -1, 1, 1)
            },
        }
    }

    /// Corner `k` of the face's quad as a vertex without shading.
    pub open spec fn spec_vertex(self, k: int) -> MeshVertex {
        let c = self.spec_corner(k);
        MeshVertex {
            position: [c.0 as i64, c.1 as i64, c.2 as i64],
            tex_coords: [c.3 as u32, c.4 as u32],
            normal: [0i32, 0i32, 0i32],
            ao: 0,
        }
    }

    /// The six faces, in the order in which a mesh lists them.
    pub fn iterator() -> (faces: [BlockFace; 6])
        ensures
            faces@ == all_faces(),
    {
        [
            BlockFace::Front,
            BlockFace::Back,
            BlockFace::Top,
            BlockFace::Bottom,
            BlockFace::Left,
            BlockFace::Right,
        ]
    }

    /// The four corners of the face's quad.
    pub fn get_vertices(&self) -> (quad: [MeshVertex; 4])
        ensures
            quad@[0] == self.spec_vertex(0),
            quad@[1] == self.spec_vertex(1),
            quad@[2] == self.spec_vertex(2),
            quad@[3] == self.spec_vertex(3),
    {
        match *self {
            BlockFace::Front => [
                MeshVertex::corner(-1, 1, 1, 0, 0),
                MeshVertex::corner(1, 1, 1, 1, 0),
                MeshVertex::corner(-1, -1, 1, 0, 1),
                MeshVertex::corner(1, -1, 1, 1, 1),
            ],
            BlockFace::Back => [
                MeshVertex::corner(1, 1, -1, 0, 0),
                MeshVertex::corner(-1, 1, -1, 1, 0),
                MeshVertex::corner(1, -1, -1, 0, 1),
                MeshVertex::corner(-1, -1, -1, 1, 1),
            ],
            BlockFace::Top => [
                MeshVertex::corner(-1, 1, -1, 0, 0),
                MeshVertex::corner(1, 1, -1, 1, 0),
                MeshVertex::corner(-1, 1, 1, 0, 1),
                MeshVertex::corner(1, 1, 1, 1, 1),
            ],
            BlockFace::Bottom => [
                MeshVertex::corner(-1, -1, 1, 0, 1),
                MeshVertex::corner(1, -1, 1, 1, 1),
                MeshVertex::corner(-1, -1, -1, 0, 0),
                MeshVertex::corner(1, -1, -1, 1, 0),
            ],
            BlockFace::Left => [
                MeshVertex::corner(-1, 1, -1, 0, 0),
                MeshVertex::corner(-1, 1, 1, 1, 0),
                MeshVertex::corner(-1, -1, -1, 0, 1),
                MeshVertex::corner(-1, -1, 1, 1, 1),
            ],
            BlockFace::Right => [
                MeshVertex::corner(1, 1, 1, 0, 0),
                MeshVertex::corner(1, 1, -1, 1, 0),
                MeshVertex::corner(1, -1, 1, 0, 1),
                MeshVertex::corner(1, -1, -1, 1, 1),
            ],
        }
    }
}

/// Every corner of a face lies on the side of the block that the face looks
/// to, half a block from the centre along each axis, on a corner of the tile.
pub proof fn lemma_corner_on_face(face: BlockFace, k: int)
    requires
        0 <= k < 4,
    ensures
        ({
            let c = face.spec_corner(k);
            let n = face.spec_normal();
            &&& (c.0 == 1 || c.0 == -1) && (c.1 == 1 || c.1 == -1) && (c.2 == 1 || c.2 == -1)
            &&& (c.3 == 0 || c.3 == 1) && (c.4 == 0 || c.4 == 1)
            &&& n.0 != 0 ==> c.0 == n.0
            &&& n.1 != 0 ==> c.1 == n.1
            &&& n.2 != 0 ==> c.2 == n.2
        }),
{
}

/// The four corners of a face are four different points.
pub proof fn lemma_corners_distinct(face: BlockFace, j: int, k: int)
    requires
        0 <= j < k < 4,
    ensures
        ({
            let a = face.spec_corner(j);
            let b = face.spec_corner(k);
            (a.0, a.1, a.2) != (b.0, b.1, b.2) && (a.3, a.4) != (b.3, b.4)
        }),
{
}

} // verus!
