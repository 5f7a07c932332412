//! Integer triples: chunk coordinates, world block positions and positions
//! inside a chunk.

use vstd::prelude::*;

verus! {

/// A signed integer triple. It names a chunk, a block of the world, or a
/// position relative to a chunk that may lie just outside of it.
#[derive(Clone, Copy, Debug, PartialEq, Eq, Hash, Structural)]
pub struct IVec3 {
    pub x: i32,
    pub y: i32,
    pub z: i32,
}

/// An unsigned integer triple: the position of a block inside its chunk.
#[derive(Clone, Copy, Debug, PartialEq, Eq, Hash, Structural)]
pub struct UVec3 {
    pub x: usize,
    pub y: usize,
    pub z: usize,
}

/// Whether an integer can be a coordinate.
pub open spec fn fits_i32(v: int) -> bool {
    i32::MIN <= v <= i32::MAX
}

impl IVec3 {
    /// The triple `(x, y, z)`.
    pub fn new(x: i32, y: i32, z: i32) -> (r: Self)
        ensures
            r == (IVec3 { x, y, z }),
    {
        IVec3 { x, y, z }
    }

    /// Whether moving by `(dx, dy, dz)` stays inside the coordinate range.
    pub open spec fn can_offset(self, dx: int, dy: int, dz: int) -> bool {
        fits_i32(self.x + dx) && fits_i32(self.y + dy) && fits_i32(self.z + dz)
    }

    /// The triple moved by `(dx, dy, dz)`; meaningful where `can_offset` holds.
    pub open spec fn spec_offset(self, dx: int, dy: int, dz: int) -> IVec3 {
        IVec3 { x: (self.x + dx) as i32, y: (self.y + dy) as i32, z: (self.z + dz) as i32 }
    }

    /// The largest distance along one axis between two triples.
    pub open spec fn spec_distance(self, other: IVec3) -> int {
        let dx = if self.x >= other.x { self.x - other.x } else { other.x - self.x };
        let dy = if self.y >= other.y { self.y - other.y } else { other.y - self.y };
        let dz = if self.z >= other.z { self.z - other.z } else { other.z - self.z };
        if dx >= dy && dx >= dz {
            dx
        } else if dy >= dz {
            dy
        } else {
            dz
        }
    }

    /// Moves by `(dx, dy, dz)`, or gives `None` where a coordinate would leave
    /// the range of `i32`.
    pub fn offset(self, dx: i32, dy: i32, dz: i32) -> (r: Option<IVec3>)
        ensures
            r.is_some() == self.can_offset(dx as int, dy as int, dz as int),
            r.is_some() ==> r.unwrap() == self.spec_offset(dx as int, dy as int, dz as int),
    {
        let x: i64 = self.x as i64 + dx as i64;
        let y: i64 = self.y as i64 + dy as i64;
        let z: i64 = self.z as i64 + dz as i64;
        if x < i32::MIN as i64 || x > i32::MAX as i64 || y < i32::MIN as i64 || y > i32::MAX as i64
            || z < i32::MIN as i64 || z > i32::MAX as i64 {
            None
        } else {
            Some(IVec3 { x: x as i32, y: y as i32, z: z as i32 })
        }
    }

    /// Whether `other` is at most `limit` away along every axis.
    pub fn within(self, other: IVec3, limit: i32) -> (r: bool)
        ensures
            r == (self.spec_distance(other) <= limit),
    {
        let dx: i64 = self.x as i64 - other.x as i64;
        let dy: i64 = self.y as i64 - other.y as i64;
        let dz: i64 = self.z as i64 - other.z as i64;
        let l: i64 = limit as i64;
        -l <= dx && dx <= l && -l <= dy && dy <= l && -l <= dz && dz <= l
    }
}

impl UVec3 {
    /// The triple `(x, y, z)`.
    pub fn new(x: usize, y: usize, z: usize) -> (r: Self)
        ensures
            r == (UVec3 { x, y, z }),
    {
        UVec3 { x, y, z }
    }
}

/// The test that a triple is another one than `p`.
pub open spec fn is_not(p: IVec3) -> spec_fn(IVec3) -> bool {
    |q: IVec3| q != p
}

/// The test that a triple lies more than `reach` away from `p`. With a reach
/// of 0 every triple but `p` passes, with a reach of 1 every triple but `p`
/// and the 26 around it.
pub open spec fn is_beyond(p: IVec3, reach: int) -> spec_fn(IVec3) -> bool {
    |q: IVec3| q.spec_distance(p) > reach
}

/// The offset of place `n` of a neighbourhood from its middle: `x` changes
/// from one place to the next, then `y`, then `z`.
pub open spec fn neighbor_offset(n: int) -> (int, int, int) {
    (n % 3 - 1, (n / 3) % 3 - 1, n / 9 - 1)
}

/// The offset of step `m` of a walk through a neighbourhood in which `z`
/// changes from one step to the next, then `y`, then `x`.
pub open spec fn scan_offset(m: int) -> (int, int, int) {
    (m / 9 - 1, (m / 3) % 3 - 1, m % 3 - 1)
}

impl IVec3 {
    /// The triple moved by an offset, or `None` where that leaves the
    /// coordinate range.
    pub open spec fn spec_moved(self, d: (int, int, int)) -> Option<IVec3> {
        if self.can_offset(d.0, d.1, d.2) {
            Some(self.spec_offset(d.0, d.1, d.2))
        } else {
            None
        }
    }

    /// The coordinate at place `n` of the neighbourhood of this one.
    pub open spec fn spec_neighbor(self, n: int) -> Option<IVec3> {
        self.spec_moved(neighbor_offset(n))
    }

    /// The coordinate at place `n` of the neighbourhood of this one, from 0
    /// to 26; place 13 is the coordinate itself.
    pub fn neighbor(self, n: usize) -> (r: Option<IVec3>)
        requires
            n < 27,
        ensures
            r == self.spec_neighbor(n as int),
    {
        let dx: i32 = (n % 3) as i32 - 1;
        let dy: i32 = ((n / 3) % 3) as i32 - 1;
        let dz: i32 = (n / 9) as i32 - 1;
        self.offset(dx, dy, dz)
    }

    /// The coordinate at step `m` of a walk through the neighbourhood of
    /// this one along `z` first, from 0 to 26.
    pub fn scan_neighbor(self, m: usize) -> (r: Option<IVec3>)
        requires
            m < 27,
        ensures
            r == self.spec_moved(scan_offset(m as int)),
    {
        let dx: i32 = (m / 9) as i32 - 1;
        let dy: i32 = ((m / 3) % 3) as i32 - 1;
        let dz: i32 = (m % 3) as i32 - 1;
        self.offset(dx, dy, dz)
    }
}

/// Whether a list holds a triple.
pub fn list_contains(list: &Vec<IVec3>, p: IVec3) -> (r: bool)
    ensures
        r == list@.contains(p),
{
    let mut i: usize = 0;
    while i < list.len()
        invariant
            i <= list.len(),
            forall|j: int| 0 <= j < i ==> list@[j] != p,
        decreases list.len() - i,
    {
        if list[i] == p {
            return true;
        }
        i += 1;
    }
    false
}

/// Takes every occurrence of a triple out of a list; the others keep their
/// order.
pub fn list_remove(list: &mut Vec<IVec3>, p: IVec3)
    ensures
        final(list)@ == old(list)@.filter(is_not(p)),
{
    let mut kept: Vec<IVec3> = Vec::new();
    let mut i: usize = 0;
    proof {
        reveal(Seq::filter);
        assert(list@.take(0) =~= Seq::<IVec3>::empty());
    }
    while i < list.len()
        invariant
            i <= list.len(),
            list@ == old(list)@,
            kept@ == list@.take(i as int).filter(is_not(p)),
        decreases list.len() - i,
    {
        proof {
            assert(list@.take(i + 1) =~= list@.take(i as int).push(list@[i as int]));
            list@.take(i as int).lemma_filter_push(list@[i as int], is_not(p));
        }
        if list[i] != p {
            kept.push(list[i]);
        }
        i += 1;
    }
    proof {
        assert(list@.take(list@.len() as int) =~= list@);
    }
    *list = kept;
}

/// The list in the opposite order.
pub fn reversed<T>(list: Vec<T>) -> (r: Vec<T>)
    ensures
        r@ == list@.reverse(),
{
    let mut list = list;
    let ghost whole = list@;
    let mut r: Vec<T> = Vec::new();
    while list.len() > 0
        invariant
            list@ == whole.take(list@.len() as int),
            list@.len() <= whole.len(),
            r@.len() + list@.len() == whole.len(),
            forall|j: int| 0 <= j < r@.len() ==> #[trigger] r@[j] == whole[whole.len() - 1 - j],
        decreases list.len(),
    {
        let e = list.pop().unwrap();
        r.push(e);
    }
    assert(r@ =~= whole.reverse());
    r
}

} // verus!
