//! Grid coordinates of the chunks of an unbounded voxel world.

use crate::order::Ranked;
use vstd::prelude::*;

verus! {

/// A chunk's position on the horizontal grid.
#[derive(Debug, Clone, Copy, PartialEq, Eq, PartialOrd, Ord, Hash, Structural)]
pub struct ChunkCoord {
    pub x: i32,
    pub z: i32,
}

/// The magnitude of a number.
pub open spec fn magnitude(a: int) -> int {
    if a >= 0 {
        a
    } else {
        -a
    }
}

/// The chessboard distance between two chunks.
pub open spec fn chebyshev(a: ChunkCoord, b: ChunkCoord) -> int {
    let dx = magnitude(a.x - b.x);
    let dz = magnitude(a.z - b.z);
    if dx >= dz {
        dx
    } else {
        dz
    }
}

/// The squared straight-line distance between two chunks.
pub open spec fn squared(a: ChunkCoord, b: ChunkCoord) -> int {
    (a.x - b.x) * (a.x - b.x) + (a.z - b.z) * (a.z - b.z)
}

impl Ranked for ChunkCoord {
    open spec fn ranks(a: Self, b: Self) -> bool {
        a.x < b.x || (a.x == b.x && a.z <= b.z)
    }

    proof fn linear(a: Self, b: Self, c: Self) {
    }

    fn ranks_before(&self, other: &Self) -> (r: bool) {
        self.x < other.x || (self.x == other.x && self.z <= other.z)
    }
}

fn span(a: i32, b: i32) -> (r: i64)
    ensures
        r == magnitude(a - b),
{
    if a >= b {
        a as i64 - b as i64
    } else {
        b as i64 - a as i64
    }
}

impl ChunkCoord {
    pub fn new(x: i32, z: i32) -> (r: Self)
        ensures
            r.x == x,
            r.z == z,
    {
        ChunkCoord { x, z }
    }

    /// The chessboard distance to `other`.
    pub fn chebyshev_distance(self, other: ChunkCoord) -> (r: i64)
        ensures
            r == chebyshev(self, other),
    {
        let dx: i64 = span(self.x, other.x);
        let dz: i64 = span(self.z, other.z);
        if dx >= dz {
            dx
        } else {
            dz
        }
    }

    /// The squared distance to `other`.
    pub fn sq_distance(self, other: ChunkCoord) -> (r: u128)
        ensures
            r == squared(self, other),
    {
        let dx: u128 = span(self.x, other.x) as u128;
        let dz: u128 = span(self.z, other.z) as u128;
        assert(dx * dx <= 0x1_0000_0000 * 0x1_0000_0000) by (nonlinear_arith)
            requires
                0 <= dx <= 0x1_0000_0000,
        ;
        assert(dz * dz <= 0x1_0000_0000 * 0x1_0000_0000) by (nonlinear_arith)
            requires
                0 <= dz <= 0x1_0000_0000,
        ;
        proof {
            lemma_square_of_magnitude(self.x - other.x);
            lemma_square_of_magnitude(self.z - other.z);
        }
        dx * dx + dz * dz
    }

    /// The chunk `dx` columns and `dz` rows away.
    pub fn offset(self, dx: i32, dz: i32) -> (r: ChunkCoord)
        requires
            i32::MIN <= self.x + dx <= i32::MAX,
            i32::MIN <= self.z + dz <= i32::MAX,
        ensures
            r.x == self.x + dx,
            r.z == self.z + dz,
    {
        ChunkCoord { x: self.x + dx, z: self.z + dz }
    }
}

proof fn lemma_square_of_magnitude(a: int)
    ensures
        magnitude(a) * magnitude(a) == a * a,
        a * a >= 0,
{
    assert((-a) * (-a) == a * a) by (nonlinear_arith);
    assert(a * a >= 0) by (nonlinear_arith);
}

/// The chunks of the columns `x0..x1` and rows `z0..z1`.
pub open spec fn block(x0: int, x1: int, z0: int, z1: int) -> Set<ChunkCoord> {
    Set::new(|c: ChunkCoord| x0 <= c.x < x1 && z0 <= c.z < z1)
}

/// A column of a block has at most one chunk per row.
proof fn lemma_column_len(x: int, z0: int, z1: int)
    requires
        z0 <= z1,
    ensures
        block(x, x + 1, z0, z1).finite(),
        block(x, x + 1, z0, z1).len() <= z1 - z0,
    decreases z1 - z0,
{
    if z0 == z1 {
        assert(block(x, x + 1, z0, z1) =~= Set::empty());
    } else {
        lemma_column_len(x, z0, z1 - 1);
        let small = block(x, x + 1, z0, z1 - 1);
        if i32::MIN <= x <= i32::MAX && i32::MIN <= z1 - 1 <= i32::MAX {
            let c = ChunkCoord { x: x as i32, z: (z1 - 1) as i32 };
            assert(block(x, x + 1, z0, z1) =~= small.insert(c));
        } else {
            assert(block(x, x + 1, z0, z1) =~= small);
        }
    }
}

/// A block has at most as many chunks as its area.
pub proof fn lemma_block_len(x0: int, x1: int, z0: int, z1: int)
    requires
        x0 <= x1,
        z0 <= z1,
    ensures
        block(x0, x1, z0, z1).finite(),
        block(x0, x1, z0, z1).len() <= (x1 - x0) * (z1 - z0),
    decreases x1 - x0,
{
    if x0 == x1 {
        assert(block(x0, x1, z0, z1) =~= Set::empty());
        assert((x1 - x0) * (z1 - z0) == 0) by (nonlinear_arith)
            requires
                x1 == x0,
        ;
    } else {
        lemma_block_len(x0, x1 - 1, z0, z1);
        lemma_column_len(x1 - 1, z0, z1);
        let left = block(x0, x1 - 1, z0, z1);
        let column = block(x1 - 1, x1, z0, z1);
        assert(block(x0, x1, z0, z1) =~= left.union(column));
        vstd::set_lib::lemma_len_union(left, column);
        assert((x1 - x0) * (z1 - z0) == (x1 - 1 - x0) * (z1 - z0) + (z1 - z0)) by (nonlinear_arith);
    }
}

/// The chessboard distance is the greater of the two distances along the axes.
pub proof fn law_chessboard_distance(a: ChunkCoord, b: ChunkCoord)
    ensures
        chebyshev(a, b) >= a.x - b.x && chebyshev(a, b) >= b.x - a.x,
        chebyshev(a, b) >= a.z - b.z && chebyshev(a, b) >= b.z - a.z,
        chebyshev(a, b) == a.x - b.x || chebyshev(a, b) == b.x - a.x || chebyshev(a, b) == a.z - b.z
            || chebyshev(a, b) == b.z - a.z,
        chebyshev(a, b) == chebyshev(b, a),
        chebyshev(a, b) == 0 <==> a == b,
{
}

/// The squared distance is that of the right triangle over the axes: zero only between a
/// chunk and itself, the same from either end, and along one axis the square of the distance.
pub proof fn law_squared_distance(a: ChunkCoord, b: ChunkCoord)
    ensures
        squared(a, b) == squared(b, a),
        squared(a, b) >= chebyshev(a, b) * chebyshev(a, b),
        a.z == b.z ==> squared(a, b) == (a.x - b.x) * (a.x - b.x),
        a.x == b.x ==> squared(a, b) == (a.z - b.z) * (a.z - b.z),
        squared(a, b) <= 2 * chebyshev(a, b) * chebyshev(a, b),
{
    let x = a.x - b.x;
    let z = a.z - b.z;
    lemma_square_of_magnitude(x);
    lemma_square_of_magnitude(z);
    assert((-x) * (-x) == x * x && (-z) * (-z) == z * z) by (nonlinear_arith);
    assert(b.x - a.x == -x && b.z - a.z == -z);
    let m = chebyshev(a, b);
    let mx = magnitude(x);
    let mz = magnitude(z);
    assert(mx * mx <= m * m && mz * mz <= m * m) by (nonlinear_arith)
        requires
            0 <= mx <= m,
            0 <= mz <= m,
    ;
    assert(2 * m * m == m * m + m * m) by (nonlinear_arith);
    assert(z == 0 ==> z * z == 0) by (nonlinear_arith);
    assert(x == 0 ==> x * x == 0) by (nonlinear_arith);
}

} // verus!
