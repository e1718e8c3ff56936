//! Laying a cube of values out as slices, for printing.

use vstd::prelude::*;

verus! {

/// The cube of a number.
pub open spec fn cube(n: int) -> int {
    n * n * n
}

/// Cubing keeps the order of numbers that are not negative.
pub proof fn lemma_cube_monotonic(a: int, b: int)
    requires
        0 <= a <= b,
    ensures
        cube(a) <= cube(b),
{
    assert(a * a <= b * b) by (nonlinear_arith)
        requires
            0 <= a <= b,
    ;
    assert(a * a * a <= b * b * b) by (nonlinear_arith)
        requires
            0 <= a <= b,
            0 <= a * a <= b * b,
    ;
}

/// Flat offset of the value at `(x, y, z)` of a cube of side `size`, x
/// fastest.
pub open spec fn slice_offset(size: int, x: int, y: int, z: int) -> int {
    x + y * size + z * size * size
}

/// The side of the cube that holds `len` values, if `len` is a cube.
pub fn cube_side(len: usize) -> (r: Option<usize>)
    ensures
        match r {
            Some(side) => cube(side as int) == len,
            None => forall|side: int| 0 <= side ==> cube(side) != len,
        },
{
    // The side lies in [low, high): cube(low) <= len < cube(high).
    let mut low: u128 = 0;
    let mut high: u128 = 0x40_0000;
    let wide: u128 = len as u128;
    assert(0x40_0000 * 0x40_0000 * 0x40_0000 == 0x4_0000_0000_0000_0000int) by (nonlinear_arith);
    assert(cube(0) == 0);
    while high - low > 1
        invariant
            0 <= low < high <= 0x40_0000,
            wide == len,
            cube(low as int) <= wide < cube(high as int),
        decreases high - low,
    {
        let mid: u128 = low + (high - low) / 2;
        proof {
            lemma_cube_monotonic(mid as int, 0x40_0000);
            assert(0x40_0000 * 0x40_0000 * 0x40_0000 == 0x4_0000_0000_0000_0000int) by (nonlinear_arith);
            assert(mid * mid <= 0x40_0000 * 0x40_0000) by (nonlinear_arith)
                requires
                    0 <= mid <= 0x40_0000,
            ;
        }
        if mid * mid * mid <= wide {
            low = mid;
        } else {
            high = mid;
        }
    }
    proof {
        lemma_cube_monotonic(low as int, 0x40_0000);
        assert(0x40_0000 * 0x40_0000 * 0x40_0000 == 0x4_0000_0000_0000_0000int) by (nonlinear_arith);
        assert(low * low <= 0x40_0000 * 0x40_0000) by (nonlinear_arith)
            requires
                0 <= low <= 0x40_0000,
        ;
    }
    if low * low * low == wide {
        proof {
            assert(low <= len) by (nonlinear_arith)
                requires
                    low * low * low == len,
                    0 <= low,
            ;
        }
        Some(low as usize)
    } else {
        proof {
            assert forall|side: int| 0 <= side implies cube(side) != len by {
                if side <= low {
                    lemma_cube_monotonic(side, low as int);
                } else {
                    lemma_cube_monotonic(high as int, side);
                }
            }
        }
        None
    }
}

/// The order in which a cube of `len` values is printed: slice by slice
/// along z, row by row along y, value by value along x. Every entry is the
/// flat offset of the value to print there. Nothing is laid out where `len`
/// is not a cube.
pub fn slice_layout(len: usize) -> (r: Option<Vec<Vec<Vec<usize>>>>)
    ensures
        match r {
            Some(slices) => exists|size: int|
                {
                    &&& 0 <= size
                    &&& cube(size) == len
                    &&& slices@.len() == size
                    &&& forall|z: int|
                        0 <= z < size ==> (#[trigger] slices@[z])@.len() == size
                    &&& forall|z: int, y: int|
                        0 <= z < size && 0 <= y < size ==> (#[trigger] slices@[z]@[y])@.len()
                            == size
                    &&& forall|z: int, y: int, x: int|
                        0 <= z < size && 0 <= y < size && 0 <= x < size ==> (
                        #[trigger] slices@[z]@[y]@[x]) == slice_offset(size, x, y, z)
                },
            None => forall|side: int| 0 <= side ==> cube(side) != len,
        },
{
    let size = match cube_side(len) {
        Some(size) => size,
        None => {
            return None;
        },
    };
    let mut slices: Vec<Vec<Vec<usize>>> = Vec::new();
    let mut z: usize = 0;
    while z < size
        invariant
            z <= size,
            cube(size as int) == len,
            slices@.len() == z,
            forall|k: int| 0 <= k < z ==> (#[trigger] slices@[k])@.len() == size,
            forall|k: int, j: int|
                0 <= k < z && 0 <= j < size ==> (#[trigger] slices@[k]@[j])@.len() == size,
            forall|k: int, j: int, i: int|
                0 <= k < z && 0 <= j < size && 0 <= i < size ==> (#[trigger] slices@[k]@[j]@[i])
                    == slice_offset(size as int, i, j, k),
        decreases size - z,
    {
        let mut rows: Vec<Vec<usize>> = Vec::new();
        let mut y: usize = 0;
        while y < size
            invariant
                z < size,
                y <= size,
                cube(size as int) == len,
                rows@.len() == y,
                forall|j: int| 0 <= j < y ==> (#[trigger] rows@[j])@.len() == size,
                forall|j: int, i: int|
                    0 <= j < y && 0 <= i < size ==> (#[trigger] rows@[j]@[i]) == slice_offset(
                        size as int,
                        i,
                        j,
                        z as int,
                    ),
            decreases size - y,
        {
            let mut row: Vec<usize> = Vec::new();
            let mut x: usize = 0;
            while x < size
                invariant
                    z < size,
                    y < size,
                    x <= size,
                    cube(size as int) == len,
                    row@.len() == x,
                    forall|i: int|
                        0 <= i < x ==> (#[trigger] row@[i]) == slice_offset(
                            size as int,
                            i,
                            y as int,
                            z as int,
                        ),
                decreases size - x,
            {
                proof {
                    lemma_slice_offset_bound(size as int, x as int, y as int, z as int);
                }
                row.push(x + y * size + z * size * size);
                x += 1;
            }
            rows.push(row);
            y += 1;
        }
        slices.push(rows);
        z += 1;
    }
    Some(slices)
}

/// The flat offset of a value of a cube, and what is added up on the way to
/// it, lies within the cube.
proof fn lemma_slice_offset_bound(size: int, x: int, y: int, z: int)
    requires
        0 <= x < size,
        0 <= y < size,
        0 <= z < size,
    ensures
        0 <= y * size <= x + y * size < cube(size),
        0 <= z * size <= cube(size),
        0 <= z * size * size <= slice_offset(size, x, y, z) < cube(size),
{
    assert(0 <= y * size <= (size - 1) * size) by (nonlinear_arith)
        requires
            0 <= y <= size - 1,
            0 < size,
    ;
    assert(0 <= z * size <= (size - 1) * size) by (nonlinear_arith)
        requires
            0 <= z <= size - 1,
            0 < size,
    ;
    let zs = z * size;
    assert(0 <= zs * size <= (size - 1) * size * size) by (nonlinear_arith)
        requires
            0 <= zs <= (size - 1) * size,
            0 < size,
    ;
    assert(cube(size) == (size - 1) * size * size + (size - 1) * size + size) by (nonlinear_arith);
    assert((size - 1) * size >= 0) by (nonlinear_arith)
        requires
            0 < size,
    ;
    assert((size - 1) * size * size >= 0) by (nonlinear_arith)
        requires
            0 < size,
    ;
}

} // verus!
