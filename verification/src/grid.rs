//! Cells of a square `g` by `g` grid stored in row-major order.
//!
//! Cell `(x, z)` lives at flat position `z * g + x`. The fluid fields (surface
//! height and the two velocity components), the vertex buffer and the index
//! buffer all use this numbering.

use vstd::prelude::*;
use vstd::arithmetic::div_mod::lemma_fundamental_div_mod_converse;

verus! {

/// Flat, row-major position of cell `(x, z)`.
pub open spec fn flat_index(g: int, x: int, z: int) -> int {
    z * g + x
}

/// Whether `(x, z)` names a cell of the `g` by `g` grid.
pub open spec fn in_grid(g: int, x: int, z: int) -> bool {
    0 <= x < g && 0 <= z < g
}

/// The cell `(x, z)` stored at flat position `k`.
pub open spec fn cell_of(g: int, k: int) -> (int, int) {
    (k % g, k / g)
}

/// What `cell_index` answers: the flat position of `(x, z)` when it lies in
/// the grid.
pub open spec fn cell_spec(g: int, x: int, z: int) -> Option<int> {
    if in_grid(g, x, z) {
        Some(flat_index(g, x, z))
    } else {
        None
    }
}

/// The bounds that make every flat position of the grid a `usize`.
pub open spec fn grid_fits(g: int) -> bool {
    1 <= g && g * g <= usize::MAX
}

/// A cell's flat position is below `g * g`.
pub proof fn lemma_flat_index_bound(g: int, x: int, z: int)
    requires
        in_grid(g, x, z),
    ensures
        0 <= flat_index(g, x, z) < g * g,
{
    assert(0 <= z * g + x < g * g) by (nonlinear_arith)
        requires
            0 <= x < g,
            0 <= z < g,
    ;
}

/// Reading a flat position back gives the cell it was made from.
pub proof fn lemma_cell_of_flat_index(g: int, x: int, z: int)
    requires
        0 <= x < g,
    ensures
        cell_of(g, flat_index(g, x, z)) == (x, z),
{
    lemma_fundamental_div_mod_converse(z * g + x, g, z, x);
}

/// Flat positions and cells are in one-to-one correspondence: a cell of the
/// grid is found again at the position `cell_index` gives it, and every
/// position below `g * g` is the position of exactly the cell `cell_of` reads
/// from it.
pub proof fn lemma_cell_index_roundtrip(g: int, x: int, z: int, k: int)
    requires
        1 <= g,
    ensures
        cell_spec(g, x, z) == Some(k) ==> 0 <= k < g * g && cell_of(g, k) == (x, z),
        0 <= k < g * g ==> cell_spec(g, cell_of(g, k).0, cell_of(g, k).1) == Some(k),
{
    if cell_spec(g, x, z) == Some(k) {
        lemma_flat_index_bound(g, x, z);
        lemma_cell_of_flat_index(g, x, z);
    }
    if 0 <= k < g * g {
        let xx: int = k % g;
        let zz: int = k / g;
        assert(k == zz * g + xx && 0 <= xx < g) by (nonlinear_arith)
            requires
                xx == k % g,
                zz == k / g,
                1 <= g,
        ;
        assert(0 <= zz < g) by (nonlinear_arith)
            requires
                k == zz * g + xx,
                0 <= xx < g,
                0 <= k < g * g,
        ;
    }
}

/// Flat position of cell `(x, z)` of a `g` by `g` grid, or `None` when the
/// cell lies outside it.
///
/// This is the bounds check made before the surface height under a body is
/// read.
pub fn cell_index(g: usize, x: usize, z: usize) -> (r: Option<usize>)
    requires
        grid_fits(g as int),
    ensures
        r matches Some(k) ==> cell_spec(g as int, x as int, z as int) == Some(k as int),
        r is None ==> cell_spec(g as int, x as int, z as int) is None,
        r is Some <==> (x < g && z < g),
        r matches Some(k) ==> k == z * g + x,
{
    if x < g && z < g {
        proof {
            lemma_flat_index_bound(g as int, x as int, z as int);
        }
        Some(z * g + x)
    } else {
        None
    }
}

/// One of the four axis directions from a cell, named as the grid is drawn:
/// `x` grows to the right, `z` grows downwards.
#[derive(Clone, Copy, Debug, PartialEq, Eq, Structural)]
pub enum Side {
    Right,
    Left,
    Down,
    Up,
}

/// The step `(dx, dz)` that moves one cell towards `side`.
pub open spec fn side_step(side: Side) -> (int, int) {
    match side {
        Side::Right => (1, 0),
        Side::Left => (-1, 0),
        Side::Down => (0, 1),
        Side::Up => (0, -1),
    }
}

/// The direction that undoes a step towards `side`.
pub open spec fn opposite(side: Side) -> Side {
    match side {
        Side::Right => Side::Left,
        Side::Left => Side::Right,
        Side::Down => Side::Up,
        Side::Up => Side::Down,
    }
}

/// What `neighbor_index` answers: the flat position of the cell next to
/// `(x, z)` towards `side`, or `None` at the wall.
pub open spec fn neighbor_spec(g: int, x: int, z: int, side: Side) -> Option<int> {
    cell_spec(g, x + side_step(side).0, z + side_step(side).1)
}

/// Whether `(x, z)` is a cell with a cell on each of its four sides.
pub open spec fn interior(g: int, x: int, z: int) -> bool {
    1 <= x < g - 1 && 1 <= z < g - 1
}

/// Flat position of the neighbour of cell `(x, z)` towards `side`, or `None`
/// where that side is the closed wall of the basin.
///
/// The staggered scheme reads the velocity on the far face of a cell from its
/// right and lower neighbours (zero at the wall) and the height gradient from
/// its left and upper neighbours (the faces on the wall stay at rest).
pub fn neighbor_index(g: usize, x: usize, z: usize, side: Side) -> (r: Option<usize>)
    requires
        grid_fits(g as int),
        in_grid(g as int, x as int, z as int),
    ensures
        r matches Some(k) ==> neighbor_spec(g as int, x as int, z as int, side) == Some(k as int),
        r is None ==> neighbor_spec(g as int, x as int, z as int, side) is None,
        side is Right ==> ((r is Some <==> x + 1 < g) && (r matches Some(k) ==> k == z * g + x + 1)),
        side is Left ==> ((r is Some <==> x >= 1) && (r matches Some(k) ==> k == z * g + x - 1)),
        side is Down ==> ((r is Some <==> z + 1 < g) && (r matches Some(k) ==> k == (z + 1) * g + x)),
        side is Up ==> ((r is Some <==> z >= 1) && (r matches Some(k) ==> k == (z - 1) * g + x)),
{
    match side {
        Side::Right => {
            if x + 1 < g {
                cell_index(g, x + 1, z)
            } else {
                None
            }
        },
        Side::Left => {
            if x >= 1 {
                cell_index(g, x - 1, z)
            } else {
                None
            }
        },
        Side::Down => {
            if z + 1 < g {
                cell_index(g, x, z + 1)
            } else {
                None
            }
        },
        Side::Up => {
            if z >= 1 {
                cell_index(g, x, z - 1)
            } else {
                None
            }
        },
    }
}

/// Neighbourhood is mutual: when the cell towards `side` of `(x, z)` is the
/// cell at flat position `k`, then the cell towards the opposite side of that
/// cell is `(x, z)` again.
pub proof fn lemma_neighbor_mutual(g: int, x: int, z: int, side: Side, k: int)
    requires
        1 <= g,
        in_grid(g, x, z),
        neighbor_spec(g, x, z, side) == Some(k),
    ensures
        neighbor_spec(g, cell_of(g, k).0, cell_of(g, k).1, opposite(side)) == Some(flat_index(g, x, z)),
{
    let (dx, dz) = side_step(side);
    lemma_cell_index_roundtrip(g, x + dx, z + dz, k);
}

/// A cell away from the walls has a neighbour on each of its four sides.
pub proof fn lemma_interior_has_all_neighbors(g: int, x: int, z: int, side: Side)
    requires
        interior(g, x, z),
    ensures
        neighbor_spec(g, x, z, side) is Some,
{
}

/// A cell on the wall has no neighbour towards that wall: the velocity faces
/// beyond it are closed.
pub proof fn lemma_wall_has_no_neighbor(g: int, x: int, z: int)
    requires
        in_grid(g, x, z),
    ensures
        x == g - 1 <==> neighbor_spec(g, x, z, Side::Right) is None,
        x == 0 <==> neighbor_spec(g, x, z, Side::Left) is None,
        z == g - 1 <==> neighbor_spec(g, x, z, Side::Down) is None,
        z == 0 <==> neighbor_spec(g, x, z, Side::Up) is None,
{
}

/// The cells of the grid in storage order: entry `k` is the cell `(x, z)`
/// kept at flat position `k`, rows of increasing `z`, each from `x = 0` to
/// `x = g - 1`.
///
/// This is the order in which the fields are initialised and splashed and in
/// which the vertex buffer is laid out, so vertex `k` of that buffer is the
/// cell an index buffer entry `k` refers to.
pub fn vertex_cells(g: usize) -> (r: Vec<(usize, usize)>)
    requires
        grid_fits(g as int),
    ensures
        r.len() == g * g,
        forall|k: int|
            0 <= k < r.len() ==> (#[trigger] r@[k].0 as int, r@[k].1 as int) == cell_of(g as int, k),
        forall|k: int|
            0 <= k < r.len() ==> #[trigger] r@[k].0 == k % (g as int) && r@[k].1 == k / (g as int),
{
    let mut r: Vec<(usize, usize)> = Vec::new();
    let mut z: usize = 0;
    while z < g
        invariant
            grid_fits(g as int),
            z <= g,
            r.len() == z * g,
            forall|k: int|
                0 <= k < r.len() ==> (#[trigger] r@[k].0 as int, r@[k].1 as int) == cell_of(g as int, k),
        decreases g - z,
    {
        let mut x: usize = 0;
        while x < g
            invariant
                grid_fits(g as int),
                z < g,
                x <= g,
                r.len() == z * g + x,
                forall|k: int|
                    0 <= k < r.len() ==> (#[trigger] r@[k].0 as int, r@[k].1 as int) == cell_of(g as int, k),
            decreases g - x,
        {
            proof {
                lemma_cell_of_flat_index(g as int, x as int, z as int);
                lemma_flat_index_bound(g as int, x as int, z as int);
            }
            r.push((x, z));
            x = x + 1;
        }
        assert(z * g + g == (z + 1) * g) by (nonlinear_arith);
        z = z + 1;
    }
    r
}

/// The neighbour towards each side is the cell one step that way in the same
/// row or column: one column over for `Right` and `Left`, one row over for
/// `Down` and `Up`, and none where that step leaves the grid.
pub proof fn lemma_neighbor_is_one_step(g: int, x: int, z: int)
    requires
        0 <= x < g,
        0 <= z < g,
    ensures
        neighbor_spec(g, x, z, Side::Right) == (if x + 1 < g { Some(z * g + x + 1) } else { None::<int> }),
        neighbor_spec(g, x, z, Side::Left) == (if x >= 1 { Some(z * g + x - 1) } else { None::<int> }),
        neighbor_spec(g, x, z, Side::Down) == (if z + 1 < g { Some((z + 1) * g + x) } else { None::<int> }),
        neighbor_spec(g, x, z, Side::Up) == (if z >= 1 { Some((z - 1) * g + x) } else { None::<int> }),
{
    assert((z + 1) * g + x == z * g + x + g) by (nonlinear_arith);
    assert((z - 1) * g + x == z * g + x - g) by (nonlinear_arith);
}

/// A neighbour found towards a side is read back as the cell one step that
/// way: its column and row differ from `(x, z)` by exactly that step.
pub proof fn lemma_neighbor_read_back(g: int, x: int, z: int, side: Side, k: int)
    requires
        0 <= x < g,
        0 <= z < g,
        neighbor_spec(g, x, z, side) == Some(k),
    ensures
        side is Right ==> k % g == x + 1 && k / g == z,
        side is Left ==> k % g == x - 1 && k / g == z,
        side is Down ==> k % g == x && k / g == z + 1,
        side is Up ==> k % g == x && k / g == z - 1,
{
    lemma_neighbor_is_one_step(g, x, z);
    match side {
        Side::Right => {
            lemma_fundamental_div_mod_converse(k, g, z, x + 1);
        },
        Side::Left => {
            lemma_fundamental_div_mod_converse(k, g, z, x - 1);
        },
        Side::Down => {
            lemma_fundamental_div_mod_converse(k, g, z + 1, x);
        },
        Side::Up => {
            lemma_fundamental_div_mod_converse(k, g, z - 1, x);
        },
    }
}

} // verus!
