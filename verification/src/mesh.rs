//! The triangle index buffer that renders the grid's surface.
//!
//! Every quad between four neighbouring vertices is cut along the diagonal
//! from its lower-left to its upper-right corner into two triangles.

use vstd::prelude::*;
use vstd::arithmetic::div_mod::lemma_fundamental_div_mod_converse;
use crate::grid::{flat_index, cell_of, lemma_cell_of_flat_index};

verus! {

/// Corner `c` (0 to 5) of the two triangles of the quad whose upper-left
/// vertex is `(x, z)`: first `(x, z)`, `(x, z + 1)`, `(x + 1, z)`, then
/// `(x + 1, z)`, `(x, z + 1)`, `(x + 1, z + 1)`.
pub open spec fn quad_corner(g: int, x: int, z: int, c: int) -> int {
    let i = flat_index(g, x, z);
    if c == 0 {
        i
    } else if c == 1 {
        i + g
    } else if c == 2 {
        i + 1
    } else if c == 3 {
        i + 1
    } else if c == 4 {
        i + g
    } else {
        i + g + 1
    }
}

/// Entry `j` of the index buffer of a `g` by `g` vertex grid: quads are taken
/// row by row, six entries each.
pub open spec fn index_entry(g: int, j: int) -> int {
    let q = j / 6;
    quad_corner(g, q % (g - 1), q / (g - 1), j % 6)
}

/// Number of entries of the index buffer: two triangles per quad.
pub open spec fn index_count(g: int) -> int {
    6 * ((g - 1) * (g - 1))
}

/// Twice the signed area of the triangle `a`, `b`, `c` in the `(x, z)` plane;
/// its sign gives the triangle's winding.
pub open spec fn twice_signed_area(a: (int, int), b: (int, int), c: (int, int)) -> int {
    (b.0 - a.0) * (c.1 - a.1) - (b.1 - a.1) * (c.0 - a.0)
}

/// The bounds under which the index buffer of a `g` by `g` vertex grid can be
/// built: every vertex number fits a `u32` and the buffer's length a `usize`.
pub open spec fn index_buffer_fits(g: int) -> bool {
    1 <= g && g * g <= u32::MAX + 1 && index_count(g) <= usize::MAX
}

/// Entry `6 * q + c` of the buffer, where `q` is the quad at `(x, z)`, is
/// corner `c` of that quad.
proof fn lemma_entry_of_quad(g: int, x: int, z: int, c: int)
    requires
        0 <= x < g - 1,
        0 <= z,
        0 <= c < 6,
    ensures
        index_entry(g, 6 * (z * (g - 1) + x) + c) == quad_corner(g, x, z, c),
{
    let q: int = z * (g - 1) + x;
    lemma_fundamental_div_mod_converse(6 * q + c, 6, q, c);
    lemma_fundamental_div_mod_converse(q, g - 1, z, x);
}

/// The index buffer of a `g` by `g` vertex grid numbered row by row: for
/// each quad, row by row, the triangles `(i, i + g, i + 1)` and
/// `(i + 1, i + g, i + g + 1)`, where `i` is the quad's upper-left vertex.
pub fn get_indices(g: u32) -> (r: Vec<u32>)
    requires
        index_buffer_fits(g as int),
    ensures
        r.len() == index_count(g as int),
        r.len() == 6 * ((g - 1) * (g - 1)),
        forall|j: int| 0 <= j < r.len() ==> #[trigger] r@[j] as int == index_entry(g as int, j),
{
    let mut r: Vec<u32> = Vec::new();
    let mut z: u32 = 0;
    while z < g - 1
        invariant
            index_buffer_fits(g as int),
            z <= g - 1,
            r.len() == 6 * (z * (g - 1)),
            forall|j: int| 0 <= j < r.len() ==> #[trigger] r@[j] as int == index_entry(g as int, j),
        decreases g - 1 - z,
    {
        let mut x: u32 = 0;
        while x < g - 1
            invariant
                index_buffer_fits(g as int),
                z < g - 1,
                x <= g - 1,
                r.len() == 6 * (z * (g - 1) + x),
                forall|j: int| 0 <= j < r.len() ==> #[trigger] r@[j] as int == index_entry(g as int, j),
            decreases g - 1 - x,
        {
            assert(z * g + x + g + 1 <= g * g - 1) by (nonlinear_arith)
                requires
                    z + 2 <= g,
                    x + 2 <= g,
            ;
            assert(6 * (z * (g - 1) + x) + 6 <= index_count(g as int)) by (nonlinear_arith)
                requires
                    z + 2 <= g,
                    x + 2 <= g,
            ;
            let ghost base: int = r.len() as int;
            proof {
                lemma_entry_of_quad(g as int, x as int, z as int, 0);
                lemma_entry_of_quad(g as int, x as int, z as int, 1);
                lemma_entry_of_quad(g as int, x as int, z as int, 2);
                lemma_entry_of_quad(g as int, x as int, z as int, 3);
                lemma_entry_of_quad(g as int, x as int, z as int, 4);
                lemma_entry_of_quad(g as int, x as int, z as int, 5);
            }
            let i: u32 = z * g + x;
            r.push(i);
            r.push(i + g);
            r.push(i + 1);
            r.push(i + 1);
            r.push(i + g);
            r.push(i + g + 1);
            assert forall|j: int| 0 <= j < r.len() implies #[trigger] r@[j] as int == index_entry(
                g as int,
                j,
            ) by {
                if j >= base {
                    assert(j == base + (j - base));
                }
            }
            x = x + 1;
        }
        assert(6 * (z * (g - 1) + (g - 1)) == 6 * ((z + 1) * (g - 1))) by (nonlinear_arith);
        z = z + 1;
    }
    r
}

/// Every entry of the index buffer names a vertex of the grid.
pub proof fn lemma_index_entries_in_grid(g: int, j: int)
    requires
        2 <= g,
        0 <= j < index_count(g),
    ensures
        0 <= index_entry(g, j) < g * g,
{
    let q: int = j / 6;
    let c: int = j % 6;
    let x: int = q % (g - 1);
    let z: int = q / (g - 1);
    assert(0 <= q < (g - 1) * (g - 1)) by (nonlinear_arith)
        requires
            q == j / 6,
            0 <= j < 6 * ((g - 1) * (g - 1)),
    ;
    assert(0 <= x < g - 1 && 0 <= z < g - 1) by (nonlinear_arith)
        requires
            x == q % (g - 1),
            z == q / (g - 1),
            0 <= q < (g - 1) * (g - 1),
            2 <= g,
    ;
    assert(0 <= z * g + x && z * g + x + g + 1 <= g * g - 1) by (nonlinear_arith)
        requires
            0 <= z,
            0 <= x,
            z + 2 <= g,
            x + 2 <= g,
    ;
}

/// Every triangle of the index buffer is half of one grid quad and all of
/// them have the same winding: in the `(x, z)` plane of the vertices they
/// refer to, each has twice the signed area `-1`. So none is degenerate and
/// one face culling rule shows the whole surface.
pub proof fn lemma_triangles_same_winding(g: int, t: int)
    requires
        2 <= g,
        0 <= t < 2 * ((g - 1) * (g - 1)),
    ensures
        twice_signed_area(
            cell_of(g, index_entry(g, 3 * t)),
            cell_of(g, index_entry(g, 3 * t + 1)),
            cell_of(g, index_entry(g, 3 * t + 2)),
        ) == -1,
{
    let q: int = t / 2;
    let h: int = t % 2;
    let x: int = q % (g - 1);
    let z: int = q / (g - 1);
    assert(0 <= q < (g - 1) * (g - 1) && 0 <= h < 2 && t == 2 * q + h) by (nonlinear_arith)
        requires
            q == t / 2,
            h == t % 2,
            0 <= t < 2 * ((g - 1) * (g - 1)),
    ;
    assert(0 <= x < g - 1 && 0 <= z < g - 1 && q == z * (g - 1) + x) by (nonlinear_arith)
        requires
            x == q % (g - 1),
            z == q / (g - 1),
            0 <= q < (g - 1) * (g - 1),
            2 <= g,
    ;
    assert(3 * t == 6 * q + 3 * h);
    lemma_entry_of_quad(g, x, z, 3 * h);
    lemma_entry_of_quad(g, x, z, 3 * h + 1);
    lemma_entry_of_quad(g, x, z, 3 * h + 2);
    lemma_cell_of_flat_index(g, x, z);
    lemma_cell_of_flat_index(g, x + 1, z);
    lemma_cell_of_flat_index(g, x, z + 1);
    lemma_cell_of_flat_index(g, x + 1, z + 1);
    assert(flat_index(g, x, z + 1) == flat_index(g, x, z) + g) by (nonlinear_arith);
    assert(flat_index(g, x + 1, z + 1) == flat_index(g, x, z) + g + 1) by (nonlinear_arith);
    assert(flat_index(g, x + 1, z) == flat_index(g, x, z) + 1);
    let a: (int, int) = (x, z);
    let b: (int, int) = (x, z + 1);
    let c: (int, int) = (x + 1, z);
    let d: (int, int) = (x + 1, z + 1);
    if h == 0 {
        assert(3 * t + 1 == 6 * q + 1 && 3 * t + 2 == 6 * q + 2);
        assert(twice_signed_area(a, b, c) == 0 * 0 - 1 * 1);
    } else {
        assert(3 * t == 6 * q + 3 && 3 * t + 1 == 6 * q + 4 && 3 * t + 2 == 6 * q + 5);
        assert(twice_signed_area(c, b, d) == (-1) * 1 - 1 * 0);
    }
}

/// The six entries of quad `(x, z)`, which start at `6 * (z * (g - 1) + x)`,
/// are the triangles `(i, i + g, i + 1)` and `(i + 1, i + g, i + g + 1)` with
/// `i = z * g + x` its upper-left vertex: the two halves of exactly that quad,
/// together touching all four of its corners. Since the quads of the rows
/// `0` to `g - 2` fill the buffer, every quad of the surface is covered once.
pub proof fn lemma_quad_triangles(g: int, x: int, z: int)
    requires
        0 <= x < g - 1,
        0 <= z < g - 1,
    ensures
        index_entry(g, 6 * (z * (g - 1) + x)) == z * g + x,
        index_entry(g, 6 * (z * (g - 1) + x) + 1) == z * g + x + g,
        index_entry(g, 6 * (z * (g - 1) + x) + 2) == z * g + x + 1,
        index_entry(g, 6 * (z * (g - 1) + x) + 3) == z * g + x + 1,
        index_entry(g, 6 * (z * (g - 1) + x) + 4) == z * g + x + g,
        index_entry(g, 6 * (z * (g - 1) + x) + 5) == z * g + x + g + 1,
        6 * (z * (g - 1) + x) + 6 <= 6 * ((g - 1) * (g - 1)),
{
    lemma_entry_of_quad(g, x, z, 0);
    lemma_entry_of_quad(g, x, z, 1);
    lemma_entry_of_quad(g, x, z, 2);
    lemma_entry_of_quad(g, x, z, 3);
    lemma_entry_of_quad(g, x, z, 4);
    lemma_entry_of_quad(g, x, z, 5);
    assert(6 * (z * (g - 1) + x) + 6 <= 6 * ((g - 1) * (g - 1))) by (nonlinear_arith)
        requires
            0 <= x < g - 1,
            0 <= z < g - 1,
    ;
}

/// Every entry of the buffer belongs to one quad: entry `j` is corner
/// `j % 6` of the quad `(q % (g - 1), q / (g - 1))` with `q = j / 6`, a quad
/// of the grid.
pub proof fn lemma_entry_belongs_to_quad(g: int, j: int)
    requires
        2 <= g,
        0 <= j < 6 * ((g - 1) * (g - 1)),
    ensures
        ({
            let q = j / 6;
            let x = q % (g - 1);
            let z = q / (g - 1);
            &&& 0 <= x < g - 1
            &&& 0 <= z < g - 1
            &&& j == 6 * (z * (g - 1) + x) + j % 6
            &&& 0 <= j % 6 < 6
        }),
{
    let q: int = j / 6;
    let x: int = q % (g - 1);
    let z: int = q / (g - 1);
    assert(0 <= q < (g - 1) * (g - 1) && j == 6 * q + j % 6 && 0 <= j % 6 < 6) by (nonlinear_arith)
        requires
            q == j / 6,
            0 <= j < 6 * ((g - 1) * (g - 1)),
    ;
    assert(0 <= x < g - 1 && 0 <= z < g - 1 && q == z * (g - 1) + x) by (nonlinear_arith)
        requires
            x == q % (g - 1),
            z == q / (g - 1),
            0 <= q < (g - 1) * (g - 1),
            2 <= g,
    ;
}

} // verus!
