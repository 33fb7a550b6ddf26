//! Conversion between cell coordinates and storage offsets.
use vstd::arithmetic::div_mod::lemma_fundamental_div_mod;
use vstd::arithmetic::div_mod::lemma_fundamental_div_mod_converse;
use vstd::prelude::*;

verus! {

/// A resolution is usable when the grid has at least one interior layer and
/// its cell count can be held in a `usize`.
pub open spec fn valid_resolution(n: int) -> bool {
    3 <= n && n * n * n <= usize::MAX
}

/// Number of cells of a grid of resolution `n`.
pub open spec fn cell_count(n: int) -> int {
    n * n * n
}

/// The coordinate nearest to `v` that lies on the grid.
pub open spec fn clamp_coord(n: int, v: int) -> int {
    if v < 0 {
        0
    } else if v > n - 1 {
        n - 1
    } else {
        v
    }
}

/// All three coordinates lie on the grid.
pub open spec fn in_grid(n: int, x: int, y: int, z: int) -> bool {
    0 <= x < n && 0 <= y < n && 0 <= z < n
}

/// All three coordinates lie strictly inside the outer layer.
pub open spec fn interior(n: int, x: int, y: int, z: int) -> bool {
    1 <= x <= n - 2 && 1 <= y <= n - 2 && 1 <= z <= n - 2
}

/// Storage offset of a cell whose coordinates lie on the grid.
pub open spec fn offset(n: int, x: int, y: int, z: int) -> int {
    x + y * n + z * n * n
}

/// Storage offset of the cell nearest to `(x, y, z)`.
pub open spec fn cell_index(n: int, x: int, y: int, z: int) -> int {
    offset(n, clamp_coord(n, x), clamp_coord(n, y), clamp_coord(n, z))
}

/// First coordinate of the cell stored at offset `k`.
pub open spec fn coord_x(n: int, k: int) -> int {
    k % n
}

/// Second coordinate of the cell stored at offset `k`.
pub open spec fn coord_y(n: int, k: int) -> int {
    (k / n) % n
}

/// Third coordinate of the cell stored at offset `k`.
pub open spec fn coord_z(n: int, k: int) -> int {
    (k / n) / n
}

/// The offset of a cell on the grid is a valid position in a field.
pub proof fn lemma_offset_in_range(n: int, x: int, y: int, z: int)
    requires
        n >= 1,
        in_grid(n, x, y, z),
    ensures
        0 <= offset(n, x, y, z) < cell_count(n),
{
    assert(0 <= y * n && y * n <= (n - 1) * n) by (nonlinear_arith)
        requires
            0 <= y <= n - 1,
            n >= 1,
    ;
    assert(0 <= z * n * n && z * n * n <= (n - 1) * n * n) by (nonlinear_arith)
        requires
            0 <= z <= n - 1,
            n >= 1,
    ;
    assert((n - 1) + (n - 1) * n + (n - 1) * n * n == n * n * n - 1) by (nonlinear_arith);
}

/// The coordinates of a cell can be read back from its offset.
pub proof fn lemma_coords_of_offset(n: int, x: int, y: int, z: int)
    requires
        n >= 1,
        in_grid(n, x, y, z),
    ensures
        coord_x(n, offset(n, x, y, z)) == x,
        coord_y(n, offset(n, x, y, z)) == y,
        coord_z(n, offset(n, x, y, z)) == z,
{
    let k = offset(n, x, y, z);
    let q = y + z * n;
    assert(k == q * n + x) by (nonlinear_arith)
        requires
            k == x + y * n + z * n * n,
            q == y + z * n,
    ;
    lemma_fundamental_div_mod_converse(k, n, q, x);
    lemma_fundamental_div_mod_converse(q, n, z, y);
}

/// Every position in a field is the offset of the cell whose coordinates
/// are read from it.
pub proof fn lemma_offset_of_coords(n: int, k: int)
    requires
        n >= 1,
        0 <= k < cell_count(n),
    ensures
        in_grid(n, coord_x(n, k), coord_y(n, k), coord_z(n, k)),
        offset(n, coord_x(n, k), coord_y(n, k), coord_z(n, k)) == k,
{
    let q = k / n;
    lemma_fundamental_div_mod(k, n);
    lemma_fundamental_div_mod(q, n);
    let x = k % n;
    let y = q % n;
    let z = q / n;
    assert(k == x + y * n + z * n * n) by (nonlinear_arith)
        requires
            k == n * q + x,
            q == n * z + y,
    ;
    assert(0 <= z < n) by (nonlinear_arith)
        requires
            k == x + y * n + z * n * n,
            0 <= k < n * n * n,
            0 <= x < n,
            0 <= y < n,
            n >= 1,
    ;
}

/// Two cells on the grid with the same offset are the same cell.
pub proof fn lemma_offset_injective(n: int, x1: int, y1: int, z1: int, x2: int, y2: int, z2: int)
    requires
        n >= 1,
        in_grid(n, x1, y1, z1),
        in_grid(n, x2, y2, z2),
        offset(n, x1, y1, z1) == offset(n, x2, y2, z2),
    ensures
        x1 == x2,
        y1 == y2,
        z1 == z2,
{
    lemma_coords_of_offset(n, x1, y1, z1);
    lemma_coords_of_offset(n, x2, y2, z2);
}

/// The index mapping restricted to the grid is a bijection onto the
/// positions of a field: it stays in range, no two cells share an offset,
/// and every position is the offset of a cell on the grid.
pub proof fn lemma_index_bijection(n: int)
    requires
        n >= 1,
    ensures
        forall|x: int, y: int, z: int|
            in_grid(n, x, y, z) ==> 0 <= #[trigger] cell_index(n, x, y, z) < cell_count(n),
        forall|x1: int, y1: int, z1: int, x2: int, y2: int, z2: int|
            in_grid(n, x1, y1, z1) && in_grid(n, x2, y2, z2) && #[trigger] cell_index(n, x1, y1, z1)
                == #[trigger] cell_index(n, x2, y2, z2) ==> x1 == x2 && y1 == y2 && z1 == z2,
        forall|k: int|
            0 <= k < cell_count(n) ==> in_grid(n, #[trigger] coord_x(n, k), coord_y(n, k), coord_z(n, k))
                && cell_index(n, coord_x(n, k), coord_y(n, k), coord_z(n, k)) == k,
{
    assert forall|x: int, y: int, z: int| in_grid(n, x, y, z) implies 0 <= #[trigger] cell_index(
        n,
        x,
        y,
        z,
    ) < cell_count(n) by {
        lemma_offset_in_range(n, x, y, z);
    }
    assert forall|x1: int, y1: int, z1: int, x2: int, y2: int, z2: int|
        in_grid(n, x1, y1, z1) && in_grid(n, x2, y2, z2) && #[trigger] cell_index(n, x1, y1, z1)
            == #[trigger] cell_index(n, x2, y2, z2) implies x1 == x2 && y1 == y2 && z1 == z2 by {
        lemma_offset_injective(n, x1, y1, z1, x2, y2, z2);
    }
    assert forall|k: int| 0 <= k < cell_count(n) implies in_grid(
        n,
        #[trigger] coord_x(n, k),
        coord_y(n, k),
        coord_z(n, k),
    ) && cell_index(n, coord_x(n, k), coord_y(n, k), coord_z(n, k)) == k by {
        lemma_offset_of_coords(n, k);
    }
}

/// Clamping changes nothing on the grid: a cell on the grid is mapped to its
/// own offset, and clamping a clamped coordinate gives it back.
pub proof fn lemma_clamp_idempotent(n: int, x: int, y: int, z: int)
    requires
        n >= 1,
    ensures
        in_grid(n, x, y, z) ==> cell_index(n, x, y, z) == offset(n, x, y, z),
        clamp_coord(n, clamp_coord(n, x)) == clamp_coord(n, x),
        in_grid(n, clamp_coord(n, x), clamp_coord(n, y), clamp_coord(n, z)),
        cell_index(n, clamp_coord(n, x), clamp_coord(n, y), clamp_coord(n, z)) == cell_index(
            n,
            x,
            y,
            z,
        ),
        0 <= cell_index(n, x, y, z) < cell_count(n),
{
    lemma_offset_in_range(n, clamp_coord(n, x), clamp_coord(n, y), clamp_coord(n, z));
}

/// A usable resolution is far below the range of the signed coordinates.
pub proof fn lemma_resolution_bound(n: int)
    requires
        valid_resolution(n),
    ensures
        n < 0x40_0000,
{
    if n >= 0x40_0000 {
        assert(n * n * n >= 0x40_0000 * 0x40_0000 * 0x40_0000) by (nonlinear_arith)
            requires
                n >= 0x40_0000,
        ;
    }
}

/// Why a grid could not be set up.
#[derive(Clone, Copy, Debug, PartialEq, Eq, Structural)]
pub enum ConfigError {
    /// The resolution is below three, so the grid has no interior cell.
    ResolutionTooSmall,
    /// The number of cells does not fit the machine's address range.
    ResolutionTooLarge,
}

/// Maps cell coordinates to storage offsets for one grid resolution.
#[derive(Clone, Copy, Debug)]
pub struct IndexMapper {
    n: usize,
}

impl IndexMapper {
    /// The resolution as a mathematical integer.
    pub closed spec fn n(&self) -> int {
        self.n as int
    }

    /// Every mapper is made for a usable resolution.
    #[verifier::type_invariant]
    pub open spec fn wf(&self) -> bool {
        valid_resolution(self.n())
    }

    /// A mapper for a grid of `n * n * n` cells.
    pub fn new(n: usize) -> (r: Result<IndexMapper, ConfigError>)
        ensures
            n < 3 <==> r == Err::<IndexMapper, ConfigError>(ConfigError::ResolutionTooSmall),
            n >= 3 && n * n * n > usize::MAX <==> r == Err::<IndexMapper, ConfigError>(
                ConfigError::ResolutionTooLarge,
            ),
            valid_resolution(n as int) <==> r is Ok,
            r matches Ok(g) ==> g.n() == n,
    {
        if n < 3 {
            return Err(ConfigError::ResolutionTooSmall);
        }
        match n.checked_mul(n) {
            Some(sq) => match sq.checked_mul(n) {
                Some(_) => Ok(IndexMapper { n }),
                None => Err(ConfigError::ResolutionTooLarge),
            },
            None => {
                assert(n * n * n >= n * n) by (nonlinear_arith)
                    requires
                        n >= 1,
                ;
                Err(ConfigError::ResolutionTooLarge)
            },
        }
    }

    /// Cells along one axis.
    pub fn resolution(&self) -> (r: usize)
        ensures
            r == self.n(),
            valid_resolution(self.n()),
    {
        proof {
            use_type_invariant(self);
        }
        self.n
    }

    /// Length of every field on this grid.
    pub fn cell_count(&self) -> (r: usize)
        ensures
            r == cell_count(self.n()),
    {
        proof {
            use_type_invariant(self);
        }
        assert(self.n * self.n <= self.n * self.n * self.n) by (nonlinear_arith)
            requires
                self.n >= 1,
        ;
        self.n * self.n * self.n
    }

    /// Storage offset of the cell nearest to `(x, y, z)`: each coordinate is
    /// clamped onto the grid, never rejected.
    pub fn index(&self, x: i64, y: i64, z: i64) -> (r: usize)
        ensures
            r == cell_index(self.n(), x as int, y as int, z as int),
            r < cell_count(self.n()),
    {
        let cx = self.clamp(x);
        let cy = self.clamp(y);
        let cz = self.clamp(z);
        proof {
            use_type_invariant(self);
            let n = self.n as int;
            lemma_offset_in_range(n, cx as int, cy as int, cz as int);
            assert(0 <= cy * n && 0 <= cz * n * n && cz * n <= cz * n * n) by (nonlinear_arith)
                requires
                    0 <= cy,
                    0 <= cz,
                    n >= 1,
            ;
        }
        cx + cy * self.n + cz * self.n * self.n
    }

    /// Storage offset of the cell nearest to `(x, y, z)`, for coordinates
    /// that are known not to be negative.
    pub fn cell(&self, x: usize, y: usize, z: usize) -> (r: usize)
        ensures
            r == cell_index(self.n(), x as int, y as int, z as int),
            r < cell_count(self.n()),
    {
        proof {
            use_type_invariant(self);
        }
        let cx = if x >= self.n { self.n - 1 } else { x };
        let cy = if y >= self.n { self.n - 1 } else { y };
        let cz = if z >= self.n { self.n - 1 } else { z };
        proof {
            let n = self.n as int;
            lemma_offset_in_range(n, cx as int, cy as int, cz as int);
            assert(0 <= cy * n && 0 <= cz * n * n && cz * n <= cz * n * n) by (nonlinear_arith)
                requires
                    0 <= cy,
                    0 <= cz,
                    n >= 1,
            ;
        }
        cx + cy * self.n + cz * self.n * self.n
    }

    /// The coordinate on the grid nearest to `v`.
    pub fn clamp(&self, v: i64) -> (r: usize)
        ensures
            r == clamp_coord(self.n(), v as int),
            r < self.n(),
    {
        proof {
            use_type_invariant(self);
        }
        if v < 0 {
            0
        } else if v as u64 >= self.n as u64 {
            self.n - 1
        } else {
            v as usize
        }
    }
}

} // verus!
