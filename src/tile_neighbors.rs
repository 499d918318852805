use vstd::prelude::*;

verus! {

/// The occupancy of a cell's eight neighbors as bits: north, north-east,
/// east, south-east, south, south-west, west, north-west, from the lowest
/// bit up; a set bit is a filled neighbor.
#[derive(Debug, Clone, Copy, PartialEq, Eq, Structural)]
pub struct TileNeighbors(pub u8);

/// Row and column offsets of the eight neighbors, in bit order.
pub open spec fn neighbor_offset(i: int) -> (int, int) {
    if i == 0 { (-1, 0) }
    else if i == 1 { (-1, 1) }
    else if i == 2 { (0, 1) }
    else if i == 3 { (1, 1) }
    else if i == 4 { (1, 0) }
    else if i == 5 { (1, -1) }
    else if i == 6 { (0, -1) }
    else { (-1, -1) }
}

/// The neighbor in direction `i` lies in the grid (within its own row) and
/// is filled.
pub open spec fn neighbor_filled<T>(grid: Seq<Vec<T>>, x: int, y: int, i: int, filled: spec_fn(T) -> bool) -> bool {
    let ny = y + neighbor_offset(i).0;
    let nx = x + neighbor_offset(i).1;
    0 <= ny < grid.len() && 0 <= nx < grid[ny]@.len() && filled(grid[ny]@[nx])
}

pub open spec fn bit(b: bool, weight: int) -> int {
    if b {
        weight
    } else {
        0
    }
}

/// The mask whose bit `i` says whether neighbor `i` is filled.
pub open spec fn neighbor_mask<T>(grid: Seq<Vec<T>>, x: int, y: int, filled: spec_fn(T) -> bool) -> int {
    bit(neighbor_filled(grid, x, y, 0, filled), 1) + bit(neighbor_filled(grid, x, y, 1, filled), 2) + bit(
        neighbor_filled(grid, x, y, 2, filled),
        4,
    ) + bit(neighbor_filled(grid, x, y, 3, filled), 8) + bit(neighbor_filled(grid, x, y, 4, filled), 16)
        + bit(neighbor_filled(grid, x, y, 5, filled), 32) + bit(neighbor_filled(grid, x, y, 6, filled), 64)
        + bit(neighbor_filled(grid, x, y, 7, filled), 128)
}

/// What a fill predicate answers for each cell value.
pub open spec fn fill_pred<T, F: Fn(T) -> bool>(f: &F) -> spec_fn(T) -> bool {
    |t: T| f.ensures((t,), true)
}

/// `f` can be called on every value and gives one answer for each.
pub open spec fn is_fill_predicate<T, F: Fn(T) -> bool>(f: &F) -> bool {
    &&& forall|t: T| #[trigger] f.requires((t,))
    &&& forall|t: T, b: bool| #[trigger] f.ensures((t,), b) ==> b == f.ensures((t,), true)
}

impl TileNeighbors {
    /// All eight neighbors are filled.
    pub fn is_internal(&self) -> (r: bool)
        ensures
            r == (self.0 == 255),
    {
        self.0 == 0xFF
    }

    /// The occupancy of the eight neighbors of `(x, y)`; a neighbor outside
    /// the grid, or past the end of its row, is not filled.
    pub fn from_grid<T: Copy, F: Fn(T) -> bool>(grid: &Vec<Vec<T>>, x: usize, y: usize, is_filled: &F) -> (r: Self)
        requires
            is_fill_predicate(is_filled),
        ensures
            r.0 == neighbor_mask(grid@, x as int, y as int, fill_pred(is_filled)),
    {
        let dys: [i8; 8] = [-1, -1, 0, 1, 1, 1, 0, -1];
        let dxs: [i8; 8] = [0, 1, 1, 1, 0, -1, -1, -1];
        let weights: [u8; 8] = [1, 2, 4, 8, 16, 32, 64, 128];
        let ghost g = grid@;
        let ghost p = fill_pred(is_filled);
        let mut mask: u8 = 0;
        let mut i: usize = 0;
        while i < 8
            invariant
                0 <= i <= 8,
                g == grid@,
                p == fill_pred(is_filled),
                is_fill_predicate(is_filled),
                dys@ == seq![-1i8, -1i8, 0i8, 1i8, 1i8, 1i8, 0i8, -1i8],
                dxs@ == seq![0i8, 1i8, 1i8, 1i8, 0i8, -1i8, -1i8, -1i8],
                weights@ == seq![1u8, 2, 4, 8, 16, 32, 64, 128],
                mask == (if i > 0 { bit(neighbor_filled(g, x as int, y as int, 0, p), 1) } else { 0 })
                    + (if i > 1 { bit(neighbor_filled(g, x as int, y as int, 1, p), 2) } else { 0 })
                    + (if i > 2 { bit(neighbor_filled(g, x as int, y as int, 2, p), 4) } else { 0 })
                    + (if i > 3 { bit(neighbor_filled(g, x as int, y as int, 3, p), 8) } else { 0 })
                    + (if i > 4 { bit(neighbor_filled(g, x as int, y as int, 4, p), 16) } else { 0 })
                    + (if i > 5 { bit(neighbor_filled(g, x as int, y as int, 5, p), 32) } else { 0 })
                    + (if i > 6 { bit(neighbor_filled(g, x as int, y as int, 6, p), 64) } else { 0 })
                    + (if i > 7 { bit(neighbor_filled(g, x as int, y as int, 7, p), 128) } else { 0 }),
            decreases 8 - i,
        {
            let dy = dys[i];
            let dx = dxs[i];
            assert(dy == neighbor_offset(i as int).0 && dx == neighbor_offset(i as int).1);
            let mut hit = false;
            if (dy >= 0 || y >= 1) && (dy <= 0 || y < grid.len()) {
                let ny: usize = if dy < 0 { y - 1 } else if dy > 0 { y + 1 } else { y };
                if ny < grid.len() {
                    let row = &grid[ny];
                    if (dx >= 0 || x >= 1) && (dx <= 0 || x < row.len()) {
                        let nx: usize = if dx < 0 { x - 1 } else if dx > 0 { x + 1 } else { x };
                        if nx < row.len() {
                            hit = is_filled(row[nx]);
                        }
                    }
                }
            }
            assert(hit == neighbor_filled(g, x as int, y as int, i as int, p));
            if hit {
                mask = mask + weights[i];
            }
            i = i + 1;
        }
        TileNeighbors(mask)
    }
}

} // verus!
