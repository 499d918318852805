use vstd::prelude::*;
use crate::text::chars_of;
use crate::tileset::{find_tileset, get_tileset_for_id, ignores_view, SetRule, Tileset};

verus! {

/// The character that stands for a cell outside the grid in a neighborhood.
pub const OUT_OF_BOUNDS: char = '\0';

/// What a solidity predicate answers for each character.
pub open spec fn solid_pred<F: Fn(char) -> bool>(f: &F) -> spec_fn(char) -> bool {
    |c: char| f.ensures((c,), true)
}

/// `f` can be called on every character and gives one answer for each.
pub open spec fn is_predicate<F: Fn(char) -> bool>(f: &F) -> bool {
    &&& forall|c: char| #[trigger] f.requires((c,))
    &&& forall|c: char, b: bool| #[trigger] f.ensures((c,), b) ==> b == f.ensures((c,), true)
}

/// The view of an optional `ignores` list.
pub open spec fn opt_chars(s: Option<&str>) -> Option<Seq<char>> {
    match s {
        Some(t) => Some(t@),
        None => None,
    }
}

/// The character at column `x` of row `y`, or the out-of-bounds marker where
/// either coordinate is negative or past its row's end.
pub open spec fn cell(grid: Seq<Vec<char>>, x: int, y: int) -> char {
    if 0 <= y < grid.len() && 0 <= x < grid[y]@.len() {
        grid[y]@[x]
    } else {
        '\0'
    }
}

/// The 3x3 window centered on `(x, y)`, indexed by row then column.
pub open spec fn window(grid: Seq<Vec<char>>, x: int, y: int) -> spec_fn(int, int) -> char {
    |r: int, c: int| cell(grid, x + c - 1, y + r - 1)
}

/// The window held in a neighborhood array.
pub open spec fn array_window(n: [[char; 3]; 3]) -> spec_fn(int, int) -> char {
    |r: int, c: int| n@[r]@[c]
}

pub open spec fn center_mask() -> Seq<char> {
    seq!['c', 'e', 'n', 't', 'e', 'r']
}

pub open spec fn padding_mask() -> Seq<char> {
    seq!['p', 'a', 'd', 'd', 'i', 'n', 'g']
}

/// `center` and `padding` are fallbacks, not patterns.
pub open spec fn is_special_mask(mask: Seq<char>) -> bool {
    mask == center_mask() || mask == padding_mask()
}

pub open spec fn is_ignored(ign: Option<Seq<char>>, c: char) -> bool {
    ign matches Some(s) && s.contains(c)
}

/// A neighbor counts as filled when it is out of bounds, or solid and not ignored.
pub open spec fn is_filled(c: char, solid: spec_fn(char) -> bool, ign: Option<Seq<char>>) -> bool {
    c == '\0' || (solid(c) && !is_ignored(ign, c))
}

/// One mask character against one neighbor: `0` wants air, `1` wants a
/// filled cell, anything else matches.
pub open spec fn cell_fits(
    m: char,
    c: char,
    solid: spec_fn(char) -> bool,
    ign: Option<Seq<char>>,
) -> bool {
    if m == '0' {
        !is_filled(c, solid, ign)
    } else if m == '1' {
        is_filled(c, solid, ign)
    } else {
        true
    }
}

/// Three rows of three characters joined by `-`.
pub open spec fn is_mask_shape(mask: Seq<char>) -> bool {
    &&& mask.len() == 11
    &&& forall|i: int| 0 <= i < 11 ==> (mask[i] == '-') == (i == 3 || i == 7)
}

/// Every cell of the window is solid or out of bounds.
pub open spec fn block_solid(at: spec_fn(int, int) -> char, solid: spec_fn(char) -> bool) -> bool {
    forall|r: int, c: int| 0 <= r < 3 && 0 <= c < 3 ==> at(r, c) == '\0' || solid(#[trigger] at(r, c))
}

/// Whether a mask matches a window.
pub open spec fn mask_holds(
    at: spec_fn(int, int) -> char,
    mask: Seq<char>,
    solid: spec_fn(char) -> bool,
    ign: Option<Seq<char>>,
) -> bool {
    if is_special_mask(mask) {
        block_solid(at, solid)
    } else {
        is_mask_shape(mask) && forall|r: int, c: int|
            0 <= r < 3 && 0 <= c < 3 ==> cell_fits(mask[4 * r + c], #[trigger] at(r, c), solid, ign)
    }
}

proof fn lemma_mask_holds_same_window(
    a: spec_fn(int, int) -> char,
    b: spec_fn(int, int) -> char,
    mask: Seq<char>,
    solid: spec_fn(char) -> bool,
    ign: Option<Seq<char>>,
)
    requires
        forall|r: int, c: int| 0 <= r < 3 && 0 <= c < 3 ==> #[trigger] a(r, c) == b(r, c),
    ensures
        mask_holds(a, mask, solid, ign) == mask_holds(b, mask, solid, ign),
        block_solid(a, solid) == block_solid(b, solid),
{
    if block_solid(a, solid) {
        assert forall|r: int, c: int| 0 <= r < 3 && 0 <= c < 3 implies b(r, c) == '\0' || solid(
            #[trigger] b(r, c),
        ) by {
            assert(a(r, c) == b(r, c));
        }
    }
    if block_solid(b, solid) {
        assert forall|r: int, c: int| 0 <= r < 3 && 0 <= c < 3 implies a(r, c) == '\0' || solid(
            #[trigger] a(r, c),
        ) by {
            assert(a(r, c) == b(r, c));
        }
    }
    if !is_special_mask(mask) && is_mask_shape(mask) {
        if forall|r: int, c: int|
            0 <= r < 3 && 0 <= c < 3 ==> cell_fits(mask[4 * r + c], #[trigger] a(r, c), solid, ign) {
            assert forall|r: int, c: int| 0 <= r < 3 && 0 <= c < 3 implies cell_fits(
                mask[4 * r + c],
                #[trigger] b(r, c),
                solid,
                ign,
            ) by {
                assert(a(r, c) == b(r, c));
            }
        }
        if forall|r: int, c: int|
            0 <= r < 3 && 0 <= c < 3 ==> cell_fits(mask[4 * r + c], #[trigger] b(r, c), solid, ign) {
            assert forall|r: int, c: int| 0 <= r < 3 && 0 <= c < 3 implies cell_fits(
                mask[4 * r + c],
                #[trigger] a(r, c),
                solid,
                ign,
            ) by {
                assert(a(r, c) == b(r, c));
            }
        }
    }
}

fn cell_at(grid: &Vec<Vec<char>>, x: usize, y: usize, dx: usize, dy: usize) -> (r: char)
    requires
        dx < 3,
        dy < 3,
    ensures
        r == cell(grid@, x + dx - 1, y + dy - 1),
{
    if (dy == 0 && y == 0) || (dx == 0 && x == 0) {
        return '\0';
    }
    let yy: usize = if dy == 0 {
        y - 1
    } else if dy == 1 {
        y
    } else {
        if y >= grid.len() {
            return '\0';
        }
        y + 1
    };
    if yy >= grid.len() {
        return '\0';
    }
    let row = &grid[yy];
    let xx: usize = if dx == 0 {
        x - 1
    } else if dx == 1 {
        x
    } else {
        if x >= row.len() {
            return '\0';
        }
        x + 1
    };
    if xx < row.len() {
        row[xx]
    } else {
        '\0'
    }
}

/// The 3x3 neighborhood of `(x, y)`, row by row; cells outside the grid
/// hold [`OUT_OF_BOUNDS`].
pub fn get_neighborhood(solids: &Vec<Vec<char>>, x: usize, y: usize) -> (n: [[char; 3]; 3])
    ensures
        forall|r: int, c: int|
            0 <= r < 3 && 0 <= c < 3 ==> #[trigger] n@[r]@[c] == cell(solids@, x + c - 1, y + r - 1),
{
    let n = [
        [cell_at(solids, x, y, 0, 0), cell_at(solids, x, y, 1, 0), cell_at(solids, x, y, 2, 0)],
        [cell_at(solids, x, y, 0, 1), cell_at(solids, x, y, 1, 1), cell_at(solids, x, y, 2, 1)],
        [cell_at(solids, x, y, 0, 2), cell_at(solids, x, y, 1, 2), cell_at(solids, x, y, 2, 2)],
    ];
    assert forall|r: int, c: int| 0 <= r < 3 && 0 <= c < 3 implies #[trigger] n@[r]@[c] == cell(
        solids@,
        x + c - 1,
        y + r - 1,
    ) by {
        if r == 0 {
            assert(n@[0]@ == seq![n[0][0], n[0][1], n[0][2]]);
        } else if r == 1 {
            assert(n@[1]@ == seq![n[1][0], n[1][1], n[1][2]]);
        } else {
            assert(n@[2]@ == seq![n[2][0], n[2][1], n[2][2]]);
        }
    }
    n
}

fn vec_contains(v: &Vec<char>, c: char) -> (r: bool)
    ensures
        r == v@.contains(c),
{
    let mut i: usize = 0;
    while i < v.len()
        invariant
            0 <= i <= v@.len(),
            forall|j: int| 0 <= j < i ==> v@[j] != c,
        decreases v.len() - i,
    {
        if v[i] == c {
            assert(v@[i as int] == c);
            return true;
        }
        i = i + 1;
    }
    false
}

fn opt_contains(ign: &Option<Vec<char>>, c: char) -> (r: bool)
    ensures
        r == is_ignored(
            match ign {
                Some(v) => Some(v@),
                None => None,
            },
            c,
        ),
{
    match ign {
        None => false,
        Some(v) => vec_contains(v, c),
    }
}

fn is_word(m: &Vec<char>, word: &[char]) -> (r: bool)
    ensures
        r == (m@ == word@),
{
    if m.len() != word.len() {
        return false;
    }
    let mut i: usize = 0;
    while i < m.len()
        invariant
            m@.len() == word@.len(),
            0 <= i <= m@.len(),
            forall|j: int| 0 <= j < i ==> m@[j] == word@[j],
        decreases m.len() - i,
    {
        if m[i] != word[i] {
            return false;
        }
        i = i + 1;
    }
    assert(m@ =~= word@);
    true
}

fn is_special(m: &Vec<char>) -> (r: bool)
    ensures
        r == is_special_mask(m@),
{
    let center = ['c', 'e', 'n', 't', 'e', 'r'];
    let padding = ['p', 'a', 'd', 'd', 'i', 'n', 'g'];
    assert(center@ =~= center_mask());
    assert(padding@ =~= padding_mask());
    is_word(m, center.as_slice()) || is_word(m, padding.as_slice())
}

fn fits<F: Fn(char) -> bool>(m: char, t: char, is_solid: &F, ign: &Option<Vec<char>>) -> (r: bool)
    requires
        is_predicate(is_solid),
    ensures
        r == cell_fits(
            m,
            t,
            solid_pred(is_solid),
            match ign {
                Some(v) => Some(v@),
                None => None,
            },
        ),
{
    if m == '0' || m == '1' {
        let s = is_solid(t);
        let filled = t == '\0' || (s && !opt_contains(ign, t));
        if m == '0' {
            !filled
        } else {
            filled
        }
    } else {
        true
    }
}

fn window_solid<F: Fn(char) -> bool>(n: &[[char; 3]; 3], is_solid: &F) -> (r: bool)
    requires
        is_predicate(is_solid),
    ensures
        r == block_solid(array_window(*n), solid_pred(is_solid)),
{
    let ghost at = array_window(*n);
    let mut r: usize = 0;
    while r < 3
        invariant
            0 <= r <= 3,
            is_predicate(is_solid),
            at == array_window(*n),
            forall|rr: int, cc: int|
                0 <= rr < r && 0 <= cc < 3 ==> at(rr, cc) == '\0' || solid_pred(is_solid)(
                    #[trigger] at(rr, cc),
                ),
        decreases 3 - r,
    {
        let mut c: usize = 0;
        while c < 3
            invariant
                0 <= r < 3,
                0 <= c <= 3,
                is_predicate(is_solid),
                at == array_window(*n),
                forall|rr: int, cc: int|
                    0 <= rr < r && 0 <= cc < 3 ==> at(rr, cc) == '\0' || solid_pred(is_solid)(
                        #[trigger] at(rr, cc),
                    ),
                forall|cc: int|
                    0 <= cc < c ==> at(r as int, cc) == '\0' || solid_pred(is_solid)(
                        #[trigger] at(r as int, cc),
                    ),
            decreases 3 - c,
        {
            let t = n[r][c];
            if t != '\0' && !is_solid(t) {
                assert(at(r as int, c as int) == t);
                assert(!solid_pred(is_solid)(t));
                return false;
            }
            c = c + 1;
        }
        r = r + 1;
    }
    true
}

/// Whether `mask` matches a neighborhood. `center` and `padding` match when
/// every cell is solid or out of bounds (the two-away test of `padding` is
/// made by [`autotile_tile_coord`]); any other mask must be three rows of
/// three characters joined by `-`, each `0` (air), `1` (filled) or a wildcard.
pub fn mask_matches<F: Fn(char) -> bool>(
    neighborhood: &[[char; 3]; 3],
    mask: &str,
    is_solid: &F,
    ignores: Option<&str>,
) -> (r: bool)
    requires
        is_predicate(is_solid),
    ensures
        r == mask_holds(array_window(*neighborhood), mask@, solid_pred(is_solid), opt_chars(ignores)),
{
    let m = chars_of(mask);
    if is_special(&m) {
        return window_solid(neighborhood, is_solid);
    }
    assert(!is_special_mask(mask@));
    if m.len() != 11 {
        assert(!is_mask_shape(mask@));
        return false;
    }
    let mut i: usize = 0;
    while i < 11
        invariant
            m@.len() == 11,
            m@ == mask@,
            !is_special_mask(mask@),
            0 <= i <= 11,
            forall|j: int| 0 <= j < i ==> (m@[j] == '-') == (j == 3 || j == 7),
        decreases 11 - i,
    {
        if (m[i] == '-') != (i == 3 || i == 7) {
            assert((m@[i as int] == '-') != (i == 3 || i == 7));
            return false;
        }
        i = i + 1;
    }
    let ign: Option<Vec<char>> = match ignores {
        Some(s) => Some(chars_of(s)),
        None => None,
    };
    let ghost at = array_window(*neighborhood);
    let ghost ig = opt_chars(ignores);
    assert(ig == match ign {
        Some(v) => Some(v@),
        None => None::<Seq<char>>,
    });
    let mut r: usize = 0;
    while r < 3
        invariant
            0 <= r <= 3,
            m@ == mask@,
            m@.len() == 11,
            !is_special_mask(mask@),
            is_mask_shape(mask@),
            is_predicate(is_solid),
            at == array_window(*neighborhood),
            ig == opt_chars(ignores),
            ig == match ign {
                Some(v) => Some(v@),
                None => None::<Seq<char>>,
            },
            forall|rr: int, cc: int|
                0 <= rr < r && 0 <= cc < 3 ==> cell_fits(
                    m@[4 * rr + cc],
                    #[trigger] at(rr, cc),
                    solid_pred(is_solid),
                    ig,
                ),
        decreases 3 - r,
    {
        let mut c: usize = 0;
        while c < 3
            invariant
                0 <= r < 3,
                0 <= c <= 3,
                m@ == mask@,
                m@.len() == 11,
                !is_special_mask(mask@),
                is_mask_shape(mask@),
                is_predicate(is_solid),
                at == array_window(*neighborhood),
                ig == opt_chars(ignores),
                ig == match ign {
                    Some(v) => Some(v@),
                    None => None::<Seq<char>>,
                },
                forall|rr: int, cc: int|
                    0 <= rr < r && 0 <= cc < 3 ==> cell_fits(
                        m@[4 * rr + cc],
                        #[trigger] at(rr, cc),
                        solid_pred(is_solid),
                        ig,
                    ),
                forall|cc: int|
                    0 <= cc < c ==> cell_fits(
                        m@[4 * r + cc],
                        #[trigger] at(r as int, cc),
                        solid_pred(is_solid),
                        ig,
                    ),
            decreases 3 - c,
        {
            if !fits(m[4 * r + c], neighborhood[r][c], is_solid, &ign) {
                assert(at(r as int, c as int) == neighborhood@[r as int]@[c as int]);
                assert(!cell_fits(m@[4 * r + c], at(r as int, c as int), solid_pred(is_solid), ig));
                assert(!mask_holds(at, mask@, solid_pred(is_solid), ig));
                return false;
            }
            c = c + 1;
        }
        r = r + 1;
    }
    true
}

/// The cell at `(x, y)` lies in the grid and is not solid.
pub open spec fn air_at(grid: Seq<Vec<char>>, x: int, y: int, solid: spec_fn(char) -> bool) -> bool {
    0 <= y < grid.len() && 0 <= x < grid[y]@.len() && !solid(grid[y]@[x])
}

/// One of the four cells two steps away (left, right, up, down) is air.
pub open spec fn orthogonal_air(
    grid: Seq<Vec<char>>,
    x: int,
    y: int,
    solid: spec_fn(char) -> bool,
) -> bool {
    air_at(grid, x - 2, y, solid) || air_at(grid, x + 2, y, solid) || air_at(grid, x, y - 2, solid)
        || air_at(grid, x, y + 2, solid)
}

fn air_cell<F: Fn(char) -> bool>(
    solids: &Vec<Vec<char>>,
    x: usize,
    y: usize,
    is_solid: &F,
) -> (r: bool)
    requires
        is_predicate(is_solid),
    ensures
        r == air_at(solids@, x as int, y as int, solid_pred(is_solid)),
{
    if y < solids.len() && x < solids[y].len() {
        !is_solid(solids[y][x])
    } else {
        false
    }
}

/// Whether a cell two steps away orthogonally lies in the grid and is not
/// solid; cells outside the grid count as solid.
pub fn has_orthogonal_air<F: Fn(char) -> bool>(
    solids: &Vec<Vec<char>>,
    x: usize,
    y: usize,
    is_solid: &F,
) -> (r: bool)
    requires
        is_predicate(is_solid),
    ensures
        r == orthogonal_air(solids@, x as int, y as int, solid_pred(is_solid)),
{
    let ghost g = solids@;
    let ghost p = solid_pred(is_solid);
    if x >= 2 && air_cell(solids, x - 2, y, is_solid) {
        return true;
    }
    if x <= usize::MAX - 2 {
        if air_cell(solids, x + 2, y, is_solid) {
            return true;
        }
    } else if y < solids.len() {
        assert(solids@[y as int].len() <= usize::MAX);
        assert(!air_at(g, x + 2, y as int, p));
    }
    if y >= 2 && air_cell(solids, x, y - 2, is_solid) {
        return true;
    }
    if y <= usize::MAX - 2 {
        if air_cell(solids, x, y + 2, is_solid) {
            return true;
        }
    } else {
        assert(solids.len() <= usize::MAX);
        assert(!air_at(g, x as int, y + 2, p));
    }
    false
}

/// Which of `n` candidates a cell at `(x, y)` takes: a fixed hash of the
/// position, so that equal grids always render alike.
pub open spec fn variant_of(x: int, y: int, n: int) -> int {
    (x * 31 + y * 17) % n
}

/// The index among `count` candidates that the cell at `(x, y)` takes:
/// `(x * 31 + y * 17) mod count`.
pub fn variant_index(x: usize, y: usize, count: usize) -> (r: usize)
    requires
        count > 0,
    ensures
        r == variant_of(x as int, y as int, count as int),
        r < count,
{
    let h: u128 = x as u128 * 31 + y as u128 * 17;
    (h % count as u128) as usize
}

/// The candidate that the cell at `(x, y)` takes from a non-empty list.
pub open spec fn pick(tiles: Seq<(u32, u32)>, x: int, y: int) -> (u32, u32) {
    tiles[variant_of(x, y, tiles.len() as int)]
}

/// The first explicit rule at or after `i` whose mask matches and which has
/// candidates, resolved to a candidate.
pub open spec fn explicit_choice(
    rules: Seq<SetRule>,
    i: int,
    at: spec_fn(int, int) -> char,
    solid: spec_fn(char) -> bool,
    ign: Option<Seq<char>>,
    x: int,
    y: int,
) -> Option<(u32, u32)>
    decreases rules.len() - i,
{
    if i < 0 || i >= rules.len() {
        None
    } else if !is_special_mask(rules[i].mask@) && mask_holds(at, rules[i].mask@, solid, ign)
        && rules[i].tiles@.len() > 0 {
        Some(pick(rules[i].tiles@, x, y))
    } else {
        explicit_choice(rules, i + 1, at, solid, ign, x, y)
    }
}

/// Index of the first rule at or after `i` whose mask is exactly `mask`.
pub open spec fn first_with_mask(rules: Seq<SetRule>, mask: Seq<char>, i: int) -> Option<int>
    decreases rules.len() - i,
{
    if i < 0 || i >= rules.len() {
        None
    } else if rules[i].mask@ == mask {
        Some(i)
    } else {
        first_with_mask(rules, mask, i + 1)
    }
}

/// A fallback: when `applies`, the first rule with that mask, if it has candidates.
pub open spec fn fallback_choice(
    rules: Seq<SetRule>,
    mask: Seq<char>,
    applies: bool,
    x: int,
    y: int,
) -> Option<(u32, u32)> {
    if !applies {
        None
    } else {
        match first_with_mask(rules, mask, 0) {
            Some(k) => if rules[k].tiles@.len() > 0 {
                Some(pick(rules[k].tiles@, x, y))
            } else {
                None
            },
            None => None,
        }
    }
}

/// The tile coordinate that a rule list gives a cell: the first matching
/// explicit mask, else `padding` (the block is solid and there is air two
/// steps away), else `center` (the block is solid), else `(0, 0)`.
pub open spec fn resolve(
    rules: Seq<SetRule>,
    at: spec_fn(int, int) -> char,
    solid: spec_fn(char) -> bool,
    ign: Option<Seq<char>>,
    air: bool,
    x: int,
    y: int,
) -> (u32, u32) {
    match explicit_choice(rules, 0, at, solid, ign, x, y) {
        Some(t) => t,
        None => match fallback_choice(rules, padding_mask(), block_solid(at, solid) && air, x, y) {
            Some(t) => t,
            None => match fallback_choice(rules, center_mask(), block_solid(at, solid), x, y) {
                Some(t) => t,
                None => (0, 0),
            },
        },
    }
}

/// The tile coordinate of the cell `(x, y)` drawn as tile type `id`:
/// nothing when no tileset has that id.
pub open spec fn autotile(
    id: char,
    grid: Seq<Vec<char>>,
    x: int,
    y: int,
    sets: Seq<Tileset>,
    solid: spec_fn(char) -> bool,
) -> Option<(u32, u32)> {
    match find_tileset(sets, id) {
        None => None,
        Some(k) => Some(
            resolve(
                sets[k].rules@,
                window(grid, x, y),
                solid,
                ignores_view(sets[k]),
                orthogonal_air(grid, x, y, solid),
                x,
                y,
            ),
        ),
    }
}

fn find_fallback(rules: &Vec<SetRule>, padding: bool) -> (r: Option<usize>)
    ensures
        r matches Some(k) ==> k < rules@.len() && first_with_mask(
            rules@,
            if padding { padding_mask() } else { center_mask() },
            0,
        ) == Some(k as int),
        r is None ==> first_with_mask(
            rules@,
            if padding { padding_mask() } else { center_mask() },
            0,
        ) is None,
{
    let ghost m = if padding { padding_mask() } else { center_mask() };
    let center = ['c', 'e', 'n', 't', 'e', 'r'];
    let pad = ['p', 'a', 'd', 'd', 'i', 'n', 'g'];
    assert(center@ =~= center_mask());
    assert(pad@ =~= padding_mask());
    let mut i: usize = 0;
    while i < rules.len()
        invariant
            0 <= i <= rules@.len(),
            center@ == center_mask(),
            pad@ == padding_mask(),
            m == if padding { padding_mask() } else { center_mask() },
            first_with_mask(rules@, m, 0) == first_with_mask(rules@, m, i as int),
        decreases rules.len() - i,
    {
        let mc = chars_of(rules[i].mask.as_str());
        let hit = if padding { is_word(&mc, pad.as_slice()) } else { is_word(&mc, center.as_slice()) };
        if hit {
            return Some(i);
        }
        i = i + 1;
    }
    None
}

/// The tile coordinate, in tile units of the tileset's source image, to draw
/// at `(x, y)` for tile type `tile_id`: `None` when no tileset has that id,
/// else the first matching explicit mask, the `padding` and `center`
/// fallbacks, and finally `(0, 0)`. Among several candidates of a rule the
/// cell takes the one at [`variant_index`].
pub fn autotile_tile_coord<F: Fn(char) -> bool>(
    tile_id: char,
    solids: &Vec<Vec<char>>,
    x: usize,
    y: usize,
    tilesets: &Vec<Tileset>,
    is_solid: &F,
) -> (r: Option<(u32, u32)>)
    requires
        is_predicate(is_solid),
    ensures
        r == autotile(tile_id, solids@, x as int, y as int, tilesets@, solid_pred(is_solid)),
{
    let tileset = match get_tileset_for_id(tilesets, tile_id) {
        Some(t) => t,
        None => return None,
    };
    let n = get_neighborhood(solids, x, y);
    let ignores: Option<&str> = match &tileset.ignores {
        Some(s) => Some(s.as_str()),
        None => None,
    };
    let ghost rules = tileset.rules@;
    let ghost at = window(solids@, x as int, y as int);
    let ghost p = solid_pred(is_solid);
    let ghost ig = ignores_view(*tileset);
    assert(opt_chars(ignores) == ig);
    assert forall|r: int, c: int| 0 <= r < 3 && 0 <= c < 3 implies #[trigger] array_window(n)(r, c)
        == at(r, c) by {}
    let ghost air = orthogonal_air(solids@, x as int, y as int, p);
    assert(autotile(tile_id, solids@, x as int, y as int, tilesets@, p) == Some(
        resolve(rules, at, p, ig, air, x as int, y as int),
    ));
    let mut i: usize = 0;
    while i < tileset.rules.len()
        invariant
            0 <= i <= rules.len(),
            rules == tileset.rules@,
            is_predicate(is_solid),
            p == solid_pred(is_solid),
            opt_chars(ignores) == ig,
            autotile(tile_id, solids@, x as int, y as int, tilesets@, p) == Some(
                resolve(rules, at, p, ig, air, x as int, y as int),
            ),
            forall|r: int, c: int| 0 <= r < 3 && 0 <= c < 3 ==> #[trigger] array_window(n)(r, c)
                == at(r, c),
            explicit_choice(rules, 0, at, p, ig, x as int, y as int) == explicit_choice(
                rules,
                i as int,
                at,
                p,
                ig,
                x as int,
                y as int,
            ),
        decreases tileset.rules.len() - i,
    {
        let rule = &tileset.rules[i];
        let mc = chars_of(rule.mask.as_str());
        if !is_special(&mc) {
            let hit = mask_matches(&n, rule.mask.as_str(), is_solid, ignores);
            proof {
                lemma_mask_holds_same_window(array_window(n), at, rule.mask@, p, ig);
            }
            if hit && rule.tiles.len() > 0 {
                let k = variant_index(x, y, rule.tiles.len());
                assert(rules[i as int] == *rule);
                assert(explicit_choice(rules, i as int, at, p, ig, x as int, y as int) == Some(
                    rule.tiles@[k as int],
                ));
                return Some(rule.tiles[k]);
            }
        }
        i = i + 1;
    }
    assert(explicit_choice(rules, 0, at, p, ig, x as int, y as int) is None);
    let block = window_solid(&n, is_solid);
    proof {
        lemma_mask_holds_same_window(array_window(n), at, center_mask(), p, ig);
    }
    assert(block == block_solid(at, p));
    let pad_air = block && has_orthogonal_air(solids, x, y, is_solid);
    assert(pad_air == (block_solid(at, p) && air));
    if pad_air {
        if let Some(k) = find_fallback(&tileset.rules, true) {
            let rule = &tileset.rules[k];
            if rule.tiles.len() > 0 {
                let j = variant_index(x, y, rule.tiles.len());
                assert(fallback_choice(rules, padding_mask(), pad_air, x as int, y as int) == Some(
                    rule.tiles@[j as int],
                ));
                return Some(rule.tiles[j]);
            }
        }
    }
    assert(fallback_choice(rules, padding_mask(), pad_air, x as int, y as int) is None);
    if block {
        if let Some(k) = find_fallback(&tileset.rules, false) {
            let rule = &tileset.rules[k];
            if rule.tiles.len() > 0 {
                let j = variant_index(x, y, rule.tiles.len());
                assert(fallback_choice(rules, center_mask(), block, x as int, y as int) == Some(
                    rule.tiles@[j as int],
                ));
                return Some(rule.tiles[j]);
            }
        }
    }
    assert(fallback_choice(rules, center_mask(), block, x as int, y as int) is None);
    Some((0, 0))
}

/// The tile coordinate of every cell of a grid, row by row, as
/// [`autotile_tile_coord`] gives it: computed once per level so that drawing
/// needs no matching.
pub fn compute_autotile_coords<F: Fn(char) -> bool>(
    grid: &Vec<Vec<char>>,
    tilesets: &Vec<Tileset>,
    is_solid: &F,
) -> (r: Vec<Vec<Option<(u32, u32)>>>)
    requires
        is_predicate(is_solid),
    ensures
        r@.len() == grid@.len(),
        forall|y: int| 0 <= y < grid@.len() ==> (#[trigger] r@[y])@.len() == grid@[y]@.len(),
        forall|y: int, x: int|
            0 <= y < grid@.len() && 0 <= x < grid@[y]@.len() ==> (#[trigger] r@[y]@[x]) == autotile(
                grid@[y]@[x],
                grid@,
                x,
                y,
                tilesets@,
                solid_pred(is_solid),
            ),
{
    let mut out: Vec<Vec<Option<(u32, u32)>>> = Vec::new();
    let mut y: usize = 0;
    while y < grid.len()
        invariant
            0 <= y <= grid@.len(),
            is_predicate(is_solid),
            out@.len() == y,
            forall|yy: int| 0 <= yy < y ==> (#[trigger] out@[yy])@.len() == grid@[yy]@.len(),
            forall|yy: int, x: int|
                0 <= yy < y && 0 <= x < grid@[yy]@.len() ==> (#[trigger] out@[yy]@[x]) == autotile(
                    grid@[yy]@[x],
                    grid@,
                    x,
                    yy,
                    tilesets@,
                    solid_pred(is_solid),
                ),
        decreases grid.len() - y,
    {
        let row = &grid[y];
        let mut coords: Vec<Option<(u32, u32)>> = Vec::new();
        let mut x: usize = 0;
        while x < row.len()
            invariant
                0 <= x <= row@.len(),
                row == grid@[y as int],
                0 <= y < grid@.len(),
                is_predicate(is_solid),
                coords@.len() == x,
                forall|xx: int| 0 <= xx < x ==> (#[trigger] coords@[xx]) == autotile(
                    grid@[y as int]@[xx],
                    grid@,
                    xx,
                    y as int,
                    tilesets@,
                    solid_pred(is_solid),
                ),
            decreases row.len() - x,
        {
            let c = autotile_tile_coord(row[x], grid, x, y, tilesets, is_solid);
            coords.push(c);
            x = x + 1;
        }
        out.push(coords);
        y = y + 1;
    }
    out
}

} // verus!
