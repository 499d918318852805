use vstd::prelude::*;
use crate::autotile::{
    autotile, block_solid, cell, cell_fits, center_mask, explicit_choice, first_with_mask, is_filled,
    is_mask_shape, is_special_mask, mask_holds, orthogonal_air, padding_mask, window,
};
use crate::tileset::{find_tileset, ignores_view, SetRule, Tileset};

verus! {

/// The mask whose nine cells all ask for a filled neighbor.
pub open spec fn all_filled_mask() -> Seq<char> {
    seq!['1', '1', '1', '-', '1', '1', '1', '-', '1', '1', '1']
}

/// The tile a cell gets depends on nothing but the characters of the grid,
/// the position, the tilesets and the solidity predicate: two grids with
/// the same rows give the same answer.
pub proof fn lemma_autotile_depends_on_contents(
    id: char,
    g1: Seq<Vec<char>>,
    g2: Seq<Vec<char>>,
    x: int,
    y: int,
    sets: Seq<Tileset>,
    solid: spec_fn(char) -> bool,
)
    requires
        g1.len() == g2.len(),
        forall|i: int| 0 <= i < g1.len() ==> (#[trigger] g1[i])@ == g2[i]@,
    ensures
        autotile(id, g1, x, y, sets, solid) == autotile(id, g2, x, y, sets, solid),
{
    assert forall|a: int, b: int| #[trigger] cell(g1, a, b) == cell(g2, a, b) by {
        if 0 <= b < g1.len() {
            assert(g1[b]@ == g2[b]@);
        }
    }
    assert(window(g1, x, y) =~= window(g2, x, y));
    assert forall|a: int, b: int| 0 <= b < g1.len() && 0 <= a < g1[b]@.len() implies g1[b]@[a]
        == g2[b]@[a] by {
        assert(g1[b]@ == g2[b]@);
    }
}

proof fn lemma_explicit_choice_found(
    rules: Seq<SetRule>,
    i: int,
    j: int,
    at: spec_fn(int, int) -> char,
    solid: spec_fn(char) -> bool,
    ign: Option<Seq<char>>,
    x: int,
    y: int,
)
    requires
        0 <= i <= j < rules.len(),
        !is_special_mask(rules[j].mask@),
        mask_holds(at, rules[j].mask@, solid, ign),
        rules[j].tiles@.len() > 0,
    ensures
        explicit_choice(rules, i, at, solid, ign, x, y) is Some,
    decreases j - i,
{
    if i < j {
        lemma_explicit_choice_found(rules, i + 1, j, at, solid, ign, x, y);
    }
}

/// An explicit mask that matches wins over the `padding` and `center`
/// fallbacks: whenever some explicit rule with candidates matches, the cell
/// takes the first such rule's candidate, whatever else would match.
pub proof fn lemma_explicit_mask_has_priority(
    id: char,
    grid: Seq<Vec<char>>,
    x: int,
    y: int,
    sets: Seq<Tileset>,
    solid: spec_fn(char) -> bool,
    k: int,
    j: int,
)
    requires
        find_tileset(sets, id) == Some(k),
        0 <= j < sets[k].rules@.len(),
        !is_special_mask(sets[k].rules@[j].mask@),
        mask_holds(window(grid, x, y), sets[k].rules@[j].mask@, solid, ignores_view(sets[k])),
        sets[k].rules@[j].tiles@.len() > 0,
    ensures
        explicit_choice(sets[k].rules@, 0, window(grid, x, y), solid, ignores_view(sets[k]), x, y) is Some,
        autotile(id, grid, x, y, sets, solid) == explicit_choice(
            sets[k].rules@,
            0,
            window(grid, x, y),
            solid,
            ignores_view(sets[k]),
            x,
            y,
        ),
{
    lemma_explicit_choice_found(
        sets[k].rules@,
        0,
        j,
        window(grid, x, y),
        solid,
        ignores_view(sets[k]),
        x,
        y,
    );
}

/// Cells outside the grid count as filled: where every cell of the window
/// that lies in the grid is solid and not ignored, the all-ones mask
/// matches, at a corner or an edge as anywhere else.
pub proof fn lemma_out_of_bounds_is_filled(
    grid: Seq<Vec<char>>,
    x: int,
    y: int,
    solid: spec_fn(char) -> bool,
    ign: Option<Seq<char>>,
)
    requires
        forall|r: int, c: int|
            0 <= r < 3 && 0 <= c < 3 && 0 <= y + r - 1 < grid.len() && 0 <= x + c - 1 < grid[y + r
                - 1]@.len() ==> is_filled(#[trigger] window(grid, x, y)(r, c), solid, ign),
    ensures
        mask_holds(window(grid, x, y), all_filled_mask(), solid, ign),
{
    let m = all_filled_mask();
    assert(!is_special_mask(m)) by {
        assert(m[0] != center_mask()[0]);
        assert(m[0] != padding_mask()[0]);
    }
    assert(is_mask_shape(m));
    assert forall|r: int, c: int| 0 <= r < 3 && 0 <= c < 3 implies cell_fits(
        m[4 * r + c],
        #[trigger] window(grid, x, y)(r, c),
        solid,
        ign,
    ) by {
        assert(m[4 * r + c] == '1');
    }
}

/// Two tile types whose tilesets hold the same rules and the same `ignores`
/// are drawn alike at every position of every grid.
pub proof fn lemma_same_rules_same_tiles(
    a: char,
    b: char,
    grid: Seq<Vec<char>>,
    x: int,
    y: int,
    sets: Seq<Tileset>,
    solid: spec_fn(char) -> bool,
    i: int,
    j: int,
)
    requires
        find_tileset(sets, a) == Some(i),
        find_tileset(sets, b) == Some(j),
        sets[i].rules@ == sets[j].rules@,
        ignores_view(sets[i]) == ignores_view(sets[j]),
    ensures
        autotile(a, grid, x, y, sets, solid) == autotile(b, grid, x, y, sets, solid),
{
}

/// Index of the first explicit rule at or after `i` whose mask matches and
/// which has candidates.
pub open spec fn explicit_rule(
    rules: Seq<SetRule>,
    i: int,
    at: spec_fn(int, int) -> char,
    solid: spec_fn(char) -> bool,
    ign: Option<Seq<char>>,
) -> Option<int>
    decreases rules.len() - i,
{
    if i < 0 || i >= rules.len() {
        None
    } else if !is_special_mask(rules[i].mask@) && mask_holds(at, rules[i].mask@, solid, ign)
        && rules[i].tiles@.len() > 0 {
        Some(i)
    } else {
        explicit_rule(rules, i + 1, at, solid, ign)
    }
}

/// The first rule with `mask`, where `applies` and it has candidates.
pub open spec fn fallback_rule(rules: Seq<SetRule>, mask: Seq<char>, applies: bool) -> Option<int> {
    if !applies {
        None
    } else {
        match first_with_mask(rules, mask, 0) {
            Some(k) => if rules[k].tiles@.len() > 0 {
                Some(k)
            } else {
                None
            },
            None => None,
        }
    }
}

/// The rule that decides a cell's tile: the first matching explicit rule
/// with candidates, else the `padding` rule, else the `center` rule; none
/// when the cell falls back to `(0, 0)`.
pub open spec fn deciding_rule(
    rules: Seq<SetRule>,
    at: spec_fn(int, int) -> char,
    solid: spec_fn(char) -> bool,
    ign: Option<Seq<char>>,
    air: bool,
) -> Option<int> {
    match explicit_rule(rules, 0, at, solid, ign) {
        Some(j) => Some(j),
        None => match fallback_rule(rules, padding_mask(), block_solid(at, solid) && air) {
            Some(j) => Some(j),
            None => fallback_rule(rules, center_mask(), block_solid(at, solid)),
        },
    }
}

proof fn lemma_explicit_rule(
    rules: Seq<SetRule>,
    i: int,
    at: spec_fn(int, int) -> char,
    solid: spec_fn(char) -> bool,
    ign: Option<Seq<char>>,
    x: int,
    y: int,
)
    requires
        0 <= i,
    ensures
        explicit_rule(rules, i, at, solid, ign) matches Some(j) ==> 0 <= j < rules.len() && rules[j].tiles@.len() > 0,
        explicit_choice(rules, i, at, solid, ign, x, y) == (match explicit_rule(rules, i, at, solid, ign) {
            Some(j) => Some(rules[j].tiles@[(x * 31 + y * 17) % (rules[j].tiles@.len() as int)]),
            None => None,
        }),
    decreases rules.len() - i,
{
    if i < rules.len() {
        lemma_explicit_rule(rules, i + 1, at, solid, ign, x, y);
    }
}

proof fn lemma_first_with_mask_in_range(rules: Seq<SetRule>, mask: Seq<char>, i: int)
    requires
        0 <= i,
    ensures
        first_with_mask(rules, mask, i) matches Some(k) ==> 0 <= k < rules.len(),
    decreases rules.len() - i,
{
    if i < rules.len() {
        lemma_first_with_mask_in_range(rules, mask, i + 1);
    }
}

/// Among several candidates the cell takes the one at
/// `(x * 31 + y * 17) mod N` of the rule that decides it, `N` being that
/// rule's candidate count: the choice depends on nothing but the position
/// and `N`. Without a deciding rule the cell gets `(0, 0)`.
pub proof fn lemma_tie_break_by_position(
    id: char,
    grid: Seq<Vec<char>>,
    x: int,
    y: int,
    sets: Seq<Tileset>,
    solid: spec_fn(char) -> bool,
    k: int,
)
    requires
        find_tileset(sets, id) == Some(k),
    ensures
        match deciding_rule(
            sets[k].rules@,
            window(grid, x, y),
            solid,
            ignores_view(sets[k]),
            orthogonal_air(grid, x, y, solid),
        ) {
            Some(j) => 0 <= j < sets[k].rules@.len() && sets[k].rules@[j].tiles@.len() > 0 && autotile(
                id,
                grid,
                x,
                y,
                sets,
                solid,
            ) == Some(sets[k].rules@[j].tiles@[(x * 31 + y * 17) % (sets[k].rules@[j].tiles@.len() as int)]),
            None => autotile(id, grid, x, y, sets, solid) == Some((0u32, 0u32)),
        },
{
    let rules = sets[k].rules@;
    lemma_explicit_rule(rules, 0, window(grid, x, y), solid, ignores_view(sets[k]), x, y);
    lemma_first_with_mask_in_range(rules, padding_mask(), 0);
    lemma_first_with_mask_in_range(rules, center_mask(), 0);
}

} // verus!
