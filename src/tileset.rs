use vstd::prelude::*;

verus! {

/// One `<set>` rule of a tileset: a mask (an explicit 3x3 pattern, or one of
/// the words `center` and `padding`) and the candidate tile coordinates, in
/// tile units of the tileset's source image.
#[derive(Debug, Clone)]
pub struct SetRule {
    pub mask: String,
    pub tiles: Vec<(u32, u32)>,
}

/// The rules of one tile-type character: its own rules followed by those it
/// inherits through `copy`.
#[derive(Debug, Clone)]
pub struct Tileset {
    pub id: char,
    pub path: String,
    pub ignores: Option<String>,
    pub rules: Vec<SetRule>,
}

/// The characters listed in `ignores`, if any.
pub open spec fn ignores_view(t: Tileset) -> Option<Seq<char>> {
    match t.ignores {
        Some(s) => Some(s@),
        None => None,
    }
}

/// Index of the first tileset with the given id at or after `i`.
pub open spec fn find_tileset_from(sets: Seq<Tileset>, id: char, i: int) -> Option<int>
    decreases sets.len() - i,
{
    if i < 0 || i >= sets.len() {
        None
    } else if sets[i].id == id {
        Some(i)
    } else {
        find_tileset_from(sets, id, i + 1)
    }
}

/// Index of the first tileset with the given id.
pub open spec fn find_tileset(sets: Seq<Tileset>, id: char) -> Option<int> {
    find_tileset_from(sets, id, 0)
}

pub proof fn lemma_find_tileset(sets: Seq<Tileset>, id: char)
    ensures
        find_tileset(sets, id) matches Some(k) ==> 0 <= k < sets.len() && sets[k].id == id,
{
    lemma_find_tileset_from(sets, id, 0);
}

proof fn lemma_find_tileset_from(sets: Seq<Tileset>, id: char, i: int)
    requires
        0 <= i <= sets.len(),
    ensures
        find_tileset_from(sets, id, i) matches Some(k) ==> i <= k < sets.len() && sets[k].id == id
            && forall|j: int| i <= j < k ==> sets[j].id != id,
        find_tileset_from(sets, id, i) is None ==> forall|j: int| i <= j < sets.len() ==> sets[j].id != id,
    decreases sets.len() - i,
{
    if i < sets.len() {
        lemma_find_tileset_from(sets, id, i + 1);
    }
}

/// The tileset registered for a tile-type character, if any: the first one
/// with that id.
pub fn get_tileset_for_id(tilesets: &Vec<Tileset>, id: char) -> (r: Option<&Tileset>)
    ensures
        match find_tileset(tilesets@, id) {
            Some(k) => r matches Some(t) && *t == tilesets@[k],
            None => r is None,
        },
{
    proof { lemma_find_tileset_from(tilesets@, id, 0); }
    let mut i: usize = 0;
    while i < tilesets.len()
        invariant
            0 <= i <= tilesets@.len(),
            forall|j: int| 0 <= j < i ==> tilesets@[j].id != id,
            find_tileset(tilesets@, id) matches Some(k) ==> i <= k && tilesets@[k].id == id
                && forall|j: int| 0 <= j < k ==> tilesets@[j].id != id,
            find_tileset(tilesets@, id) is None ==> forall|j: int| 0 <= j < tilesets@.len() ==> tilesets@[j].id != id,
        decreases tilesets.len() - i,
    {
        if tilesets[i].id == id {
            return Some(&tilesets[i]);
        }
        i = i + 1;
    }
    None
}

} // verus!
