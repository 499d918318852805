use vstd::prelude::*;
use crate::atlas::same_text;
use crate::tiles::{decal_key, is_solid_tile, normalize_decal_path};
use crate::autotile::{autotile, compute_autotile_coords, solid_pred};
use crate::tileset::Tileset;
use crate::text::{chars_of, lemma_split_nonempty, split, split_chars, string_from_chars};

verus! {

/// A typed attribute value. A floating-point value is carried as the
/// decimal text it was written with; the library does no arithmetic on it.
#[derive(Debug)]
pub enum AttrValue {
    Str(String),
    Int(i64),
    Float(String),
    Bool(bool),
}

/// A node of the generic map tree: a name, attributes in order, children in
/// order, and an optional inner-text payload.
#[derive(Debug)]
pub struct TaggedNode {
    pub name: String,
    pub attributes: Vec<(String, AttrValue)>,
    pub children: Vec<TaggedNode>,
    pub inner_text: Option<String>,
}

/// Index of the first entry whose key is `key`.
pub open spec fn first_attr(attrs: Seq<(String, AttrValue)>, key: Seq<char>) -> Option<int>
    decreases attrs.len(),
{
    if attrs.len() == 0 {
        None
    } else {
        match first_attr(attrs.drop_last(), key) {
            Some(k) => Some(k),
            None => if attrs.last().0@ == key {
                Some(attrs.len() - 1)
            } else {
                None
            },
        }
    }
}

proof fn lemma_first_attr(attrs: Seq<(String, AttrValue)>, key: Seq<char>)
    ensures
        first_attr(attrs, key) matches Some(k) ==> 0 <= k < attrs.len() && attrs[k].0@ == key && forall|j: int|
            0 <= j < k ==> (#[trigger] attrs[j]).0@ != key,
        first_attr(attrs, key) is None ==> forall|j: int| 0 <= j < attrs.len() ==> (#[trigger] attrs[j]).0@ != key,
    decreases attrs.len(),
{
    if attrs.len() > 0 {
        lemma_first_attr(attrs.drop_last(), key);
        assert forall|j: int| 0 <= j < attrs.len() - 1 implies attrs[j] == attrs.drop_last()[j] by {}
    }
}

/// The integer value of an attribute, if it is present and an integer.
pub open spec fn int_attr(n: TaggedNode, key: Seq<char>) -> Option<i64> {
    match first_attr(n.attributes@, key) {
        Some(k) => match n.attributes@[k].1 {
            AttrValue::Int(v) => Some(v),
            _ => None,
        },
        None => None,
    }
}

/// The text value of an attribute, if it is present and a string.
pub open spec fn str_attr(n: TaggedNode, key: Seq<char>) -> Option<Seq<char>> {
    match first_attr(n.attributes@, key) {
        Some(k) => match n.attributes@[k].1 {
            AttrValue::Str(s) => Some(s@),
            _ => None,
        },
        None => None,
    }
}

/// Index of the first child with the given name.
pub open spec fn first_child(children: Seq<TaggedNode>, name: Seq<char>) -> Option<int>
    decreases children.len(),
{
    if children.len() == 0 {
        None
    } else {
        match first_child(children.drop_last(), name) {
            Some(k) => Some(k),
            None => if children.last().name@ == name {
                Some(children.len() - 1)
            } else {
                None
            },
        }
    }
}

proof fn lemma_first_child(children: Seq<TaggedNode>, name: Seq<char>)
    ensures
        first_child(children, name) matches Some(k) ==> 0 <= k < children.len() && children[k].name@ == name
            && forall|j: int| 0 <= j < k ==> (#[trigger] children[j]).name@ != name,
        first_child(children, name) is None ==> forall|j: int| 0 <= j < children.len() ==> (#[trigger] children[j]).name@ != name,
    decreases children.len(),
{
    if children.len() > 0 {
        lemma_first_child(children.drop_last(), name);
        assert forall|j: int| 0 <= j < children.len() - 1 implies children[j] == children.drop_last()[j] by {}
    }
}

fn find_attr(attrs: &Vec<(String, AttrValue)>, key: &str) -> (r: Option<usize>)
    ensures
        r matches Some(k) ==> k < attrs@.len() && first_attr(attrs@, key@) == Some(k as int),
        r is None ==> first_attr(attrs@, key@) is None,
{
    proof { lemma_first_attr(attrs@, key@); }
    let mut i: usize = 0;
    while i < attrs.len()
        invariant
            0 <= i <= attrs@.len(),
            forall|j: int| 0 <= j < i ==> (#[trigger] attrs@[j]).0@ != key@,
            first_attr(attrs@, key@) matches Some(k) ==> 0 <= k < attrs@.len() && attrs@[k].0@ == key@
                && forall|j: int| 0 <= j < k ==> (#[trigger] attrs@[j]).0@ != key@,
            first_attr(attrs@, key@) is None ==> forall|j: int| 0 <= j < attrs@.len() ==> (#[trigger] attrs@[j]).0@ != key@,
        decreases attrs.len() - i,
    {
        if same_text(attrs[i].0.as_str(), key) {
            return Some(i);
        }
        i = i + 1;
    }
    None
}

/// Index of the first child with the given name.
pub fn find_child(children: &Vec<TaggedNode>, name: &str) -> (r: Option<usize>)
    ensures
        r matches Some(k) ==> k < children@.len() && first_child(children@, name@) == Some(k as int),
        r is None ==> first_child(children@, name@) is None,
{
    proof { lemma_first_child(children@, name@); }
    let mut i: usize = 0;
    while i < children.len()
        invariant
            0 <= i <= children@.len(),
            forall|j: int| 0 <= j < i ==> (#[trigger] children@[j]).name@ != name@,
            first_child(children@, name@) matches Some(k) ==> 0 <= k < children@.len() && children@[k].name@
                == name@ && forall|j: int| 0 <= j < k ==> (#[trigger] children@[j]).name@ != name@,
            first_child(children@, name@) is None ==> forall|j: int|
                0 <= j < children@.len() ==> (#[trigger] children@[j]).name@ != name@,
        decreases children.len() - i,
    {
        if same_text(children[i].name.as_str(), name) {
            return Some(i);
        }
        i = i + 1;
    }
    None
}

impl TaggedNode {
    /// The integer value of an attribute, if present and an integer.
    pub fn int_attr(&self, key: &str) -> (r: Option<i64>)
        ensures
            r == int_attr(*self, key@),
    {
        match find_attr(&self.attributes, key) {
            Some(k) => match &self.attributes[k].1 {
                AttrValue::Int(v) => Some(*v),
                _ => None,
            },
            None => None,
        }
    }

    /// The text value of an attribute, if present and a string.
    pub fn str_attr(&self, key: &str) -> (r: Option<&String>)
        ensures
            match str_attr(*self, key@) {
                Some(s) => r matches Some(t) && t@ == s,
                None => r is None,
            },
    {
        match find_attr(&self.attributes, key) {
            Some(k) => match &self.attributes[k].1 {
                AttrValue::Str(s) => Some(s),
                _ => None,
            },
            None => None,
        }
    }
}

/// The children of the first `levels` container under the root.
pub open spec fn levels_of(root: TaggedNode) -> Option<Seq<TaggedNode>> {
    match first_child(root.children@, "levels"@) {
        Some(k) => Some(root.children@[k].children@),
        None => None,
    }
}

/// The level at `index` of the `levels` container.
pub open spec fn current_level(root: TaggedNode, index: int) -> Option<TaggedNode> {
    match levels_of(root) {
        Some(ls) => if 0 <= index < ls.len() {
            Some(ls[index])
        } else {
            None
        },
        None => None,
    }
}

/// The names of the `level` nodes among `ls`, in order; a level without a
/// text `name` attribute is left out.
pub open spec fn names_of(ls: Seq<TaggedNode>) -> Seq<Seq<char>>
    decreases ls.len(),
{
    if ls.len() == 0 {
        Seq::empty()
    } else {
        let rest = names_of(ls.drop_last());
        let l = ls.last();
        if l.name@ == "level"@ && str_attr(l, "name"@) is Some {
            rest.push(str_attr(l, "name"@)->0)
        } else {
            rest
        }
    }
}

/// The inner text of a level's first `solids` child, if it has one.
pub open spec fn solids_text(level: TaggedNode) -> Option<Seq<char>> {
    match first_child(level.children@, "solids"@) {
        Some(k) => match level.children@[k].inner_text {
            Some(t) => Some(t@),
            None => None,
        },
        None => None,
    }
}

/// The level at `index` of the map's `levels` container.
pub fn get_current_level(root: &TaggedNode, index: usize) -> (r: Option<&TaggedNode>)
    ensures
        match current_level(*root, index as int) {
            Some(l) => r == Some(&l),
            None => r is None,
        },
{
    match find_child(&root.children, "levels") {
        Some(k) => {
            let levels = &root.children[k].children;
            if index < levels.len() {
                Some(&levels[index])
            } else {
                None
            }
        },
        None => None,
    }
}

/// The names of the map's levels, in order.
pub fn extract_level_names(root: &TaggedNode) -> (r: Vec<String>)
    ensures
        match levels_of(*root) {
            Some(ls) => r@.map_values(|s: String| s@) == names_of(ls),
            None => r@.len() == 0,
        },
{
    let mut out: Vec<String> = Vec::new();
    match find_child(&root.children, "levels") {
        Some(k) => {
            let levels = &root.children[k].children;
            let mut i: usize = 0;
            assert(out@.map_values(|s: String| s@) =~= names_of(levels@.take(0)));
            while i < levels.len()
                invariant
                    0 <= i <= levels@.len(),
                    out@.map_values(|s: String| s@) == names_of(levels@.take(i as int)),
                decreases levels.len() - i,
            {
                let l = &levels[i];
                proof {
                    assert(levels@.take(i + 1).drop_last() =~= levels@.take(i as int));
                    assert(levels@.take(i + 1).last() == *l);
                }
                if same_text(l.name.as_str(), "level") {
                    if let Some(n) = l.str_attr("name") {
                        let c = n.clone();
                        assert(out@.push(c).map_values(|s: String| s@) =~= out@.map_values(|s: String| s@).push(c@));
                        out.push(c);
                    }
                }
                i = i + 1;
            }
            assert(levels@.take(levels@.len() as int) =~= levels@);
            out
        },
        None => out,
    }
}

/// The solids text of a level: the inner text of its first `solids` child.
pub fn get_solids_data(level: &TaggedNode) -> (r: Option<String>)
    ensures
        match solids_text(*level) {
            Some(t) => r matches Some(s) && s@ == t,
            None => r is None,
        },
{
    match find_child(&level.children, "solids") {
        Some(k) => match &level.children[k].inner_text {
            Some(t) => Some(t.clone()),
            None => None,
        },
        None => None,
    }
}

/// `a` is `b` except, perhaps, for its child at `k`.
pub open spec fn same_but_child(a: TaggedNode, b: TaggedNode, k: int) -> bool {
    &&& a.name == b.name
    &&& a.attributes == b.attributes
    &&& a.inner_text == b.inner_text
    &&& a.children@.len() == b.children@.len()
    &&& forall|j: int| 0 <= j < a.children@.len() && j != k ==> a.children@[j] == b.children@[j]
}

/// Replaces the solids text of the level at `index`: the inner text of its
/// first `solids` child. Returns whether there was such a child; nothing
/// else in the tree changes.
pub fn update_solids_data(root: &mut TaggedNode, index: usize, new_solids: &str) -> (r: bool)
    ensures
        r == (current_level(*old(root), index as int) matches Some(l) && first_child(l.children@, "solids"@) is Some),
        !r ==> *final(root) == *old(root),
        r ==> ({
            let k = first_child(old(root).children@, "levels"@)->0;
            let ol = old(root).children@[k].children@[index as int];
            let s = first_child(ol.children@, "solids"@)->0;
            let l = final(root).children@[k].children@[index as int];
            &&& same_but_child(*final(root), *old(root), k)
            &&& same_but_child(final(root).children@[k], old(root).children@[k], index as int)
            &&& same_but_child(l, ol, s)
            &&& l.children@[s].name == ol.children@[s].name
            &&& l.children@[s].attributes == ol.children@[s].attributes
            &&& l.children@[s].children == ol.children@[s].children
            &&& l.children@[s].inner_text matches Some(t) && t@ == new_solids@
        }),
{
    let k = match find_child(&root.children, "levels") {
        Some(k) => k,
        None => return false,
    };
    if index >= root.children[k].children.len() {
        return false;
    }
    let s = match find_child(&root.children[k].children[index].children, "solids") {
        Some(s) => s,
        None => return false,
    };
    let text = new_solids.to_owned();
    let container: &mut TaggedNode = &mut root.children[k];
    let level: &mut TaggedNode = &mut container.children[index];
    let solids: &mut TaggedNode = &mut level.children[s];
    solids.inner_text = Some(text);
    true
}

/// A line without the carriage return of a `\r\n` ending.
pub open spec fn strip_cr(l: Seq<char>) -> Seq<char> {
    if l.len() > 0 && l.last() == '\r' {
        l.drop_last()
    } else {
        l
    }
}

/// The lines of a text as `str::lines` gives them: split at `\n`, a `\r`
/// before a `\n` dropped, and no empty last line after a final `\n`.
pub open spec fn text_lines(t: Seq<char>) -> Seq<Seq<char>> {
    let parts = split(t, '\n');
    let body = if parts.last().len() == 0 { parts.drop_last() } else { parts };
    Seq::new(body.len(), |i: int| if i < parts.len() - 1 { strip_cr(body[i]) } else { body[i] })
}

/// The rows of every child named `name` that has inner text, in order.
pub open spec fn payload_rows(children: Seq<TaggedNode>, name: Seq<char>) -> Seq<Seq<char>>
    decreases children.len(),
{
    if children.len() == 0 {
        Seq::empty()
    } else {
        let rest = payload_rows(children.drop_last(), name);
        let c = children.last();
        if c.name@ == name && c.inner_text is Some {
            rest + text_lines(c.inner_text->0@)
        } else {
            rest
        }
    }
}

/// A level as the editor works on it: name, position and size in pixels,
/// the tile grids (one character per cell, rows may differ in length) and
/// the offset of the foreground grid.
#[derive(Debug)]
pub struct LevelRecord {
    pub name: String,
    pub x: i64,
    pub y: i64,
    pub width: i64,
    pub height: i64,
    pub solids: Vec<Vec<char>>,
    pub bg: Vec<Vec<char>>,
    pub offset_x: i64,
    pub offset_y: i64,
    pub fg_decals: Vec<Decal>,
    pub bg_decals: Vec<Decal>,
}

pub open spec fn rows_view(rows: Seq<Vec<char>>) -> Seq<Seq<char>> {
    rows.map_values(|v: Vec<char>| v@)
}

pub open spec fn int_or(v: Option<i64>, d: i64) -> i64 {
    match v {
        Some(x) => x,
        None => d,
    }
}

/// An integer attribute of a level's first `solids` child, or zero.
pub open spec fn solids_attr(level: TaggedNode, key: Seq<char>) -> i64 {
    match first_child(level.children@, "solids"@) {
        Some(k) => int_or(int_attr(level.children@[k], key), 0),
        None => 0,
    }
}

/// `rec` is the record of `level`: integer `x` and `y`, `width` and
/// `height` defaulting to 320 and 184, the text `name` or an empty one, the
/// rows of all `solids` and `bg` children, the foreground offset, and the
/// decals of its `fgdecals` and `bgdecals` lists.
pub open spec fn is_record_of(level: TaggedNode, rec: LevelRecord) -> bool {
    &&& int_attr(level, "x"@) == Some(rec.x)
    &&& int_attr(level, "y"@) == Some(rec.y)
    &&& rec.width == int_or(int_attr(level, "width"@), 320)
    &&& rec.height == int_or(int_attr(level, "height"@), 184)
    &&& rec.name@ == (match str_attr(level, "name"@) {
        Some(n) => n,
        None => Seq::empty(),
    })
    &&& rows_view(rec.solids@) == payload_rows(level.children@, "solids"@)
    &&& rows_view(rec.bg@) == payload_rows(level.children@, "bg"@)
    &&& rec.offset_x == solids_attr(level, "offsetX"@)
    &&& rec.offset_y == solids_attr(level, "offsetY"@)
    &&& decals_view(rec.fg_decals@) == decals_of(level.children@, "fgdecals"@)
    &&& decals_view(rec.bg_decals@) == decals_of(level.children@, "bgdecals"@)
}

/// The lines of a text, as [`text_lines`] states.
pub fn lines_of(text: &str) -> (r: Vec<Vec<char>>)
    ensures
        rows_view(r@) == text_lines(text@),
{
    let cs = chars_of(text);
    let parts = split_chars(&cs, '\n');
    let ghost ps = split(text@, '\n');
    proof { lemma_split_nonempty(text@, '\n'); }
    let n = parts.len();
    let count = if parts[n - 1].len() == 0 { n - 1 } else { n };
    let mut out: Vec<Vec<char>> = Vec::new();
    let mut i: usize = 0;
    while i < count
        invariant
            0 <= i <= count,
            n == parts@.len(),
            n >= 1,
            count <= n,
            ps.len() == n,
            ps == split(text@, '\n'),
            forall|j: int| 0 <= j < n ==> (#[trigger] parts@[j])@ == ps[j],
            count == (if ps.last().len() == 0 { n - 1 } else { n as int }),
            rows_view(out@) == text_lines(text@).take(i as int),
        decreases count - i,
    {
        let p = &parts[i];
        let mut line: Vec<char> = Vec::new();
        let mut len = p.len();
        if i + 1 < n && len > 0 && p[len - 1] == '\r' {
            len = len - 1;
        }
        let mut j: usize = 0;
        while j < len
            invariant
                0 <= j <= len <= p@.len(),
                line@ == p@.take(j as int),
            decreases len - j,
        {
            line.push(p[j]);
            assert(p@.take(j + 1) =~= p@.take(j as int).push(p@[j as int]));
            j = j + 1;
        }
        proof {
            let body = if ps.last().len() == 0 { ps.drop_last() } else { ps };
            assert(body[i as int] == ps[i as int]);
            if i + 1 < n && p@.len() > 0 && p@.last() == '\r' {
                assert(line@ =~= strip_cr(ps[i as int]));
            } else {
                assert(line@ =~= p@);
            }
            assert(rows_view(out@.push(line)) =~= rows_view(out@).push(line@));
            assert(text_lines(text@).len() == count);
            assert(text_lines(text@)[i as int] == (if i < ps.len() - 1 { strip_cr(body[i as int]) } else { body[i as int] }));
            assert(text_lines(text@)[i as int] == line@);
            assert(text_lines(text@).take(i + 1) =~= text_lines(text@).take(i as int).push(line@));
        }
        out.push(line);
        i = i + 1;
    }
    assert(text_lines(text@).take(count as int) =~= text_lines(text@));
    out
}

fn payload_rows_exec(children: &Vec<TaggedNode>, name: &str) -> (r: Vec<Vec<char>>)
    ensures
        rows_view(r@) == payload_rows(children@, name@),
{
    let mut out: Vec<Vec<char>> = Vec::new();
    let mut i: usize = 0;
    assert(rows_view(out@) =~= payload_rows(children@.take(0), name@));
    while i < children.len()
        invariant
            0 <= i <= children@.len(),
            rows_view(out@) == payload_rows(children@.take(i as int), name@),
        decreases children.len() - i,
    {
        let c = &children[i];
        proof {
            assert(children@.take(i + 1).drop_last() =~= children@.take(i as int));
            assert(children@.take(i + 1).last() == *c);
        }
        if same_text(c.name.as_str(), name) {
            if let Some(t) = &c.inner_text {
                let lines = lines_of(t.as_str());
                let ghost before = rows_view(out@);
                let mut j: usize = 0;
                while j < lines.len()
                    invariant
                        0 <= j <= lines@.len(),
                        rows_view(out@) == before + rows_view(lines@).take(j as int),
                    decreases lines.len() - j,
                {
                    let row = copy_row(&lines[j]);
                    assert(rows_view(out@.push(row)) =~= rows_view(out@).push(row@));
                    assert(rows_view(lines@).take(j + 1) =~= rows_view(lines@).take(j as int).push(row@));
                    out.push(row);
                    j = j + 1;
                }
                assert(rows_view(lines@).take(lines@.len() as int) =~= rows_view(lines@));
            }
        }
        i = i + 1;
    }
    assert(children@.take(children@.len() as int) =~= children@);
    out
}

fn copy_row(v: &Vec<char>) -> (r: Vec<char>)
    ensures
        r@ == v@,
{
    let mut r: Vec<char> = Vec::new();
    let mut i: usize = 0;
    while i < v.len()
        invariant
            0 <= i <= v@.len(),
            r@ == v@.take(i as int),
        decreases v.len() - i,
    {
        r.push(v[i]);
        assert(v@.take(i + 1) =~= v@.take(i as int).push(v@[i as int]));
        i = i + 1;
    }
    assert(v@.take(v@.len() as int) =~= v@);
    r
}

fn solids_attr_exec(level: &TaggedNode, key: &str) -> (r: i64)
    ensures
        r == solids_attr(*level, key@),
{
    match find_child(&level.children, "solids") {
        Some(k) => match level.children[k].int_attr(key) {
            Some(v) => v,
            None => 0,
        },
        None => 0,
    }
}

/// The record of a level node, as [`is_record_of`] states; nothing when
/// its `x` or `y` is missing or not an integer.
pub fn extract_level_data(level: &TaggedNode) -> (r: Option<LevelRecord>)
    ensures
        r is Some == (int_attr(*level, "x"@) is Some && int_attr(*level, "y"@) is Some),
        r matches Some(rec) ==> is_record_of(*level, rec),
{
    let x = level.int_attr("x")?;
    let y = level.int_attr("y")?;
    let width = match level.int_attr("width") {
        Some(v) => v,
        None => 320,
    };
    let height = match level.int_attr("height") {
        Some(v) => v,
        None => 184,
    };
    let name = match level.str_attr("name") {
        Some(n) => n.clone(),
        None => String::new(),
    };
    Some(
        LevelRecord {
            name,
            x,
            y,
            width,
            height,
            solids: payload_rows_exec(&level.children, "solids"),
            bg: payload_rows_exec(&level.children, "bg"),
            offset_x: solids_attr_exec(level, "offsetX"),
            offset_y: solids_attr_exec(level, "offsetY"),
            fg_decals: decals_exec(&level.children, "fgdecals"),
            bg_decals: decals_exec(&level.children, "bgdecals"),
        },
    )
}

/// The `level` nodes among `ls` that have integer `x` and `y`, in order.
pub open spec fn record_levels(ls: Seq<TaggedNode>) -> Seq<TaggedNode>
    decreases ls.len(),
{
    if ls.len() == 0 {
        Seq::empty()
    } else {
        let rest = record_levels(ls.drop_last());
        let l = ls.last();
        if l.name@ == "level"@ && int_attr(l, "x"@) is Some && int_attr(l, "y"@) is Some {
            rest.push(l)
        } else {
            rest
        }
    }
}

/// The records of all the map's levels, in order.
pub fn cache_rooms(root: &TaggedNode) -> (r: Vec<LevelRecord>)
    ensures
        match levels_of(*root) {
            Some(ls) => r@.len() == record_levels(ls).len() && forall|i: int|
                0 <= i < r@.len() ==> is_record_of(record_levels(ls)[i], #[trigger] r@[i]),
            None => r@.len() == 0,
        },
{
    let mut out: Vec<LevelRecord> = Vec::new();
    match find_child(&root.children, "levels") {
        Some(k) => {
            let levels = &root.children[k].children;
            let mut i: usize = 0;
            while i < levels.len()
                invariant
                    0 <= i <= levels@.len(),
                    out@.len() == record_levels(levels@.take(i as int)).len(),
                    forall|m: int| 0 <= m < out@.len() ==> is_record_of(record_levels(levels@.take(i as int))[m], #[trigger] out@[m]),
                decreases levels.len() - i,
            {
                let l = &levels[i];
                proof {
                    assert(levels@.take(i + 1).drop_last() =~= levels@.take(i as int));
                    assert(levels@.take(i + 1).last() == *l);
                }
                if same_text(l.name.as_str(), "level") {
                    if let Some(rec) = extract_level_data(l) {
                        out.push(rec);
                    }
                }
                i = i + 1;
            }
            assert(levels@.take(levels@.len() as int) =~= levels@);
            out
        },
        None => out,
    }
}

/// Rows joined with `\n`.
pub open spec fn join_rows(rows: Seq<Seq<char>>) -> Seq<char>
    decreases rows.len(),
{
    if rows.len() == 0 {
        Seq::empty()
    } else if rows.len() == 1 {
        rows[0]
    } else {
        join_rows(rows.drop_last()) + seq!['\n'] + rows.last()
    }
}

/// Rows with cell `(x, y)` set to `c`, after adding empty rows and padding
/// the row with `0` as far as needed.
pub open spec fn place_in_rows(rows: Seq<Seq<char>>, x: int, y: int, c: char) -> Seq<Seq<char>> {
    let rows2 = if rows.len() <= y {
        rows + Seq::new((y + 1 - rows.len()) as nat, |i: int| Seq::<char>::empty())
    } else {
        rows
    };
    let row = rows2[y];
    let row2 = if row.len() <= x { row + Seq::new((x + 1 - row.len()) as nat, |i: int| '0') } else { row };
    rows2.update(y, row2.update(x, c))
}

/// Pixels to tiles, rounding toward zero.
pub open spec fn tiles_of_pixels(v: int) -> int {
    if v >= 0 {
        v / 8
    } else {
        -((-v) / 8)
    }
}

/// Whether a tile lies inside the level's declared room; a level that does
/// not declare all of its position and size accepts every tile.
pub open spec fn inside_room(level: TaggedNode, tx: int, ty: int) -> bool {
    match (int_attr(level, "x"@), int_attr(level, "y"@), int_attr(level, "width"@), int_attr(level, "height"@)) {
        (Some(x), Some(y), Some(w), Some(h)) => {
            let rx = tiles_of_pixels(x as int);
            let ry = tiles_of_pixels(y as int);
            rx <= tx < rx + tiles_of_pixels(w as int) && ry <= ty < ry + tiles_of_pixels(h as int)
        },
        _ => true,
    }
}

/// The solids text after placing a solid `9` at tile `(tx, ty)` of the
/// room, shifted by the grid's offset: nothing when the tile is outside the
/// room, the level has no solids text, or the shifted cell is negative or
/// beyond what a `usize` addresses.
pub open spec fn placed_solids(level: TaggedNode, tx: int, ty: int) -> Option<Seq<char>> {
    if !inside_room(level, tx, ty) {
        None
    } else {
        match solids_text(level) {
            None => None,
            Some(t) => {
                let ax = tx - solids_attr(level, "offsetX"@);
                let ay = ty - solids_attr(level, "offsetY"@);
                if ax < 0 || ay < 0 || ax >= usize::MAX || ay >= usize::MAX {
                    None
                } else {
                    Some(join_rows(place_in_rows(split(t, '\n'), ax, ay, '9')))
                }
            },
        }
    }
}

/// The solids text after clearing tile `(tx, ty)` to `0`, shifted by the
/// grid's offset: nothing when the level has no solids text or the shifted
/// cell is not in the grid.
pub open spec fn removed_solids(level: TaggedNode, tx: int, ty: int) -> Option<Seq<char>> {
    match solids_text(level) {
        None => None,
        Some(t) => {
            let ax = tx - solids_attr(level, "offsetX"@);
            let ay = ty - solids_attr(level, "offsetY"@);
            let rows = split(t, '\n');
            if ax < 0 || ay < 0 || ay >= rows.len() || ax >= rows[ay].len() {
                None
            } else {
                Some(join_rows(rows.update(ay, rows[ay].update(ax, '0'))))
            }
        },
    }
}

fn tiles_of_pixels_exec(v: i64) -> (r: i128)
    ensures
        r == tiles_of_pixels(v as int),
{
    if v >= 0 {
        (v / 8) as i128
    } else {
        -(((-(v as i128)) / 8))
    }
}

fn inside_room_exec(level: &TaggedNode, tx: i32, ty: i32) -> (r: bool)
    ensures
        r == inside_room(*level, tx as int, ty as int),
{
    match (level.int_attr("x"), level.int_attr("y"), level.int_attr("width"), level.int_attr("height")) {
        (Some(x), Some(y), Some(w), Some(h)) => {
            let rx = tiles_of_pixels_exec(x);
            let ry = tiles_of_pixels_exec(y);
            let rw = tiles_of_pixels_exec(w);
            let rh = tiles_of_pixels_exec(h);
            rx <= tx as i128 && (tx as i128) < rx + rw && ry <= ty as i128 && (ty as i128) < ry + rh
        },
        _ => true,
    }
}

fn join_rows_exec(rows: &Vec<Vec<char>>) -> (r: String)
    ensures
        r@ == join_rows(rows_view(rows@)),
{
    let mut out: Vec<char> = Vec::new();
    let mut i: usize = 0;
    assert(rows_view(rows@).take(0) =~= Seq::<Seq<char>>::empty());
    while i < rows.len()
        invariant
            0 <= i <= rows@.len(),
            out@ == join_rows(rows_view(rows@).take(i as int)),
        decreases rows.len() - i,
    {
        let ghost before = out@;
        if i > 0 {
            out.push('\n');
        }
        let row = &rows[i];
        let mut j: usize = 0;
        let ghost mid = out@;
        while j < row.len()
            invariant
                0 <= j <= row@.len(),
                out@ == mid + row@.take(j as int),
            decreases row.len() - j,
        {
            out.push(row[j]);
            assert(row@.take(j + 1) =~= row@.take(j as int).push(row@[j as int]));
            j = j + 1;
        }
        proof {
            let rv = rows_view(rows@);
            assert(row@.take(row@.len() as int) =~= row@);
            assert(rv.take(i + 1).drop_last() =~= rv.take(i as int));
            assert(rv.take(i + 1).last() == row@);
            if i == 0 {
                assert(out@ =~= join_rows(rv.take(1)));
            } else {
                assert(out@ =~= before + seq!['\n'] + row@);
            }
        }
        i = i + 1;
    }
    assert(rows_view(rows@).take(rows@.len() as int) =~= rows_view(rows@));
    string_from_chars(&out)
}

fn split_rows(text: &String) -> (r: Vec<Vec<char>>)
    ensures
        rows_view(r@) == split(text@, '\n'),
        r@.len() >= 1,
{
    let cs = chars_of(text.as_str());
    let parts = split_chars(&cs, '\n');
    proof { lemma_split_nonempty(text@, '\n'); }
    assert(rows_view(parts@) =~= split(text@, '\n'));
    parts
}

/// The solids text of a level after placing a solid tile, as
/// [`placed_solids`] states.
pub fn place_block_in_level(level: &TaggedNode, tile_x: i32, tile_y: i32) -> (r: Option<String>)
    ensures
        match placed_solids(*level, tile_x as int, tile_y as int) {
            Some(t) => r matches Some(s) && s@ == t,
            None => r is None,
        },
{
    if !inside_room_exec(level, tile_x, tile_y) {
        return None;
    }
    let text = get_solids_data(level)?;
    let ax: i128 = tile_x as i128 - solids_attr_exec(level, "offsetX") as i128;
    let ay: i128 = tile_y as i128 - solids_attr_exec(level, "offsetY") as i128;
    if ax < 0 || ay < 0 || ax >= usize::MAX as i128 || ay >= usize::MAX as i128 {
        return None;
    }
    let ax = ax as usize;
    let ay = ay as usize;
    let mut rows = split_rows(&text);
    let ghost r0 = rows_view(rows@);
    let ghost rows2 = if r0.len() <= ay {
        r0 + Seq::new((ay + 1 - r0.len()) as nat, |i: int| Seq::<char>::empty())
    } else {
        r0
    };
    while rows.len() <= ay
        invariant
            rows_view(rows@) == r0 + Seq::new((rows@.len() - r0.len()) as nat, |i: int| Seq::<char>::empty()),
            rows@.len() >= r0.len(),
            r0.len() <= ay ==> rows@.len() <= ay + 1,
            r0.len() > ay ==> rows@.len() == r0.len(),
        decreases ay + 1 - rows.len(),
    {
        let ghost before = rows_view(rows@);
        rows.push(Vec::new());
        assert(rows_view(rows@) =~= before.push(Seq::<char>::empty()));
        assert(rows_view(rows@) =~= r0 + Seq::new((rows@.len() - r0.len()) as nat, |i: int| Seq::<char>::empty()));
    }
    proof {
        if r0.len() <= ay {
            assert(rows@.len() == ay + 1);
        } else {
            assert(rows@.len() == r0.len());
            assert(r0 + Seq::new(0nat, |i: int| Seq::<char>::empty()) =~= r0);
        }
    }
    assert(rows_view(rows@) =~= rows2);
    let ghost row0 = rows2[ay as int];
    let ghost row2 = if row0.len() <= ax {
        row0 + Seq::new((ax + 1 - row0.len()) as nat, |i: int| '0')
    } else {
        row0
    };
    let ghost rows_before = rows@;
    let row: &mut Vec<char> = &mut rows[ay];
    assert(row@ == row0);
    while row.len() <= ax
        invariant
            row@ == row0 + Seq::new((row@.len() - row0.len()) as nat, |i: int| '0'),
            row@.len() >= row0.len(),
            row0.len() <= ax ==> row@.len() <= ax + 1,
            row0.len() > ax ==> row@.len() == row0.len(),
        decreases ax + 1 - row.len(),
    {
        row.push('0');
        assert(row@ =~= row0 + Seq::new((row@.len() - row0.len()) as nat, |i: int| '0'));
    }
    proof {
        if row0.len() <= ax {
            assert(row@.len() == ax + 1);
        } else {
            assert(row@.len() == row0.len());
            assert(row0 + Seq::new(0nat, |i: int| '0') =~= row0);
        }
    }
    assert(row@ =~= row2);
    row.set(ax, '9');
    assert(rows_view(rows@) =~= rows2.update(ay as int, row2.update(ax as int, '9')));
    assert(rows_view(rows@) =~= place_in_rows(split(text@, '\n'), ax as int, ay as int, '9'));
    Some(join_rows_exec(&rows))
}

/// The solids text of a level after clearing a tile, as [`removed_solids`]
/// states.
pub fn remove_block_in_level(level: &TaggedNode, tile_x: i32, tile_y: i32) -> (r: Option<String>)
    ensures
        match removed_solids(*level, tile_x as int, tile_y as int) {
            Some(t) => r matches Some(s) && s@ == t,
            None => r is None,
        },
{
    let text = get_solids_data(level)?;
    let ax: i128 = tile_x as i128 - solids_attr_exec(level, "offsetX") as i128;
    let ay: i128 = tile_y as i128 - solids_attr_exec(level, "offsetY") as i128;
    let mut rows = split_rows(&text);
    if ax < 0 || ay < 0 || ay >= rows.len() as i128 {
        return None;
    }
    let ay = ay as usize;
    if ax >= rows[ay].len() as i128 {
        return None;
    }
    let ax = ax as usize;
    let ghost before = rows_view(rows@);
    let row: &mut Vec<char> = &mut rows[ay];
    row.set(ax, '0');
    assert(rows_view(rows@) =~= before.update(ay as int, before[ay as int].update(ax as int, '0')));
    Some(join_rows_exec(&rows))
}

/// An attribute value as plain values.
pub enum AttrView {
    Str(Seq<char>),
    Int(i64),
    Float(Seq<char>),
    Bool(bool),
}

pub open spec fn attr_view(v: AttrValue) -> AttrView {
    match v {
        AttrValue::Str(s) => AttrView::Str(s@),
        AttrValue::Int(i) => AttrView::Int(i),
        AttrValue::Float(s) => AttrView::Float(s@),
        AttrValue::Bool(b) => AttrView::Bool(b),
    }
}

/// A decal placed in a level: the registry key of its texture, its position
/// and its horizontal and vertical scale, each a number attribute.
#[derive(Debug)]
pub struct Decal {
    pub texture: String,
    pub x: AttrValue,
    pub y: AttrValue,
    pub scale_x: AttrValue,
    pub scale_y: AttrValue,
}

/// A decal as plain values.
pub struct DecalView {
    pub texture: Seq<char>,
    pub x: AttrView,
    pub y: AttrView,
    pub scale_x: AttrView,
    pub scale_y: AttrView,
}

pub open spec fn decal_view(d: Decal) -> DecalView {
    DecalView {
        texture: d.texture@,
        x: attr_view(d.x),
        y: attr_view(d.y),
        scale_x: attr_view(d.scale_x),
        scale_y: attr_view(d.scale_y),
    }
}

pub open spec fn decals_view(ds: Seq<Decal>) -> Seq<DecalView> {
    ds.map_values(|d: Decal| decal_view(d))
}

/// A number attribute, or `default` when it is missing or not a number.
pub open spec fn number_attr(n: TaggedNode, key: Seq<char>, default: i64) -> AttrView {
    match first_attr(n.attributes@, key) {
        Some(k) => match n.attributes@[k].1 {
            AttrValue::Int(v) => AttrView::Int(v),
            AttrValue::Float(t) => AttrView::Float(t@),
            _ => AttrView::Int(default),
        },
        None => AttrView::Int(default),
    }
}

/// The decal that a `decal` node describes: position defaulting to 0, scale
/// to 1, and the registry key of its `texture` (of an empty path when it has
/// none).
pub open spec fn decal_of(d: TaggedNode) -> DecalView {
    DecalView {
        texture: decal_key(
            match str_attr(d, "texture"@) {
                Some(t) => t,
                None => Seq::empty(),
            },
        ),
        x: number_attr(d, "x"@, 0),
        y: number_attr(d, "y"@, 0),
        scale_x: number_attr(d, "scaleX"@, 1),
        scale_y: number_attr(d, "scaleY"@, 1),
    }
}

/// The decals among the children of one decal list, in order.
pub open spec fn decals_in(items: Seq<TaggedNode>) -> Seq<DecalView>
    decreases items.len(),
{
    if items.len() == 0 {
        Seq::empty()
    } else {
        let rest = decals_in(items.drop_last());
        if items.last().name@ == "decal"@ {
            rest.push(decal_of(items.last()))
        } else {
            rest
        }
    }
}

/// The decals of every child list named `list`, in order.
pub open spec fn decals_of(children: Seq<TaggedNode>, list: Seq<char>) -> Seq<DecalView>
    decreases children.len(),
{
    if children.len() == 0 {
        Seq::empty()
    } else {
        let rest = decals_of(children.drop_last(), list);
        if children.last().name@ == list {
            rest + decals_in(children.last().children@)
        } else {
            rest
        }
    }
}

fn number_attr_exec(n: &TaggedNode, key: &str, default: i64) -> (r: AttrValue)
    ensures
        attr_view(r) == number_attr(*n, key@, default),
{
    match find_attr(&n.attributes, key) {
        Some(k) => match &n.attributes[k].1 {
            AttrValue::Int(v) => AttrValue::Int(*v),
            AttrValue::Float(t) => AttrValue::Float(t.clone()),
            _ => AttrValue::Int(default),
        },
        None => AttrValue::Int(default),
    }
}

fn decal_exec(d: &TaggedNode) -> (r: Decal)
    ensures
        decal_view(r) == decal_of(*d),
{
    let texture = match d.str_attr("texture") {
        Some(t) => normalize_decal_path(t.as_str()),
        None => normalize_decal_path(""),
    };
    proof {
        if str_attr(*d, "texture"@) is None {
            assert(""@ =~= Seq::<char>::empty()) by {
                reveal_strlit("");
            }
        }
    }
    Decal {
        texture,
        x: number_attr_exec(d, "x", 0),
        y: number_attr_exec(d, "y", 0),
        scale_x: number_attr_exec(d, "scaleX", 1),
        scale_y: number_attr_exec(d, "scaleY", 1),
    }
}

fn decals_exec(children: &Vec<TaggedNode>, list: &str) -> (r: Vec<Decal>)
    ensures
        decals_view(r@) == decals_of(children@, list@),
{
    let mut out: Vec<Decal> = Vec::new();
    let mut i: usize = 0;
    assert(decals_view(out@) =~= decals_of(children@.take(0), list@));
    while i < children.len()
        invariant
            0 <= i <= children@.len(),
            decals_view(out@) == decals_of(children@.take(i as int), list@),
        decreases children.len() - i,
    {
        let c = &children[i];
        proof {
            assert(children@.take(i + 1).drop_last() =~= children@.take(i as int));
            assert(children@.take(i + 1).last() == *c);
        }
        if same_text(c.name.as_str(), list) {
            let items = &c.children;
            let ghost before = decals_view(out@);
            let mut j: usize = 0;
            assert(decals_in(items@.take(0)) =~= Seq::<DecalView>::empty());
            assert(before + Seq::<DecalView>::empty() =~= before);
            while j < items.len()
                invariant
                    0 <= j <= items@.len(),
                    decals_view(out@) == before + decals_in(items@.take(j as int)),
                decreases items.len() - j,
            {
                let it = &items[j];
                proof {
                    assert(items@.take(j + 1).drop_last() =~= items@.take(j as int));
                    assert(items@.take(j + 1).last() == *it);
                }
                if same_text(it.name.as_str(), "decal") {
                    let d = decal_exec(it);
                    assert(decals_view(out@.push(d)) =~= decals_view(out@).push(decal_view(d)));
                    assert(before + decals_in(items@.take(j + 1)) =~= (before + decals_in(items@.take(j as int))).push(
                        decal_view(d),
                    ));
                    out.push(d);
                }
                j = j + 1;
            }
            assert(items@.take(items@.len() as int) =~= items@);
        }
        i = i + 1;
    }
    assert(children@.take(children@.len() as int) =~= children@);
    out
}

impl LevelRecord {
    /// The autotiled coordinate of every foreground cell, with
    /// [`is_solid_tile`] (every character but `0`) as the solidity test.
    pub fn compute_autotile_coords(&self, tilesets: &Vec<Tileset>) -> (r: Vec<Vec<Option<(u32, u32)>>>)
        ensures
            r@.len() == self.solids@.len(),
            forall|y: int| 0 <= y < self.solids@.len() ==> (#[trigger] r@[y])@.len() == self.solids@[y]@.len(),
            forall|y: int, x: int|
                0 <= y < self.solids@.len() && 0 <= x < self.solids@[y]@.len() ==> (#[trigger] r@[y]@[x])
                    == autotile(self.solids@[y]@[x], self.solids@, x, y, tilesets@, solid_pred(&is_solid_tile)),
    {
        let r = compute_autotile_coords(&self.solids, tilesets, &is_solid_tile);
        r
    }

    /// The autotiled coordinate of every background cell, with
    /// [`is_solid_tile`] (every character but `0`) as the test for a filled cell.
    pub fn compute_bg_autotile_coords(&self, tilesets: &Vec<Tileset>) -> (r: Vec<Vec<Option<(u32, u32)>>>)
        ensures
            r@.len() == self.bg@.len(),
            forall|y: int| 0 <= y < self.bg@.len() ==> (#[trigger] r@[y])@.len() == self.bg@[y]@.len(),
            forall|y: int, x: int|
                0 <= y < self.bg@.len() && 0 <= x < self.bg@[y]@.len() ==> (#[trigger] r@[y]@[x])
                    == autotile(self.bg@[y]@[x], self.bg@, x, y, tilesets@, solid_pred(&is_solid_tile)),
    {
        let r = compute_autotile_coords(&self.bg, tilesets, &is_solid_tile);
        r
    }
}

} // verus!
