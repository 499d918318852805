use vstd::prelude::*;
use crate::text::{chars_of, parse_u32, parse_u32_chars, split, split_chars, trim, trim_chars};
use crate::tileset::{SetRule, Tileset};
use quick_xml::events::{BytesStart, Event};
use quick_xml::Reader;

verus! {

/// One attribute of a start tag: its raw name, and its unescaped value, or
/// nothing where the value could not be unescaped.
pub struct XmlAttr {
    pub key: Vec<u8>,
    pub value: Option<String>,
}

/// A start or empty-element tag.
pub struct XmlTag {
    pub name: Vec<u8>,
    pub attrs: Vec<XmlAttr>,
}

/// The markup events that the rule files are read from.
pub enum XmlEvent {
    /// A start tag or an empty-element tag.
    Open(XmlTag),
    /// An end tag, by raw name.
    Close(Vec<u8>),
    /// The end of the document.
    Eof,
    /// A syntax error: reading stops there.
    Fail,
    /// Text, comments and anything else the rules ignore.
    Other,
}

/// An attribute as plain values.
pub struct XmlAttrView {
    pub key: Seq<u8>,
    pub value: Option<Seq<char>>,
}

/// A markup event as plain values.
pub enum XmlEventView {
    Open(Seq<u8>, Seq<XmlAttrView>),
    Close(Seq<u8>),
    Eof,
    Fail,
    Other,
}

pub open spec fn attr_view(a: XmlAttr) -> XmlAttrView {
    XmlAttrView { key: a.key@, value: opt_string(a.value) }
}

pub open spec fn attrs_view(attrs: Seq<XmlAttr>) -> Seq<XmlAttrView> {
    attrs.map_values(|a: XmlAttr| attr_view(a))
}

pub open spec fn event_view(e: XmlEvent) -> XmlEventView {
    match e {
        XmlEvent::Open(tag) => XmlEventView::Open(tag.name@, attrs_view(tag.attrs@)),
        XmlEvent::Close(name) => XmlEventView::Close(name@),
        XmlEvent::Eof => XmlEventView::Eof,
        XmlEvent::Fail => XmlEventView::Fail,
        XmlEvent::Other => XmlEventView::Other,
    }
}

pub open spec fn events_view(es: Seq<XmlEvent>) -> Seq<XmlEventView> {
    es.map_values(|e: XmlEvent| event_view(e))
}

/// The end of the document or a syntax error: reading stops there.
pub open spec fn is_last_event(e: XmlEventView) -> bool {
    e is Eof || e is Fail
}

/// A rule as plain values.
pub struct RuleView {
    pub mask: Seq<char>,
    pub tiles: Seq<(u32, u32)>,
}

pub open spec fn rule_view(r: SetRule) -> RuleView {
    RuleView { mask: r.mask@, tiles: r.tiles@ }
}

pub open spec fn rules_view(rs: Seq<SetRule>) -> Seq<RuleView> {
    rs.map_values(|r: SetRule| rule_view(r))
}

pub open spec fn opt_string(s: Option<String>) -> Option<Seq<char>> {
    match s {
        Some(t) => Some(t@),
        None => None,
    }
}

/// A tileset as plain values.
pub struct TilesetView {
    pub id: char,
    pub path: Seq<char>,
    pub ignores: Option<Seq<char>>,
    pub rules: Seq<RuleView>,
}

pub open spec fn tileset_view(t: Tileset) -> TilesetView {
    TilesetView { id: t.id, path: t.path@, ignores: opt_string(t.ignores), rules: rules_view(t.rules@) }
}

/// Everything declared for one tile-type id so far.
pub struct Decl {
    pub id: char,
    pub path: Option<Seq<char>>,
    pub copy: Option<char>,
    pub ignores: Option<Seq<char>>,
    pub rules: Seq<RuleView>,
}

/// Where a read of the events stands: the tileset whose `<set>` children are
/// being collected, the declarations, and whether reading has stopped.
pub struct ReadState {
    pub current: Option<char>,
    pub decls: Seq<Decl>,
    pub stopped: bool,
    pub failed: bool,
}

/// A raw name equals an ASCII word.
pub open spec fn name_is(name: Seq<u8>, word: Seq<char>) -> bool {
    name.len() == word.len() && forall|i: int| 0 <= i < name.len() ==> name[i] as u32 == #[trigger] word[i] as u32
}

pub open spec fn tileset_word() -> Seq<char> {
    seq!['T', 'i', 'l', 'e', 's', 'e', 't']
}

pub open spec fn set_word() -> Seq<char> {
    seq!['s', 'e', 't']
}

pub open spec fn id_word() -> Seq<char> {
    seq!['i', 'd']
}

pub open spec fn path_word() -> Seq<char> {
    seq!['p', 'a', 't', 'h']
}

pub open spec fn copy_word() -> Seq<char> {
    seq!['c', 'o', 'p', 'y']
}

pub open spec fn ignores_word() -> Seq<char> {
    seq!['i', 'g', 'n', 'o', 'r', 'e', 's']
}

pub open spec fn mask_word() -> Seq<char> {
    seq!['m', 'a', 's', 'k']
}

pub open spec fn tiles_word() -> Seq<char> {
    seq!['t', 'i', 'l', 'e', 's']
}

pub open spec fn first_char(s: Seq<char>) -> Option<char> {
    if s.len() > 0 {
        Some(s[0])
    } else {
        None
    }
}

/// The attributes of a `<Tileset>` tag: `id` and `copy` are the first
/// character of their value; a later attribute of the same name wins.
pub struct TilesetAttrs {
    pub id: Option<char>,
    pub path: Option<Seq<char>>,
    pub copy: Option<char>,
    pub ignores: Option<Seq<char>>,
}

pub open spec fn tileset_attrs(attrs: Seq<XmlAttrView>) -> TilesetAttrs
    decreases attrs.len(),
{
    if attrs.len() == 0 {
        TilesetAttrs { id: None, path: None, copy: None, ignores: None }
    } else {
        let a = tileset_attrs(attrs.drop_last());
        let k = attrs.last().key;
        match attrs.last().value {
            None => a,
            Some(v) => if name_is(k, id_word()) {
                TilesetAttrs { id: first_char(v), ..a }
            } else if name_is(k, path_word()) {
                TilesetAttrs { path: Some(v), ..a }
            } else if name_is(k, copy_word()) {
                TilesetAttrs { copy: first_char(v), ..a }
            } else if name_is(k, ignores_word()) {
                TilesetAttrs { ignores: Some(v), ..a }
            } else {
                a
            },
        }
    }
}

/// The coordinate pair that one `x,y` item of a `tiles` list gives, if any.
pub open spec fn tile_pair(item: Seq<char>) -> Seq<(u32, u32)> {
    let parts = split(item, ',');
    if parts.len() == 2 && parse_u32(trim(parts[0])) is Some && parse_u32(trim(parts[1])) is Some {
        seq![(parse_u32(trim(parts[0]))->0, parse_u32(trim(parts[1]))->0)]
    } else {
        Seq::empty()
    }
}

pub open spec fn tile_pairs(items: Seq<Seq<char>>) -> Seq<(u32, u32)>
    decreases items.len(),
{
    if items.len() == 0 {
        Seq::empty()
    } else {
        tile_pairs(items.drop_last()) + tile_pair(items.last())
    }
}

/// The coordinates of a `tiles` value `x1,y1;x2,y2;...`; items that are not
/// two decimal numbers are left out.
pub open spec fn parse_tiles(v: Seq<char>) -> Seq<(u32, u32)> {
    tile_pairs(split(v, ';'))
}

/// The attributes of a `<set>` tag: its mask, and the coordinates of all its
/// `tiles` attributes.
pub struct SetAttrs {
    pub mask: Option<Seq<char>>,
    pub tiles: Seq<(u32, u32)>,
}

pub open spec fn set_attrs(attrs: Seq<XmlAttrView>) -> SetAttrs
    decreases attrs.len(),
{
    if attrs.len() == 0 {
        SetAttrs { mask: None, tiles: Seq::empty() }
    } else {
        let a = set_attrs(attrs.drop_last());
        let k = attrs.last().key;
        match attrs.last().value {
            None => a,
            Some(v) => if name_is(k, mask_word()) {
                SetAttrs { mask: Some(v), ..a }
            } else if name_is(k, tiles_word()) {
                SetAttrs { tiles: a.tiles + parse_tiles(v), ..a }
            } else {
                a
            },
        }
    }
}

/// Index of the first declaration of `id`.
pub open spec fn find_decl(decls: Seq<Decl>, id: char) -> Option<int>
    decreases decls.len(),
{
    if decls.len() == 0 {
        None
    } else {
        match find_decl(decls.drop_last(), id) {
            Some(k) => Some(k),
            None => if decls.last().id == id {
                Some(decls.len() - 1)
            } else {
                None
            },
        }
    }
}

/// Records a `<Tileset>` tag for `id`: `path` and `copy` are kept when the
/// tag leaves them out, `ignores` is replaced.
pub open spec fn declare(decls: Seq<Decl>, id: char, a: TilesetAttrs) -> Seq<Decl> {
    match find_decl(decls, id) {
        Some(k) => decls.update(
            k,
            Decl {
                id,
                path: if a.path is Some { a.path } else { decls[k].path },
                copy: if a.copy is Some { a.copy } else { decls[k].copy },
                ignores: a.ignores,
                rules: decls[k].rules,
            },
        ),
        None => decls.push(Decl { id, path: a.path, copy: a.copy, ignores: a.ignores, rules: Seq::empty() }),
    }
}

/// Appends a rule to the declaration of `id`.
pub open spec fn add_rule(decls: Seq<Decl>, id: char, r: RuleView) -> Seq<Decl> {
    match find_decl(decls, id) {
        Some(k) => decls.update(k, Decl { rules: decls[k].rules.push(r), ..decls[k] }),
        None => decls,
    }
}

/// The effect of one event.
pub open spec fn step(st: ReadState, ev: XmlEventView) -> ReadState {
    if st.stopped {
        st
    } else {
        match ev {
            XmlEventView::Open(name, attrs) => if name_is(name, tileset_word()) {
                let a = tileset_attrs(attrs);
                match a.id {
                    Some(id) => ReadState { current: Some(id), decls: declare(st.decls, id, a), ..st },
                    None => st,
                }
            } else if name_is(name, set_word()) {
                let s = set_attrs(attrs);
                match (st.current, s.mask) {
                    (Some(id), Some(m)) => ReadState {
                        decls: add_rule(st.decls, id, RuleView { mask: m, tiles: s.tiles }),
                        ..st
                    },
                    _ => st,
                }
            } else {
                st
            },
            XmlEventView::Close(name) => if name_is(name, tileset_word()) {
                ReadState { current: None, ..st }
            } else {
                st
            },
            XmlEventView::Eof => ReadState { stopped: true, ..st },
            XmlEventView::Fail => ReadState { stopped: true, failed: true, ..st },
            XmlEventView::Other => st,
        }
    }
}

/// The state after reading `events` in order.
pub open spec fn read_events(events: Seq<XmlEventView>) -> ReadState
    decreases events.len(),
{
    if events.len() == 0 {
        ReadState { current: None, decls: Seq::empty(), stopped: false, failed: false }
    } else {
        step(read_events(events.drop_last()), events.last())
    }
}

/// The rules that `copy` brings: those declared by the copied id itself
/// (one step, not followed further).
pub open spec fn inherited(decls: Seq<Decl>, d: Decl) -> Seq<RuleView> {
    match d.copy {
        Some(c) => match find_decl(decls, c) {
            Some(k) => decls[k].rules,
            None => Seq::empty(),
        },
        None => Seq::empty(),
    }
}

/// The tilesets of a list of declarations: each one with a path, in order of
/// first declaration, with its own rules followed by the inherited ones.
pub open spec fn resolve_decls(decls: Seq<Decl>, all: Seq<Decl>) -> Seq<TilesetView>
    decreases decls.len(),
{
    if decls.len() == 0 {
        Seq::empty()
    } else {
        let rest = resolve_decls(decls.drop_last(), all);
        let d = decls.last();
        match d.path {
            Some(p) => rest.push(
                TilesetView { id: d.id, path: p, ignores: d.ignores, rules: d.rules + inherited(all, d) },
            ),
            None => rest,
        }
    }
}

/// The tilesets that a rule file's events describe; none where the file is
/// malformed.
pub open spec fn tilesets_of(events: Seq<XmlEventView>) -> Seq<TilesetView> {
    let st = read_events(events);
    if st.failed {
        Seq::empty()
    } else {
        resolve_decls(st.decls, st.decls)
    }
}

/// The path map: each declared id with its path, or else the path of the id
/// it copies, in order of first declaration.
pub open spec fn paths_of_decls(decls: Seq<Decl>, all: Seq<Decl>) -> Seq<(char, Seq<char>)>
    decreases decls.len(),
{
    if decls.len() == 0 {
        Seq::empty()
    } else {
        let rest = paths_of_decls(decls.drop_last(), all);
        let d = decls.last();
        match d.path {
            Some(p) => rest.push((d.id, p)),
            None => match d.copy {
                Some(c) => match find_decl(all, c) {
                    Some(k) => match all[k].path {
                        Some(p) => rest.push((d.id, p)),
                        None => rest,
                    },
                    None => rest,
                },
                None => rest,
            },
        }
    }
}

/// The tileset path of every id that a rule file's events declare; none
/// where the file is malformed.
pub open spec fn paths_of(events: Seq<XmlEventView>) -> Seq<(char, Seq<char>)> {
    let st = read_events(events);
    if st.failed {
        Seq::empty()
    } else {
        paths_of_decls(st.decls, st.decls)
    }
}

pub proof fn lemma_find_decl(decls: Seq<Decl>, id: char)
    ensures
        find_decl(decls, id) matches Some(k) ==> 0 <= k < decls.len() && decls[k].id == id && forall|j: int|
            0 <= j < k ==> (#[trigger] decls[j]).id != id,
        find_decl(decls, id) is None ==> forall|j: int| 0 <= j < decls.len() ==> (#[trigger] decls[j]).id != id,
    decreases decls.len(),
{
    if decls.len() > 0 {
        lemma_find_decl(decls.drop_last(), id);
        assert forall|j: int| 0 <= j < decls.len() - 1 implies decls[j] == decls.drop_last()[j] by {}
    }
}

struct DeclBuf {
    id: char,
    path: Option<String>,
    copy: Option<char>,
    ignores: Option<String>,
    rules: Vec<SetRule>,
}

spec fn decl_view(d: DeclBuf) -> Decl {
    Decl {
        id: d.id,
        path: opt_string(d.path),
        copy: d.copy,
        ignores: opt_string(d.ignores),
        rules: rules_view(d.rules@),
    }
}

spec fn decls_view(ds: Seq<DeclBuf>) -> Seq<Decl> {
    ds.map_values(|d: DeclBuf| decl_view(d))
}

fn name_matches(name: &Vec<u8>, word: &[char]) -> (r: bool)
    ensures
        r == name_is(name@, word@),
{
    if name.len() != word.len() {
        return false;
    }
    let mut i: usize = 0;
    while i < name.len()
        invariant
            name@.len() == word@.len(),
            0 <= i <= name@.len(),
            forall|j: int| 0 <= j < i ==> name@[j] as u32 == #[trigger] word@[j] as u32,
        decreases name.len() - i,
    {
        if name[i] as u32 != word[i] as u32 {
            return false;
        }
        i = i + 1;
    }
    true
}

fn copy_string(s: &Option<String>) -> (r: Option<String>)
    ensures
        opt_string(r) == opt_string(*s),
{
    match s {
        Some(t) => Some(t.clone()),
        None => None,
    }
}

fn first_char_of(s: &String) -> (r: Option<char>)
    ensures
        r == first_char(s@),
{
    let v = chars_of(s.as_str());
    if v.len() > 0 {
        Some(v[0])
    } else {
        None
    }
}

fn copy_tiles(v: &Vec<(u32, u32)>) -> (r: Vec<(u32, u32)>)
    ensures
        r@ == v@,
{
    let mut r: Vec<(u32, u32)> = Vec::new();
    let mut i: usize = 0;
    while i < v.len()
        invariant
            0 <= i <= v@.len(),
            r@ == v@.take(i as int),
        decreases v.len() - i,
    {
        r.push(v[i]);
        i = i + 1;
    }
    assert(v@.take(v@.len() as int) == v@);
    r
}

fn copy_rule(r: &SetRule) -> (c: SetRule)
    ensures
        rule_view(c) == rule_view(*r),
{
    SetRule { mask: r.mask.clone(), tiles: copy_tiles(&r.tiles) }
}

fn copy_rules(v: &Vec<SetRule>) -> (r: Vec<SetRule>)
    ensures
        rules_view(r@) == rules_view(v@),
{
    let mut r: Vec<SetRule> = Vec::new();
    let mut i: usize = 0;
    while i < v.len()
        invariant
            0 <= i <= v@.len(),
            rules_view(r@) == rules_view(v@.take(i as int)),
        decreases v.len() - i,
    {
        let c = copy_rule(&v[i]);
        proof {
            assert(rules_view(r@.push(c)) =~= rules_view(r@).push(rule_view(c)));
            assert(v@.take(i + 1) =~= v@.take(i as int).push(v@[i as int]));
            assert(rules_view(v@.take(i + 1)) =~= rules_view(v@.take(i as int)).push(rule_view(v@[i as int])));
        }
        r.push(c);
        i = i + 1;
    }
    assert(v@.take(v@.len() as int) == v@);
    r
}

/// The coordinates of a `tiles` value, as [`parse_tiles`] states.
pub fn parse_tiles_value(v: &str) -> (r: Vec<(u32, u32)>)
    ensures
        r@ == parse_tiles(v@),
{
    let chars = chars_of(v);
    let items = split_chars(&chars, ';');
    let ghost pieces = split(v@, ';');
    assert(items@.map_values(|c: Vec<char>| c@) =~= pieces);
    let mut out: Vec<(u32, u32)> = Vec::new();
    let mut i: usize = 0;
    while i < items.len()
        invariant
            0 <= i <= items@.len(),
            items@.len() == pieces.len(),
            forall|j: int| 0 <= j < items@.len() ==> (#[trigger] items@[j])@ == pieces[j],
            out@ == tile_pairs(pieces.take(i as int)),
        decreases items.len() - i,
    {
        let parts = split_chars(&items[i], ',');
        let ghost item = pieces[i as int];
        proof {
            assert(pieces.take(i + 1).drop_last() =~= pieces.take(i as int));
            assert(pieces.take(i + 1).last() == item);
        }
        if parts.len() == 2 {
            let a = trim_chars(&parts[0]);
            let b = trim_chars(&parts[1]);
            let pa = parse_u32_chars(&a);
            let pb = parse_u32_chars(&b);
            match (pa, pb) {
                (Some(x), Some(y)) => {
                    out.push((x, y));
                },
                _ => {},
            }
        }
        assert(out@ == tile_pairs(pieces.take(i + 1)));
        i = i + 1;
    }
    assert(pieces.take(pieces.len() as int) == pieces);
    out
}

struct TilesetAttrBuf {
    id: Option<char>,
    path: Option<String>,
    copy: Option<char>,
    ignores: Option<String>,
}

fn read_tileset_attrs(attrs: &Vec<XmlAttr>) -> (r: TilesetAttrBuf)
    ensures
        r.id == tileset_attrs(attrs_view(attrs@)).id,
        opt_string(r.path) == tileset_attrs(attrs_view(attrs@)).path,
        r.copy == tileset_attrs(attrs_view(attrs@)).copy,
        opt_string(r.ignores) == tileset_attrs(attrs_view(attrs@)).ignores,
{
    let id_w = ['i', 'd'];
    let path_w = ['p', 'a', 't', 'h'];
    let copy_w = ['c', 'o', 'p', 'y'];
    let ign_w = ['i', 'g', 'n', 'o', 'r', 'e', 's'];
    assert(id_w@ =~= id_word());
    assert(path_w@ =~= path_word());
    assert(copy_w@ =~= copy_word());
    assert(ign_w@ =~= ignores_word());
    let mut r = TilesetAttrBuf { id: None, path: None, copy: None, ignores: None };
    let mut i: usize = 0;
    while i < attrs.len()
        invariant
            0 <= i <= attrs@.len(),
            id_w@ == id_word(),
            path_w@ == path_word(),
            copy_w@ == copy_word(),
            ign_w@ == ignores_word(),
            r.id == tileset_attrs(attrs_view(attrs@).take(i as int)).id,
            opt_string(r.path) == tileset_attrs(attrs_view(attrs@).take(i as int)).path,
            r.copy == tileset_attrs(attrs_view(attrs@).take(i as int)).copy,
            opt_string(r.ignores) == tileset_attrs(attrs_view(attrs@).take(i as int)).ignores,
        decreases attrs.len() - i,
    {
        proof {
            assert(attrs_view(attrs@).take(i + 1).drop_last() =~= attrs_view(attrs@).take(i as int));
            assert(attrs_view(attrs@).take(i + 1).last() == attr_view(attrs@[i as int]));
        }
        let a = &attrs[i];
        match &a.value {
            None => {},
            Some(v) => {
                if name_matches(&a.key, id_w.as_slice()) {
                    r.id = first_char_of(v);
                } else if name_matches(&a.key, path_w.as_slice()) {
                    r.path = Some(v.clone());
                } else if name_matches(&a.key, copy_w.as_slice()) {
                    r.copy = first_char_of(v);
                } else if name_matches(&a.key, ign_w.as_slice()) {
                    r.ignores = Some(v.clone());
                }
            },
        }
        i = i + 1;
    }
    assert(attrs_view(attrs@).take(attrs@.len() as int) =~= attrs_view(attrs@));
    r
}

fn read_set_attrs(attrs: &Vec<XmlAttr>) -> (r: (Option<String>, Vec<(u32, u32)>))
    ensures
        opt_string(r.0) == set_attrs(attrs_view(attrs@)).mask,
        r.1@ == set_attrs(attrs_view(attrs@)).tiles,
{
    let mask_w = ['m', 'a', 's', 'k'];
    let tiles_w = ['t', 'i', 'l', 'e', 's'];
    assert(mask_w@ =~= mask_word());
    assert(tiles_w@ =~= tiles_word());
    let mut mask: Option<String> = None;
    let mut tiles: Vec<(u32, u32)> = Vec::new();
    let mut i: usize = 0;
    while i < attrs.len()
        invariant
            0 <= i <= attrs@.len(),
            mask_w@ == mask_word(),
            tiles_w@ == tiles_word(),
            opt_string(mask) == set_attrs(attrs_view(attrs@).take(i as int)).mask,
            tiles@ == set_attrs(attrs_view(attrs@).take(i as int)).tiles,
        decreases attrs.len() - i,
    {
        proof {
            assert(attrs_view(attrs@).take(i + 1).drop_last() =~= attrs_view(attrs@).take(i as int));
            assert(attrs_view(attrs@).take(i + 1).last() == attr_view(attrs@[i as int]));
        }
        let a = &attrs[i];
        match &a.value {
            None => {},
            Some(v) => {
                if name_matches(&a.key, mask_w.as_slice()) {
                    mask = Some(v.clone());
                } else if name_matches(&a.key, tiles_w.as_slice()) {
                    let more = parse_tiles_value(v.as_str());
                    let ghost before = tiles@;
                    let mut j: usize = 0;
                    while j < more.len()
                        invariant
                            0 <= j <= more@.len(),
                            tiles@ == before + more@.take(j as int),
                        decreases more.len() - j,
                    {
                        tiles.push(more[j]);
                        assert(more@.take(j + 1) =~= more@.take(j as int).push(more@[j as int]));
                        j = j + 1;
                    }
                    assert(more@.take(more@.len() as int) == more@);
                }
            },
        }
        i = i + 1;
    }
    assert(attrs_view(attrs@).take(attrs@.len() as int) =~= attrs_view(attrs@));
    (mask, tiles)
}

fn find_decl_index(decls: &Vec<DeclBuf>, id: char) -> (r: Option<usize>)
    ensures
        r matches Some(k) ==> k < decls@.len() && find_decl(decls_view(decls@), id) == Some(k as int),
        r is None ==> find_decl(decls_view(decls@), id) is None,
{
    let ghost dv = decls_view(decls@);
    proof { lemma_find_decl(dv, id); }
    let mut i: usize = 0;
    while i < decls.len()
        invariant
            0 <= i <= decls@.len(),
            dv == decls_view(decls@),
            dv.len() == decls@.len(),
            forall|j: int| 0 <= j < i ==> (#[trigger] dv[j]).id != id,
            find_decl(dv, id) matches Some(k) ==> 0 <= k < dv.len() && dv[k].id == id && forall|j: int|
                0 <= j < k ==> (#[trigger] dv[j]).id != id,
            find_decl(dv, id) is None ==> forall|j: int| 0 <= j < dv.len() ==> (#[trigger] dv[j]).id != id,
        decreases decls.len() - i,
    {
        assert(dv[i as int] == decl_view(decls@[i as int]));
        if decls[i].id == id {
            return Some(i);
        }
        i = i + 1;
    }
    None
}

fn add_rule_exec(decls: &mut Vec<DeclBuf>, id: char, rule: SetRule)
    ensures
        decls_view(final(decls)@) == add_rule(decls_view(old(decls)@), id, rule_view(rule)),
{
    match find_decl_index(decls, id) {
        Some(k) => {
            let ghost before = decls_view(decls@);
            let d: &mut DeclBuf = &mut decls[k];
            d.rules.push(rule);
            proof {
                assert(rules_view(decls@[k as int].rules@) =~= before[k as int].rules.push(rule_view(rule)));
                assert(decls_view(decls@) =~= before.update(
                    k as int,
                    Decl { rules: before[k as int].rules.push(rule_view(rule)), ..before[k as int] },
                ));
            }
        },
        None => {},
    }
}

fn declare_exec(decls: &mut Vec<DeclBuf>, id: char, a: TilesetAttrBuf)
    ensures
        decls_view(final(decls)@) == declare(
            decls_view(old(decls)@),
            id,
            TilesetAttrs { id: a.id, path: opt_string(a.path), copy: a.copy, ignores: opt_string(a.ignores) },
        ),
{
    let ghost before = decls_view(decls@);
    let ghost av = TilesetAttrs {
        id: a.id,
        path: opt_string(a.path),
        copy: a.copy,
        ignores: opt_string(a.ignores),
    };
    match find_decl_index(decls, id) {
        Some(k) => {
            let d: &mut DeclBuf = &mut decls[k];
            if a.path.is_some() {
                d.path = a.path;
            }
            if a.copy.is_some() {
                d.copy = a.copy;
            }
            d.ignores = a.ignores;
            proof {
                lemma_find_decl(before, id);
                assert(before[k as int].id == id);
                assert(decls_view(decls@) =~= before.update(
                    k as int,
                    Decl {
                        id,
                        path: if av.path is Some { av.path } else { before[k as int].path },
                        copy: if av.copy is Some { av.copy } else { before[k as int].copy },
                        ignores: av.ignores,
                        rules: before[k as int].rules,
                    },
                ));
            }
        },
        None => {
            let d = DeclBuf { id, path: a.path, copy: a.copy, ignores: a.ignores, rules: Vec::new() };
            decls.push(d);
            proof {
                assert(rules_view(Seq::<SetRule>::empty()) =~= Seq::<RuleView>::empty());
                assert(decls_view(decls@) =~= before.push(
                    Decl { id, path: av.path, copy: av.copy, ignores: av.ignores, rules: Seq::empty() },
                ));
            }
        },
    }
}

fn read_decls(events: &Vec<XmlEvent>) -> (r: (Vec<DeclBuf>, bool))
    ensures
        decls_view(r.0@) == read_events(events_view(events@)).decls,
        r.1 == read_events(events_view(events@)).failed,
{
    let tileset_w = ['T', 'i', 'l', 'e', 's', 'e', 't'];
    let set_w = ['s', 'e', 't'];
    assert(tileset_w@ =~= tileset_word());
    assert(set_w@ =~= set_word());
    let mut current: Option<char> = None;
    let mut decls: Vec<DeclBuf> = Vec::new();
    let mut stopped = false;
    let mut failed = false;
    assert(decls_view(decls@) =~= Seq::<Decl>::empty());
    assert(events_view(events@).take(0) =~= Seq::<XmlEventView>::empty());
    let mut i: usize = 0;
    while i < events.len()
        invariant
            0 <= i <= events@.len(),
            tileset_w@ == tileset_word(),
            set_w@ == set_word(),
            read_events(events_view(events@).take(i as int)) == (ReadState {
                current,
                decls: decls_view(decls@),
                stopped,
                failed,
            }),
        decreases events.len() - i,
    {
        proof {
            assert(events_view(events@).take(i + 1).drop_last() =~= events_view(events@).take(i as int));
            assert(events_view(events@).take(i + 1).last() == event_view(events@[i as int]));
        }
        if !stopped {
            match &events[i] {
                XmlEvent::Open(tag) => {
                    if name_matches(&tag.name, tileset_w.as_slice()) {
                        let a = read_tileset_attrs(&tag.attrs);
                        if let Some(id) = a.id {
                            current = Some(id);
                            declare_exec(&mut decls, id, a);
                        }
                    } else if name_matches(&tag.name, set_w.as_slice()) {
                        let (mask, tiles) = read_set_attrs(&tag.attrs);
                        match (current, mask) {
                            (Some(id), Some(m)) => {
                                let rule = SetRule { mask: m, tiles };
                                add_rule_exec(&mut decls, id, rule);
                            },
                            _ => {},
                        }
                    }
                },
                XmlEvent::Close(name) => {
                    if name_matches(name, tileset_w.as_slice()) {
                        current = None;
                    }
                },
                XmlEvent::Eof => {
                    stopped = true;
                },
                XmlEvent::Fail => {
                    stopped = true;
                    failed = true;
                },
                XmlEvent::Other => {},
            }
        }
        i = i + 1;
    }
    assert(events_view(events@).take(events@.len() as int) =~= events_view(events@));
    (decls, failed)
}

pub open spec fn tilesets_view(ts: Seq<Tileset>) -> Seq<TilesetView> {
    ts.map_values(|t: Tileset| tileset_view(t))
}

pub open spec fn paths_view(ps: Seq<(char, String)>) -> Seq<(char, Seq<char>)> {
    ps.map_values(|p: (char, String)| (p.0, p.1@))
}

fn inherited_exec(decls: &Vec<DeclBuf>, d: &DeclBuf, rules: &mut Vec<SetRule>)
    ensures
        rules_view(final(rules)@) == rules_view(old(rules)@) + inherited(decls_view(decls@), decl_view(*d)),
{
    let ghost before = rules_view(rules@);
    if let Some(c) = d.copy {
        if let Some(k) = find_decl_index(decls, c) {
            let src = &decls[k].rules;
            let ghost sv = rules_view(src@);
            assert(decls_view(decls@)[k as int].rules == sv);
            let mut j: usize = 0;
            while j < src.len()
                invariant
                    0 <= j <= src@.len(),
                    sv == rules_view(src@),
                    rules_view(rules@) == before + sv.take(j as int),
                decreases src.len() - j,
            {
                let r = copy_rule(&src[j]);
                proof {
                    assert(rules_view(rules@.push(r)) =~= rules_view(rules@).push(rule_view(r)));
                    assert(sv.take(j + 1) =~= sv.take(j as int).push(sv[j as int]));
                }
                rules.push(r);
                j = j + 1;
            }
            assert(sv.take(sv.len() as int) == sv);
            return;
        }
    }
    assert(before + Seq::<RuleView>::empty() =~= before);
}

/// The tilesets that a rule file's events describe: every id declared with a
/// path, with its own rules followed by the rules declared for the id that
/// its `copy` names; none where the events end in a syntax error.
pub fn tilesets_from_events(events: &Vec<XmlEvent>) -> (r: Vec<Tileset>)
    ensures
        tilesets_view(r@) == tilesets_of(events_view(events@)),
{
    let (decls, failed) = read_decls(events);
    if failed {
        let none: Vec<Tileset> = Vec::new();
        assert(tilesets_view(none@) =~= Seq::<TilesetView>::empty());
        return none;
    }
    let ghost dv = decls_view(decls@);
    let mut out: Vec<Tileset> = Vec::new();
    let mut i: usize = 0;
    assert(tilesets_view(out@) =~= resolve_decls(dv.take(0), dv));
    while i < decls.len()
        invariant
            0 <= i <= decls@.len(),
            dv == decls_view(decls@),
            dv == read_events(events_view(events@)).decls,
            tilesets_view(out@) == resolve_decls(dv.take(i as int), dv),
        decreases decls.len() - i,
    {
        let d = &decls[i];
        proof {
            assert(dv.take(i + 1).drop_last() =~= dv.take(i as int));
            assert(dv.take(i + 1).last() == decl_view(*d));
        }
        if let Some(p) = &d.path {
            let mut rules = copy_rules(&d.rules);
            inherited_exec(&decls, d, &mut rules);
            let t = Tileset { id: d.id, path: p.clone(), ignores: copy_string(&d.ignores), rules };
            proof {
                assert(tilesets_view(out@.push(t)) =~= tilesets_view(out@).push(tileset_view(t)));
            }
            out.push(t);
        }
        i = i + 1;
    }
    assert(dv.take(dv.len() as int) == dv);
    out
}

/// The tileset path of every declared id, as [`paths_of`] states: an id
/// without a path takes the path of the id that its `copy` names.
pub fn tileset_paths_from_events(events: &Vec<XmlEvent>) -> (r: Vec<(char, String)>)
    ensures
        paths_view(r@) == paths_of(events_view(events@)),
{
    let (decls, failed) = read_decls(events);
    if failed {
        let none: Vec<(char, String)> = Vec::new();
        assert(paths_view(none@) =~= Seq::<(char, Seq<char>)>::empty());
        return none;
    }
    let ghost dv = decls_view(decls@);
    let mut out: Vec<(char, String)> = Vec::new();
    let mut i: usize = 0;
    assert(paths_view(out@) =~= paths_of_decls(dv.take(0), dv));
    while i < decls.len()
        invariant
            0 <= i <= decls@.len(),
            dv == decls_view(decls@),
            dv == read_events(events_view(events@)).decls,
            paths_view(out@) == paths_of_decls(dv.take(i as int), dv),
        decreases decls.len() - i,
    {
        let d = &decls[i];
        proof {
            assert(dv.take(i + 1).drop_last() =~= dv.take(i as int));
            assert(dv.take(i + 1).last() == decl_view(*d));
        }
        let ghost before = out@;
        match &d.path {
            Some(p) => {
                out.push((d.id, p.clone()));
            },
            None => {
                if let Some(c) = d.copy {
                    if let Some(k) = find_decl_index(&decls, c) {
                        assert(dv[k as int] == decl_view(decls@[k as int]));
                        if let Some(p) = &decls[k].path {
                            out.push((d.id, p.clone()));
                        }
                    }
                }
            },
        }
        assert(paths_view(out@) =~= paths_of_decls(dv.take(i + 1), dv));
        i = i + 1;
    }
    assert(dv.take(dv.len() as int) == dv);
    out
}

/// The path registered for a tile id: the first entry with that id.
pub fn get_tileset_path_for_id(map: &Vec<(char, String)>, id: char) -> (r: Option<&str>)
    ensures
        r matches Some(s) ==> exists|k: int|
            0 <= k < map@.len() && map@[k].0 == id && s@ == map@[k].1@ && forall|j: int|
                0 <= j < k ==> (#[trigger] map@[j]).0 != id,
        r is None ==> forall|j: int| 0 <= j < map@.len() ==> (#[trigger] map@[j]).0 != id,
{
    let mut i: usize = 0;
    while i < map.len()
        invariant
            0 <= i <= map@.len(),
            forall|j: int| 0 <= j < i ==> (#[trigger] map@[j]).0 != id,
        decreases map.len() - i,
    {
        if map[i].0 == id {
            return Some(map[i].1.as_str());
        }
        i = i + 1;
    }
    None
}

/// The tile coordinate to use for a tile id when nothing better is known:
/// the top-left tile.
pub fn get_first_tile_coords_for_id_or_default(_xml_path: &str, _id: char) -> (r: (u32, u32))
    ensures
        r == (0u32, 0u32),
{
    (0, 0)
}

#[verifier::external_type_specification]
#[verifier::external_body]
#[verifier::reject_recursive_types(R)]
pub struct ExXmlReader<R>(Reader<R>);

#[verifier::external_type_specification]
#[verifier::external_body]
pub struct ExBytesStart<'a>(BytesStart<'a>);

/// The events that quick-xml's reader finds in `xml`, in order, up to and
/// including the end of the document or the first syntax error; each start
/// or empty-element tag with its raw name and its well-formed attributes,
/// each value unescaped where it can be.
pub uninterp spec fn xml_events_of(xml: Seq<char>) -> Seq<XmlEventView>;

/// The events that a reader has yet to give, in the same form.
pub uninterp spec fn events_left(reader: Reader<&[u8]>) -> Seq<XmlEventView>;

/// Relies on quick_xml's `Reader::from_str`: a reader at the start of `xml`,
/// which gives the document's events one by one and ends with exactly one
/// end-of-document or syntax-error event.
#[verifier::external_body]
fn xml_reader<'a>(xml: &'a str) -> (r: Reader<&'a [u8]>)
    ensures
        events_left(r) == xml_events_of(xml@),
        events_left(r).len() > 0,
        is_last_event(events_left(r).last()),
        forall|i: int| 0 <= i < events_left(r).len() - 1 ==> !is_last_event(#[trigger] events_left(r)[i]),
{
    Reader::from_str(xml)
}

/// Relies on quick_xml's `BytesStart::name`, `BytesStart::attributes` and
/// `Attribute::unescape_value`: the tag's raw name and its well-formed
/// attributes in order, each value unescaped where it can be.
#[verifier::external_body]
fn xml_tag(e: &BytesStart) -> XmlTag {
    XmlTag {
        name: e.name().as_ref().to_vec(),
        attrs: e.attributes().flatten().map(
            |a| XmlAttr { key: a.key.as_ref().to_vec(), value: a.unescape_value().ok().map(|v| v.into_owned()) },
        ).collect(),
    }
}

/// Relies on quick_xml's `Reader::read_event`: the next event of the document.
#[verifier::external_body]
fn next_xml_event(reader: &mut Reader<&[u8]>) -> (r: XmlEvent)
    requires
        events_left(*old(reader)).len() > 0,
    ensures
        event_view(r) == events_left(*old(reader))[0],
        events_left(*final(reader)) == events_left(*old(reader)).drop_first(),
{
    match reader.read_event() {
        Ok(Event::Start(e)) => XmlEvent::Open(xml_tag(&e)),
        Ok(Event::Empty(e)) => XmlEvent::Open(xml_tag(&e)),
        Ok(Event::End(e)) => XmlEvent::Close(e.name().as_ref().to_vec()),
        Ok(Event::Eof) => XmlEvent::Eof,
        Ok(_) => XmlEvent::Other,
        Err(_) => XmlEvent::Fail,
    }
}

/// The events of an XML document, up to its end or its first syntax error.
pub fn read_xml_events(xml: &str) -> (r: Vec<XmlEvent>)
    ensures
        events_view(r@) == xml_events_of(xml@),
{
    let mut reader = xml_reader(xml);
    let ghost all = xml_events_of(xml@);
    let mut events: Vec<XmlEvent> = Vec::new();
    assert(events_view(events@) + events_left(reader) =~= all);
    loop
        invariant_except_break
            events_left(reader).len() > 0,
        invariant
            all == xml_events_of(xml@),
            all.len() > 0,
            is_last_event(all.last()),
            forall|i: int| 0 <= i < all.len() - 1 ==> !is_last_event(#[trigger] all[i]),
            events_view(events@) + events_left(reader) == all,
        ensures
            events_view(events@) == all,
        decreases events_left(reader).len(),
    {
        let ghost before = events_view(events@);
        let ghost left = events_left(reader);
        let ev = next_xml_event(&mut reader);
        let last = matches!(ev, XmlEvent::Eof | XmlEvent::Fail);
        proof {
            assert(events_view(events@.push(ev)) =~= before.push(event_view(ev)));
            assert(before.push(event_view(ev)) + left.drop_first() =~= before + left);
            assert(all[before.len() as int] == event_view(ev));
        }
        events.push(ev);
        if last {
            assert(is_last_event(all[before.len() as int]));
            assert(before.len() == all.len() - 1);
            assert(events_view(events@) =~= all);
            break;
        }
        assert(left.len() > 1) by {
            if left.len() == 1 {
                assert(before.len() == all.len() - 1);
            }
        }
    }
    events
}

/// The tilesets of a rule file's text: what [`tilesets_from_events`] makes
/// of the events that the XML reader finds in it.
pub fn parse_tilesets_with_rules(xml: &str) -> (r: Vec<Tileset>)
    ensures
        tilesets_view(r@) == tilesets_of(xml_events_of(xml@)),
{
    let events = read_xml_events(xml);
    tilesets_from_events(&events)
}

/// The id-to-path map of a rule file's text: what
/// [`tileset_paths_from_events`] makes of the events that the XML reader
/// finds in it.
pub fn parse_tileset_id_path_map(xml: &str) -> (r: Vec<(char, String)>)
    ensures
        paths_view(r@) == paths_of(xml_events_of(xml@)),
{
    let events = read_xml_events(xml);
    tileset_paths_from_events(&events)
}

} // verus!
