use vstd::prelude::*;
use crate::autotile::{autotile, explicit_choice, first_with_mask, resolve, window, orthogonal_air};
use crate::tile_xml::{
    add_rule, declare, find_decl, inherited, lemma_find_decl, read_events, resolve_decls, rule_view,
    rules_view, step, tilesets_of, tilesets_view, Decl, ReadState, TilesetAttrs, TilesetView, XmlEventView,
};
use crate::tileset::{find_tileset, ignores_view, SetRule, Tileset};

verus! {

/// No two declarations share an id.
pub open spec fn ids_distinct(decls: Seq<Decl>) -> bool {
    forall|i: int, j: int| 0 <= i < j < decls.len() ==> (#[trigger] decls[i]).id != (#[trigger] decls[j]).id
}

proof fn lemma_declare_keeps_ids_distinct(decls: Seq<Decl>, id: char, t: TilesetAttrs)
    requires
        ids_distinct(decls),
    ensures
        ids_distinct(declare(decls, id, t)),
{
    lemma_find_decl(decls, id);
    let d2 = declare(decls, id, t);
    match find_decl(decls, id) {
        Some(k) => {
            assert forall|i: int, j: int| 0 <= i < j < d2.len() implies (#[trigger] d2[i]).id != (
            #[trigger] d2[j]).id by {
                assert(d2[i].id == decls[i].id);
                assert(d2[j].id == decls[j].id);
            }
        },
        None => {
            assert forall|i: int, j: int| 0 <= i < j < d2.len() implies (#[trigger] d2[i]).id != (
            #[trigger] d2[j]).id by {
                if j < decls.len() {
                    assert(decls[i].id != decls[j].id);
                } else {
                    assert(d2[i] == decls[i]);
                }
            }
        },
    }
}

proof fn lemma_step_keeps_ids_distinct(st: ReadState, ev: XmlEventView)
    requires
        ids_distinct(st.decls),
    ensures
        ids_distinct(step(st, ev).decls),
{
    if !st.stopped {
        match ev {
            XmlEventView::Open(name, attrs) => {
                let t = crate::tile_xml::tileset_attrs(attrs);
                if let Some(id) = t.id {
                    lemma_find_decl(st.decls, id);
                    lemma_declare_keeps_ids_distinct(st.decls, id, t);
                }
                let s = crate::tile_xml::set_attrs(attrs);
                if let (Some(id), Some(m)) = (st.current, s.mask) {
                    lemma_find_decl(st.decls, id);
                    let d2 = add_rule(st.decls, id, crate::tile_xml::RuleView { mask: m, tiles: s.tiles });
                    assert forall|i: int, j: int| 0 <= i < j < d2.len() implies (#[trigger] d2[i]).id != (
                    #[trigger] d2[j]).id by {
                        assert(st.decls[i].id != st.decls[j].id);
                    }
                }
            },
            _ => {},
        }
    }
}

/// Reading keeps one declaration per id.
pub proof fn lemma_read_events_ids_distinct(events: Seq<XmlEventView>)
    ensures
        ids_distinct(read_events(events).decls),
    decreases events.len(),
{
    if events.len() > 0 {
        lemma_read_events_ids_distinct(events.drop_last());
        lemma_step_keeps_ids_distinct(read_events(events.drop_last()), events.last());
    }
}

/// Each tileset comes from one declaration with a path.
proof fn lemma_resolved_from_decl(ds: Seq<Decl>, all: Seq<Decl>, j: int)
    requires
        0 <= j < resolve_decls(ds, all).len(),
    ensures
        exists|m: int|
            0 <= m < ds.len() && (#[trigger] ds[m]).path is Some && resolve_decls(ds, all)[j] == (
            TilesetView {
                id: ds[m].id,
                path: ds[m].path->0,
                ignores: ds[m].ignores,
                rules: ds[m].rules + inherited(all, ds[m]),
            }),
    decreases ds.len(),
{
    let rest = resolve_decls(ds.drop_last(), all);
    if j < rest.len() {
        lemma_resolved_from_decl(ds.drop_last(), all, j);
        let m = choose|m: int|
            0 <= m < ds.drop_last().len() && (#[trigger] ds.drop_last()[m]).path is Some
                && rest[j] == (TilesetView {
                id: ds.drop_last()[m].id,
                path: ds.drop_last()[m].path->0,
                ignores: ds.drop_last()[m].ignores,
                rules: ds.drop_last()[m].rules + inherited(all, ds.drop_last()[m]),
            });
        assert(ds[m] == ds.drop_last()[m]);
    } else {
        assert(ds.last() == ds[ds.len() - 1]);
    }
}

/// A tile type that copies `a` and declares no rules of its own gets exactly
/// the rules declared for `a`, where `a` copies nothing (inheritance takes one
/// step) and both have the same `ignores`.
pub proof fn lemma_copy_without_sets_gets_base_rules(
    events: Seq<XmlEventView>,
    a: char,
    b: char,
    i: int,
    j: int,
)
    requires
        find_decl(read_events(events).decls, b) matches Some(m) && read_events(events).decls[m].copy == Some(a)
            && read_events(events).decls[m].rules.len() == 0,
        find_decl(read_events(events).decls, a) matches Some(k) && read_events(events).decls[k].copy is None,
        read_events(events).decls[find_decl(read_events(events).decls, a)->0].ignores
            == read_events(events).decls[find_decl(read_events(events).decls, b)->0].ignores,
        0 <= i < tilesets_of(events).len() && tilesets_of(events)[i].id == a,
        0 <= j < tilesets_of(events).len() && tilesets_of(events)[j].id == b,
    ensures
        tilesets_of(events)[j].rules == tilesets_of(events)[i].rules,
        tilesets_of(events)[j].ignores == tilesets_of(events)[i].ignores,
{
    let ds = read_events(events).decls;
    lemma_read_events_ids_distinct(events);
    lemma_find_decl(ds, a);
    lemma_find_decl(ds, b);
    let k = find_decl(ds, a)->0;
    let m = find_decl(ds, b)->0;
    lemma_resolved_from_decl(ds, ds, i);
    lemma_resolved_from_decl(ds, ds, j);
    let mi = choose|mi: int|
        0 <= mi < ds.len() && (#[trigger] ds[mi]).path is Some && resolve_decls(ds, ds)[i] == (TilesetView {
            id: ds[mi].id,
            path: ds[mi].path->0,
            ignores: ds[mi].ignores,
            rules: ds[mi].rules + inherited(ds, ds[mi]),
        });
    let mj = choose|mj: int|
        0 <= mj < ds.len() && (#[trigger] ds[mj]).path is Some && resolve_decls(ds, ds)[j] == (TilesetView {
            id: ds[mj].id,
            path: ds[mj].path->0,
            ignores: ds[mj].ignores,
            rules: ds[mj].rules + inherited(ds, ds[mj]),
        });
    if mi != k {
        assert(ds[mi].id != ds[k].id);
    }
    if mj != m {
        assert(ds[mj].id != ds[m].id);
    }
    assert(ds[k].rules + Seq::<crate::tile_xml::RuleView>::empty() =~= ds[k].rules);
    assert(Seq::<crate::tile_xml::RuleView>::empty() + ds[k].rules =~= ds[k].rules);
}

proof fn lemma_explicit_by_view(
    r1: Seq<SetRule>,
    r2: Seq<SetRule>,
    i: int,
    at: spec_fn(int, int) -> char,
    solid: spec_fn(char) -> bool,
    ign: Option<Seq<char>>,
    x: int,
    y: int,
)
    requires
        rules_view(r1) == rules_view(r2),
        0 <= i,
    ensures
        explicit_choice(r1, i, at, solid, ign, x, y) == explicit_choice(r2, i, at, solid, ign, x, y),
    decreases r1.len() - i,
{
    assert(r1.len() == rules_view(r1).len());
    if i < r1.len() {
        assert(rules_view(r1)[i] == rule_view(r1[i]));
        assert(rules_view(r2)[i] == rule_view(r2[i]));
        lemma_explicit_by_view(r1, r2, i + 1, at, solid, ign, x, y);
    }
}

proof fn lemma_first_mask_by_view(r1: Seq<SetRule>, r2: Seq<SetRule>, mask: Seq<char>, i: int)
    requires
        rules_view(r1) == rules_view(r2),
        0 <= i,
    ensures
        first_with_mask(r1, mask, i) == first_with_mask(r2, mask, i),
        first_with_mask(r1, mask, i) matches Some(k) ==> 0 <= k < r1.len() && r1[k].tiles@ == r2[k].tiles@,
    decreases r1.len() - i,
{
    assert(r1.len() == rules_view(r1).len());
    if i < r1.len() {
        assert(rules_view(r1)[i] == rule_view(r1[i]));
        assert(rules_view(r2)[i] == rule_view(r2[i]));
        lemma_first_mask_by_view(r1, r2, mask, i + 1);
    }
}

/// Rule lists that hold the same masks and candidates resolve alike.
pub proof fn lemma_resolve_by_view(
    r1: Seq<SetRule>,
    r2: Seq<SetRule>,
    at: spec_fn(int, int) -> char,
    solid: spec_fn(char) -> bool,
    ign: Option<Seq<char>>,
    air: bool,
    x: int,
    y: int,
)
    requires
        rules_view(r1) == rules_view(r2),
    ensures
        resolve(r1, at, solid, ign, air, x, y) == resolve(r2, at, solid, ign, air, x, y),
{
    lemma_explicit_by_view(r1, r2, 0, at, solid, ign, x, y);
    lemma_first_mask_by_view(r1, r2, crate::autotile::padding_mask(), 0);
    lemma_first_mask_by_view(r1, r2, crate::autotile::center_mask(), 0);
}

/// A tile type `b` declared with `copy="a"` and no `<set>` rules of its own
/// is drawn exactly like `a` at every position of every grid, where `a`
/// copies nothing (inheritance takes one step) and both have the same
/// `ignores`.
pub proof fn lemma_copy_without_sets_draws_like_base(
    events: Seq<XmlEventView>,
    sets: Seq<Tileset>,
    a: char,
    b: char,
    grid: Seq<Vec<char>>,
    x: int,
    y: int,
    solid: spec_fn(char) -> bool,
)
    requires
        tilesets_view(sets) == tilesets_of(events),
        find_decl(read_events(events).decls, b) matches Some(m) && read_events(events).decls[m].copy == Some(a)
            && read_events(events).decls[m].rules.len() == 0,
        find_decl(read_events(events).decls, a) matches Some(k) && read_events(events).decls[k].copy is None,
        read_events(events).decls[find_decl(read_events(events).decls, a)->0].ignores
            == read_events(events).decls[find_decl(read_events(events).decls, b)->0].ignores,
        find_tileset(sets, a) is Some,
        find_tileset(sets, b) is Some,
    ensures
        autotile(b, grid, x, y, sets, solid) == autotile(a, grid, x, y, sets, solid),
{
    let i = find_tileset(sets, a)->0;
    let j = find_tileset(sets, b)->0;
    crate::tileset::lemma_find_tileset(sets, a);
    crate::tileset::lemma_find_tileset(sets, b);
    assert(tilesets_view(sets)[i] == crate::tile_xml::tileset_view(sets[i]));
    assert(tilesets_view(sets)[j] == crate::tile_xml::tileset_view(sets[j]));
    lemma_copy_without_sets_gets_base_rules(events, a, b, i, j);
    lemma_resolve_by_view(
        sets[j].rules@,
        sets[i].rules@,
        window(grid, x, y),
        solid,
        ignores_view(sets[i]),
        orthogonal_air(grid, x, y, solid),
        x,
        y,
    );
}

/// Every tileset that a rule file gives holds the rules declared for its id,
/// in document order, followed by the rules declared for the id its `copy`
/// names (one step: what that id itself copies is not added), and the
/// `ignores` declared for its id.
pub proof fn lemma_tileset_rules_are_own_then_copied(events: Seq<XmlEventView>, j: int)
    requires
        !read_events(events).failed,
        0 <= j < tilesets_of(events).len(),
    ensures
        find_decl(read_events(events).decls, tilesets_of(events)[j].id) matches Some(m) && tilesets_of(
            events,
        )[j].rules == read_events(events).decls[m].rules + inherited(
            read_events(events).decls,
            read_events(events).decls[m],
        ) && tilesets_of(events)[j].ignores == read_events(events).decls[m].ignores,
{
    let ds = read_events(events).decls;
    let b = tilesets_of(events)[j].id;
    lemma_read_events_ids_distinct(events);
    lemma_find_decl(ds, b);
    lemma_resolved_from_decl(ds, ds, j);
    let mj = choose|mj: int|
        0 <= mj < ds.len() && (#[trigger] ds[mj]).path is Some && resolve_decls(ds, ds)[j] == (TilesetView {
            id: ds[mj].id,
            path: ds[mj].path->0,
            ignores: ds[mj].ignores,
            rules: ds[mj].rules + inherited(ds, ds[mj]),
        });
    match find_decl(ds, b) {
        Some(m) => {
            if mj != m {
                assert(ds[mj].id != ds[m].id);
            }
        },
        None => {
            assert(ds[mj].id != b);
        },
    }
}

/// Where `b` copies `a` and `a` copies nothing, `b` gets its own rules
/// followed by those declared for `a`, and `a` gets its own rules only.
pub proof fn lemma_copy_appends_base_rules(events: Seq<XmlEventView>, a: char, b: char, i: int, j: int)
    requires
        !read_events(events).failed,
        0 <= i < tilesets_of(events).len() && tilesets_of(events)[i].id == a,
        0 <= j < tilesets_of(events).len() && tilesets_of(events)[j].id == b,
        find_decl(read_events(events).decls, b) matches Some(m) && read_events(events).decls[m].copy == Some(a),
        find_decl(read_events(events).decls, a) matches Some(k) && read_events(events).decls[k].copy is None,
    ensures
        tilesets_of(events)[j].rules == read_events(events).decls[find_decl(read_events(events).decls, b)->0].rules
            + read_events(events).decls[find_decl(read_events(events).decls, a)->0].rules,
        tilesets_of(events)[i].rules == read_events(events).decls[find_decl(read_events(events).decls, a)->0].rules,
{
    let ds = read_events(events).decls;
    lemma_tileset_rules_are_own_then_copied(events, i);
    lemma_tileset_rules_are_own_then_copied(events, j);
    let k = find_decl(ds, a)->0;
    assert(ds[k].rules + Seq::<crate::tile_xml::RuleView>::empty() =~= ds[k].rules);
}

proof fn lemma_resolved_ids_distinct(ds: Seq<Decl>, all: Seq<Decl>)
    requires
        ids_distinct(ds),
    ensures
        forall|i: int, j: int|
            0 <= i < j < resolve_decls(ds, all).len() ==> (#[trigger] resolve_decls(ds, all)[i]).id != (
            #[trigger] resolve_decls(ds, all)[j]).id,
    decreases ds.len(),
{
    if ds.len() > 0 {
        let front = ds.drop_last();
        assert forall|i: int, j: int| 0 <= i < j < front.len() implies (#[trigger] front[i]).id != (
        #[trigger] front[j]).id by {
            assert(front[i] == ds[i] && front[j] == ds[j]);
        }
        lemma_resolved_ids_distinct(front, all);
        let rest = resolve_decls(front, all);
        let r = resolve_decls(ds, all);
        if ds.last().path is Some {
            assert forall|i: int, j: int| 0 <= i < j < r.len() implies (#[trigger] r[i]).id != (#[trigger] r[j]).id by {
                if j == r.len() - 1 {
                    lemma_resolved_from_decl(front, all, i);
                    let m = choose|m: int|
                        0 <= m < front.len() && (#[trigger] front[m]).path is Some && rest[i] == (TilesetView {
                            id: front[m].id,
                            path: front[m].path->0,
                            ignores: front[m].ignores,
                            rules: front[m].rules + inherited(all, front[m]),
                        });
                    assert(front[m] == ds[m]);
                    assert(ds[m].id != ds[ds.len() - 1].id);
                } else {
                    assert(r[i] == rest[i] && r[j] == rest[j]);
                }
            }
        }
    }
}

/// A rule file gives at most one tileset per id.
pub proof fn lemma_tileset_ids_distinct(events: Seq<XmlEventView>)
    ensures
        forall|i: int, j: int|
            0 <= i < j < tilesets_of(events).len() ==> (#[trigger] tilesets_of(events)[i]).id != (
            #[trigger] tilesets_of(events)[j]).id,
{
    lemma_read_events_ids_distinct(events);
    let ds = read_events(events).decls;
    lemma_resolved_ids_distinct(ds, ds);
}

} // verus!
