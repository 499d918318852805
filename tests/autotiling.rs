use summit::autotile::{autotile_tile_coord, compute_autotile_coords, get_neighborhood, has_orthogonal_air, mask_matches, variant_index, OUT_OF_BOUNDS};
use summit::tile_xml::{get_first_tile_coords_for_id_or_default, parse_tilesets_with_rules};
use summit::tileset::{get_tileset_for_id, SetRule, Tileset};
use summit::tiles::is_solid_tile;

fn grid(rows: &[&str]) -> Vec<Vec<char>> {
    rows.iter().map(|r| r.chars().collect()).collect()
}

fn rule(mask: &str, tiles: &[(u32, u32)]) -> SetRule {
    SetRule { mask: mask.to_string(), tiles: tiles.to_vec() }
}

fn tileset(id: char, rules: Vec<SetRule>) -> Tileset {
    Tileset { id, path: format!("set_{}", id), ignores: None, rules }
}

fn solid(c: char) -> bool {
    c != '0'
}

#[test]
fn neighborhood_marks_cells_outside_the_grid() {
    let g = grid(&["12", "34"]);
    let n = get_neighborhood(&g, 0, 0);
    assert_eq!(n[0], [OUT_OF_BOUNDS; 3]);
    assert_eq!(n[1], [OUT_OF_BOUNDS, '1', '2']);
    assert_eq!(n[2], [OUT_OF_BOUNDS, '3', '4']);
}

#[test]
fn neighborhood_handles_ragged_rows() {
    let g = grid(&["111", "1", "111"]);
    let n = get_neighborhood(&g, 1, 1);
    assert_eq!(n[1], ['1', OUT_OF_BOUNDS, OUT_OF_BOUNDS]);
    assert_eq!(n[0], ['1', '1', '1']);
}

#[test]
fn explicit_mask_matches_air_and_solid() {
    let g = grid(&["000", "111", "111"]);
    let n = get_neighborhood(&g, 1, 1);
    assert!(mask_matches(&n, "000-111-111", &solid, None));
    assert!(mask_matches(&n, "x0x-111-x1x", &solid, None));
    assert!(!mask_matches(&n, "111-111-111", &solid, None));
    assert!(!mask_matches(&n, "000-111", &solid, None));
    assert!(!mask_matches(&n, "0000-111-111", &solid, None));
}

#[test]
fn ignored_characters_count_as_air() {
    let g = grid(&["222", "111", "111"]);
    let n = get_neighborhood(&g, 1, 1);
    assert!(!mask_matches(&n, "000-111-111", &solid, None));
    assert!(mask_matches(&n, "000-111-111", &solid, Some("2")));
    assert!(!mask_matches(&n, "111-111-111", &solid, Some("2")));
}

#[test]
fn center_and_padding_need_a_solid_block() {
    let g = grid(&["111", "111", "110"]);
    let n = get_neighborhood(&g, 1, 1);
    assert!(!mask_matches(&n, "center", &solid, None));
    assert!(!mask_matches(&n, "padding", &solid, None));
    let full = grid(&["111", "111", "111"]);
    let m = get_neighborhood(&full, 1, 1);
    assert!(mask_matches(&m, "center", &solid, None));
    assert!(mask_matches(&m, "padding", &solid, None));
}

#[test]
fn orthogonal_air_two_steps_away() {
    let g = grid(&["11111", "11111", "01111", "11111", "11111"]);
    assert!(has_orthogonal_air(&g, 2, 2, &solid));
    assert!(!has_orthogonal_air(&g, 2, 1, &solid));
    let edge = grid(&["11", "11"]);
    assert!(!has_orthogonal_air(&edge, 0, 0, &solid));
}

#[test]
fn unknown_tile_type_gives_none() {
    let sets = vec![tileset('1', vec![rule("000-000-000", &[(5, 5)])])];
    let g = grid(&["111", "111", "111"]);
    assert_eq!(autotile_tile_coord('Z', &g, 1, 1, &sets, &solid), None);
    assert_eq!(autotile_tile_coord('1', &g, 1, 1, &sets, &solid), Some((0, 0)));
}

#[test]
fn explicit_mask_wins_over_padding_and_center() {
    let sets = vec![tileset(
        '1',
        vec![rule("padding", &[(2, 2)]), rule("center", &[(3, 3)]), rule("111-111-111", &[(1, 1)])],
    )];
    let g = grid(&["11111", "11111", "01111", "11111", "11111"]);
    assert_eq!(autotile_tile_coord('1', &g, 2, 2, &sets, &solid), Some((1, 1)));
}

#[test]
fn padding_comes_before_center() {
    let sets = vec![tileset('1', vec![rule("center", &[(3, 3)]), rule("padding", &[(2, 2)])])];
    let g = grid(&["11111", "11111", "01111", "11111", "11111"]);
    assert_eq!(autotile_tile_coord('1', &g, 2, 2, &sets, &solid), Some((2, 2)));
    assert_eq!(autotile_tile_coord('1', &g, 3, 1, &sets, &solid), Some((3, 3)));
}

#[test]
fn empty_padding_falls_through_to_center() {
    let sets = vec![tileset('1', vec![rule("padding", &[]), rule("center", &[(3, 3)])])];
    let g = grid(&["11111", "11111", "01111", "11111", "11111"]);
    assert_eq!(autotile_tile_coord('1', &g, 2, 2, &sets, &solid), Some((3, 3)));
}

#[test]
fn out_of_bounds_counts_as_solid_at_a_corner() {
    let sets = vec![tileset('1', vec![rule("111-111-111", &[(1, 1)])])];
    let g = grid(&["11", "11"]);
    assert_eq!(autotile_tile_coord('1', &g, 0, 0, &sets, &solid), Some((1, 1)));
    let holes = grid(&["10", "11"]);
    assert_eq!(autotile_tile_coord('1', &holes, 0, 0, &sets, &solid), Some((0, 0)));
}

#[test]
fn out_of_bounds_never_matches_air() {
    let sets = vec![tileset('1', vec![rule("000-x1x-xxx", &[(7, 7)])])];
    let g = grid(&["1"]);
    assert_eq!(autotile_tile_coord('1', &g, 0, 0, &sets, &solid), Some((0, 0)));
}

#[test]
fn candidate_index_is_position_hash() {
    assert_eq!(variant_index(3, 5, 4), 2);
    assert_eq!(variant_index(0, 0, 7), 0);
    assert_eq!(variant_index(10, 1, 6), (10 * 31 + 17) % 6);
    let sets = vec![tileset('1', vec![rule("xxx-x1x-xxx", &[(0, 0), (1, 0), (2, 0), (3, 0)])])];
    let g = grid(&["111111", "111111", "111111", "111111", "111111", "111111"]);
    assert_eq!(autotile_tile_coord('1', &g, 3, 5, &sets, &solid), Some((2, 0)));
    assert_eq!(autotile_tile_coord('1', &g, 3, 5, &sets, &solid), Some((2, 0)));
}

#[test]
fn autotile_is_repeatable_and_depends_on_contents_only() {
    let sets = vec![tileset('1', vec![rule("x0x-111-x1x", &[(4, 0), (5, 0), (6, 0)]), rule("center", &[(3, 3)])])];
    let g1 = grid(&["000", "111", "111"]);
    let g2 = grid(&["000", "111", "111"]);
    let a = autotile_tile_coord('1', &g1, 1, 1, &sets, &solid);
    let b = autotile_tile_coord('1', &g1, 1, 1, &sets, &solid);
    let c = autotile_tile_coord('1', &g2, 1, 1, &sets, &solid);
    assert_eq!(a, b);
    assert_eq!(a, c);
    assert_eq!(a, Some((4, 0)));
}

#[test]
fn copied_tileset_draws_like_its_base() {
    let xml = r#"<Data>
  <Tileset id="a" path="dirt" ignores="c">
    <set mask="111-111-111" tiles="1,1"/>
    <set mask="x0x-111-x1x" tiles="4,0;5,0"/>
    <set mask="padding" tiles="2,2"/>
    <set mask="center" tiles="3,3"/>
  </Tileset>
  <Tileset id="b" path="dirt2" copy="a" ignores="c"/>
</Data>"#;
    let sets = parse_tilesets_with_rules(xml);
    let g = grid(&["0000000", "0aaaaa0", "0abbba0", "0abbba0", "0aaaaa0", "0000000"]);
    for y in 0..g.len() {
        for x in 0..g[y].len() {
            assert_eq!(
                autotile_tile_coord('b', &g, x, y, &sets, &solid),
                autotile_tile_coord('a', &g, x, y, &sets, &solid)
            );
        }
    }
}

#[test]
fn tileset_lookup_by_id() {
    let sets = vec![tileset('1', vec![]), tileset('2', vec![rule("center", &[(1, 2)])])];
    assert_eq!(get_tileset_for_id(&sets, '2').map(|t| t.rules.len()), Some(1));
    assert!(get_tileset_for_id(&sets, '3').is_none());
}

#[test]
fn default_tile_coordinate_is_top_left() {
    assert_eq!(get_first_tile_coords_for_id_or_default("ForegroundTiles.xml", 'q'), (0, 0));
}

#[test]
fn foreground_solidity() {
    assert!(!is_solid_tile('0'));
    assert!(is_solid_tile('1'));
    assert!(is_solid_tile('z'));
}

#[test]
fn whole_grid_coordinates_match_cell_by_cell() {
    let sets = vec![tileset('1', vec![rule("x0x-111-x1x", &[(4, 0), (5, 0)]), rule("center", &[(3, 3)])])];
    let g = grid(&["000", "111", "1111", "0"]);
    let coords = compute_autotile_coords(&g, &sets, &solid);
    assert_eq!(coords.len(), 4);
    for y in 0..g.len() {
        assert_eq!(coords[y].len(), g[y].len());
        for x in 0..g[y].len() {
            assert_eq!(coords[y][x], autotile_tile_coord(g[y][x], &g, x, y, &sets, &solid));
        }
    }
    assert_eq!(coords[0][0], None);
    assert_eq!(coords[1][1], Some((4, 0)));
}
