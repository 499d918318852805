use summit::assets::CelesteAssets;
use summit::level::{
    cache_rooms, extract_level_data, extract_level_names, get_current_level, get_solids_data, lines_of,
    place_block_in_level, remove_block_in_level, update_solids_data, AttrValue, TaggedNode,
};
use summit::rule_cache::RuleCache;
use summit::tile_neighbors::TileNeighbors;
use summit::tile_xml::{
    read_xml_events, XmlEvent, get_tileset_path_for_id, parse_tiles_value, parse_tileset_id_path_map, parse_tilesets_with_rules,
};
use summit::tiles::normalize_decal_path;

const RULES: &str = r#"<?xml version="1.0" encoding="utf-8"?>
<Data>
  <Tileset id="1" path="dirt" ignores="3">
    <set mask="x0x-111-x1x" tiles=" 0 , 1 ;2,1; bad ;4,x"/>
    <set mask="center" tiles="1,2"/>
  </Tileset>
  <Tileset id="3" path="snow" copy="1">
    <set mask="padding" tiles="5,5"/>
  </Tileset>
  <Tileset id="4" copy="3"/>
  <Tileset id="5" path="girder" copy="4"/>
</Data>"#;

fn node(name: &str, attrs: Vec<(&str, AttrValue)>, children: Vec<TaggedNode>, text: Option<&str>) -> TaggedNode {
    TaggedNode {
        name: name.to_string(),
        attributes: attrs.into_iter().map(|(k, v)| (k.to_string(), v)).collect(),
        children,
        inner_text: text.map(|t| t.to_string()),
    }
}

fn map_tree() -> TaggedNode {
    let solids = node(
        "solids",
        vec![("offsetX", AttrValue::Int(1)), ("offsetY", AttrValue::Int(0))],
        vec![],
        Some("110\r\n011\n"),
    );
    let bg = node("bg", vec![], vec![], Some("22"));
    let a = node(
        "level",
        vec![
            ("name", AttrValue::Str("a-00".to_string())),
            ("x", AttrValue::Int(0)),
            ("y", AttrValue::Int(16)),
            ("width", AttrValue::Int(40)),
            ("height", AttrValue::Int(24)),
        ],
        vec![solids, bg],
        None,
    );
    let b = node("level", vec![("name", AttrValue::Str("b-01".to_string())), ("x", AttrValue::Float("1.5".to_string()))], vec![], None);
    let c = node("level", vec![("x", AttrValue::Int(8)), ("y", AttrValue::Int(8))], vec![], None);
    let filler = node("Filler", vec![], vec![], None);
    let levels = node("levels", vec![], vec![a, b, c], None);
    node("Map", vec![("package", AttrValue::Str("x".to_string()))], vec![filler, levels], None)
}

#[test]
fn rules_parse_with_inheritance() {
    let sets = parse_tilesets_with_rules(RULES);
    let ids: Vec<char> = sets.iter().map(|t| t.id).collect();
    assert_eq!(ids, vec!['1', '3', '5']);
    let one = &sets[0];
    assert_eq!(one.path, "dirt");
    assert_eq!(one.ignores.as_deref(), Some("3"));
    assert_eq!(one.rules.len(), 2);
    assert_eq!(one.rules[0].tiles, vec![(0, 1), (2, 1)]);
    let three = &sets[1];
    let masks: Vec<&str> = three.rules.iter().map(|r| r.mask.as_str()).collect();
    assert_eq!(masks, vec!["padding", "x0x-111-x1x", "center"]);
    assert_eq!(three.ignores, None);
    let five = &sets[2];
    assert!(five.rules.is_empty());
}

#[test]
fn malformed_rules_give_nothing() {
    assert!(parse_tilesets_with_rules("<Data><Tileset id=\"1\" path=\"a\"></Wrong></Data>").is_empty());
    assert!(parse_tilesets_with_rules("").is_empty());
    assert!(parse_tileset_id_path_map("<Data><Tileset id=\"1\" path=\"a\"></Wrong>").is_empty());
}

#[test]
fn path_map_takes_copied_paths() {
    let map = parse_tileset_id_path_map(RULES);
    assert_eq!(get_tileset_path_for_id(&map, '1'), Some("dirt"));
    assert_eq!(get_tileset_path_for_id(&map, '4'), Some("snow"));
    assert_eq!(get_tileset_path_for_id(&map, '5'), Some("girder"));
    assert_eq!(get_tileset_path_for_id(&map, '9'), None);
}

#[test]
fn tiles_value_items() {
    assert_eq!(parse_tiles_value("+3,4; 5 ,\t6;7;8,9,10;,1;4294967296,1"), vec![(3, 4), (5, 6)]);
    assert_eq!(parse_tiles_value("\u{3000}1,2\u{a0};4294967295,0"), vec![(1, 2), (4294967295, 0)]);
}

#[test]
fn rule_cache_keeps_first_load() {
    let mut cache = RuleCache::new();
    assert!(cache.get_tilesets_with_rules("fg.xml").is_none());
    assert!(cache.load("fg.xml", RULES));
    assert!(!cache.load("fg.xml", "<Data/>"));
    assert_eq!(cache.get_tilesets_with_rules("fg.xml").map(|s| s.len()), Some(3));
}

#[test]
fn level_names_and_current_level() {
    let root = map_tree();
    assert_eq!(extract_level_names(&root), vec!["a-00".to_string(), "b-01".to_string()]);
    assert_eq!(get_current_level(&root, 1).map(|l| l.children.len()), Some(0));
    assert!(get_current_level(&root, 3).is_none());
}

#[test]
fn level_record_fields() {
    let root = map_tree();
    let rec = extract_level_data(get_current_level(&root, 0).unwrap()).unwrap();
    assert_eq!(rec.name, "a-00");
    assert_eq!((rec.x, rec.y, rec.width, rec.height), (0, 16, 40, 24));
    assert_eq!(rec.solids, vec![vec!['1', '1', '0'], vec!['0', '1', '1']]);
    assert_eq!(rec.bg, vec![vec!['2', '2']]);
    assert_eq!((rec.offset_x, rec.offset_y), (1, 0));
    assert!(extract_level_data(get_current_level(&root, 1).unwrap()).is_none());
    let c = extract_level_data(get_current_level(&root, 2).unwrap()).unwrap();
    assert_eq!((c.width, c.height, c.name.as_str()), (320, 184, ""));
}

#[test]
fn decal_lists_are_extracted() {
    let d1 = node(
        "decal",
        vec![
            ("texture", AttrValue::Str("3-resort\\sign.png".to_string())),
            ("x", AttrValue::Int(16)),
            ("y", AttrValue::Float("8.5".to_string())),
            ("scaleX", AttrValue::Int(-1)),
        ],
        vec![],
        None,
    );
    let d2 = node("decal", vec![("x", AttrValue::Str("oops".to_string()))], vec![], None);
    let other = node("spinner", vec![], vec![], None);
    let fg = node("fgdecals", vec![], vec![d1, other, d2], None);
    let bg = node("bgdecals", vec![], vec![], None);
    let level = node("level", vec![("x", AttrValue::Int(0)), ("y", AttrValue::Int(0))], vec![fg, bg], None);
    let rec = extract_level_data(&level).unwrap();
    assert_eq!(rec.fg_decals.len(), 2);
    assert!(rec.bg_decals.is_empty());
    let a = &rec.fg_decals[0];
    assert_eq!(a.texture, "decals/3-resort/sign");
    assert!(matches!(a.x, AttrValue::Int(16)));
    assert!(matches!(&a.y, AttrValue::Float(t) if t == "8.5"));
    assert!(matches!(a.scale_x, AttrValue::Int(-1)));
    assert!(matches!(a.scale_y, AttrValue::Int(1)));
    let b = &rec.fg_decals[1];
    assert_eq!(b.texture, "decals/");
    assert!(matches!(b.x, AttrValue::Int(0)));
}

#[test]
fn level_autotile_caches_have_grid_shape() {
    let root = map_tree();
    let rec = extract_level_data(get_current_level(&root, 0).unwrap()).unwrap();
    let sets = parse_tilesets_with_rules(RULES);
    let fg = rec.compute_autotile_coords(&sets);
    assert_eq!(fg.len(), 2);
    assert_eq!(fg[0].len(), 3);
    assert_eq!(fg[0][2], None);
    assert_eq!(fg[0][0], Some((0, 0)));
    let bg = rec.compute_bg_autotile_coords(&sets);
    assert_eq!(bg, vec![vec![None, None]]);
}

#[test]
fn rooms_are_cached_for_levels_with_positions() {
    let rooms = cache_rooms(&map_tree());
    assert_eq!(rooms.len(), 2);
    assert_eq!(rooms[0].name, "a-00");
    assert_eq!((rooms[1].x, rooms[1].y), (8, 8));
}

#[test]
fn lines_follow_std() {
    assert_eq!(lines_of("a\r\nb\n"), vec![vec!['a'], vec!['b']]);
    assert_eq!(lines_of(""), Vec::<Vec<char>>::new());
    assert_eq!(lines_of("\n"), vec![Vec::<char>::new()]);
    assert_eq!(lines_of("x\r"), vec![vec!['x', '\r']]);
}

#[test]
fn solids_text_is_replaced_in_place() {
    let mut root = map_tree();
    assert_eq!(get_solids_data(get_current_level(&root, 0).unwrap()).as_deref(), Some("110\r\n011\n"));
    assert!(update_solids_data(&mut root, 0, "999"));
    assert_eq!(get_solids_data(get_current_level(&root, 0).unwrap()).as_deref(), Some("999"));
    assert!(!update_solids_data(&mut root, 1, "1"));
    assert!(!update_solids_data(&mut root, 7, "1"));
}

#[test]
fn placing_pads_rows_and_columns() {
    let root = map_tree();
    let level = get_current_level(&root, 0).unwrap();
    assert_eq!(place_block_in_level(level, 4, 3).as_deref(), Some("110\r\n011\n\n0009"));
    assert_eq!(place_block_in_level(level, 1, 2).as_deref(), Some("110\r\n011\n9"));
    assert_eq!(place_block_in_level(level, 0, 2), None);
    assert_eq!(place_block_in_level(level, 6, 2), None);
    assert_eq!(place_block_in_level(level, 2, 1), None);
}

#[test]
fn removing_clears_existing_cells_only() {
    let root = map_tree();
    let level = get_current_level(&root, 0).unwrap();
    assert_eq!(remove_block_in_level(level, 2, 0).as_deref(), Some("100\r\n011\n"));
    assert_eq!(remove_block_in_level(level, 9, 0), None);
    assert_eq!(remove_block_in_level(level, 0, 0), None);
}

#[test]
fn neighbor_mask_bits() {
    let g: Vec<Vec<char>> = vec!["111".chars().collect(), "111".chars().collect(), "111".chars().collect()];
    let full = TileNeighbors::from_grid(&g, 1, 1, &|c: char| c != '0');
    assert_eq!(full.0, 0xFF);
    assert!(full.is_internal());
    let corner = TileNeighbors::from_grid(&g, 0, 0, &|c: char| c != '0');
    assert_eq!(corner.0, 0b0001_1100);
    assert!(!corner.is_internal());
}

#[test]
fn decal_paths_are_normalized() {
    assert_eq!(normalize_decal_path("3-resort\\roofcenter.png"), "decals/3-resort/roofcenter");
    assert_eq!(normalize_decal_path("decals/1-forsakencity/x"), "decals/1-forsakencity/x");
    assert_eq!(normalize_decal_path("a.pn"), "decals/a.pn");
}

#[test]
fn asset_directory_is_set_and_cleared() {
    let mut assets = CelesteAssets::new(None);
    assert!(assets.celeste_dir.is_none());
    assert!(assets.set_celeste_dir("/games/Celeste"));
    assert_eq!(assets.celeste_dir.as_deref(), Some("/games/Celeste"));
    assets.clear_celeste_dir();
    assert!(assets.celeste_dir.is_none());
}

#[test]
fn xml_events_are_read_to_the_end() {
    let events = read_xml_events("<set mask=\"a&amp;b\" tiles='1,2'/><x></x>");
    assert_eq!(events.len(), 4);
    match &events[0] {
        XmlEvent::Open(tag) => {
            assert_eq!(tag.name, b"set".to_vec());
            assert_eq!(tag.attrs.len(), 2);
            assert_eq!(tag.attrs[0].key, b"mask".to_vec());
            assert_eq!(tag.attrs[0].value.as_deref(), Some("a&b"));
        }
        _ => panic!("expected a tag"),
    }
    assert!(matches!(&events[2], XmlEvent::Close(n) if n == b"x"));
    assert!(matches!(events[3], XmlEvent::Eof));
    let broken = read_xml_events("<a></b>");
    assert!(matches!(broken.last(), Some(XmlEvent::Fail)));
}
