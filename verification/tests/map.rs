use std::collections::HashMap;

use base64::Engine;

use hoi4ms::map::{
    colour_key, colour_numbers, country_colour, country_colour_entries, distinct_hsv,
    index_states, map_from_bitmap, parse_decimal, read_definitions, split_fields, state_index, Hsv, MapData,
    MapMode, ProvinceInfo, StateInfo, Swatch, BORDER, INSIDE, NO_PROVINCE, PROVINCE_EDGE,
    STATE_EDGE, UNCLAIMED, WATER,
};
use hoi4ms::paradox::parse;
use hoi4ms::state::{State, StateFile};

/// A one row map of four pixels: two of province 1, then province 2, then
/// province 3. Provinces 1 and 2 share a state, province 3 has its own.
fn strip() -> MapData {
    let provinces = (1..=3)
        .map(|id| ProvinceInfo { id, kind: "land".to_string(), terrain: "plains".to_string() })
        .collect();

    let states = ["10", "20"]
        .iter()
        .map(|id| StateInfo {
            id: id.to_string(),
            name: format!("STATE_{id}"),
            owner: "ENG".to_string(),
            path: String::new(),
        })
        .collect();

    MapData {
        folder: String::new(),
        width: 4,
        height: 1,
        province_at: vec![0, 0, 1, 2],
        provinces,
        state_of_province: HashMap::from([(1, 0), (2, 0), (3, 1)]),
        states,
        state_of_index: vec![0, 0, 1, usize::MAX],
        country_colors: Vec::new(),
    }
}

/// The RGB the window shows for a hue and its steps of saturation and value.
fn rgb_of(hsv: Hsv) -> [u8; 3] {
    let hue = hsv.hue as f32;
    let saturation = 0.45 + hsv.saturation_step as f32 / 100.0;
    let value = 0.55 + hsv.value_step as f32 / 100.0;

    let chroma = value * saturation;
    let secondary = chroma * (1.0 - ((hue / 60.0) % 2.0 - 1.0).abs());
    let offset = value - chroma;

    let (red, green, blue) = match hue as u32 / 60 {
        0 => (chroma, secondary, 0.0),
        1 => (secondary, chroma, 0.0),
        2 => (0.0, chroma, secondary),
        3 => (0.0, secondary, chroma),
        4 => (secondary, 0.0, chroma),
        _ => (chroma, 0.0, secondary),
    };

    [
        ((red + offset) * 255.0) as u8,
        ((green + offset) * 255.0) as u8,
        ((blue + offset) * 255.0) as u8,
    ]
}

fn distinct_colour(key: &str) -> [u8; 3] {
    rgb_of(distinct_hsv(key))
}

fn colours(map: &MapData, mode: MapMode) -> Vec<[u8; 3]> {
    map.palette(mode)
        .into_iter()
        .map(|swatch| match swatch {
            Swatch::Colour(colour) => colour,
            Swatch::Distinct(key) => distinct_colour(&key),
        })
        .collect()
}

fn paint(map: &MapData, mode: MapMode) -> Vec<u8> {
    map.paint_with(&colours(map, mode))
}

fn pixel(pixels: &[u8], at: usize) -> [u8; 3] {
    [pixels[at * 3], pixels[at * 3 + 1], pixels[at * 3 + 2]]
}

fn shaded(colour: [u8; 3], shade: u16) -> [u8; 3] {
    colour.map(|channel| (channel as u16 * shade / 100) as u8)
}

#[test]
fn draws_province_edges_under_state_edges() {
    let pixels = paint(&strip(), MapMode::States);

    let first = distinct_colour("10");
    let second = distinct_colour("20");

    // Inside province 1, with province 1 to the right.
    assert_eq!(pixel(&pixels, 0), shaded(first, INSIDE));
    // Province 1 meeting province 2, both in state 10.
    assert_eq!(pixel(&pixels, 1), shaded(first, PROVINCE_EDGE));
    // Province 2 meeting province 3, which is a different state.
    assert_eq!(pixel(&pixels, 2), shaded(first, STATE_EDGE));
    // The last pixel has no neighbour to compare against.
    assert_eq!(pixel(&pixels, 3), shaded(second, INSIDE));
}

#[test]
fn an_undefined_colour_does_not_borrow_a_province_colour() {
    let mut map = strip();
    map.province_at = vec![NO_PROVINCE; 4];

    let pixels = paint(&map, MapMode::States);

    // The palette's last entry, not whatever province the index wraps to.
    assert_eq!(pixel(&pixels, 0), [20, 20, 22]);
}

#[test]
fn a_colour_is_stable_for_a_key() {
    assert_eq!(distinct_hsv("42"), distinct_hsv("42"));
    assert_ne!(distinct_hsv("42"), distinct_hsv("43"));
}

#[test]
fn parses_the_definition_format() {
    let (provinces, by_colour) = read_definitions(
        "0;0;0;0;land;false;unknown;0\n1;230;81;119;lake;false;lakes;7\n2;0;0;55;land;false;forest;1\n",
    );

    // Province zero is skipped.
    assert_eq!(provinces.len(), 2);
    assert_eq!(provinces[0].id, 1);
    assert_eq!(provinces[0].kind, "lake");
    assert_eq!(provinces[1].terrain, "forest");
    assert_eq!(by_colour[colour_key(230, 81, 119)], 0);
    assert_eq!(by_colour[colour_key(0, 0, 55)], 1);
}

#[test]
fn definitions_skip_comments_short_lines_and_bad_numbers() {
    let (provinces, by_colour) = read_definitions(
        "# a comment\n\n3;1;2;3;sea;true;ocean\n4;1;2\n5;300;0;0;land;false;plains;1\n6; 9 ;8;7;land;false;hills;1\r\n",
    );

    assert_eq!(provinces.len(), 2);
    assert_eq!(provinces[0].id, 3);
    assert_eq!(provinces[0].kind, "sea");
    assert_eq!(provinces[1].id, 6);
    assert_eq!(provinces[1].terrain, "hills");
    assert_eq!(by_colour[colour_key(9, 8, 7)], 1);
    assert_eq!(by_colour[colour_key(0, 0, 0)], NO_PROVINCE);
}

#[test]
fn a_later_definition_takes_over_its_colour() {
    let (_, by_colour) = read_definitions("1;5;5;5;land;x;a\n2;5;5;5;land;x;b\n");
    assert_eq!(by_colour[colour_key(5, 5, 5)], 1);
}

#[test]
fn colour_keys_pack_the_three_channels() {
    assert_eq!(colour_key(0, 0, 0), 0);
    assert_eq!(colour_key(1, 2, 3), 65536 + 2 * 256 + 3);
    assert_eq!(colour_key(255, 255, 255), 16_777_215);
}

#[test]
fn decimals_read_as_the_standard_library_reads_them() {
    assert_eq!(parse_decimal("42", u32::MAX), Some(42));
    assert_eq!(parse_decimal("+7", 255), Some(7));
    assert_eq!(parse_decimal("255", 255), Some(255));
    assert_eq!(parse_decimal("256", 255), None);
    assert_eq!(parse_decimal("4294967295", u32::MAX), Some(u32::MAX));
    assert_eq!(parse_decimal("4294967296", u32::MAX), None);
    assert_eq!(parse_decimal("", 255), None);
    assert_eq!(parse_decimal("+", 255), None);
    assert_eq!(parse_decimal("-1", 255), None);
    assert_eq!(parse_decimal("1 2", 255), None);
    assert_eq!(parse_decimal("12a", u32::MAX), None);
}

#[test]
fn fields_split_at_every_separator() {
    assert_eq!(split_fields("a;b;;c", ';'), vec!["a", "b", "", "c"]);
    assert_eq!(split_fields("", ';'), vec![""]);
    assert_eq!(split_fields(";", ';'), vec!["", ""]);
}

#[test]
fn picks_the_province_and_the_state_under_a_pixel() {
    let map = strip();

    let pick = map.pick(2, 0).expect("a province");
    assert_eq!(pick.province_id, 2);
    assert_eq!(pick.kind, "land");
    assert_eq!(pick.state_id, "10");
    assert_eq!(pick.state_name, "STATE_10");
    assert_eq!(pick.owner, "ENG");

    assert!(map.pick(4, 0).is_none());
    assert!(map.pick(0, 1).is_none());
}

#[test]
fn a_province_no_state_lists_is_picked_without_a_state() {
    let mut map = strip();
    map.state_of_province = HashMap::from([(1, 0), (3, 1)]);

    let pick = map.pick(2, 0).expect("a province");
    assert_eq!(pick.province_id, 2);
    assert!(pick.state_id.is_empty());
    assert!(pick.owner.is_empty());
}

#[test]
fn the_summary_counts_unclaimed_land() {
    let mut map = strip();
    map.state_of_province = HashMap::from([(1, 0)]);
    map.provinces.push(ProvinceInfo { id: 4, kind: "sea".into(), terrain: "ocean".into() });

    let summary = map.summary();
    assert_eq!(summary.width, 4);
    assert_eq!(summary.height, 1);
    assert_eq!(summary.province_count, 4);
    assert_eq!(summary.state_count, 2);
    assert_eq!(summary.unassigned_land, 2);
    assert_eq!(map.folder(), "");
}

#[test]
fn owners_take_the_colour_their_country_is_given_last() {
    let mut map = strip();
    map.country_colors = vec![("ENG".into(), [1, 2, 3]), ("ENG".into(), [4, 5, 6])];
    map.states[1].owner = String::new();
    map.provinces[0].kind = "lake".into();

    let palette = colours(&map, MapMode::Owners);
    assert_eq!(palette, vec![WATER, [4, 5, 6], UNCLAIMED, BORDER]);
    assert_eq!(country_colour(&map.country_colors, "GER"), None);
}

#[test]
fn an_owner_without_a_colour_gets_a_distinct_one() {
    let map = strip();
    match &map.palette(MapMode::Owners)[0] {
        Swatch::Distinct(key) => assert_eq!(key, "ENG"),
        Swatch::Colour(_) => panic!("expected the owner's distinct colour"),
    }
}

#[test]
fn a_rendered_map_is_a_png_data_url() {
    let map = strip();
    let palette = colours(&map, MapMode::States);
    let url = map.render_with(&palette).expect("renders");
    assert!(url.starts_with("data:image/png;base64,"));

    let bytes = base64::engine::general_purpose::STANDARD
        .decode(url.trim_start_matches("data:image/png;base64,"))
        .expect("base64");
    let picture = image::load_from_memory(&bytes).expect("png").to_rgb8();
    assert_eq!(picture.dimensions(), (4, 1));
    let painted = map.paint_with(&palette);
    assert_eq!(picture.into_raw(), painted);
}

fn state(id: &str, owner: &str, provinces: &[&str]) -> State {
    State {
        id: id.into(),
        name: format!("STATE_{id}"),
        owner: owner.into(),
        provinces: provinces.iter().map(|p| p.to_string()).collect(),
        ..State::default()
    }
}

fn file(path: &str, states: Vec<State>) -> StateFile {
    StateFile { path: path.into(), states, has_bom: false, is_legacy_encoding: false, unclosed_blocks: 0 }
}

#[test]
fn states_are_indexed_in_file_order_and_claim_their_provinces() {
    let files = vec![
        file("a.txt", vec![state("1", "FRA", &["10", "11", "x"])]),
        file("b.txt", vec![state("2", "ENG", &["12"]), state("3", "", &["11"])]),
    ];

    let (states, claims) = index_states(&files);

    assert_eq!(states.len(), 3);
    assert_eq!(states[0].id, "1");
    assert_eq!(states[0].path, "a.txt");
    assert_eq!(states[2].path, "b.txt");
    assert_eq!(claims.get(&10), Some(&0));
    // The last state listing a province keeps it.
    assert_eq!(claims.get(&11), Some(&2));
    assert_eq!(claims.get(&12), Some(&1));
    assert_eq!(claims.len(), 3);

    let provinces = vec![
        ProvinceInfo { id: 11, kind: "land".into(), terrain: String::new() },
        ProvinceInfo { id: 99, kind: "land".into(), terrain: String::new() },
    ];
    assert_eq!(state_index(&provinces, &claims), vec![2, usize::MAX, usize::MAX]);
}

#[test]
fn reads_the_numbers_of_both_colour_forms() {
    let document = parse("ENG = {\n\tcolor = rgb { 201 56 93 }\n}\nGER = {\n\tcolor = { 210 134 134 }\n}\nfra = { color = { 1.0 0.0 0.5 } }\nSOV = { graphical_culture = x }\n")
        .expect("parses");

    let entries = country_colour_entries(&document);
    assert_eq!(entries.len(), 3);
    assert_eq!(entries[0].0, "ENG");
    assert_eq!(entries[0].1, vec!["201", "56", "93"]);
    assert_eq!(entries[1].1, vec!["210", "134", "134"]);
    assert_eq!(entries[2].0, "FRA");
    assert_eq!(entries[2].1, vec!["1.0", "0.0", "0.5"]);

    let sov = parse("SOV = { graphical_culture = x }").expect("parses");
    let block = match &sov.items[0] {
        hoi4ms::paradox::Item::Pair(pair) => match &pair.value {
            hoi4ms::paradox::Value::Block(block) => block,
            _ => panic!("a block"),
        },
        _ => panic!("a pair"),
    };
    assert!(colour_numbers(block).is_none());
}

/// A BMP file of the given RGB pixels, row major from the top row.
fn bitmap(width: u32, height: u32, rgb: &[u8]) -> Vec<u8> {
    let mut bytes = Vec::new();
    image::write_buffer_with_format(
        &mut std::io::Cursor::new(&mut bytes),
        rgb,
        width,
        height,
        image::ExtendedColorType::Rgb8,
        image::ImageFormat::Bmp,
    )
    .expect("encodes a bitmap");
    bytes
}

#[test]
fn a_province_bitmap_is_read_pixel_by_pixel() {
    let bytes = bitmap(3, 1, &[1, 2, 3, 1, 2, 3, 9, 9, 9]);
    let mut by_colour = vec![u16::MAX; 1 << 24];
    by_colour[colour_key(1, 2, 3) as usize] = 0;
    by_colour[colour_key(9, 9, 9) as usize] = 1;
    let provinces = vec![
        ProvinceInfo { id: 7, kind: "land".to_string(), terrain: "plains".to_string() },
        ProvinceInfo { id: 8, kind: "sea".to_string(), terrain: "ocean".to_string() },
    ];
    let map = map_from_bitmap("mod", &bytes, (provinces, by_colour), (Vec::new(), HashMap::new()), Vec::new())
        .expect("decodes");
    assert_eq!((map.width, map.height), (3, 1));
    assert_eq!(map.province_at, vec![0, 0, 1]);
    assert_eq!(map.folder, "mod");
}

#[test]
fn bytes_that_are_no_bitmap_are_refused() {
    let result = map_from_bitmap("mod", b"not a bitmap", (Vec::new(), vec![0u16; 1 << 24]), (Vec::new(), HashMap::new()), Vec::new());
    assert!(result.is_err());
}
