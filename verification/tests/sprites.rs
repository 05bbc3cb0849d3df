use base64::engine::general_purpose::STANDARD;
use base64::Engine;
use hoi4ms::assets::data_url;
use hoi4ms::paradox::parse;
use hoi4ms::sprites::{
    contains_text, definition_roots, read_sprite, relative_texture, text_less, texture_roots,
    SpriteIndex, ICON_MAX_DIMENSION,
};

const GAME_SPRITES: &str = r#"
spriteTypes = {
	spriteType = {
		name = "GFX_focus_generic_industry"
		texturefile = "gfx/interface/goals/focus_generic_industry.png"
	}
	frameAnimatedSpriteType = {
		name = "GFX_focus_generic_army"
		texturefile = "gfx/interface/goals/focus_generic_army.png"
		noOfFrames = 2
	}
}
"#;

const MOD_SPRITES: &str = r#"
spriteTypes = {
	spriteType = {
		name = "GFX_focus_generic_industry"
		texturefile = "gfx/interface/goals/my_industry.png"
	}
}
"#;

/// The index the app builds for a mod and a game folder, the game read first.
fn index_of(game: &[&str], modded: &[&str]) -> SpriteIndex {
    let mut index = SpriteIndex::new();
    for text in game.iter().chain(modded.iter()) {
        let document = parse(text).expect("parses");
        index.add_definitions(&document);
    }
    index
}

fn png(width: u32, height: u32) -> Vec<u8> {
    let image = image::RgbaImage::from_pixel(width, height, image::Rgba([9, 9, 9, 255]));
    let mut bytes = Vec::new();
    image
        .write_to(&mut std::io::Cursor::new(&mut bytes), image::ImageFormat::Png)
        .expect("encodes");
    bytes
}

fn decoded(url: &str) -> image::DynamicImage {
    let bytes = STANDARD
        .decode(url.trim_start_matches("data:image/png;base64,"))
        .expect("base64");
    image::load_from_memory(&bytes).expect("png")
}

#[test]
fn a_mod_inherits_the_games_sprites() {
    let index = index_of(&[GAME_SPRITES], &[]);

    let lookup = index
        .texture_lookup("GFX_focus_generic_industry", "mod", "game")
        .expect("defined");
    assert_eq!(lookup.relative, "gfx/interface/goals/focus_generic_industry.png");
    assert_eq!(lookup.roots, vec!["mod", "game"]);

    let url = data_url("game/x.png", "png", &png(8, 8), Some(ICON_MAX_DIMENSION), lookup.frames)
        .expect("encodes");
    let picture = decoded(&url);
    assert_eq!((picture.width(), picture.height()), (8, 8));
}

#[test]
fn an_unknown_sprite_has_no_picture() {
    let index = index_of(&[GAME_SPRITES], &[]);

    assert!(index.texture_lookup("GFX_focus_that_does_not_exist", "mod", "game").is_none());
    assert!(index.find("GFX_focus_that_does_not_exist").is_none());
}

#[test]
fn the_mods_own_texture_replaces_the_games() {
    // The mod folder is searched first for any texture, whoever defined it.
    assert_eq!(texture_roots("mod", "game"), vec!["mod", "game"]);
}

#[test]
fn the_mods_own_definition_replaces_the_games() {
    let index = index_of(&[GAME_SPRITES], &[MOD_SPRITES]);

    let lookup = index
        .texture_lookup("GFX_focus_generic_industry", "mod", "game")
        .expect("defined");
    assert!(lookup.relative.ends_with("my_industry.png"), "{}", lookup.relative);
    assert_eq!(index.len(), 2);
}

#[test]
fn an_animated_sprite_is_shown_as_its_first_frame() {
    let index = index_of(&[GAME_SPRITES], &[]);
    let lookup = index.texture_lookup("GFX_focus_generic_army", "mod", "game").expect("defined");
    assert_eq!(lookup.frames, 2);

    // Twice as wide as it draws: two frames side by side.
    let url = data_url("game/army.png", "png", &png(16, 8), Some(ICON_MAX_DIMENSION), lookup.frames)
        .expect("encodes");
    let picture = decoded(&url);

    assert_eq!((picture.width(), picture.height()), (8, 8));
}

#[test]
fn a_missing_game_folder_leaves_the_mods_own_sprites() {
    assert_eq!(definition_roots("mod", ""), vec!["mod"]);
    assert_eq!(definition_roots("mod", "  "), vec!["mod"]);
    assert_eq!(definition_roots("mod", "game"), vec!["game", "mod"]);

    let index = index_of(
        &[],
        &["spriteTypes = { spriteType = { name = \"GFX_focus_solo\" texturefile = \"gfx/solo.png\" } }"],
    );
    let lookup = index.texture_lookup("GFX_focus_solo", "mod", "").expect("defined");
    assert_eq!(lookup.roots, vec!["mod"]);
}

#[test]
fn search_matches_any_part_of_the_name_and_keeps_the_original_spelling() {
    let index = index_of(&[GAME_SPRITES], &[]);
    let hits = index.search("GENERIC_ARMY", 10);

    assert_eq!(hits.len(), 1);
    assert_eq!(hits[0].name, "GFX_focus_generic_army");
    assert_eq!(hits[0].frames, 2);
    assert_eq!(index.search("", 1).len(), 1, "an empty query lists everything, capped");
    assert!(index.search("nothing_like_this", 10).is_empty());
}

#[test]
fn sprite_names_are_matched_however_they_are_spelled() {
    let index = index_of(&[GAME_SPRITES], &[]);

    assert!(index.find("gfx_focus_generic_industry").is_some());
    assert!(index.find("  GFX_focus_generic_industry  ").is_some());
}

#[test]
fn search_results_are_ordered_by_name() {
    let index = index_of(&[GAME_SPRITES], &[]);
    let hits = index.search("gfx", 10);
    assert_eq!(hits.len(), 2);
    assert_eq!(hits[0].name, "GFX_focus_generic_army");
    assert_eq!(hits[1].name, "GFX_focus_generic_industry");
    assert_eq!(index.search("gfx", 0).len(), 0);
}

#[test]
fn texture_paths_are_made_relative() {
    assert_eq!(relative_texture("\\gfx\\a.dds").as_deref(), Some("gfx/a.dds"));
    assert_eq!(relative_texture("  //gfx/b.tga ").as_deref(), Some("gfx/b.tga"));
    assert_eq!(relative_texture(" / "), None);
}

#[test]
fn a_block_without_a_texture_defines_no_sprite() {
    let document = parse("a = { name = x }").expect("parses");
    match &document.items[0] {
        hoi4ms::paradox::Item::Pair(pair) => match &pair.value {
            hoi4ms::paradox::Value::Block(block) => assert!(read_sprite(block).is_none()),
            _ => panic!("a block"),
        },
        _ => panic!("a pair"),
    }
}

#[test]
fn text_order_and_containment() {
    assert!(text_less("GFX_a", "GFX_b"));
    assert!(text_less("GFX", "GFX_a"));
    assert!(!text_less("b", "a"));
    assert!(!text_less("a", "a"));
    assert!(contains_text("GFX_FOCUS", "FOCUS"));
    assert!(contains_text("GFX", ""));
    assert!(!contains_text("GFX", "GFXX"));
}
