use rusnake::config::{get_color, get_u16pair, parse_config};

#[test]
fn u16pair_plain() {
    assert_eq!(get_u16pair("12,12"), Some((12, 12)));
    assert_eq!(get_u16pair("1,65535"), Some((1, 65535)));
}

#[test]
fn u16pair_trims_the_whole_value_only() {
    assert_eq!(get_u16pair("  12,34  "), Some((12, 34)));
    // The pieces themselves are not re-trimmed: an inner space is malformed.
    assert_eq!(get_u16pair("12, 34"), None);
}

#[test]
fn u16pair_ignores_extra_pieces() {
    assert_eq!(get_u16pair("12,13,14"), Some((12, 13)));
}

#[test]
fn u16pair_rejects_malformed() {
    assert_eq!(get_u16pair("12"), None);
    assert_eq!(get_u16pair(""), None);
    assert_eq!(get_u16pair("12,"), None);
    assert_eq!(get_u16pair(",12"), None);
    assert_eq!(get_u16pair("70000,1"), None);
    assert_eq!(get_u16pair("a,1"), None);
    assert_eq!(get_u16pair("1,2b"), None);
}

#[test]
fn color_plain() {
    assert_eq!(get_color("255,255,127"), Some((255, 255, 127)));
    assert_eq!(get_color(" 0,0,0 "), Some((0, 0, 0)));
    assert_eq!(get_color("1,2,3,4"), Some((1, 2, 3)));
}

#[test]
fn color_rejects_malformed() {
    assert_eq!(get_color("1,2"), None);
    assert_eq!(get_color("256,0,0"), None);
    assert_eq!(get_color("0,0,x"), None);
    assert_eq!(get_color(""), None);
}

#[test]
fn parse_config_defaults_on_empty_text() {
    let c = parse_config("").unwrap();
    assert_eq!(c.tiles, (12, 12));
    assert_eq!(c.tile_size, (64, 64));
    assert_eq!(c.bg_color, (0, 0, 0));
    assert_eq!(c.snake_color, (127, 127, 127));
    assert_eq!(c.food_color, (255, 255, 255));
    assert_eq!(c.text_color, (255, 255, 127));
    assert_eq!(c.padding, 8);
    assert_eq!(c.tick_ms, 150);
}

#[test]
fn parse_config_reads_all_keys() {
    let text = "TILES=20,15\nTILE_SIZE=32,32\nBG_COLOR=1,2,3\nSNAKE_COLOR=4,5,6\nFOOD_COLOR=7,8,9\nTEXT_COLOR=10,11,12\nPADDING=4\nTICK=0.25\n";
    let c = parse_config(text).unwrap();
    assert_eq!(c.tiles, (20, 15));
    assert_eq!(c.tile_size, (32, 32));
    assert_eq!(c.bg_color, (1, 2, 3));
    assert_eq!(c.snake_color, (4, 5, 6));
    assert_eq!(c.food_color, (7, 8, 9));
    assert_eq!(c.text_color, (10, 11, 12));
    assert_eq!(c.padding, 4);
    assert_eq!(c.tick_ms, 250);
}

#[test]
fn parse_config_keys_are_case_insensitive_and_trimmed() {
    let c = parse_config(" tiles = 9,8 \n Tick =2\n").unwrap();
    assert_eq!(c.tiles, (9, 8));
    assert_eq!(c.tick_ms, 2000);
}

#[test]
fn parse_config_later_lines_override() {
    let c = parse_config("PADDING=1\nPADDING=2\n").unwrap();
    assert_eq!(c.padding, 2);
}

#[test]
fn parse_config_ignores_unknown_keys_and_odd_lines() {
    let c = parse_config("SPEED=9\n\n   \nnoequals\nA=B=C\n").unwrap();
    assert_eq!(c.tiles, (12, 12));
    assert_eq!(c.tick_ms, 150);
}

#[test]
fn parse_config_malformed_value_is_fatal() {
    assert!(parse_config("TILES=12\n").is_none());
    assert!(parse_config("TILES=a,b").is_none());
    assert!(parse_config("PADDING=4.5").is_none());
    assert!(parse_config("TICK=fast").is_none());
    assert!(parse_config("BG_COLOR=0,0").is_none());
}

#[test]
fn tick_accepts_decimal_forms() {
    assert_eq!(parse_config("TICK=15").unwrap().tick_ms, 15_000);
    assert_eq!(parse_config("TICK=0.15").unwrap().tick_ms, 150);
    assert_eq!(parse_config("TICK=.5").unwrap().tick_ms, 500);
    assert_eq!(parse_config("TICK=1.").unwrap().tick_ms, 1000);
    assert_eq!(parse_config("TICK=1.2345").unwrap().tick_ms, 1234);
    assert!(parse_config("TICK=1.2.3").is_none());
    assert!(parse_config("TICK=.").is_none());
}

#[test]
fn validity_needs_room_for_the_spawn() {
    let mut c = parse_config("").unwrap();
    assert!(c.is_valid());
    c.tiles = (6, 12);
    assert!(!c.is_valid());
    c.tiles = (12, 6);
    assert!(!c.is_valid());
    c.tiles = (7, 7);
    assert!(c.is_valid());
    c.tick_ms = 0;
    assert!(!c.is_valid());
}
