use tenhou_log_parser::parse_tile_list;
use tenhou_log_parser::tile_id_to_string;
use tenhou_log_parser::tile_id_to_type;
use tenhou_log_parser::tile_string_to_id;
use tenhou_log_parser::TileType;

#[test]
fn test_tile_id_to_string() {
    assert_eq!(tile_id_to_string(0), "1m");
    assert_eq!(tile_id_to_string(4), "2m");
    assert_eq!(tile_id_to_string(32), "9m");
    assert_eq!(tile_id_to_string(36), "1p");
    assert_eq!(tile_id_to_string(68), "9p");
    assert_eq!(tile_id_to_string(72), "1s");
    assert_eq!(tile_id_to_string(104), "9s");
    assert_eq!(tile_id_to_string(108), "east");
    assert_eq!(tile_id_to_string(112), "south");
    assert_eq!(tile_id_to_string(116), "west");
    assert_eq!(tile_id_to_string(120), "north");
    assert_eq!(tile_id_to_string(124), "white");
    assert_eq!(tile_id_to_string(128), "green");
    assert_eq!(tile_id_to_string(132), "red");

    // Invalid tile IDs produce the deterministic fallback name.
    assert_eq!(tile_id_to_string(136), "unknown_136");
    assert_eq!(tile_id_to_string(1000), "unknown_1000");
    assert_eq!(tile_id_to_string(9999), "unknown_9999");
}

#[test]
fn test_tile_string_to_id() {
    assert_eq!(tile_string_to_id("1m").unwrap(), 0);
    assert_eq!(tile_string_to_id("2m").unwrap(), 4);
    assert_eq!(tile_string_to_id("9m").unwrap(), 32);
    assert_eq!(tile_string_to_id("1p").unwrap(), 36);
    assert_eq!(tile_string_to_id("9p").unwrap(), 68);
    assert_eq!(tile_string_to_id("1s").unwrap(), 72);
    assert_eq!(tile_string_to_id("9s").unwrap(), 104);
    assert_eq!(tile_string_to_id("east").unwrap(), 108);
    assert_eq!(tile_string_to_id("south").unwrap(), 112);
    assert_eq!(tile_string_to_id("west").unwrap(), 116);
    assert_eq!(tile_string_to_id("north").unwrap(), 120);
    assert_eq!(tile_string_to_id("white").unwrap(), 124);
    assert_eq!(tile_string_to_id("green").unwrap(), 128);
    assert_eq!(tile_string_to_id("red").unwrap(), 132);
}

#[test]
fn test_tile_string_to_id_invalid() {
    // Invalid man tiles
    assert!(tile_string_to_id("0m").is_err());
    assert!(tile_string_to_id("10m").is_err());
    assert!(tile_string_to_id("am").is_err());

    // Invalid pin tiles
    assert!(tile_string_to_id("0p").is_err());
    assert!(tile_string_to_id("10p").is_err());
    assert!(tile_string_to_id("ap").is_err());

    // Invalid sou tiles
    assert!(tile_string_to_id("0s").is_err());
    assert!(tile_string_to_id("10s").is_err());
    assert!(tile_string_to_id("as").is_err());

    // Completely invalid strings
    assert!(tile_string_to_id("invalid").is_err());
    assert!(tile_string_to_id("").is_err());
    assert!(tile_string_to_id("xyz").is_err());
}

#[test]
fn test_parse_tile_list() {
    assert_eq!(parse_tile_list("").unwrap(), Vec::<String>::new());
    assert_eq!(parse_tile_list("0,4,8").unwrap(), vec!["1m", "2m", "3m"]);
    assert_eq!(
        parse_tile_list("108,112,116,120").unwrap(),
        vec!["east", "south", "west", "north"]
    );
}

#[test]
fn test_parse_tile_list_invalid() {
    assert!(parse_tile_list("0,invalid,8").is_err());
    assert!(parse_tile_list("abc").is_err());
}

#[test]
fn test_tile_id_to_type() {
    assert_eq!(tile_id_to_type(0).unwrap(), TileType::Man(1));
    assert_eq!(tile_id_to_type(32).unwrap(), TileType::Man(9));
    assert_eq!(tile_id_to_type(36).unwrap(), TileType::Pin(1));
    assert_eq!(tile_id_to_type(68).unwrap(), TileType::Pin(9));
    assert_eq!(tile_id_to_type(72).unwrap(), TileType::Sou(1));
    assert_eq!(tile_id_to_type(104).unwrap(), TileType::Sou(9));
    assert_eq!(tile_id_to_type(108).unwrap(), TileType::East);
    assert_eq!(tile_id_to_type(112).unwrap(), TileType::South);
    assert_eq!(tile_id_to_type(116).unwrap(), TileType::West);
    assert_eq!(tile_id_to_type(120).unwrap(), TileType::North);
    assert_eq!(tile_id_to_type(124).unwrap(), TileType::White);
    assert_eq!(tile_id_to_type(128).unwrap(), TileType::Green);
    assert_eq!(tile_id_to_type(132).unwrap(), TileType::Red);
}

#[test]
fn test_tile_id_to_type_invalid() {
    assert!(tile_id_to_type(136).is_err());
    assert!(tile_id_to_type(1000).is_err());
}

#[test]
fn test_tile_round_trip_all_ids() {
    // Decoding the name of any physical tile recovers the first copy of
    // its kind.
    for id in 0u32..136 {
        let name = tile_id_to_string(id);
        let back = tile_string_to_id(&name).unwrap();
        assert_eq!(back / 4, id / 4);
        assert_eq!(back, (id / 4) * 4);
    }
}

#[test]
fn test_tile_names_in_range_never_fallback() {
    for id in 0u32..136 {
        let name = tile_id_to_string(id);
        assert!(!name.is_empty());
        assert!(!name.starts_with("unknown_"));
    }
}
