use tenhou_log_parser::decode_player_id;
use tenhou_log_parser::parse_mjlog;
use tenhou_log_parser::Event;
use tenhou_log_parser::RyuukyokuReason;

#[test]
fn parser_test_parse_minimal_mjlog() {
    let mjlog_content = r#"<?xml version="1.0" encoding="Shift_JIS"?>
<mjloggm ver="2.3">
    <GO type="169" lobby="0"/>
    <UN n0="Player1" n1="Player2" n2="Player3" n3="Player4" dan="1,2,3,4" rate="1500,1600,1700,1800" sx="M,M,M,M"/>
    <TAIKYOKU oya="0"/>
    <INIT seed="0,0,0,1,2,52" ten="250,250,250,250" oya="0" hai0="0,4,8,12" hai1="1,5,9,13" hai2="2,6,10,14" hai3="3,7,11,15"/>
    <RYUUKYOKU ba="0,0" sc="250,0,250,0,250,0,250,0" type="nm"/>
</mjloggm>"#;

    let result = parse_mjlog(mjlog_content.as_bytes());
    assert!(result.is_ok());

    let output = result.unwrap();
    assert_eq!(output.mjlog_version, "2.3");
    assert_eq!(output.players.len(), 4);
    assert_eq!(output.rounds.len(), 1);
}

#[test]
fn test_parse_with_encoding_errors() {
    // Content with an invalid Shift_JIS sequence
    let mut bad_content =
        b"<?xml version=\"1.0\" encoding=\"Shift_JIS\"?>\n<mjloggm ver=\"2.3\">\n".to_vec();
    bad_content.extend_from_slice(&[0xFF, 0xFE, 0xFD]);
    bad_content.extend_from_slice(b"\n</mjloggm>");

    let result = parse_mjlog(&bad_content);
    // Partial corruption is replaced, not fatal.
    assert!(result.is_ok());
}

#[test]
fn test_parse_complex_mjlog() {
    let mjlog_content = r#"<?xml version="1.0" encoding="Shift_JIS"?>
<mjloggm ver="2.3">
    <GO type="169" lobby="1"/>
    <UN n0="%E3%83%86%E3%82%B9%E3%83%88" n1="Player2" n2="Player3" n3="Player4" dan="1,2,3,4" rate="1500,1600,1700,1800" sx="M,F,M,F"/>
    <TAIKYOKU oya="0"/>
    <INIT seed="0,0,0,1,2,52" ten="250,250,250,250" oya="0" hai0="0,4,8,12,16,20,24,28,32,36,40,44,48" hai1="1,5,9,13,17,21,25,29,33,37,41,45,49" hai2="2,6,10,14,18,22,26,30,34,38,42,46,50" hai3="3,7,11,15,19,23,27,31,35,39,43,47,51"/>
    <T52/>
    <D0/>
    <U53/>
    <E1/>
    <V54/>
    <F2/>
    <W55/>
    <G3/>
    <DORA hai="56"/>
    <REACH who="0" step="1" ten="240,250,250,250"/>
    <T57/>
    <D57/>
    <REACH who="0" step="2"/>
    <N who="1" m="12345"/>
    <AGARI who="0" fromWho="0" ten="30,1000,0" yaku="1,1" sc="240,1010,250,-250,250,-250,250,-250"/>
</mjloggm>"#;

    let result = parse_mjlog(mjlog_content.as_bytes());
    match &result {
        Ok(_) => {}
        Err(e) => panic!("Parse failed with error: {}", e.describe()),
    }
    assert!(result.is_ok());

    let output = result.unwrap();
    assert_eq!(output.mjlog_version, "2.3");
    assert_eq!(output.players.len(), 4);
    assert_eq!(output.rules.lobby_id, Some(1));

    // The percent-encoded name was decoded.
    assert_eq!(output.players[0].player_id, "テスト");

    // Events were parsed.
    let round = &output.rounds[0];
    assert!(!round.events.is_empty());

    let event_types: Vec<&str> = round
        .events
        .iter()
        .filter_map(|e| match e {
            Event::Draw { .. } => Some("draw"),
            Event::Discard { .. } => Some("discard"),
            Event::Dora { .. } => Some("dora"),
            Event::Reach { .. } => Some("reach"),
            Event::Pon { .. } => Some("pon"),
            Event::Agari { .. } => Some("agari"),
            _ => None,
        })
        .collect();

    assert!(event_types.contains(&"draw"));
    assert!(event_types.contains(&"discard"));
    assert!(event_types.contains(&"dora"));
    assert!(event_types.contains(&"reach"));
    assert!(event_types.contains(&"pon"));
    assert!(event_types.contains(&"agari"));
}

#[test]
fn test_parse_error_cases() {
    // Invalid seed format
    let bad_seed = r#"<?xml version="1.0" encoding="Shift_JIS"?>
<mjloggm ver="2.3">
    <INIT seed="0,0" ten="250,250,250,250" oya="0" hai0="0" hai1="1" hai2="2" hai3="3"/>
</mjloggm>"#;

    let result = parse_mjlog(bad_seed.as_bytes());
    assert!(result.is_err());

    // Invalid ten format
    let bad_ten = r#"<?xml version="1.0" encoding="Shift_JIS"?>
<mjloggm ver="2.3">
    <INIT seed="0,0,0,1,2,52" ten="250,250" oya="0" hai0="0" hai1="1" hai2="2" hai3="3"/>
</mjloggm>"#;

    let result = parse_mjlog(bad_ten.as_bytes());
    assert!(result.is_err());
}

#[test]
fn test_ryuukyoku_types() {
    let mjlog_content = r#"<?xml version="1.0" encoding="Shift_JIS"?>
<mjloggm ver="2.3">
    <GO type="169" lobby="0"/>
    <UN n0="Player1" n1="Player2" n2="Player3" n3="Player4" dan="1,2,3,4" rate="1500,1600,1700,1800" sx="M,M,M,M"/>
    <INIT seed="0,0,0,1,2,52" ten="250,250,250,250" oya="0" hai0="0" hai1="1" hai2="2" hai3="3"/>
    <RYUUKYOKU ba="0,0" sc="250,0,250,0,250,0,250,0" type="yao9"/>
    <INIT seed="1,0,0,1,2,52" ten="250,250,250,250" oya="1" hai0="0" hai1="1" hai2="2" hai3="3"/>
    <RYUUKYOKU ba="0,0" sc="250,0,250,0,250,0,250,0" type="kaze4"/>
    <INIT seed="2,0,0,1,2,52" ten="250,250,250,250" oya="2" hai0="0" hai1="1" hai2="2" hai3="3"/>
    <RYUUKYOKU ba="0,0" sc="250,0,250,0,250,0,250,0" type="reach4"/>
    <INIT seed="3,0,0,1,2,52" ten="250,250,250,250" oya="3" hai0="0" hai1="1" hai2="2" hai3="3"/>
    <RYUUKYOKU ba="0,0" sc="250,0,250,0,250,0,250,0" type="ron3"/>
    <INIT seed="4,0,0,1,2,52" ten="250,250,250,250" oya="0" hai0="0" hai1="1" hai2="2" hai3="3"/>
    <RYUUKYOKU ba="0,0" sc="250,0,250,0,250,0,250,0" type="kan4"/>
    <INIT seed="5,0,0,1,2,52" ten="250,250,250,250" oya="1" hai0="0" hai1="1" hai2="2" hai3="3"/>
    <RYUUKYOKU ba="0,0" sc="250,0,250,0,250,0,250,0" type="unknown"/>
</mjloggm>"#;

    let result = parse_mjlog(mjlog_content.as_bytes());
    assert!(result.is_ok());

    let output = result.unwrap();
    assert_eq!(output.rounds.len(), 6);

    for (i, round) in output.rounds.iter().enumerate() {
        if let Some(Event::Ryuukyoku { reason, .. }) = round.events.last() {
            match i {
                0 => assert!(matches!(reason, RyuukyokuReason::Yao9)),
                1 => assert!(matches!(reason, RyuukyokuReason::Kaze4)),
                2 => assert!(matches!(reason, RyuukyokuReason::Reach4)),
                3 => assert!(matches!(reason, RyuukyokuReason::Ron3)),
                4 => assert!(matches!(reason, RyuukyokuReason::Kan4)),
                5 => assert!(matches!(reason, RyuukyokuReason::Normal)),
                _ => panic!("Unexpected round"),
            }
        }
    }
}

#[test]
fn test_percent_decode() {
    assert_eq!(decode_player_id("%E3%83%86%E3%82%B9%E3%83%88"), "テスト");
    assert_eq!(decode_player_id("Player1"), "Player1");
    assert_eq!(decode_player_id(""), "");
}

#[test]
fn test_unknown_tags() {
    let mjlog_content = r#"<?xml version="1.0" encoding="Shift_JIS"?>
<mjloggm ver="2.3">
    <UNKNOWN_TAG attr="value"/>
    <ANOTHER_UNKNOWN>content</ANOTHER_UNKNOWN>
    <INIT seed="0,0,0,1,2,52" ten="250,250,250,250" oya="0" hai0="0,4,8,12,16,20,24,28,32,36,40,44,48" hai1="1,5,9,13,17,21,25,29,33,37,41,45,49" hai2="2,6,10,14,18,22,26,30,34,38,42,46,50" hai3="3,7,11,15,19,23,27,31,35,39,43,47,51"/>
</mjloggm>"#;

    let result = parse_mjlog(mjlog_content.as_bytes());
    assert!(result.is_ok());
}

#[test]
fn test_draw_discard_edge_cases() {
    let mjlog_content = r#"<?xml version="1.0" encoding="Shift_JIS"?>
<mjloggm ver="2.3">
    <INIT seed="0,0,0,1,2,52" ten="250,250,250,250" oya="0" hai0="0,4,8,12,16,20,24,28,32,36,40,44,48" hai1="1,5,9,13,17,21,25,29,33,37,41,45,49" hai2="2,6,10,14,18,22,26,30,34,38,42,46,50" hai3="3,7,11,15,19,23,27,31,35,39,43,47,51"/>
    <T test="invalid"/>
    <U/>
    <V60 extra="attr"/>
    <W/>
    <D test="invalid"/>
    <E/>
    <F60 extra="attr"/>
    <G/>
</mjloggm>"#;

    let result = parse_mjlog(mjlog_content.as_bytes());
    assert!(result.is_ok());

    // Some events were captured despite the edge cases.
    let output = result.unwrap();
    assert!(!output.rounds.is_empty());
    let round = &output.rounds[0];
    assert!(!round.events.is_empty());
}

#[test]
fn test_empty_xml() {
    let mjlog_content = "<?xml version=\"1.0\" encoding=\"Shift_JIS\"?>\n<mjloggm ver=\"2.3\">\n</mjloggm>";

    let result = parse_mjlog(mjlog_content.as_bytes());
    assert!(result.is_ok());

    let output = result.unwrap();
    assert_eq!(output.mjlog_version, "2.3");
    assert!(output.rounds.is_empty());
}

#[test]
fn test_invalid_tile_parsing() {
    let mjlog_content = r#"<?xml version="1.0" encoding="Shift_JIS"?>
<mjloggm ver="2.3">
    <INIT seed="0,0,0,1,2,52" ten="250,250,250,250" oya="0" hai0="invalid,abc,def" hai1="1" hai2="2" hai3="3"/>
</mjloggm>"#;

    let result = parse_mjlog(mjlog_content.as_bytes());
    assert!(result.is_err());
}

#[test]
fn test_parse_with_encoding_warnings() {
    let mut invalid_content =
        b"<?xml version=\"1.0\" encoding=\"Shift_JIS\"?>\n<mjloggm ver=\"2.3\">\n".to_vec();
    invalid_content.extend_from_slice(&[0xFF, 0xFE, 0xFD]);
    invalid_content.extend_from_slice(b"\n</mjloggm>");

    let result = parse_mjlog(&invalid_content);
    assert!(result.is_ok());
}

#[test]
fn integration_test_test_parse_minimal_mjlog() {
    let mjlog_content = r#"<?xml version="1.0" encoding="Shift_JIS"?>
<mjloggm ver="2.3" shuffle="mt19937ar-sha512-n288-base64">
    <GO type="169" lobby="0"/>
    <UN n0="Player1" n1="Player2" n2="Player3" n3="Player4" dan="1,2,3,4" rate="1500,1600,1700,1800" sx="M,M,M,M"/>
    <TAIKYOKU oya="0"/>
    <INIT seed="0,0,0,1,2,3" ten="250,250,250,250" oya="0" hai0="0,4,8,12,16,20,24,28,32,36,40,44,48" hai1="1,5,9,13,17,21,25,29,33,37,41,45,49" hai2="2,6,10,14,18,22,26,30,34,38,42,46,50" hai3="3,7,11,15,19,23,27,31,35,39,43,47,51"/>
    <T52/>
    <D0/>
    <RYUUKYOKU ba="0,0" sc="250,0,250,0,250,0,250,0" type="nm"/>
</mjloggm>"#;

    let result = parse_mjlog(mjlog_content.as_bytes());

    assert!(result.is_ok());
    let output = result.unwrap();
    assert_eq!(output.mjlog_version, "2.3");
    assert_eq!(output.players.len(), 4);
    assert_eq!(output.players[0].player_id, "Player1");
    assert_eq!(output.players[0].seat, 0);
}

#[test]
fn test_parse_complete_mjlog() {
    let mjlog_content = r#"<?xml version="1.0" encoding="Shift_JIS"?>
<mjloggm ver="2.3" shuffle="mt19937ar-sha512-n288-base64">
    <GO type="169" lobby="0"/>
    <UN n0="TestPlayer1" n1="TestPlayer2" n2="TestPlayer3" n3="TestPlayer4" dan="1,2,3,4" rate="1500,1600,1700,1800" sx="M,F,M,F"/>
    <TAIKYOKU oya="0"/>
    <INIT seed="0,0,0,1,2,52" ten="250,250,250,250" oya="0" hai0="0,4,8,12,16,20,24,28,32,36,40,44,48" hai1="1,5,9,13,17,21,25,29,33,37,41,45,49" hai2="2,6,10,14,18,22,26,30,34,38,42,46,50" hai3="3,7,11,15,19,23,27,31,35,39,43,47,51"/>
    <T53/>
    <D0/>
    <U54/>
    <E1/>
    <V55/>
    <F2/>
    <W56/>
    <G3/>
    <DORA hai="57"/>
    <REACH who="0" step="1" ten="240,250,250,250"/>
    <T58/>
    <D58/>
    <REACH who="0" step="2"/>
    <AGARI ba="0,10" hai="4,8,12,16,20,24,28,32,36,40,44,48,59" machi="59" ten="30,1000,0" yaku="1,1" doraHai="57" who="0" fromWho="0" sc="240,1010,250,-250,250,-250,250,-250"/>
</mjloggm>"#;

    let result = parse_mjlog(mjlog_content.as_bytes());

    assert!(result.is_ok());
    let output = result.unwrap();
    assert_eq!(output.mjlog_version, "2.3");
    assert_eq!(output.players.len(), 4);
    assert_eq!(output.rounds.len(), 1);

    let round = &output.rounds[0];
    assert!(!round.events.is_empty());
}
