use tenhou_log_parser::parse_mjlog;
use tenhou_log_parser::Event;
use tenhou_log_parser::ParserError;

// End-to-end scenario: one round carrying, in order, a dora reveal, a
// ready declaration with its score snapshot, its confirmation without one,
// and a win whose scores are the per-seat deltas.
#[test]
fn test_end_to_end_round_events() {
    let mjlog_content = r#"<?xml version="1.0" encoding="Shift_JIS"?>
<mjloggm ver="2.3">
    <UN n0="P1" n1="P2" n2="P3" n3="P4" dan="1,2,3,4" rate="1500,1600,1700,1800" sx="M,M,M,M"/>
    <INIT seed="0,0,0,1,2,52" ten="250,250,250,250" oya="0" hai0="0" hai1="1" hai2="2" hai3="3"/>
    <DORA hai="56"/>
    <REACH who="0" step="1" ten="240,250,250,250"/>
    <REACH who="0" step="2"/>
    <AGARI who="0" fromWho="0" ten="30,1000,0" yaku="1,1" sc="240,1010,250,-250,250,-250,250,-250"/>
</mjloggm>"#;

    let output = parse_mjlog(mjlog_content.as_bytes()).unwrap();
    assert_eq!(output.players.len(), 4);
    assert_eq!(output.rounds.len(), 1);
    let events = &output.rounds[0].events;
    assert_eq!(events.len(), 4);

    match &events[0] {
        Event::Dora { indicator } => assert_eq!(indicator, "6p"),
        other => panic!("expected a dora event, got {:?}", other),
    }
    match &events[1] {
        Event::Reach { who, step, scores } => {
            assert_eq!(*who, 0);
            assert_eq!(*step, 1);
            assert_eq!(*scores, [240, 250, 250, 250]);
        }
        other => panic!("expected a reach declaration, got {:?}", other),
    }
    match &events[2] {
        Event::Reach { who, step, scores } => {
            assert_eq!(*who, 0);
            assert_eq!(*step, 2);
            assert_eq!(*scores, [0, 0, 0, 0]);
        }
        other => panic!("expected a reach confirmation, got {:?}", other),
    }
    match &events[3] {
        Event::Agari { who, from, fu, han, scores, .. } => {
            assert_eq!(*who, 0);
            assert_eq!(*from, 0);
            assert_eq!(*fu, 30);
            assert_eq!(*han, 0);
            // The deltas, not the pre-event totals.
            assert_eq!(*scores, [1010, -250, -250, -250]);
        }
        other => panic!("expected a win event, got {:?}", other),
    }
}

// A record with N initialization tags and no trailing tag yields exactly
// N rounds, and everything after the last initialization tag lands in the
// last round.
#[test]
fn test_round_count_matches_init_tags() {
    let mjlog_content = r#"<?xml version="1.0" encoding="Shift_JIS"?>
<mjloggm ver="2.3">
    <INIT seed="0,0,0,1,2,52" ten="250,250,250,250" oya="0" hai0="0" hai1="1" hai2="2" hai3="3"/>
    <T52/>
    <INIT seed="1,0,0,1,2,52" ten="250,250,250,250" oya="1" hai0="0" hai1="1" hai2="2" hai3="3"/>
    <T53/>
    <INIT seed="2,0,0,1,2,52" ten="250,250,250,250" oya="2" hai0="0" hai1="1" hai2="2" hai3="3"/>
    <T54/>
    <D54/>
</mjloggm>"#;

    let output = parse_mjlog(mjlog_content.as_bytes()).unwrap();
    assert_eq!(output.rounds.len(), 3);
    assert_eq!(output.rounds[0].round_id, "Round 1");
    assert_eq!(output.rounds[1].round_id, "Round 2");
    assert_eq!(output.rounds[2].round_id, "Round 3");
    // Everything after the third initialization tag is in the last round.
    assert_eq!(output.rounds[2].events.len(), 2);
    assert_eq!(output.rounds[0].events.len(), 1);
    assert_eq!(output.rounds[1].events.len(), 1);
}

// An initialization tag whose packed score field has only two of the four
// required entries fails the whole parse; no rounds are emitted.
#[test]
fn test_short_score_field_is_fatal() {
    let mjlog_content = r#"<?xml version="1.0" encoding="Shift_JIS"?>
<mjloggm ver="2.3">
    <INIT seed="0,0,0,1,2,52" ten="250,250" oya="0" hai0="0" hai1="1" hai2="2" hai3="3"/>
    <T52/>
</mjloggm>"#;

    let result = parse_mjlog(mjlog_content.as_bytes());
    assert!(result.is_err());
}

// An unrecognized tag neither aborts the parse nor appears as an event.
#[test]
fn test_unknown_tag_adds_no_event() {
    let with_unknown = r#"<?xml version="1.0" encoding="Shift_JIS"?>
<mjloggm ver="2.3">
    <INIT seed="0,0,0,1,2,52" ten="250,250,250,250" oya="0" hai0="0" hai1="1" hai2="2" hai3="3"/>
    <T52/>
    <ZUNKNOWN attr="value"/>
    <D52/>
</mjloggm>"#;

    let output = parse_mjlog(with_unknown.as_bytes()).unwrap();
    assert_eq!(output.rounds.len(), 1);
    assert_eq!(output.rounds[0].events.len(), 2);
    assert!(matches!(output.rounds[0].events[0], Event::Draw { .. }));
    assert!(matches!(output.rounds[0].events[1], Event::Discard { .. }));
}

// The legacy decoder really decodes: a double-byte sequence in the
// version attribute comes out as the character it encodes.
#[test]
fn test_legacy_encoding_is_decoded() {
    let mut content: Vec<u8> = b"<mjloggm ver=\"".to_vec();
    content.extend_from_slice(&[0x82, 0xA0]);
    content.extend_from_slice(b"\"/>");

    let output = parse_mjlog(&content).unwrap();
    assert_eq!(output.mjlog_version, "\u{3042}");
}

// The game identifier is freshly generated per parse, in the 36-character
// hyphenated form.
#[test]
fn test_game_id_shape() {
    let content = b"<mjloggm ver=\"2.3\"/>";
    let a = parse_mjlog(content).unwrap();
    let b = parse_mjlog(content).unwrap();
    assert_eq!(a.game_id.len(), 36);
    assert_eq!(b.game_id.len(), 36);
    assert_ne!(a.game_id, b.game_id);
}

// The size cap rejects oversized input before decoding.
#[test]
fn test_size_cap() {
    let big = vec![b'a'; 104857600];
    let result = parse_mjlog(&big);
    assert!(matches!(result, Err(ParserError::Parse { .. })));
}

// Markup left open at the end of the text is a fatal error.
#[test]
fn test_unterminated_tag_is_fatal() {
    let content = b"<mjloggm ver=\"2.3\"><INIT ";
    let result = parse_mjlog(content);
    assert!(matches!(result, Err(ParserError::Xml(_))));

    // A quoted value left open is an attribute error.
    let content = b"<mjloggm ver=\"2.3\"><INIT seed=\"0";
    let result = parse_mjlog(content);
    assert!(matches!(result, Err(ParserError::Attr(_))));
}

// Numeric attribute noise is fatal where an integer is required.
#[test]
fn test_bad_numeric_attribute_is_fatal() {
    let content = b"<mjloggm ver=\"2.3\"><GO type=\"abc\"/></mjloggm>";
    let result = parse_mjlog(content);
    assert!(matches!(result, Err(ParserError::ParseInt(_))));
}

// A draw tag may carry its tile in a sole unnamed attribute instead of
// the tag-name suffix; both encodings yield the same event.
#[test]
fn test_draw_tile_in_unnamed_attribute() {
    let content = b"<mjloggm ver=\"2.3\">\
<INIT seed=\"0,0,0,1,2,52\" ten=\"250,250,250,250\" oya=\"0\" hai0=\"0\" hai1=\"1\" hai2=\"2\" hai3=\"3\"/>\
<T 52/><T52/></mjloggm>";
    let output = parse_mjlog(content).unwrap();
    let events = &output.rounds[0].events;
    assert_eq!(events.len(), 2);
    match (&events[0], &events[1]) {
        (Event::Draw { seat: s1, tile: t1 }, Event::Draw { seat: s2, tile: t2 }) => {
            assert_eq!(*s1, 0);
            assert_eq!(*s2, 0);
            assert_eq!(t1, "5p");
            assert_eq!(t2, "5p");
        }
        other => panic!("expected two draw events, got {:?}", other),
    }
}

// An attribute value without quotes is a fatal attribute error.
#[test]
fn test_unquoted_attribute_value_is_fatal() {
    let content = b"<mjloggm ver=2.3></mjloggm>";
    let result = parse_mjlog(content);
    assert!(matches!(result, Err(ParserError::Attr(_))));
}

// An identifier outside the physical tile range carries the offending
// identifier in its error.
#[test]
fn test_invalid_tile_id_error_carries_id() {
    let result = tenhou_log_parser::tile_id_to_type(999);
    assert!(matches!(result, Err(ParserError::InvalidTileId(999))));
}

// A lobby value of zero means no lobby; any other value is kept.
#[test]
fn test_lobby_sentinel() {
    let zero = b"<mjloggm ver=\"2.3\"><GO type=\"9\" lobby=\"0\"/></mjloggm>";
    let output = parse_mjlog(zero).unwrap();
    assert_eq!(output.rules.type_flags, 9);
    assert_eq!(output.rules.lobby_id, None);

    let seven = b"<mjloggm ver=\"2.3\"><GO type=\"9\" lobby=\"7\"/></mjloggm>";
    let output = parse_mjlog(seven).unwrap();
    assert_eq!(output.rules.lobby_id, Some(7));
}
