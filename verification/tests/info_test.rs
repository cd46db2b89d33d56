use a2s::cursor::Cursor;
use a2s::errors::Error;
use a2s::info::{
    handle_info_response, ExtendedServerInfo, Info, InfoResponse, ServerOS, ServerType,
    SourceTVInfo, TheShip, TheShipMode,
};
use a2s::transport::{parse_response, Response};

/// A minimal info payload: discriminant, protocol 17, four strings, app id,
/// counts, type, os, flags, version; optionally a trailing zero flags byte.
fn minimal_info_payload(trailing_zero_edf: bool) -> Vec<u8> {
    let mut p = vec![0x49, 0x11];
    p.extend_from_slice(b"a name\0de_dust\0cstrike\0Counter-Strike\0");
    p.extend_from_slice(&10u16.to_le_bytes());
    p.push(3); // players
    p.push(16); // max players
    p.push(1); // bots
    p.push(b'd');
    p.push(b'l');
    p.push(0); // visibility
    p.push(1); // vac
    p.extend_from_slice(b"1.0.0.0\0");
    if trailing_zero_edf {
        p.push(0);
    }
    p
}

fn decode(payload: Vec<u8>) -> Result<Info, Error> {
    Info::from_cursor(Cursor::new(payload))
}

#[test]
fn minimal_info_decodes() {
    // A datagram beginning FF FF FF FF 49 11 00 ... with four strings and a
    // trailing zero flags byte (or none) decodes to a record with those
    // strings and every extended field absent.
    for trailing in [false, true] {
        let mut datagram = vec![0xff, 0xff, 0xff, 0xff];
        datagram.extend_from_slice(&minimal_info_payload(trailing));
        let payload = match parse_response(datagram, 1400).unwrap() {
            Response::Single(p) => p,
            Response::Multi(_) => panic!("expected a single-packet response"),
        };
        let info = decode(payload).unwrap();
        assert_eq!(info.protocol, 0x11);
        assert_eq!(info.name, "a name");
        assert_eq!(info.map, "de_dust");
        assert_eq!(info.folder, "cstrike");
        assert_eq!(info.game, "Counter-Strike");
        assert_eq!(info.app_id, 10);
        assert_eq!(info.players, 3);
        assert_eq!(info.max_players, 16);
        assert_eq!(info.bots, 1);
        assert_eq!(info.server_type, ServerType::Dedicated);
        assert_eq!(info.server_os, ServerOS::Linux);
        assert!(!info.visibility);
        assert!(info.vac);
        assert_eq!(info.the_ship, None);
        assert_eq!(info.version, "1.0.0.0");
        assert_eq!(info.edf, 0);
        assert_eq!(info.extended_server_info.port, None);
        assert_eq!(info.extended_server_info.steam_id, None);
        assert_eq!(info.extended_server_info.keywords, None);
        assert_eq!(info.extended_server_info.game_id, None);
        assert_eq!(info.source_tv, None);
    }
}

#[test]
fn server_type_x_is_an_error() {
    // A server type byte of 'x' yields a decode error, never a default.
    let mut p = minimal_info_payload(false);
    let type_offset = p.len() - 12; // type byte sits 12 bytes before the end
    assert_eq!(p[type_offset], b'd');
    p[type_offset] = b'x';
    match decode(p) {
        Err(Error::Other(msg)) => assert_eq!(msg, "Invalid server type"),
        other => panic!("expected a server type error, got {:?}", other),
    }
    match ServerType::try_from(b'x') {
        Err(Error::Other(msg)) => assert_eq!(msg, "Invalid server type"),
        other => panic!("expected a server type error, got {:?}", other),
    }
}

#[test]
fn server_os_bytes() {
    assert_eq!(ServerOS::try_from(b'l').unwrap(), ServerOS::Linux);
    assert_eq!(ServerOS::try_from(b'w').unwrap(), ServerOS::Windows);
    assert_eq!(ServerOS::try_from(b'm').unwrap(), ServerOS::Mac);
    assert_eq!(ServerOS::try_from(b'o').unwrap(), ServerOS::Mac);
    match ServerOS::try_from(b'q') {
        Err(Error::Other(msg)) => assert_eq!(msg, "Invalid environment"),
        other => panic!("expected an environment error, got {:?}", other),
    }
}

#[test]
fn wrong_discriminant_is_invalid_response() {
    let mut p = minimal_info_payload(false);
    p[0] = 0x45;
    assert_eq!(decode(p).err().unwrap(), Error::InvalidResponse);
}

#[test]
fn truncated_info_is_io_error() {
    let p = minimal_info_payload(false);
    // Cutting the buffer inside the fixed fields (before the version string)
    // exhausts a required read.
    let cut = p.len() - 15;
    assert_eq!(decode(p[..cut].to_vec()).err().unwrap(), Error::Io);
}

#[test]
fn info_round_trip_with_extended_fields() {
    let info = Info {
        protocol: 17,
        name: "festive server".to_string(),
        map: "de_nuke".to_string(),
        folder: "csgo".to_string(),
        game: "Counter-Strike 2".to_string(),
        app_id: 730,
        players: 9,
        max_players: 24,
        bots: 2,
        server_type: ServerType::NonDedicated,
        server_os: ServerOS::Windows,
        visibility: true,
        vac: true,
        the_ship: None,
        version: "1.38.7.9".to_string(),
        edf: 0x80 | 0x10 | 0x20 | 0x01 | 0x40,
        extended_server_info: ExtendedServerInfo {
            port: Some(27015),
            steam_id: Some(90071996842852352),
            keywords: Some("secure,empty".to_string()),
            game_id: Some(730),
        },
        source_tv: Some(SourceTVInfo { port: 27020, name: "tv".to_string() }),
    };
    let bytes = info.to_bytes();
    assert_eq!(&bytes[..5], &[0xff, 0xff, 0xff, 0xff, 0x49]);
    let decoded = decode(bytes[4..].to_vec()).unwrap();
    assert_eq!(decoded, info);
}

#[test]
fn info_round_trip_the_ship() {
    let info = Info {
        protocol: 7,
        name: "ship".to_string(),
        map: "batavia".to_string(),
        folder: "ship".to_string(),
        game: "The Ship".to_string(),
        app_id: 2400,
        players: 4,
        max_players: 8,
        bots: 0,
        server_type: ServerType::Dedicated,
        server_os: ServerOS::Mac,
        visibility: false,
        vac: false,
        the_ship: Some(TheShip { mode: TheShipMode::Duel, witnesses: 2, duration: 30 }),
        version: "1.0".to_string(),
        edf: 0,
        extended_server_info: ExtendedServerInfo {
            port: None,
            steam_id: None,
            keywords: None,
            game_id: None,
        },
        source_tv: None,
    };
    let bytes = info.to_bytes();
    let decoded = decode(bytes[4..].to_vec()).unwrap();
    assert_eq!(decoded, info);
}

#[test]
fn ship_mode_bytes() {
    assert_eq!(TheShipMode::from_u8(0), TheShipMode::Hunt);
    assert_eq!(TheShipMode::from_u8(5), TheShipMode::TeamElimination);
    assert_eq!(TheShipMode::from_u8(77), TheShipMode::Unknown);
    assert_eq!(TheShipMode::Unknown.to_u8(), 255);
    assert_eq!(TheShipMode::Deathmatch.to_u8(), 3);
}

#[test]
fn info_response_with_challenge_marker() {
    let mut data = vec![0x41];
    data.extend_from_slice(&0x1234_5678i32.to_le_bytes());
    match handle_info_response(data).unwrap() {
        InfoResponse::Challenge(token) => assert_eq!(token, 0x1234_5678),
        InfoResponse::Record(_) => panic!("expected a challenge"),
    }
}

#[test]
fn info_response_with_record() {
    match handle_info_response(minimal_info_payload(true)).unwrap() {
        InfoResponse::Record(info) => assert_eq!(info.map, "de_dust"),
        InfoResponse::Challenge(_) => panic!("expected a record"),
    }
}

#[test]
fn extended_fields_decode_from_raw_bytes() {
    // Hand-built payload with port (0x80), platform id (0x10) and spectator
    // sub-record (0x40) present, keywords and game id absent.
    let mut p = vec![0x49, 0x30];
    p.extend_from_slice(b"n\0m\0f\0g\0");
    p.extend_from_slice(&440u16.to_le_bytes());
    p.extend_from_slice(&[1, 2, 0, b'p', b'w', 1, 0]);
    p.extend_from_slice(b"6.0\0");
    p.push(0x80 | 0x10 | 0x40);
    p.extend_from_slice(&27015u16.to_le_bytes());
    p.extend_from_slice(&0x0102_0304_0506_0708u64.to_le_bytes());
    p.extend_from_slice(&27020u16.to_le_bytes());
    p.extend_from_slice(b"relay\0");
    let info = decode(p).unwrap();
    assert_eq!(info.server_type, ServerType::SourceTV);
    assert_eq!(info.edf, 0xd0);
    assert_eq!(info.extended_server_info.port, Some(27015));
    assert_eq!(info.extended_server_info.steam_id, Some(0x0102_0304_0506_0708));
    assert_eq!(info.extended_server_info.keywords, None);
    assert_eq!(info.extended_server_info.game_id, None);
    let tv = info.source_tv.unwrap();
    assert_eq!(tv.port, 27020);
    assert_eq!(tv.name, "relay");
}

#[test]
fn truncated_extended_field_is_io_error() {
    let mut p = minimal_info_payload(false);
    p.push(0x10); // platform id announced
    p.extend_from_slice(&[1, 2, 3]); // but only three of its eight bytes follow
    assert_eq!(decode(p).err().unwrap(), Error::Io);
}
