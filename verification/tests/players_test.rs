use a2s::cursor::Cursor;
use a2s::errors::Error;
use a2s::players::Player;

fn player_entry(index: u8, name: &str, score: i32, duration: f32) -> Vec<u8> {
    let mut e = vec![index];
    e.extend_from_slice(name.as_bytes());
    e.push(0);
    e.extend_from_slice(&score.to_le_bytes());
    e.extend_from_slice(&duration.to_le_bytes());
    e
}

#[test]
fn players_decode() {
    let mut p = vec![0x44, 0x02];
    p.extend_from_slice(&player_entry(0, "alice", 12, 7.5));
    p.extend_from_slice(&player_entry(0, "bob", -3, 120.25));
    let players = Player::from_cursor(Cursor::new(p), 0).unwrap();
    assert_eq!(players.len(), 2);
    assert_eq!(players[0].name, "alice");
    assert_eq!(players[0].score, 12);
    assert_eq!(f32::from_bits(players[0].duration_bits), 7.5);
    assert_eq!(players[1].name, "bob");
    assert_eq!(players[1].score, -3);
    assert_eq!(f32::from_bits(players[1].duration_bits), 120.25);
    assert_eq!(players[1].the_ship, None);
}

#[test]
fn players_decode_the_ship_extension() {
    let mut p = vec![0x44, 0x01];
    p.extend_from_slice(&player_entry(0, "sailor", 5, 1.0));
    p.extend_from_slice(&7u32.to_le_bytes()); // deaths
    p.extend_from_slice(&1200u32.to_le_bytes()); // money
    let players = Player::from_cursor(Cursor::new(p), 2400).unwrap();
    let extra = players[0].the_ship.unwrap();
    assert_eq!(extra.deaths, 7);
    assert_eq!(extra.money, 1200);
}

#[test]
fn players_wrong_discriminant() {
    let p = vec![0x49, 0x00];
    assert_eq!(
        Player::from_cursor(Cursor::new(p), 0).err().unwrap(),
        Error::InvalidResponse
    );
}

#[test]
fn players_truncated_entry() {
    let mut p = vec![0x44, 0x01];
    p.extend_from_slice(&[0, b'x', 0, 1, 2]); // score cut short
    assert_eq!(
        Player::from_cursor(Cursor::new(p), 0).err().unwrap(),
        Error::Io
    );
}

#[test]
fn players_empty_payload() {
    assert_eq!(
        Player::from_cursor(Cursor::new(Vec::new()), 0).err().unwrap(),
        Error::Io
    );
}
