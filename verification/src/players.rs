//! The player-list record.
//!
//! A players payload is the discriminant byte 0x44, a count byte, then that
//! many fixed-layout player entries: slot index, null-terminated name,
//! 32-bit score, 32-bit float connection time (kept here as its raw
//! little-endian bits), each extended by a two-field block when the target
//! title (application id 2400) is being queried.

use crate::cursor::{cstr_chars, cstr_next, le_u32_at, Cursor};
use crate::errors::Error;
use vstd::prelude::*;

verus! {

broadcast use crate::cursor::Cursor::lemma_wf_bounds;

/// Leading discriminant byte of a players payload: `'D'`.
pub const PLAYERS_DISCRIMINANT: u8 = 0x44;

/// The application id of the one title with a bespoke player extension.
pub const THE_SHIP_APP_ID: u16 = 2400;

/// Per-player extension carried only by servers of that one title.
#[derive(Debug, Clone, Copy, PartialEq, Eq, Structural)]
pub struct TheShipPlayer {
    pub deaths: u32,

    pub money: u32,
}

/// One connected player.
#[derive(Debug, Clone, PartialEq)]
pub struct Player {
    /// Index of player chunk starting from 0.
    pub index: u8,

    /// Name of the player.
    pub name: String,

    /// Player's score (usually "frags" or "kills".)
    pub score: i32,

    /// Time (in seconds) the player has been connected, as the raw bits of a
    /// little-endian 32-bit float. The caller interprets the bits.
    pub duration_bits: u32,

    /// Title-specific additional player info.
    pub the_ship: Option<TheShipPlayer>,
}

/// The mathematical value of a player entry.
pub ghost struct PlayerV {
    pub index: u8,
    pub name: Seq<char>,
    pub score: i32,
    pub duration_bits: u32,
    pub the_ship: Option<TheShipPlayer>,
}

impl View for Player {
    type V = PlayerV;

    open spec fn view(&self) -> PlayerV {
        PlayerV {
            index: self.index,
            name: self.name@,
            score: self.score,
            duration_bits: self.duration_bits,
            the_ship: self.the_ship,
        }
    }
}

/// The player values held by a sequence of players.
pub open spec fn player_views(s: Seq<Player>) -> Seq<PlayerV> {
    s.map_values(|p: Player| p@)
}

/// One player entry read from `b` at `i`, and the position after it; `None`
/// when the buffer ends inside a fixed-width field.
pub open spec fn parse_player(b: Seq<u8>, i: int, ship: bool) -> Option<(PlayerV, int)> {
    if i >= b.len() {
        None
    } else {
        let index = b[i];
        let name = cstr_chars(b, i + 1);
        let j = cstr_next(b, i + 1);
        if j + 8 > b.len() {
            None
        } else {
            let score = le_u32_at(b, j) as i32;
            let duration_bits = le_u32_at(b, j + 4);
            if ship {
                if j + 16 > b.len() {
                    None
                } else {
                    let extra = TheShipPlayer {
                        deaths: le_u32_at(b, j + 8),
                        money: le_u32_at(b, j + 12),
                    };
                    Some(
                        (
                            PlayerV { index, name, score, duration_bits, the_ship: Some(extra) },
                            j + 16,
                        ),
                    )
                }
            } else {
                Some((PlayerV { index, name, score, duration_bits, the_ship: None }, j + 8))
            }
        }
    }
}

/// `n` player entries read from `b` at `i`, and the position after them.
pub open spec fn parse_player_list(b: Seq<u8>, i: int, n: nat, ship: bool) -> Option<
    (Seq<PlayerV>, int),
>
    decreases n,
{
    if n == 0 {
        Some((Seq::<PlayerV>::empty(), i))
    } else {
        match parse_player(b, i, ship) {
            None => None,
            Some(first) => match parse_player_list(b, first.1, (n - 1) as nat, ship) {
                None => None,
                Some(rest) => Some((seq![first.0] + rest.0, rest.1)),
            },
        }
    }
}

/// What decoding a players payload yields.
pub ghost enum PlayersParse {
    /// The decoded players and the position just after them.
    Parsed(Seq<PlayerV>, int),
    /// The buffer ended inside the discriminant, the count, or a field.
    Short,
    /// The leading byte was not the players discriminant.
    WrongType,
}

/// The players record denoted by `b` from position `i` on, when queried with
/// `app_id`: discriminant, count, entries.
pub open spec fn parse_players(b: Seq<u8>, i: int, app_id: u16) -> PlayersParse {
    if i >= b.len() {
        PlayersParse::Short
    } else if b[i] != PLAYERS_DISCRIMINANT {
        PlayersParse::WrongType
    } else if i + 2 > b.len() {
        PlayersParse::Short
    } else {
        let n = b[i + 1];
        match parse_player_list(b, i + 2, n as nat, app_id == THE_SHIP_APP_ID) {
            None => PlayersParse::Short,
            Some(list) => PlayersParse::Parsed(list.0, list.1),
        }
    }
}

impl Player {
    /// Decodes a players payload: the discriminant byte 0x44, a count byte,
    /// then that many player entries, extended with the title-specific block
    /// when `app_id` is 2400. Fails with `InvalidResponse` on a wrong
    /// discriminant and with `Io` when the buffer ends inside a field.
    #[verifier::loop_isolation(false)]
    pub fn from_cursor(data: Cursor, app_id: u16) -> (r: Result<Vec<Player>, Error>)
        requires
            data.wf(),
        ensures
            match parse_players(data.bytes(), data.position(), app_id) {
                PlayersParse::Parsed(ps, _) => r matches Ok(v) && player_views(v@) == ps,
                PlayersParse::Short => r == Err::<Vec<Player>, Error>(Error::Io),
                PlayersParse::WrongType => r == Err::<Vec<Player>, Error>(Error::InvalidResponse),
            },
    {
        let ghost b = data.bytes();
        let ghost p0 = data.position();
        let ship = app_id == THE_SHIP_APP_ID;
        let mut data = data;
        let discriminant = match data.read_u8() {
            Ok(v) => v,
            Err(e) => {
                return Err(e);
            },
        };
        if discriminant != PLAYERS_DISCRIMINANT {
            return Err(Error::InvalidResponse);
        }
        let count = match data.read_u8() {
            Ok(v) => v,
            Err(e) => {
                return Err(e);
            },
        };
        let ghost expected = parse_player_list(b, data.position(), count as nat, ship);
        let mut players: Vec<Player> = Vec::new();
        let mut k: u8 = 0;
        proof {
            assert(player_views(players@) =~= Seq::<PlayerV>::empty());
        }
        while k < count
            invariant
                k <= count,
                data.wf(),
                data.bytes() == b,
                players@.len() == k,
                p0 + 2 <= b.len(),
                b[p0] == PLAYERS_DISCRIMINANT,
                count == b[p0 + 1],
                ship == (app_id == THE_SHIP_APP_ID),
                expected == parse_player_list(b, p0 + 2, count as nat, ship),
                ({
                    let rest = parse_player_list(b, data.position(), (count - k) as nat, ship);
                    match rest {
                        None => expected is None,
                        Some(r2) => expected == Some(
                            (player_views(players@) + r2.0, r2.1),
                        ),
                    }
                }),
            decreases count - k,
        {
            let ghost before = data.position();
            let ghost acc0 = player_views(players@);
            let index = match data.read_u8() {
                Ok(v) => v,
                Err(e) => {
                    proof {
                        assert(parse_player(b, before, ship) is None);
                        assert(parse_player_list(b, before, (count - k) as nat, ship) is None);
                        assert(parse_players(b, p0, app_id) is Short);
                    }
                    return Err(e);
                },
            };
            let name = data.read_cstring();
            let score = match data.read_i32() {
                Ok(v) => v,
                Err(e) => {
                    proof {
                        assert(parse_player(b, before, ship) is None);
                        assert(parse_player_list(b, before, (count - k) as nat, ship) is None);
                        assert(parse_players(b, p0, app_id) is Short);
                    }
                    return Err(e);
                },
            };
            let duration_bits = match data.read_f32_bits() {
                Ok(v) => v,
                Err(e) => {
                    proof {
                        assert(parse_player(b, before, ship) is None);
                        assert(parse_player_list(b, before, (count - k) as nat, ship) is None);
                        assert(parse_players(b, p0, app_id) is Short);
                    }
                    return Err(e);
                },
            };
            let the_ship: Option<TheShipPlayer> = if ship {
                let deaths = match data.read_u32() {
                    Ok(v) => v,
                    Err(e) => {
                        proof {
                            assert(parse_player(b, before, ship) is None);
                            assert(parse_player_list(b, before, (count - k) as nat, ship) is None);
                            assert(parse_players(b, p0, app_id) is Short);
                        }
                        return Err(e);
                    },
                };
                let money = match data.read_u32() {
                    Ok(v) => v,
                    Err(e) => {
                        proof {
                            assert(parse_player(b, before, ship) is None);
                            assert(parse_player_list(b, before, (count - k) as nat, ship) is None);
                            assert(parse_players(b, p0, app_id) is Short);
                        }
                        return Err(e);
                    },
                };
                Some(TheShipPlayer { deaths, money })
            } else {
                None
            };
            let p = Player { index, name, score, duration_bits, the_ship };
            proof {
                let step = parse_player(b, before, ship);
                assert(step == Some((p@, data.position())));
            }
            players.push(p);
            proof {
                let rest = parse_player_list(b, data.position(), (count - k - 1) as nat, ship);
                assert(player_views(players@) =~= acc0.push(p@));
                match rest {
                    None => {},
                    Some(r2) => {
                        assert(acc0 + (seq![p@] + r2.0) =~= player_views(players@) + r2.0);
                    },
                }
            }
            k = k + 1;
        }
        proof {
            let rest = parse_player_list(b, data.position(), 0, ship);
            assert(rest == Some((Seq::<PlayerV>::empty(), data.position())));
            assert(player_views(players@) + Seq::<PlayerV>::empty() =~= player_views(players@));
        }
        Ok(players)
    }
}

/// The fixed players request: the 4-byte prefix and the byte 0x55.
pub open spec fn player_request_bytes() -> Seq<u8> {
    seq![0xffu8, 0xffu8, 0xffu8, 0xffu8, 0x55u8]
}

/// Builds the players request header.
pub fn player_request() -> (r: Vec<u8>)
    ensures
        r@ == player_request_bytes(),
{
    let v: Vec<u8> = vec![0xff, 0xff, 0xff, 0xff, 0x55];
    proof {
        assert(v@ =~= player_request_bytes());
    }
    v
}

} // verus!
