//! The server-info record.
//!
//! An info payload is the discriminant byte 0x49 followed by a fixed run of
//! fields, a title-specific block, a version string, and an optional trailing
//! flags byte that gates further optional fields. A missing flags byte at the
//! end of the buffer means "no extra fields" and is not an error.

use crate::challenge::CHALLENGE_MARKER;
use crate::strings::{cstr_wire, no_nul};
use crate::cursor::{cstr_chars, cstr_next, le_u16_at, le_u32_at, le_u64_at, Cursor};
use crate::errors::Error;
use crate::players::THE_SHIP_APP_ID;
use vstd::bytes::{lemma_auto_spec_u16_to_from_le_bytes, lemma_auto_spec_u64_to_from_le_bytes, spec_u16_to_le_bytes, spec_u64_to_le_bytes, u16_to_le_bytes, u64_to_le_bytes};
use vstd::prelude::*;
use vstd::utf8::encode_utf8;

verus! {

broadcast use crate::cursor::Cursor::lemma_wf_bounds;

/// Leading discriminant byte of an info payload: `'I'`.
pub const INFO_DISCRIMINANT: u8 = 0x49;

/// Extra-data-flag bit gating the game port field.
pub const EDF_PORT: u8 = 0x80;

/// Extra-data-flag bit gating the server's 64-bit platform id.
pub const EDF_STEAM_ID: u8 = 0x10;

/// Extra-data-flag bit gating the keywords string.
pub const EDF_KEYWORDS: u8 = 0x20;

/// Extra-data-flag bit gating the 64-bit game id.
pub const EDF_GAME_ID: u8 = 0x01;

/// Extra-data-flag bit gating the spectator sub-record.
pub const EDF_SOURCE_TV: u8 = 0x40;

/// Indicates the game mode of the one title with a bespoke extension.
#[derive(Debug, Clone, Copy, PartialEq, Eq, Structural)]
pub enum TheShipMode {
    Hunt,
    Elimination,
    Duel,
    Deathmatch,
    VIPTeam,
    TeamElimination,
    Unknown,
}

/// The mode denoted by a wire byte; every unlisted value is the documented
/// open-set fallback, not an error.
pub open spec fn ship_mode_of(v: u8) -> TheShipMode {
    if v == 0 {
        TheShipMode::Hunt
    } else if v == 1 {
        TheShipMode::Elimination
    } else if v == 2 {
        TheShipMode::Duel
    } else if v == 3 {
        TheShipMode::Deathmatch
    } else if v == 4 {
        TheShipMode::VIPTeam
    } else if v == 5 {
        TheShipMode::TeamElimination
    } else {
        TheShipMode::Unknown
    }
}

/// The wire byte of a mode; the fallback mode is written as 255.
pub open spec fn ship_mode_byte(m: TheShipMode) -> u8 {
    match m {
        TheShipMode::Hunt => 0,
        TheShipMode::Elimination => 1,
        TheShipMode::Duel => 2,
        TheShipMode::Deathmatch => 3,
        TheShipMode::VIPTeam => 4,
        TheShipMode::TeamElimination => 5,
        TheShipMode::Unknown => 255,
    }
}

impl TheShipMode {
    /// The mode denoted by a wire byte; unlisted values fall back to
    /// `Unknown`.
    pub fn from_u8(v: u8) -> (r: TheShipMode)
        ensures
            r == ship_mode_of(v),
    {
        match v {
            0 => TheShipMode::Hunt,
            1 => TheShipMode::Elimination,
            2 => TheShipMode::Duel,
            3 => TheShipMode::Deathmatch,
            4 => TheShipMode::VIPTeam,
            5 => TheShipMode::TeamElimination,
            _ => TheShipMode::Unknown,
        }
    }

    /// The wire byte of this mode.
    pub fn to_u8(&self) -> (r: u8)
        ensures
            r == ship_mode_byte(*self),
    {
        match self {
            TheShipMode::Hunt => 0,
            TheShipMode::Elimination => 1,
            TheShipMode::Duel => 2,
            TheShipMode::Deathmatch => 3,
            TheShipMode::VIPTeam => 4,
            TheShipMode::TeamElimination => 5,
            TheShipMode::Unknown => 255,
        }
    }
}

/// Title-specific block of the info record.
#[derive(Debug, Clone, Copy, PartialEq, Eq, Structural)]
pub struct TheShip {
    /// Indicates the game mode.
    pub mode: TheShipMode,

    /// The number of witnesses necessary to have a player arrested.
    pub witnesses: u8,

    /// Time (in seconds) before a player is arrested while being witnessed.
    pub duration: u8,
}

/// Indicates the type of server.
#[derive(Debug, Clone, Copy, PartialEq, Eq, Structural)]
pub enum ServerType {
    Dedicated,
    NonDedicated,
    SourceTV,
}

/// The server type denoted by a wire byte: `'d'`, `'i'` or `'p'`; everything
/// else is an error.
pub open spec fn server_type_of(v: u8) -> Option<ServerType> {
    if v == 0x64 {
        Some(ServerType::Dedicated)
    } else if v == 0x69 {
        Some(ServerType::NonDedicated)
    } else if v == 0x70 {
        Some(ServerType::SourceTV)
    } else {
        None
    }
}

/// The wire byte of a server type.
pub open spec fn server_type_byte(t: ServerType) -> u8 {
    match t {
        ServerType::Dedicated => 0x64,
        ServerType::NonDedicated => 0x69,
        ServerType::SourceTV => 0x70,
    }
}

impl ServerType {
    /// The server type denoted by a wire byte; any byte outside the closed
    /// set is a decode error, never a default.
    pub fn try_from(v: u8) -> (r: Result<ServerType, Error>)
        ensures
            server_type_of(v) matches Some(t) ==> r == Ok::<ServerType, Error>(t),
            server_type_of(v) is None ==> (r matches Err(e) && e matches Error::Other(m) && m@
                == "Invalid server type"@),
    {
        match v {
            0x64 => Ok(ServerType::Dedicated),
            0x69 => Ok(ServerType::NonDedicated),
            0x70 => Ok(ServerType::SourceTV),
            _ => Err(Error::Other("Invalid server type")),
        }
    }

    /// The wire byte of this server type.
    pub fn as_u8(&self) -> (r: u8)
        ensures
            r == server_type_byte(*self),
    {
        match self {
            ServerType::Dedicated => 0x64,
            ServerType::NonDedicated => 0x69,
            ServerType::SourceTV => 0x70,
        }
    }
}

/// Indicates the operating system of the server.
#[derive(Debug, Clone, Copy, PartialEq, Eq, Structural)]
pub enum ServerOS {
    Linux,
    Windows,
    Mac,
}

/// The operating system denoted by a wire byte: `'l'`, `'w'`, or `'m'`/`'o'`
/// for Mac; everything else is an error.
pub open spec fn server_os_of(v: u8) -> Option<ServerOS> {
    if v == 0x6c {
        Some(ServerOS::Linux)
    } else if v == 0x77 {
        Some(ServerOS::Windows)
    } else if v == 0x6d || v == 0x6f {
        Some(ServerOS::Mac)
    } else {
        None
    }
}

/// The wire byte of an operating system; Mac is written as `'m'`.
pub open spec fn server_os_byte(o: ServerOS) -> u8 {
    match o {
        ServerOS::Linux => 0x6c,
        ServerOS::Windows => 0x77,
        ServerOS::Mac => 0x6d,
    }
}

impl ServerOS {
    /// The operating system denoted by a wire byte; any byte outside the
    /// closed set is a decode error, never a default.
    pub fn try_from(v: u8) -> (r: Result<ServerOS, Error>)
        ensures
            server_os_of(v) matches Some(o) ==> r == Ok::<ServerOS, Error>(o),
            server_os_of(v) is None ==> (r matches Err(e) && e matches Error::Other(m) && m@
                == "Invalid environment"@),
    {
        match v {
            0x6c => Ok(ServerOS::Linux),
            0x77 => Ok(ServerOS::Windows),
            0x6d | 0x6f => Ok(ServerOS::Mac),
            _ => Err(Error::Other("Invalid environment")),
        }
    }

    /// The wire byte of this operating system.
    pub fn as_u8(&self) -> (r: u8)
        ensures
            r == server_os_byte(*self),
    {
        match self {
            ServerOS::Linux => 0x6c,
            ServerOS::Windows => 0x77,
            ServerOS::Mac => 0x6d,
        }
    }
}

/// The optional fields gated by the extra-data flags.
#[derive(Debug, Clone, PartialEq)]
pub struct ExtendedServerInfo {
    /// The server's game port number. Present when edf & 0x80 is set.
    pub port: Option<u16>,

    /// The server's 64-bit platform id. Present when edf & 0x10 is set.
    pub steam_id: Option<u64>,

    /// Tags that describe the game according to the server. Present when
    /// edf & 0x20 is set.
    pub keywords: Option<String>,

    /// The server's 64-bit game id; its low 24 bits are a more accurate
    /// application id than the 16-bit field. Present when edf & 0x01 is set.
    pub game_id: Option<u64>,
}

/// The mathematical value of the optional fields.
pub ghost struct ExtV {
    pub port: Option<u16>,
    pub steam_id: Option<u64>,
    pub keywords: Option<Seq<char>>,
    pub game_id: Option<u64>,
}

impl View for ExtendedServerInfo {
    type V = ExtV;

    open spec fn view(&self) -> ExtV {
        ExtV {
            port: self.port,
            steam_id: self.steam_id,
            keywords: match self.keywords {
                Some(ref s) => Some(s@),
                None => None,
            },
            game_id: self.game_id,
        }
    }
}

/// The spectator sub-record. Present when edf & 0x40 is set.
#[derive(Debug, Clone, PartialEq)]
pub struct SourceTVInfo {
    /// Spectator port number.
    pub port: u16,

    /// Name of the spectator server.
    pub name: String,
}

/// The mathematical value of the spectator sub-record.
pub ghost struct SourceTVV {
    pub port: u16,
    pub name: Seq<char>,
}

impl View for SourceTVInfo {
    type V = SourceTVV;

    open spec fn view(&self) -> SourceTVV {
        SourceTVV { port: self.port, name: self.name@ }
    }
}

/// A decoded server-info record.
#[derive(Debug, Clone, PartialEq)]
pub struct Info {
    /// Protocol version used by the server.
    pub protocol: u8,

    /// Name of the server.
    pub name: String,

    /// Map the server has currently loaded.
    pub map: String,

    /// Name of the folder containing the game files.
    pub folder: String,

    /// Full name of the game.
    pub game: String,

    /// Application id of the game.
    pub app_id: u16,

    /// Number of players on the server.
    pub players: u8,

    /// Maximum number of players the server reports it can hold.
    pub max_players: u8,

    /// Number of bots on the server.
    pub bots: u8,

    /// Indicates the type of server.
    pub server_type: ServerType,

    /// Indicates the operating system of the server.
    pub server_os: ServerOS,

    /// Indicates whether the server requires a password.
    pub visibility: bool,

    /// Indicates whether the server uses anti-cheat protection.
    pub vac: bool,

    /// Present exactly when the server runs the one title with a bespoke
    /// extension (application id 2400).
    pub the_ship: Option<TheShip>,

    /// Version of the game installed on the server.
    pub version: String,

    /// The extra-data flags: which optional fields follow. Zero when the
    /// trailing byte was absent.
    pub edf: u8,

    /// The optional fields the flags gate.
    pub extended_server_info: ExtendedServerInfo,

    /// The spectator sub-record. Present when edf & 0x40 is set.
    pub source_tv: Option<SourceTVInfo>,
}

/// The mathematical value of an info record.
pub ghost struct InfoV {
    pub protocol: u8,
    pub name: Seq<char>,
    pub map: Seq<char>,
    pub folder: Seq<char>,
    pub game: Seq<char>,
    pub app_id: u16,
    pub players: u8,
    pub max_players: u8,
    pub bots: u8,
    pub server_type: ServerType,
    pub server_os: ServerOS,
    pub visibility: bool,
    pub vac: bool,
    pub the_ship: Option<TheShip>,
    pub version: Seq<char>,
    pub edf: u8,
    pub extended_server_info: ExtV,
    pub source_tv: Option<SourceTVV>,
}

impl View for Info {
    type V = InfoV;

    open spec fn view(&self) -> InfoV {
        InfoV {
            protocol: self.protocol,
            name: self.name@,
            map: self.map@,
            folder: self.folder@,
            game: self.game@,
            app_id: self.app_id,
            players: self.players,
            max_players: self.max_players,
            bots: self.bots,
            server_type: self.server_type,
            server_os: self.server_os,
            visibility: self.visibility,
            vac: self.vac,
            the_ship: self.the_ship,
            version: self.version@,
            edf: self.edf,
            extended_server_info: self.extended_server_info@,
            source_tv: match self.source_tv {
                Some(ref t) => Some(t@),
                None => None,
            },
        }
    }
}

/// The fixed fields of an info record through the two boolean flags.
pub ghost struct InfoHead {
    pub protocol: u8,
    pub name: Seq<char>,
    pub map: Seq<char>,
    pub folder: Seq<char>,
    pub game: Seq<char>,
    pub app_id: u16,
    pub players: u8,
    pub max_players: u8,
    pub bots: u8,
    pub server_type: ServerType,
    pub server_os: ServerOS,
    pub visibility: bool,
    pub vac: bool,
}

/// What decoding the fixed fields yields.
pub ghost enum HeadParse {
    Parsed(InfoHead, int),
    Short,
    WrongType,
    BadServerType,
    BadEnv,
}

/// What decoding a whole info payload yields.
pub ghost enum InfoParse {
    /// The decoded record and the position just after it.
    Parsed(InfoV, int),
    /// The buffer ended inside a required field.
    Short,
    /// The leading byte was not the info discriminant.
    WrongType,
    /// The server type byte was outside its closed set.
    BadServerType,
    /// The operating system byte was outside its closed set.
    BadEnv,
}

/// The fixed fields read from `b` at `i`: discriminant, protocol, four
/// strings, application id, three counts, two enumerated bytes, two flags.
pub open spec fn parse_info_head(b: Seq<u8>, i: int) -> HeadParse {
    if i >= b.len() {
        HeadParse::Short
    } else if b[i] != INFO_DISCRIMINANT {
        HeadParse::WrongType
    } else if i + 2 > b.len() {
        HeadParse::Short
    } else {
        let protocol = b[i + 1];
        let name = cstr_chars(b, i + 2);
        let i1 = cstr_next(b, i + 2);
        let map = cstr_chars(b, i1);
        let i2 = cstr_next(b, i1);
        let folder = cstr_chars(b, i2);
        let i3 = cstr_next(b, i2);
        let game = cstr_chars(b, i3);
        let i4 = cstr_next(b, i3);
        if i4 + 2 > b.len() {
            HeadParse::Short
        } else {
            let app_id = le_u16_at(b, i4);
            if i4 + 6 > b.len() {
                HeadParse::Short
            } else {
                match server_type_of(b[i4 + 5]) {
                    None => HeadParse::BadServerType,
                    Some(server_type) => {
                        if i4 + 7 > b.len() {
                            HeadParse::Short
                        } else {
                            match server_os_of(b[i4 + 6]) {
                                None => HeadParse::BadEnv,
                                Some(server_os) => {
                                    if i4 + 9 > b.len() {
                                        HeadParse::Short
                                    } else {
                                        HeadParse::Parsed(
                                            InfoHead {
                                                protocol,
                                                name,
                                                map,
                                                folder,
                                                game,
                                                app_id,
                                                players: b[i4 + 2],
                                                max_players: b[i4 + 3],
                                                bots: b[i4 + 4],
                                                server_type,
                                                server_os,
                                                visibility: b[i4 + 7] != 0,
                                                vac: b[i4 + 8] != 0,
                                            },
                                            i4 + 9,
                                        )
                                    }
                                },
                            }
                        }
                    },
                }
            }
        }
    }
}

/// The optional fields read from `b` at `i` under the flags `edf`, in wire
/// order: port, platform id, keywords, game id.
pub open spec fn parse_extended(b: Seq<u8>, i: int, edf: u8) -> Option<(ExtV, int)> {
    if edf & EDF_PORT != 0 && i + 2 > b.len() {
        None
    } else {
        let port = if edf & EDF_PORT != 0 {
            Some(le_u16_at(b, i))
        } else {
            None
        };
        let i1 = if edf & EDF_PORT != 0 {
            i + 2
        } else {
            i
        };
        if edf & EDF_STEAM_ID != 0 && i1 + 8 > b.len() {
            None
        } else {
            let steam_id = if edf & EDF_STEAM_ID != 0 {
                Some(le_u64_at(b, i1))
            } else {
                None
            };
            let i2 = if edf & EDF_STEAM_ID != 0 {
                i1 + 8
            } else {
                i1
            };
            let keywords = if edf & EDF_KEYWORDS != 0 {
                Some(cstr_chars(b, i2))
            } else {
                None
            };
            let i3 = if edf & EDF_KEYWORDS != 0 {
                cstr_next(b, i2)
            } else {
                i2
            };
            if edf & EDF_GAME_ID != 0 && i3 + 8 > b.len() {
                None
            } else {
                let game_id = if edf & EDF_GAME_ID != 0 {
                    Some(le_u64_at(b, i3))
                } else {
                    None
                };
                let i4 = if edf & EDF_GAME_ID != 0 {
                    i3 + 8
                } else {
                    i3
                };
                Some((ExtV { port, steam_id, keywords, game_id }, i4))
            }
        }
    }
}

/// The spectator sub-record read from `b` at `i` when its flag is set.
pub open spec fn parse_source_tv(b: Seq<u8>, i: int, edf: u8) -> Option<
    (Option<SourceTVV>, int),
> {
    if edf & EDF_SOURCE_TV == 0 {
        Some((None, i))
    } else if i + 2 > b.len() {
        None
    } else {
        let port = le_u16_at(b, i);
        let name = cstr_chars(b, i + 2);
        Some((Some(SourceTVV { port, name }), cstr_next(b, i + 2)))
    }
}

/// The rest of an info record after the fixed fields: the title-specific
/// block, the version string, the optional flags byte (absent at the end of
/// the buffer means zero), and the fields the flags gate.
pub open spec fn parse_info_rest(b: Seq<u8>, i: int, h: InfoHead) -> InfoParse {
    if h.app_id == THE_SHIP_APP_ID && i + 3 > b.len() {
        InfoParse::Short
    } else {
        let the_ship = if h.app_id == THE_SHIP_APP_ID {
            Some(TheShip { mode: ship_mode_of(b[i]), witnesses: b[i + 1], duration: b[i + 2] })
        } else {
            None
        };
        let j = if h.app_id == THE_SHIP_APP_ID {
            i + 3
        } else {
            i
        };
        let version = cstr_chars(b, j);
        let j1 = cstr_next(b, j);
        let edf = if j1 >= b.len() {
            0u8
        } else {
            b[j1]
        };
        let j2 = if j1 >= b.len() {
            j1
        } else {
            j1 + 1
        };
        match parse_extended(b, j2, edf) {
            None => InfoParse::Short,
            Some(ext) => match parse_source_tv(b, ext.1, edf) {
                None => InfoParse::Short,
                Some(tv) => InfoParse::Parsed(
                    InfoV {
                        protocol: h.protocol,
                        name: h.name,
                        map: h.map,
                        folder: h.folder,
                        game: h.game,
                        app_id: h.app_id,
                        players: h.players,
                        max_players: h.max_players,
                        bots: h.bots,
                        server_type: h.server_type,
                        server_os: h.server_os,
                        visibility: h.visibility,
                        vac: h.vac,
                        the_ship,
                        version,
                        edf,
                        extended_server_info: ext.0,
                        source_tv: tv.0,
                    },
                    tv.1,
                ),
            },
        }
    }
}

/// The info record denoted by `b` from position `i` on.
pub open spec fn parse_info(b: Seq<u8>, i: int) -> InfoParse {
    match parse_info_head(b, i) {
        HeadParse::Parsed(h, j) => parse_info_rest(b, j, h),
        HeadParse::Short => InfoParse::Short,
        HeadParse::WrongType => InfoParse::WrongType,
        HeadParse::BadServerType => InfoParse::BadServerType,
        HeadParse::BadEnv => InfoParse::BadEnv,
    }
}

impl Info {
    /// Decodes an info payload. Fails with `InvalidResponse` on a wrong
    /// discriminant, with a named decode error on a server type or operating
    /// system byte outside its closed set, and with `Io` when the buffer
    /// ends inside a required field; a flags byte absent at the very end is
    /// zero, not an error.
    #[verifier::rlimit(60)]
    #[verifier::spinoff_prover]
    pub fn from_cursor(data: Cursor) -> (r: Result<Info, Error>)
        requires
            data.wf(),
        ensures
            match parse_info(data.bytes(), data.position()) {
                InfoParse::Parsed(v, _) => r matches Ok(info) && info@ == v,
                InfoParse::Short => r == Err::<Info, Error>(Error::Io),
                InfoParse::WrongType => r == Err::<Info, Error>(Error::InvalidResponse),
                InfoParse::BadServerType => r matches Err(e) && e matches Error::Other(m) && m@
                    == "Invalid server type"@,
                InfoParse::BadEnv => r matches Err(e) && e matches Error::Other(m) && m@
                    == "Invalid environment"@,
            },
    {
        let ghost b = data.bytes();
        let ghost p0 = data.position();
        let mut data = data;
        let discriminant = match data.read_u8() {
            Ok(v) => v,
            Err(e) => {
                return Err(e);
            },
        };
        if discriminant != INFO_DISCRIMINANT {
            return Err(Error::InvalidResponse);
        }
        let protocol = match data.read_u8() {
            Ok(v) => v,
            Err(e) => {
                return Err(e);
            },
        };
        let name = data.read_cstring();
        let map = data.read_cstring();
        let folder = data.read_cstring();
        let game = data.read_cstring();
        let app_id = match data.read_u16() {
            Ok(v) => v,
            Err(e) => {
                return Err(e);
            },
        };
        let players = match data.read_u8() {
            Ok(v) => v,
            Err(e) => {
                return Err(e);
            },
        };
        let max_players = match data.read_u8() {
            Ok(v) => v,
            Err(e) => {
                return Err(e);
            },
        };
        let bots = match data.read_u8() {
            Ok(v) => v,
            Err(e) => {
                return Err(e);
            },
        };
        let type_byte = match data.read_u8() {
            Ok(v) => v,
            Err(e) => {
                return Err(e);
            },
        };
        let server_type = match ServerType::try_from(type_byte) {
            Ok(v) => v,
            Err(e) => {
                proof {
                    assert(parse_info_head(b, p0) is BadServerType);
                }
                return Err(e);
            },
        };
        let os_byte = match data.read_u8() {
            Ok(v) => v,
            Err(e) => {
                return Err(e);
            },
        };
        let server_os = match ServerOS::try_from(os_byte) {
            Ok(v) => v,
            Err(e) => {
                proof {
                    assert(parse_info_head(b, p0) is BadEnv);
                }
                return Err(e);
            },
        };
        let visibility_byte = match data.read_u8() {
            Ok(v) => v,
            Err(e) => {
                return Err(e);
            },
        };
        let vac_byte = match data.read_u8() {
            Ok(v) => v,
            Err(e) => {
                return Err(e);
            },
        };
        let ghost head = InfoHead {
            protocol,
            name: name@,
            map: map@,
            folder: folder@,
            game: game@,
            app_id,
            players,
            max_players,
            bots,
            server_type,
            server_os,
            visibility: visibility_byte != 0,
            vac: vac_byte != 0,
        };
        proof {
            assert(parse_info_head(b, p0) == HeadParse::Parsed(head, data.position()));
        }
        let the_ship: Option<TheShip> = if app_id == THE_SHIP_APP_ID {
            let mode_byte = match data.read_u8() {
                Ok(v) => v,
                Err(e) => {
                    return Err(e);
                },
            };
            let witnesses = match data.read_u8() {
                Ok(v) => v,
                Err(e) => {
                    return Err(e);
                },
            };
            let duration = match data.read_u8() {
                Ok(v) => v,
                Err(e) => {
                    return Err(e);
                },
            };
            Some(TheShip { mode: TheShipMode::from_u8(mode_byte), witnesses, duration })
        } else {
            None
        };
        let version = data.read_cstring();
        let edf = match data.read_u8() {
            Ok(v) => v,
            Err(_) => 0,
        };
        let ghost j2 = data.position();
        let port: Option<u16> = if edf & EDF_PORT != 0 {
            match data.read_u16() {
                Ok(v) => Some(v),
                Err(e) => {
                    return Err(e);
                },
            }
        } else {
            None
        };
        let steam_id: Option<u64> = if edf & EDF_STEAM_ID != 0 {
            match data.read_u64() {
                Ok(v) => Some(v),
                Err(e) => {
                    return Err(e);
                },
            }
        } else {
            None
        };
        let keywords: Option<String> = if edf & EDF_KEYWORDS != 0 {
            Some(data.read_cstring())
        } else {
            None
        };
        let game_id: Option<u64> = if edf & EDF_GAME_ID != 0 {
            match data.read_u64() {
                Ok(v) => Some(v),
                Err(e) => {
                    return Err(e);
                },
            }
        } else {
            None
        };
        let extended_server_info = ExtendedServerInfo { port, steam_id, keywords, game_id };
        proof {
            assert(parse_extended(b, j2, edf) == Some(
                (extended_server_info@, data.position()),
            ));
        }
        let source_tv: Option<SourceTVInfo> = if edf & EDF_SOURCE_TV != 0 {
            let tv_port = match data.read_u16() {
                Ok(v) => v,
                Err(e) => {
                    return Err(e);
                },
            };
            let tv_name = data.read_cstring();
            Some(SourceTVInfo { port: tv_port, name: tv_name })
        } else {
            None
        };
        let info = Info {
            protocol,
            name,
            map,
            folder,
            game,
            app_id,
            players,
            max_players,
            bots,
            server_type,
            server_os,
            visibility: visibility_byte != 0,
            vac: vac_byte != 0,
            the_ship,
            version,
            edf,
            extended_server_info,
            source_tv,
        };
        proof {
            assert(parse_info(b, p0) == InfoParse::Parsed(info@, data.position()));
        }
        Ok(info)
    }
}

/// The wire byte of a boolean flag.
pub open spec fn bool_byte(v: bool) -> u8 {
    if v {
        1
    } else {
        0
    }
}

/// The wire bytes of the title-specific block: empty when absent.
pub open spec fn ship_wire(s: Option<TheShip>) -> Seq<u8> {
    match s {
        None => Seq::<u8>::empty(),
        Some(t) => seq![ship_mode_byte(t.mode), t.witnesses, t.duration],
    }
}

/// The wire bytes of the flags byte: omitted entirely when zero.
pub open spec fn edf_wire(edf: u8) -> Seq<u8> {
    if edf == 0 {
        Seq::<u8>::empty()
    } else {
        seq![edf]
    }
}

/// The wire bytes of an optional 16-bit field.
pub open spec fn opt_u16_wire(v: Option<u16>) -> Seq<u8> {
    match v {
        None => Seq::<u8>::empty(),
        Some(x) => spec_u16_to_le_bytes(x),
    }
}

/// The wire bytes of an optional 64-bit field.
pub open spec fn opt_u64_wire(v: Option<u64>) -> Seq<u8> {
    match v {
        None => Seq::<u8>::empty(),
        Some(x) => spec_u64_to_le_bytes(x),
    }
}

/// The wire bytes of an optional null-terminated string field.
pub open spec fn opt_cstr_wire(v: Option<Seq<char>>) -> Seq<u8> {
    match v {
        None => Seq::<u8>::empty(),
        Some(s) => encode_utf8(s) + seq![0u8],
    }
}

/// The wire bytes of the flag-gated optional fields, in wire order.
pub open spec fn ext_wire(e: ExtV) -> Seq<u8> {
    opt_u16_wire(e.port) + opt_u64_wire(e.steam_id) + opt_cstr_wire(e.keywords) + opt_u64_wire(
        e.game_id,
    )
}

/// The wire bytes of the spectator sub-record: empty when absent.
pub open spec fn tv_wire(v: Option<SourceTVV>) -> Seq<u8> {
    match v {
        None => Seq::<u8>::empty(),
        Some(t) => spec_u16_to_le_bytes(t.port) + encode_utf8(t.name) + seq![0u8],
    }
}

/// The full single-packet info datagram of a record: the 4-byte response
/// header, then every field in wire order.
pub open spec fn info_wire(v: InfoV) -> Seq<u8> {
    seq![0xffu8, 0xffu8, 0xffu8, 0xffu8, INFO_DISCRIMINANT, v.protocol] + cstr_wire(v.name)
        + cstr_wire(v.map) + cstr_wire(v.folder) + cstr_wire(v.game) + spec_u16_to_le_bytes(
        v.app_id,
    ) + seq![
        v.players,
        v.max_players,
        v.bots,
        server_type_byte(v.server_type),
        server_os_byte(v.server_os),
        bool_byte(v.visibility),
        bool_byte(v.vac),
    ] + ship_wire(v.the_ship) + cstr_wire(v.version) + edf_wire(v.edf) + ext_wire(
        v.extended_server_info,
    ) + tv_wire(v.source_tv)
}

impl Info {
    /// The full single-packet info datagram of this record: header,
    /// discriminant, then every field in wire order. Fields the record does
    /// not carry are omitted, the flags byte among them when it is zero.
    /// The full single-packet info datagram of this record: header,
    /// discriminant, then every field in wire order. Fields the record does
    /// not carry are omitted, the flags byte among them when it is zero.
    pub fn to_bytes(&self) -> (r: Vec<u8>)
        ensures
            r@ == info_wire(self@),
    {
        let mut bytes: Vec<u8> = vec![
            0xff, 0xff, 0xff, 0xff, INFO_DISCRIMINANT, self.protocol,
        ];
        proof {
            assert(bytes@ =~= seq![
                0xffu8, 0xffu8, 0xffu8, 0xffu8, INFO_DISCRIMINANT, self.protocol,
            ]);
        }
        let mut part = crate::strings::c_string_bytes(self.name.as_str());
        bytes.append(&mut part);
        let mut part = crate::strings::c_string_bytes(self.map.as_str());
        bytes.append(&mut part);
        let mut part = crate::strings::c_string_bytes(self.folder.as_str());
        bytes.append(&mut part);
        let mut part = crate::strings::c_string_bytes(self.game.as_str());
        bytes.append(&mut part);
        let mut part = u16_to_le_bytes(self.app_id);
        bytes.append(&mut part);
        let mut part: Vec<u8> = vec![
            self.players,
            self.max_players,
            self.bots,
            self.server_type.as_u8(),
            self.server_os.as_u8(),
            if self.visibility { 1 } else { 0 },
            if self.vac { 1 } else { 0 },
        ];
        proof {
            assert(part@ =~= seq![
                self.players,
                self.max_players,
                self.bots,
                server_type_byte(self.server_type),
                server_os_byte(self.server_os),
                bool_byte(self.visibility),
                bool_byte(self.vac),
            ]);
        }
        bytes.append(&mut part);
        let mut part = ship_bytes(&self.the_ship);
        bytes.append(&mut part);
        let mut part = crate::strings::c_string_bytes(self.version.as_str());
        bytes.append(&mut part);
        let mut part = edf_bytes(self.edf);
        bytes.append(&mut part);
        let mut part = ext_bytes(&self.extended_server_info);
        bytes.append(&mut part);
        let mut part = tv_bytes(&self.source_tv);
        bytes.append(&mut part);
        bytes
    }
}

/// The wire bytes of the title-specific block.
fn ship_bytes(s: &Option<TheShip>) -> (r: Vec<u8>)
    ensures
        r@ == ship_wire(*s),
{
    match s {
        Some(ship) => {
            let v: Vec<u8> = vec![ship.mode.to_u8(), ship.witnesses, ship.duration];
            proof {
                assert(v@ =~= ship_wire(*s));
            }
            v
        },
        None => {
            let v: Vec<u8> = Vec::new();
            proof {
                assert(v@ =~= ship_wire(*s));
            }
            v
        },
    }
}

/// The wire bytes of the flags byte, omitted when zero.
fn edf_bytes(edf: u8) -> (r: Vec<u8>)
    ensures
        r@ == edf_wire(edf),
{
    let mut v: Vec<u8> = Vec::new();
    if edf != 0 {
        v.push(edf);
    }
    proof {
        assert(v@ =~= edf_wire(edf));
    }
    v
}

/// The wire bytes of the flag-gated optional fields, in wire order.
fn ext_bytes(e: &ExtendedServerInfo) -> (r: Vec<u8>)
    ensures
        r@ == ext_wire(e@),
{
    let mut v: Vec<u8> = Vec::new();
    match &e.port {
        Some(port) => {
            let mut pb = u16_to_le_bytes(*port);
            v.append(&mut pb);
        },
        None => {},
    }
    match &e.steam_id {
        Some(steam_id) => {
            let mut sb = u64_to_le_bytes(*steam_id);
            v.append(&mut sb);
        },
        None => {},
    }
    match &e.keywords {
        Some(keywords) => {
            crate::strings::push_c_string(&mut v, keywords.as_str());
        },
        None => {},
    }
    match &e.game_id {
        Some(game_id) => {
            let mut gb = u64_to_le_bytes(*game_id);
            v.append(&mut gb);
        },
        None => {},
    }
    proof {
        assert(v@ =~= ext_wire(e@));
    }
    v
}

/// The wire bytes of the spectator sub-record.
fn tv_bytes(tv: &Option<SourceTVInfo>) -> (r: Vec<u8>)
    ensures
        ({
            let tvv = match tv {
                Some(ref t) => Some(t@),
                None => None,
            };
            r@ == tv_wire(tvv)
        }),
{
    match tv {
        Some(t) => {
            let mut v = u16_to_le_bytes(t.port);
            crate::strings::push_c_string(&mut v, t.name.as_str());
            proof {
                assert(v@ =~= tv_wire(Some(t@)));
            }
            v
        },
        None => {
            let v: Vec<u8> = Vec::new();
            proof {
                assert(v@ =~= tv_wire(None::<SourceTVV>));
            }
            v
        },
    }
}

/// The fixed info request: the 4-byte prefix, the byte 0x54, and the query
/// string.
pub open spec fn info_request_bytes() -> Seq<u8> {
    seq![
        0xffu8, 0xffu8, 0xffu8, 0xffu8, 0x54u8, 0x53u8, 0x6fu8, 0x75u8, 0x72u8, 0x63u8, 0x65u8,
        0x20u8, 0x45u8, 0x6eu8, 0x67u8, 0x69u8, 0x6eu8, 0x65u8, 0x20u8, 0x51u8, 0x75u8, 0x65u8,
        0x72u8, 0x79u8, 0x00u8,
    ]
}

/// Builds the info request.
pub fn info_request() -> (r: Vec<u8>)
    ensures
        r@ == info_request_bytes(),
{
    let v: Vec<u8> = vec![
        0xff, 0xff, 0xff, 0xff, 0x54, 0x53, 0x6f, 0x75, 0x72, 0x63, 0x65, 0x20, 0x45, 0x6e, 0x67,
        0x69, 0x6e, 0x65, 0x20, 0x51, 0x75, 0x65, 0x72, 0x79, 0x00,
    ];
    proof {
        assert(v@ =~= info_request_bytes());
    }
    v
}

/// What an info response turned out to be: a challenge to echo before asking
/// again, or the record itself.
pub enum InfoResponse {
    /// The server demands the challenge handshake; echo this token.
    Challenge(i32),
    /// The decoded record.
    Record(Info),
}

/// Decides what an info response payload is. A payload opening with the
/// challenge marker carries a challenge token to echo; anything else is
/// decoded as an info record.
pub fn handle_info_response(data: Vec<u8>) -> (r: Result<InfoResponse, Error>)
    ensures
        data@.len() == 0 ==> r == Err::<InfoResponse, Error>(Error::Io),
        data@.len() >= 1 && data@[0] == CHALLENGE_MARKER && data@.len() < 5 ==> r == Err::<
            InfoResponse,
            Error,
        >(Error::Io),
        data@.len() >= 5 && data@[0] == CHALLENGE_MARKER ==> r == Ok::<InfoResponse, Error>(
            InfoResponse::Challenge(le_u32_at(data@, 1) as i32),
        ),
        data@.len() >= 1 && data@[0] != CHALLENGE_MARKER ==> match parse_info(data@, 0) {
            InfoParse::Parsed(v, _) => r matches Ok(InfoResponse::Record(info)) && info@ == v,
            InfoParse::Short => r == Err::<InfoResponse, Error>(Error::Io),
            InfoParse::WrongType => r == Err::<InfoResponse, Error>(Error::InvalidResponse),
            InfoParse::BadServerType => r matches Err(e) && e matches Error::Other(m) && m@
                == "Invalid server type"@,
            InfoParse::BadEnv => r matches Err(e) && e matches Error::Other(m) && m@
                == "Invalid environment"@,
        },
{
    if data.len() == 0 {
        return Err(Error::Io);
    }
    if data[0] == CHALLENGE_MARKER {
        match crate::challenge::parse_challenge(&data) {
            Ok(token) => Ok(InfoResponse::Challenge(token)),
            Err(e) => Err(e),
        }
    } else {
        match Info::from_cursor(Cursor::new(data)) {
            Ok(info) => Ok(InfoResponse::Record(info)),
            Err(e) => Err(e),
        }
    }
}

/// The fixed fields of a record, as the decoder yields them.
pub open spec fn info_head_of(v: InfoV) -> InfoHead {
    InfoHead {
        protocol: v.protocol,
        name: v.name,
        map: v.map,
        folder: v.folder,
        game: v.game,
        app_id: v.app_id,
        players: v.players,
        max_players: v.max_players,
        bots: v.bots,
        server_type: v.server_type,
        server_os: v.server_os,
        visibility: v.visibility,
        vac: v.vac,
    }
}

/// Length of the fixed fields of a record on the wire, without the 4-byte
/// response header.
pub open spec fn info_head_len(v: InfoV) -> int {
    2 + cstr_wire(v.name).len() as int + cstr_wire(v.map).len() as int + cstr_wire(
        v.folder,
    ).len() as int + cstr_wire(v.game).len() as int + 9
}

/// True when a record can be written to the wire and read back: the
/// presence of each optional part matches its gate (the title-specific block
/// is present exactly for the one special application id, each flag-gated
/// field exactly when its flag bit is set), and no string holds a NUL
/// character.
pub open spec fn info_encodable(v: InfoV) -> bool {
    &&& (v.the_ship is Some <==> v.app_id == THE_SHIP_APP_ID)
    &&& (v.extended_server_info.port is Some <==> v.edf & EDF_PORT != 0)
    &&& (v.extended_server_info.steam_id is Some <==> v.edf & EDF_STEAM_ID != 0)
    &&& (v.extended_server_info.keywords is Some <==> v.edf & EDF_KEYWORDS != 0)
    &&& (v.extended_server_info.game_id is Some <==> v.edf & EDF_GAME_ID != 0)
    &&& (v.source_tv is Some <==> v.edf & EDF_SOURCE_TV != 0)
    &&& no_nul(v.name)
    &&& no_nul(v.map)
    &&& no_nul(v.folder)
    &&& no_nul(v.game)
    &&& no_nul(v.version)
    &&& (v.extended_server_info.keywords matches Some(k) ==> no_nul(k))
    &&& (v.source_tv matches Some(tv) ==> no_nul(tv.name))
}

/// A subsequence standing between a prefix and a suffix is read back whole.
proof fn lemma_segment(pre: Seq<u8>, mid: Seq<u8>, rest: Seq<u8>, w: Seq<u8>)
    requires
        w == pre + mid + rest,
    ensures
        w.len() == pre.len() + mid.len() + rest.len(),
        w.subrange(pre.len() as int, pre.len() as int + mid.len() as int) == mid,
        forall|k: int| 0 <= k < mid.len() ==> w[pre.len() + k] == mid[k],
        forall|k: int| 0 <= k < rest.len() ==> w[pre.len() + mid.len() + k] == rest[k],
{
    assert(w.subrange(pre.len() as int, pre.len() as int + mid.len() as int) =~= mid);
    assert(forall|k: int| 0 <= k < mid.len() ==> w[pre.len() + k] == mid[k]);
}

/// A null-terminated string field standing between a prefix and a suffix is
/// read back whole, with the read ending just after its terminator.
proof fn lemma_cstr_segment(pre: Seq<u8>, s: Seq<char>, rest: Seq<u8>, w: Seq<u8>)
    requires
        no_nul(s),
        w == pre + cstr_wire(s) + rest,
    ensures
        w.len() == pre.len() + cstr_wire(s).len() + rest.len(),
        cstr_chars(w, pre.len() as int) == s,
        cstr_next(w, pre.len() as int) == pre.len() as int + cstr_wire(s).len() as int,
{
    let e = encode_utf8(s);
    let i = pre.len() as int;
    lemma_segment(pre, cstr_wire(s), rest, w);
    assert(w.subrange(i, i + e.len()) =~= e) by {
        assert(forall|k: int| 0 <= k < e.len() ==> w[i + k] == cstr_wire(s)[k]);
        assert(forall|k: int| 0 <= k < e.len() ==> cstr_wire(s)[k] == e[k]);
    }
    assert(w[i + e.len()] == cstr_wire(s)[e.len() as int]);
    assert(w[i + e.len()] == 0);
    crate::cursor::lemma_cstr_reads_encoded(w, i, s);
}

/// The string fields written by `info_wire` are read back exactly.
#[verifier::rlimit(100)]
#[verifier::spinoff_prover]
proof fn lemma_head_strings(v: InfoV)
    requires
        info_encodable(v),
    ensures
        ({
            let w = info_wire(v).skip(4);
            let i1 = 2 + cstr_wire(v.name).len() as int;
            let i2 = i1 + cstr_wire(v.map).len() as int;
            let i3 = i2 + cstr_wire(v.folder).len() as int;
            let i4 = i3 + cstr_wire(v.game).len() as int;
            &&& w[0] == INFO_DISCRIMINANT
            &&& w[1] == v.protocol
            &&& cstr_chars(w, 2) == v.name && cstr_next(w, 2) == i1
            &&& cstr_chars(w, i1) == v.map && cstr_next(w, i1) == i2
            &&& cstr_chars(w, i2) == v.folder && cstr_next(w, i2) == i3
            &&& cstr_chars(w, i3) == v.game && cstr_next(w, i3) == i4
        }),
{
    let w = info_wire(v).skip(4);
    let h2 = seq![INFO_DISCRIMINANT, v.protocol];
    let nw = cstr_wire(v.name);
    let mw = cstr_wire(v.map);
    let fw = cstr_wire(v.folder);
    let gw = cstr_wire(v.game);
    let aw = spec_u16_to_le_bytes(v.app_id);
    let seven = seq![
        v.players,
        v.max_players,
        v.bots,
        server_type_byte(v.server_type),
        server_os_byte(v.server_os),
        bool_byte(v.visibility),
        bool_byte(v.vac),
    ];
    let tail = ship_wire(v.the_ship) + cstr_wire(v.version) + edf_wire(v.edf) + ext_wire(
        v.extended_server_info,
    ) + tv_wire(v.source_tv);
    assert(w =~= h2 + nw + mw + fw + gw + (aw + seven + tail));
    assert(w =~= h2 + cstr_wire(v.name) + (mw + fw + gw + (aw + seven + tail)));
    lemma_cstr_segment(h2, v.name, mw + fw + gw + (aw + seven + tail), w);
    assert(w =~= (h2 + nw) + cstr_wire(v.map) + (fw + gw + (aw + seven + tail)));
    lemma_cstr_segment(h2 + nw, v.map, fw + gw + (aw + seven + tail), w);
    assert(w =~= (h2 + nw + mw) + cstr_wire(v.folder) + (gw + (aw + seven + tail)));
    lemma_cstr_segment(h2 + nw + mw, v.folder, gw + (aw + seven + tail), w);
    assert(w =~= (h2 + nw + mw + fw) + cstr_wire(v.game) + (aw + seven + tail));
    lemma_cstr_segment(h2 + nw + mw + fw, v.game, aw + seven + tail, w);
    assert(w[0] == h2[0] && w[1] == h2[1]);
}

/// The fixed-width fields written by `info_wire` are read back exactly.
#[verifier::rlimit(100)]
#[verifier::spinoff_prover]
proof fn lemma_head_fixed(v: InfoV)
    requires
        info_encodable(v),
    ensures
        ({
            let w = info_wire(v).skip(4);
            let i4 = info_head_len(v) - 9;
            &&& le_u16_at(w, i4) == v.app_id
            &&& w[i4 + 2] == v.players
            &&& w[i4 + 3] == v.max_players
            &&& w[i4 + 4] == v.bots
            &&& w[i4 + 5] == server_type_byte(v.server_type)
            &&& w[i4 + 6] == server_os_byte(v.server_os)
            &&& w[i4 + 7] == bool_byte(v.visibility)
            &&& w[i4 + 8] == bool_byte(v.vac)
            &&& w.len() == info_head_len(v) + ship_wire(v.the_ship).len() + cstr_wire(
                v.version,
            ).len() + edf_wire(v.edf).len() + ext_wire(v.extended_server_info).len() + tv_wire(
                v.source_tv,
            ).len()
        }),
{
    let w = info_wire(v).skip(4);
    let h2 = seq![INFO_DISCRIMINANT, v.protocol];
    let nw = cstr_wire(v.name);
    let mw = cstr_wire(v.map);
    let fw = cstr_wire(v.folder);
    let gw = cstr_wire(v.game);
    let aw = spec_u16_to_le_bytes(v.app_id);
    let seven = seq![
        v.players,
        v.max_players,
        v.bots,
        server_type_byte(v.server_type),
        server_os_byte(v.server_os),
        bool_byte(v.visibility),
        bool_byte(v.vac),
    ];
    let tail = ship_wire(v.the_ship) + cstr_wire(v.version) + edf_wire(v.edf) + ext_wire(
        v.extended_server_info,
    ) + tv_wire(v.source_tv);
    lemma_auto_spec_u16_to_from_le_bytes();
    let i4 = info_head_len(v) - 9;
    assert(w =~= (h2 + nw + mw + fw + gw) + aw + (seven + tail));
    lemma_segment(h2 + nw + mw + fw + gw, aw, seven + tail, w);
    assert(w.subrange(i4, i4 + 2) == aw);
    assert(w =~= (h2 + nw + mw + fw + gw + aw) + seven + tail);
    lemma_segment(h2 + nw + mw + fw + gw + aw, seven, tail, w);
}

/// The fixed fields written by `info_wire` are decoded back exactly.
#[verifier::rlimit(100)]
#[verifier::spinoff_prover]
proof fn lemma_info_head_round_trip(v: InfoV)
    requires
        info_encodable(v),
    ensures
        ({
            let w = info_wire(v).skip(4);
            parse_info_head(w, 0) == HeadParse::Parsed(info_head_of(v), info_head_len(v))
        }),
{
    let w = info_wire(v).skip(4);
    lemma_head_strings(v);
    lemma_head_fixed(v);
    let i4 = info_head_len(v) - 9;
    assert(server_type_of(server_type_byte(v.server_type)) == Some(v.server_type));
    assert(server_os_of(server_os_byte(v.server_os)) == Some(v.server_os));
    assert((bool_byte(v.visibility) != 0) == v.visibility);
    assert((bool_byte(v.vac) != 0) == v.vac);
    assert(parse_info_head(w, 0) == HeadParse::Parsed(info_head_of(v), info_head_len(v)));
}

/// The flag-gated fields written by `info_wire` are decoded back exactly.
#[verifier::rlimit(100)]
#[verifier::spinoff_prover]
proof fn lemma_ext_round_trip(pre: Seq<u8>, e: ExtV, edf: u8, rest: Seq<u8>, w: Seq<u8>)
    requires
        w == pre + ext_wire(e) + rest,
        e.port is Some <==> edf & EDF_PORT != 0,
        e.steam_id is Some <==> edf & EDF_STEAM_ID != 0,
        e.keywords is Some <==> edf & EDF_KEYWORDS != 0,
        e.game_id is Some <==> edf & EDF_GAME_ID != 0,
        e.keywords matches Some(k) ==> no_nul(k),
    ensures
        parse_extended(w, pre.len() as int, edf) == Some(
            (e, pre.len() as int + ext_wire(e).len() as int),
        ),
{
    let i = pre.len() as int;
    let pw = opt_u16_wire(e.port);
    let sw = opt_u64_wire(e.steam_id);
    let kw = opt_cstr_wire(e.keywords);
    let gw = opt_u64_wire(e.game_id);
    let i1: int = i + pw.len() as int;
    let i2: int = i1 + sw.len() as int;
    let i3: int = i2 + kw.len() as int;
    let i4: int = i3 + gw.len() as int;
    lemma_auto_spec_u16_to_from_le_bytes();
    lemma_auto_spec_u64_to_from_le_bytes();
    assert(w == pre + pw + sw + kw + gw + rest) by {
        assert(w =~= pre + pw + sw + kw + gw + rest);
    }
    assert(w =~= pre + pw + (sw + kw + gw + rest));
    lemma_segment(pre, pw, sw + kw + gw + rest, w);
    if edf & EDF_PORT != 0 {
        assert(w.subrange(i, i + 2) == pw);
        assert(le_u16_at(w, i) == e.port->Some_0);
    }
    assert(w =~= (pre + pw) + sw + (kw + gw + rest));
    lemma_segment(pre + pw, sw, kw + gw + rest, w);
    if edf & EDF_STEAM_ID != 0 {
        assert(w.subrange(i1, i1 + 8) == sw);
        assert(le_u64_at(w, i1) == e.steam_id->Some_0);
    }
    match e.keywords {
        Some(k) => {
            assert(kw == cstr_wire(k));
            assert(w =~= (pre + pw + sw) + cstr_wire(k) + (gw + rest));
            lemma_cstr_segment(pre + pw + sw, k, gw + rest, w);
            assert(cstr_chars(w, i2) == k);
            assert(cstr_next(w, i2) == i3);
        },
        None => {},
    }
    assert(w =~= (pre + pw + sw + kw) + gw + rest);
    lemma_segment(pre + pw + sw + kw, gw, rest, w);
    if edf & EDF_GAME_ID != 0 {
        assert(w.subrange(i3, i3 + 8) == gw);
        assert(le_u64_at(w, i3) == e.game_id->Some_0);
    }
    assert(ext_wire(e).len() == pw.len() + sw.len() + kw.len() + gw.len());
    assert(parse_extended(w, i, edf) == Some((e, i4)));
}

/// The title block, version string and flags byte written by `info_wire`
/// are read back exactly.
#[verifier::rlimit(100)]
#[verifier::spinoff_prover]
proof fn lemma_rest_segments(v: InfoV)
    requires
        info_encodable(v),
    ensures
        ({
            let w = info_wire(v).skip(4);
            let hl = info_head_len(v);
            let j = hl + ship_wire(v.the_ship).len() as int;
            let j1 = j + cstr_wire(v.version).len() as int;
            &&& (v.the_ship matches Some(s) ==> w[hl] == ship_mode_byte(s.mode) && w[hl + 1]
                == s.witnesses && w[hl + 2] == s.duration)
            &&& cstr_chars(w, j) == v.version && cstr_next(w, j) == j1
            &&& (v.edf != 0 ==> j1 < w.len() && w[j1] == v.edf)
        }),
{
    let w = info_wire(v).skip(4);
    let hl = info_head_len(v);
    let head = seq![INFO_DISCRIMINANT, v.protocol] + cstr_wire(v.name) + cstr_wire(v.map)
        + cstr_wire(v.folder) + cstr_wire(v.game) + spec_u16_to_le_bytes(v.app_id) + seq![
        v.players,
        v.max_players,
        v.bots,
        server_type_byte(v.server_type),
        server_os_byte(v.server_os),
        bool_byte(v.visibility),
        bool_byte(v.vac),
    ];
    let shipw = ship_wire(v.the_ship);
    let vw = cstr_wire(v.version);
    let edfw = edf_wire(v.edf);
    let extw = ext_wire(v.extended_server_info);
    let tvw = tv_wire(v.source_tv);
    lemma_auto_spec_u16_to_from_le_bytes();
    assert(head.len() == hl);
    assert(w =~= head + shipw + (vw + edfw + (extw + tvw)));
    lemma_segment(head, shipw, vw + edfw + (extw + tvw), w);
    assert(w =~= (head + shipw) + cstr_wire(v.version) + (edfw + (extw + tvw)));
    lemma_cstr_segment(head + shipw, v.version, edfw + (extw + tvw), w);
    let j = hl + shipw.len() as int;
    if v.edf != 0 {
        assert(w =~= (head + shipw + vw) + edfw + (extw + tvw));
        lemma_segment(head + shipw + vw, edfw, extw + tvw, w);
        assert(w[j + vw.len()] == edfw[0]);
    }
}

/// The spectator sub-record written by `info_wire` is decoded back exactly.
#[verifier::rlimit(100)]
#[verifier::spinoff_prover]
proof fn lemma_tv_round_trip(pre: Seq<u8>, tv: Option<SourceTVV>, edf: u8, w: Seq<u8>)
    requires
        w == pre + tv_wire(tv),
        tv is Some <==> edf & EDF_SOURCE_TV != 0,
        tv matches Some(t) ==> no_nul(t.name),
    ensures
        parse_source_tv(w, pre.len() as int, edf) == Some((tv, w.len() as int)),
{
    let i = pre.len() as int;
    lemma_auto_spec_u16_to_from_le_bytes();
    match tv {
        Some(t) => {
            assert(tv_wire(tv) == spec_u16_to_le_bytes(t.port) + cstr_wire(t.name));
            assert(w =~= pre + spec_u16_to_le_bytes(t.port) + cstr_wire(t.name));
            lemma_segment(pre, spec_u16_to_le_bytes(t.port), cstr_wire(t.name), w);
            assert(w.subrange(i, i + 2) == spec_u16_to_le_bytes(t.port));
            assert(le_u16_at(w, i) == t.port);
            assert(w =~= (pre + spec_u16_to_le_bytes(t.port)) + cstr_wire(t.name) + Seq::<
                u8,
            >::empty());
            lemma_cstr_segment(pre + spec_u16_to_le_bytes(t.port), t.name, Seq::<u8>::empty(), w);
            assert(cstr_chars(w, i + 2) == t.name);
            assert(cstr_next(w, i + 2) == w.len());
        },
        None => {
            assert(tv_wire(tv) =~= Seq::<u8>::empty());
            assert(w =~= pre);
        },
    }
}

/// Everything after the fixed fields written by `info_wire` is decoded back
/// exactly.
#[verifier::rlimit(100)]
#[verifier::spinoff_prover]
proof fn lemma_info_rest_round_trip(v: InfoV)
    requires
        info_encodable(v),
    ensures
        ({
            let w = info_wire(v).skip(4);
            parse_info_rest(w, info_head_len(v), info_head_of(v)) == InfoParse::Parsed(
                v,
                w.len() as int,
            )
        }),
{
    let w = info_wire(v).skip(4);
    let hl = info_head_len(v);
    let head = seq![INFO_DISCRIMINANT, v.protocol] + cstr_wire(v.name) + cstr_wire(v.map)
        + cstr_wire(v.folder) + cstr_wire(v.game) + spec_u16_to_le_bytes(v.app_id) + seq![
        v.players,
        v.max_players,
        v.bots,
        server_type_byte(v.server_type),
        server_os_byte(v.server_os),
        bool_byte(v.visibility),
        bool_byte(v.vac),
    ];
    let shipw = ship_wire(v.the_ship);
    let vw = cstr_wire(v.version);
    let edfw = edf_wire(v.edf);
    let extw = ext_wire(v.extended_server_info);
    let tvw = tv_wire(v.source_tv);
    lemma_auto_spec_u16_to_from_le_bytes();
    lemma_head_fixed(v);
    lemma_rest_segments(v);
    let j: int = hl + shipw.len() as int;
    let j1: int = j + vw.len() as int;
    let j2: int = j1 + edfw.len() as int;
    match v.the_ship {
        Some(ship) => {
            assert(ship_mode_of(ship_mode_byte(ship.mode)) == ship.mode);
        },
        None => {},
    }
    if v.edf == 0 {
        let edf0 = v.edf;
        assert(edf0 & EDF_PORT == 0 && edf0 & EDF_STEAM_ID == 0 && edf0 & EDF_KEYWORDS == 0
            && edf0 & EDF_GAME_ID == 0 && edf0 & EDF_SOURCE_TV == 0) by (bit_vector)
            requires
                edf0 == 0,
        ;
        assert(extw =~= Seq::<u8>::empty());
        assert(tvw =~= Seq::<u8>::empty());
        assert(j1 == w.len());
        let ext0 = ExtV { port: None, steam_id: None, keywords: None, game_id: None };
        assert(v.extended_server_info == ext0);
        assert(parse_extended(w, j1, 0u8) == Some((ext0, j1)));
        assert(parse_source_tv(w, j1, 0u8) == Some((None::<SourceTVV>, j1)));
        assert(parse_info_rest(w, hl, info_head_of(v)) == InfoParse::Parsed(v, w.len() as int));
    } else {
        assert(w =~= (head + shipw + vw + edfw) + ext_wire(v.extended_server_info) + tvw);
        lemma_ext_round_trip(head + shipw + vw + edfw, v.extended_server_info, v.edf, tvw, w);
        assert((head + shipw + vw + edfw).len() == j2);
        assert(parse_extended(w, j2, v.edf) == Some((v.extended_server_info, j2 + extw.len())));
        let k0: int = j2 + extw.len() as int;
        assert(w =~= (head + shipw + vw + edfw + extw) + tvw);
        lemma_tv_round_trip(head + shipw + vw + edfw + extw, v.source_tv, v.edf, w);
        assert(parse_source_tv(w, k0, v.edf) == Some((v.source_tv, w.len() as int)));
        assert(parse_info_rest(w, hl, info_head_of(v)) == InfoParse::Parsed(v, w.len() as int));
    }
}

/// Round trip: the wire bytes of an info record decode back to exactly that
/// record, provided the presence of every optional part matches its gate and
/// no string holds a NUL character.
pub proof fn lemma_info_round_trip(v: InfoV)
    requires
        info_encodable(v),
    ensures
        ({
            let payload = info_wire(v).skip(4);
            parse_info(payload, 0) == InfoParse::Parsed(v, payload.len() as int)
        }),
{
    lemma_info_head_round_trip(v);
    lemma_info_rest_round_trip(v);
}

} // verus!
