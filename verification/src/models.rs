//! The typed document model: what a parsed game-log record becomes, and
//! the mathematical views of each type that the contracts speak of.

use vstd::prelude::*;

verus! {

/// Game-level rule settings.
#[derive(Debug, Clone, Copy, PartialEq, Eq, Structural)]
pub struct Rules {
    pub type_flags: u32,
    pub lobby_id: Option<u32>,
}

/// One seated player of the roster.
#[derive(Debug, Clone, PartialEq)]
pub struct Player {
    pub seat: u8,
    pub player_id: String,
    pub rank: u32,
    pub rate: u32,
    pub gender: String,
}

/// View of a `Player`.
pub ghost struct PlayerV {
    pub seat: u8,
    pub player_id: Seq<char>,
    pub rank: u32,
    pub rate: u32,
    pub gender: Seq<char>,
}

impl View for Player {
    type V = PlayerV;

    open spec fn view(&self) -> PlayerV {
        PlayerV {
            seat: self.seat,
            player_id: self.player_id@,
            rank: self.rank,
            rate: self.rate,
            gender: self.gender@,
        }
    }
}

/// The snapshot a round opens with.
#[derive(Debug, Clone, PartialEq)]
pub struct Init {
    pub round_number: u32,
    pub honba: u32,
    pub kyoutaku: u32,
    pub dice: [u32; 2],
    pub dora_indicator: u32,
    pub initial_scores: [i32; 4],
    pub initial_hands: Vec<Vec<String>>,
}

/// View of an `Init`.
pub ghost struct InitV {
    pub round_number: u32,
    pub honba: u32,
    pub kyoutaku: u32,
    pub dice: Seq<u32>,
    pub dora_indicator: u32,
    pub initial_scores: Seq<i32>,
    pub initial_hands: Seq<Seq<Seq<char>>>,
}

impl View for Init {
    type V = InitV;

    open spec fn view(&self) -> InitV {
        InitV {
            round_number: self.round_number,
            honba: self.honba,
            kyoutaku: self.kyoutaku,
            dice: self.dice@,
            dora_indicator: self.dora_indicator,
            initial_scores: self.initial_scores@,
            initial_hands: self.initial_hands.deep_view(),
        }
    }
}

/// A scoring element of a win.
#[derive(Debug, Clone, PartialEq)]
pub struct Yaku {
    pub name: String,
    pub value: u32,
}

/// View of a `Yaku`.
pub ghost struct YakuV {
    pub name: Seq<char>,
    pub value: u32,
}

impl View for Yaku {
    type V = YakuV;

    open spec fn view(&self) -> YakuV {
        YakuV { name: self.name@, value: self.value }
    }
}

/// The three ways a quad can be formed.
#[derive(Debug, Clone, Copy, PartialEq, Eq, Structural)]
pub enum KanType {
    Ankan,
    Minkan,
    Kakan,
}

/// Why a round ended without a win; unrecognized codes fall back to
/// `Normal`.
#[derive(Debug, Clone, Copy, PartialEq, Eq, Structural)]
pub enum RyuukyokuReason {
    Normal,
    Yao9,
    Kaze4,
    Reach4,
    Ron3,
    Kan4,
}

/// One gameplay action inside a round, in source-stream order.
#[derive(Debug, Clone, PartialEq)]
pub enum Event {
    Draw { seat: u8, tile: String },
    Discard { seat: u8, tile: String, is_riichi: bool },
    Chi { who: u8, tiles: [String; 3], from: u8 },
    Pon { who: u8, tiles: [String; 3], from: u8 },
    Kan { who: u8, tiles: Vec<String>, kan_type: KanType, from: Option<u8> },
    Dora { indicator: String },
    Reach { who: u8, step: u8, scores: [i32; 4] },
    Agari {
        who: u8,
        from: u8,
        han: u32,
        fu: u32,
        yakus: Vec<Yaku>,
        dora_count: u32,
        scores: [i32; 4],
    },
    Ryuukyoku { reason: RyuukyokuReason, scores: [i32; 4] },
}

/// View of an `Event`.
pub ghost enum EventV {
    Draw { seat: u8, tile: Seq<char> },
    Discard { seat: u8, tile: Seq<char>, is_riichi: bool },
    Chi { who: u8, tiles: Seq<Seq<char>>, from: u8 },
    Pon { who: u8, tiles: Seq<Seq<char>>, from: u8 },
    Kan { who: u8, tiles: Seq<Seq<char>>, kan_type: KanType, from: Option<u8> },
    Dora { indicator: Seq<char> },
    Reach { who: u8, step: u8, scores: Seq<i32> },
    Agari {
        who: u8,
        from: u8,
        han: u32,
        fu: u32,
        yakus: Seq<YakuV>,
        dora_count: u32,
        scores: Seq<i32>,
    },
    Ryuukyoku { reason: RyuukyokuReason, scores: Seq<i32> },
}

impl View for Event {
    type V = EventV;

    open spec fn view(&self) -> EventV {
        match self {
            Event::Draw { seat, tile } => EventV::Draw { seat: *seat, tile: tile@ },
            Event::Discard { seat, tile, is_riichi } => EventV::Discard {
                seat: *seat,
                tile: tile@,
                is_riichi: *is_riichi,
            },
            Event::Chi { who, tiles, from } => EventV::Chi {
                who: *who,
                tiles: tiles.deep_view(),
                from: *from,
            },
            Event::Pon { who, tiles, from } => EventV::Pon {
                who: *who,
                tiles: tiles.deep_view(),
                from: *from,
            },
            Event::Kan { who, tiles, kan_type, from } => EventV::Kan {
                who: *who,
                tiles: tiles.deep_view(),
                kan_type: *kan_type,
                from: *from,
            },
            Event::Dora { indicator } => EventV::Dora { indicator: indicator@ },
            Event::Reach { who, step, scores } => EventV::Reach {
                who: *who,
                step: *step,
                scores: scores@,
            },
            Event::Agari { who, from, han, fu, yakus, dora_count, scores } => EventV::Agari {
                who: *who,
                from: *from,
                han: *han,
                fu: *fu,
                yakus: yakus@.map_values(|y: Yaku| y@),
                dora_count: *dora_count,
                scores: scores@,
            },
            Event::Ryuukyoku { reason, scores } => EventV::Ryuukyoku {
                reason: *reason,
                scores: scores@,
            },
        }
    }
}

/// One round of play: its label, dealer, opening snapshot and events.
#[derive(Debug, Clone, PartialEq)]
pub struct Round {
    pub round_id: String,
    pub dealer_seat: u8,
    pub init: Init,
    pub events: Vec<Event>,
}

/// View of a `Round`.
pub ghost struct RoundV {
    pub round_id: Seq<char>,
    pub dealer_seat: u8,
    pub init: InitV,
    pub events: Seq<EventV>,
}

impl View for Round {
    type V = RoundV;

    open spec fn view(&self) -> RoundV {
        RoundV {
            round_id: self.round_id@,
            dealer_seat: self.dealer_seat,
            init: self.init@,
            events: self.events@.map_values(|e: Event| e@),
        }
    }
}

/// The assembled document of a whole record.
#[derive(Debug, Clone, PartialEq)]
pub struct ParserOutput {
    pub mjlog_version: String,
    pub game_id: String,
    pub rules: Rules,
    pub players: Vec<Player>,
    pub rounds: Vec<Round>,
}

/// View of a `ParserOutput`.
pub ghost struct ParserOutputV {
    pub mjlog_version: Seq<char>,
    pub game_id: Seq<char>,
    pub rules: Rules,
    pub players: Seq<PlayerV>,
    pub rounds: Seq<RoundV>,
}

impl View for ParserOutput {
    type V = ParserOutputV;

    open spec fn view(&self) -> ParserOutputV {
        ParserOutputV {
            mjlog_version: self.mjlog_version@,
            game_id: self.game_id@,
            rules: self.rules,
            players: self.players@.map_values(|p: Player| p@),
            rounds: self.rounds@.map_values(|r: Round| r@),
        }
    }
}

/// Options of a parse call.
#[derive(Debug, Clone)]
pub struct ParserOptions {
    pub verbose: bool,
    pub validate_schema: Option<String>,
}

impl Default for ParserOptions {
    /// The default options: quiet, with no schema validation.
    fn default() -> (r: ParserOptions)
        ensures
            r.verbose == false,
            r.validate_schema is None,
    {
        ParserOptions { verbose: false, validate_schema: None }
    }
}

} // verus!
