//! Round state machine and document assembler: folds the tag stream of a
//! record into the typed document, tracking the round in progress.

use vstd::prelude::*;
use vstd::string::*;
use crate::error::ErrorKind;
use crate::error::ParserError;
use crate::models::Event;
use crate::models::EventV;
use crate::models::Init;
use crate::models::InitV;
use crate::models::ParserOutput;
use crate::models::ParserOutputV;
use crate::models::Player;
use crate::models::PlayerV;
use crate::models::Round;
use crate::models::RoundV;
use crate::models::Rules;
use crate::models::RyuukyokuReason;
use crate::models::Yaku;
use crate::models::YakuV;
use crate::scan::RawTag;
use crate::scan::TagV;
use crate::scan::scan_all;
use crate::scan::scan_from;
use crate::text::chars_eq_str;
use crate::text::chars_to_string;
use crate::text::dec_str;
use crate::text::parse_i32_chars;
use crate::text::parse_i32_spec;
use crate::text::parse_u32_chars;
use crate::text::parse_u32_spec;
use crate::text::parse_u8_chars;
use crate::text::parse_u8_spec;
use crate::text::split_chars;
use crate::text::split_spec;
use crate::scan::tags_view;
use crate::text::copy_range;
use crate::text::usize_to_dec_string;
use crate::tile::parse_tile_list_chars;
use crate::tile::tile_name;
use crate::tile::tile_id_to_string;
use crate::tile::parse_tile_list_spec;

verus! {

/// Hard cap on the raw record size: larger input is rejected before any
/// decoding, to bound memory use.
pub const MAX_FILE_SIZE: usize = 104857600;

/// An attribute of a tag: key and raw value.
pub type AttrV = (Seq<char>, Seq<char>);

/// What the legacy single/double-byte decoding of a byte buffer yields:
/// the text, and whether any malformed sequence was replaced. A function
/// of the bytes alone.
pub uninterp spec fn sj_decode(bytes: Seq<u8>) -> (Seq<char>, bool);

/// Relies on `encoding_rs::SHIFT_JIS.decode`: the decoded text and the
/// malformation flag depend on the bytes alone; empty input decodes to
/// empty text without errors. The input is kept under the record size
/// cap, far from the buffer sizes whose backing-allocation arithmetic
/// the decoder documents as panicking.
#[verifier::external_body]
fn decode_shift_jis(data: &[u8]) -> (r: (Vec<char>, bool))
    requires
        data@.len() <= MAX_FILE_SIZE,
    ensures
        (r.0@, r.1) == sj_decode(data@),
        data@.len() == 0 ==> r.0@.len() == 0 && r.1 == false,
{
    let (cow, _, had_errors) = encoding_rs::SHIFT_JIS.decode(data);
    (cow.chars().collect(), had_errors)
}

/// What percent-decoding yields on the given characters, with invalid
/// UTF-8 replaced. A function of the characters alone.
pub uninterp spec fn percent_decoded(s: Seq<char>) -> Seq<char>;

/// Relies on `percent_encoding::percent_decode_str` and
/// `decode_utf8_lossy`: the result depends on the input alone; the empty
/// string stays empty.
#[verifier::external_body]
fn percent_decode(input: &str) -> (r: String)
    ensures
        r@ == percent_decoded(input@),
        input@.len() == 0 ==> r@.len() == 0,
{
    percent_encoding::percent_decode_str(input).decode_utf8_lossy().to_string()
}

/// Decodes a percent-encoded player identifier from the roster tag.
pub fn decode_player_id(raw: &str) -> (r: String)
    ensures
        r@ == percent_decoded(raw@),
{
    percent_decode(raw)
}

/// Relies on `uuid::Uuid::new_v4` and its hyphenated rendering: 36
/// characters. The value is random; nothing more is assumed of it.
#[verifier::external_body]
fn fresh_game_id() -> (r: String)
    ensures
        r@.len() == 36,
{
    uuid::Uuid::new_v4().to_string()
}

/// State of the round state machine: the document-level fields gathered
/// so far, the sealed rounds, and the round in progress, if any.
pub ghost struct StateV {
    pub mjlog_version: Seq<char>,
    pub rules: Option<Rules>,
    pub players: Seq<PlayerV>,
    pub rounds: Seq<RoundV>,
    pub cur: Option<RoundV>,
}

/// The state a parse starts from.
pub open spec fn init_state() -> StateV {
    StateV {
        mjlog_version: Seq::empty(),
        rules: None,
        players: Seq::empty(),
        rounds: Seq::empty(),
        cur: None,
    }
}

/// The tag kinds the state machine dispatches on; the name of a draw or
/// discard tag carries its seat.
pub ghost enum TagKind {
    MjLoggm,
    Go,
    Un,
    Taikyoku,
    Init,
    Naki,
    Dora,
    Reach,
    Agari,
    Ryuukyoku,
    Draw(u8),
    Discard(u8),
    Unknown,
}

/// The kind of a tag name: the fixed names first, then the per-seat
/// draw/discard families by first character, all else unknown.
pub open spec fn tag_kind(name: Seq<char>) -> TagKind {
    if name == "mjloggm"@ {
        TagKind::MjLoggm
    } else if name == "GO"@ {
        TagKind::Go
    } else if name == "UN"@ {
        TagKind::Un
    } else if name == "TAIKYOKU"@ {
        TagKind::Taikyoku
    } else if name == "INIT"@ {
        TagKind::Init
    } else if name == "N"@ {
        TagKind::Naki
    } else if name == "DORA"@ {
        TagKind::Dora
    } else if name == "REACH"@ {
        TagKind::Reach
    } else if name == "AGARI"@ {
        TagKind::Agari
    } else if name == "RYUUKYOKU"@ {
        TagKind::Ryuukyoku
    } else if name.len() > 0 && name[0] == 'T' {
        TagKind::Draw(0)
    } else if name.len() > 0 && name[0] == 'U' {
        TagKind::Draw(1)
    } else if name.len() > 0 && name[0] == 'V' {
        TagKind::Draw(2)
    } else if name.len() > 0 && name[0] == 'W' {
        TagKind::Draw(3)
    } else if name.len() > 0 && name[0] == 'D' {
        TagKind::Discard(0)
    } else if name.len() > 0 && name[0] == 'E' {
        TagKind::Discard(1)
    } else if name.len() > 0 && name[0] == 'F' {
        TagKind::Discard(2)
    } else if name.len() > 0 && name[0] == 'G' {
        TagKind::Discard(3)
    } else {
        TagKind::Unknown
    }
}

/// The format version after reading the first `n` attributes: the last
/// `ver` value wins.
pub open spec fn ver_fold(attrs: Seq<AttrV>, n: int, v0: Seq<char>) -> Seq<char>
    decreases n,
{
    if n <= 0 {
        v0
    } else {
        let prev = ver_fold(attrs, n - 1, v0);
        if attrs[n - 1].0 == "ver"@ {
            attrs[n - 1].1
        } else {
            prev
        }
    }
}

/// The version tag: stores the format version, in either state.
pub open spec fn do_mjloggm(st: StateV, attrs: Seq<AttrV>) -> StateV {
    StateV {
        mjlog_version: ver_fold(attrs, attrs.len() as int, st.mjlog_version),
        rules: st.rules,
        players: st.players,
        rounds: st.rounds,
        cur: st.cur,
    }
}

/// Rule flags and lobby after reading the first `n` attributes of the
/// rule tag; a non-numeric value is fatal, and lobby zero means absent.
pub open spec fn go_fold(attrs: Seq<AttrV>, n: int, acc: (u32, Option<u32>)) -> Result<
    (u32, Option<u32>),
    ErrorKind,
>
    decreases n,
{
    if n <= 0 {
        Ok(acc)
    } else {
        match go_fold(attrs, n - 1, acc) {
            Err(e) => Err(e),
            Ok(a) => {
                let (key, val) = attrs[n - 1];
                if key == "type"@ {
                    match parse_u32_spec(val) {
                        None => Err(ErrorKind::ParseInt),
                        Some(v) => Ok((v, a.1)),
                    }
                } else if key == "lobby"@ {
                    match parse_u32_spec(val) {
                        None => Err(ErrorKind::ParseInt),
                        Some(v) => Ok(
                            (
                                a.0,
                                if v == 0 {
                                    None
                                } else {
                                    Some(v)
                                },
                            ),
                        ),
                    }
                } else {
                    Ok(a)
                }
            },
        }
    }
}

/// The rule tag: replaces the document's rules.
pub open spec fn do_go(st: StateV, attrs: Seq<AttrV>) -> Result<StateV, ErrorKind> {
    match go_fold(attrs, attrs.len() as int, (0u32, None)) {
        Err(e) => Err(e),
        Ok((tf, lobby)) => Ok(
            StateV {
                mjlog_version: st.mjlog_version,
                rules: Some(Rules { type_flags: tf, lobby_id: lobby }),
                players: st.players,
                rounds: st.rounds,
                cur: st.cur,
            },
        ),
    }
}

/// Writes parsed `u32` values of the first `n` comma-separated fields
/// over the accumulator, position by position.
pub open spec fn fill_u32(parts: Seq<Seq<char>>, n: int, acc: Seq<u32>) -> Result<
    Seq<u32>,
    ErrorKind,
>
    decreases n,
{
    if n <= 0 {
        Ok(acc)
    } else {
        match fill_u32(parts, n - 1, acc) {
            Err(e) => Err(e),
            Ok(v) => match parse_u32_spec(parts[n - 1]) {
                None => Err(ErrorKind::ParseInt),
                Some(x) => Ok(v.update(n - 1, x)),
            },
        }
    }
}

/// Writes parsed `i32` values of the first `n` comma-separated fields
/// over the accumulator, position by position.
pub open spec fn fill_i32(parts: Seq<Seq<char>>, n: int, acc: Seq<i32>) -> Result<
    Seq<i32>,
    ErrorKind,
>
    decreases n,
{
    if n <= 0 {
        Ok(acc)
    } else {
        match fill_i32(parts, n - 1, acc) {
            Err(e) => Err(e),
            Ok(v) => match parse_i32_spec(parts[n - 1]) {
                None => Err(ErrorKind::ParseInt),
                Some(x) => Ok(v.update(n - 1, x)),
            },
        }
    }
}

/// The smaller of `4` and the number of fields.
pub open spec fn upto4(len: int) -> int {
    if len < 4 {
        len
    } else {
        4
    }
}

/// Roster accumulator: names, ranks, ratings and genders of the four
/// seats.
pub type UnAcc = (Seq<Seq<char>>, Seq<u32>, Seq<u32>, Seq<Seq<char>>);

/// Four empty character sequences.
pub open spec fn four_empty() -> Seq<Seq<char>> {
    seq![Seq::<char>::empty(), Seq::<char>::empty(), Seq::<char>::empty(), Seq::<char>::empty()]
}

/// Four zeros.
pub open spec fn four_zero_u32() -> Seq<u32> {
    seq![0u32, 0u32, 0u32, 0u32]
}

/// Four zeros.
pub open spec fn four_zero_i32() -> Seq<i32> {
    seq![0i32, 0i32, 0i32, 0i32]
}

/// Roster fields after reading the first `n` attributes: per-seat names
/// are percent-decoded; rank, rating and gender lists are comma-packed.
pub open spec fn un_fold(attrs: Seq<AttrV>, n: int, acc: UnAcc) -> Result<UnAcc, ErrorKind>
    decreases n,
{
    if n <= 0 {
        Ok(acc)
    } else {
        match un_fold(attrs, n - 1, acc) {
            Err(e) => Err(e),
            Ok(a) => {
                let (key, val) = attrs[n - 1];
                if key == "n0"@ {
                    Ok((a.0.update(0, percent_decoded(val)), a.1, a.2, a.3))
                } else if key == "n1"@ {
                    Ok((a.0.update(1, percent_decoded(val)), a.1, a.2, a.3))
                } else if key == "n2"@ {
                    Ok((a.0.update(2, percent_decoded(val)), a.1, a.2, a.3))
                } else if key == "n3"@ {
                    Ok((a.0.update(3, percent_decoded(val)), a.1, a.2, a.3))
                } else if key == "dan"@ {
                    let parts = split_spec(val, ',');
                    match fill_u32(parts, upto4(parts.len() as int), a.1) {
                        Err(e) => Err(e),
                        Ok(d) => Ok((a.0, d, a.2, a.3)),
                    }
                } else if key == "rate"@ {
                    let parts = split_spec(val, ',');
                    match fill_u32(parts, upto4(parts.len() as int), a.2) {
                        Err(e) => Err(e),
                        Ok(rt) => Ok((a.0, a.1, rt, a.3)),
                    }
                } else if key == "sx"@ {
                    let parts = split_spec(val, ',');
                    Ok(
                        (
                            a.0,
                            a.1,
                            a.2,
                            Seq::new(
                                4,
                                |i: int|
                                    if i < parts.len() {
                                        parts[i]
                                    } else {
                                        a.3[i]
                                    },
                            ),
                        ),
                    )
                } else {
                    Ok(a)
                }
            },
        }
    }
}

/// The roster tag: appends the four seated players.
pub open spec fn do_un(st: StateV, attrs: Seq<AttrV>) -> Result<StateV, ErrorKind> {
    match un_fold(
        attrs,
        attrs.len() as int,
        (four_empty(), four_zero_u32(), four_zero_u32(), four_empty()),
    ) {
        Err(e) => Err(e),
        Ok((names, dans, rates, genders)) => Ok(
            StateV {
                mjlog_version: st.mjlog_version,
                rules: st.rules,
                players: st.players + Seq::new(
                    4,
                    |i: int|
                        PlayerV {
                            seat: i as u8,
                            player_id: names[i],
                            rank: dans[i],
                            rate: rates[i],
                            gender: genders[i],
                        },
                ),
                rounds: st.rounds,
                cur: st.cur,
            },
        ),
    }
}

/// The dealer tag: its `oya` value must parse; nothing is kept of it.
pub open spec fn tk_fold(attrs: Seq<AttrV>, n: int) -> Result<(), ErrorKind>
    decreases n,
{
    if n <= 0 {
        Ok(())
    } else {
        match tk_fold(attrs, n - 1) {
            Err(e) => Err(e),
            Ok(_) => {
                let (key, val) = attrs[n - 1];
                if key == "oya"@ {
                    match parse_u8_spec(val) {
                        None => Err(ErrorKind::ParseInt),
                        Some(_) => Ok(()),
                    }
                } else {
                    Ok(())
                }
            },
        }
    }
}

/// The dealer tag leaves the state unchanged.
pub open spec fn do_taikyoku(st: StateV, attrs: Seq<AttrV>) -> Result<StateV, ErrorKind> {
    match tk_fold(attrs, attrs.len() as int) {
        Err(e) => Err(e),
        Ok(_) => Ok(st),
    }
}

/// Initialization accumulator: the packed seed, the packed scores, the
/// dealer seat, and the four starting-hand lists.
pub type InitAcc = (Seq<char>, Seq<char>, u8, Seq<Seq<char>>);

/// Initialization fields after reading the first `n` attributes.
pub open spec fn init_fold(attrs: Seq<AttrV>, n: int, acc: InitAcc) -> Result<InitAcc, ErrorKind>
    decreases n,
{
    if n <= 0 {
        Ok(acc)
    } else {
        match init_fold(attrs, n - 1, acc) {
            Err(e) => Err(e),
            Ok(a) => {
                let (key, val) = attrs[n - 1];
                if key == "seed"@ {
                    Ok((val, a.1, a.2, a.3))
                } else if key == "ten"@ {
                    Ok((a.0, val, a.2, a.3))
                } else if key == "oya"@ {
                    match parse_u8_spec(val) {
                        None => Err(ErrorKind::ParseInt),
                        Some(o) => Ok((a.0, a.1, o, a.3)),
                    }
                } else if key == "hai0"@ {
                    Ok((a.0, a.1, a.2, a.3.update(0, val)))
                } else if key == "hai1"@ {
                    Ok((a.0, a.1, a.2, a.3.update(1, val)))
                } else if key == "hai2"@ {
                    Ok((a.0, a.1, a.2, a.3.update(2, val)))
                } else if key == "hai3"@ {
                    Ok((a.0, a.1, a.2, a.3.update(3, val)))
                } else {
                    Ok(a)
                }
            },
        }
    }
}

/// The six numeric fields packed into the seed value: round ordinal,
/// honba, riichi sticks, the two dice, and the dora indicator. Fewer
/// than six fields is an invalid-format error; a non-numeric field is
/// fatal.
pub open spec fn seed_fields(seed: Seq<char>) -> Result<(u32, u32, u32, u32, u32, u32), ErrorKind> {
    let parts = split_spec(seed, ',');
    if parts.len() < 6 {
        Err(ErrorKind::InvalidFormat)
    } else if parse_u32_spec(parts[0]) is None || parse_u32_spec(parts[1]) is None
        || parse_u32_spec(parts[2]) is None || parse_u32_spec(parts[3]) is None || parse_u32_spec(
        parts[4],
    ) is None || parse_u32_spec(parts[5]) is None {
        Err(ErrorKind::ParseInt)
    } else {
        Ok(
            (
                parse_u32_spec(parts[0]).unwrap(),
                parse_u32_spec(parts[1]).unwrap(),
                parse_u32_spec(parts[2]).unwrap(),
                parse_u32_spec(parts[3]).unwrap(),
                parse_u32_spec(parts[4]).unwrap(),
                parse_u32_spec(parts[5]).unwrap(),
            ),
        )
    }
}

/// The four starting scores packed into the ten value. Fewer than four
/// fields is an invalid-format error; a non-numeric field is fatal.
pub open spec fn ten_scores(ten: Seq<char>) -> Result<Seq<i32>, ErrorKind> {
    let parts = split_spec(ten, ',');
    if parts.len() < 4 {
        Err(ErrorKind::InvalidFormat)
    } else if parse_i32_spec(parts[0]) is None || parse_i32_spec(parts[1]) is None
        || parse_i32_spec(parts[2]) is None || parse_i32_spec(parts[3]) is None {
        Err(ErrorKind::ParseInt)
    } else {
        Ok(
            seq![
                parse_i32_spec(parts[0]).unwrap(),
                parse_i32_spec(parts[1]).unwrap(),
                parse_i32_spec(parts[2]).unwrap(),
                parse_i32_spec(parts[3]).unwrap(),
            ],
        )
    }
}

/// The first `n` starting hands, each parsed as a tile list.
pub open spec fn hands_lists(hands: Seq<Seq<char>>, n: int) -> Result<
    Seq<Seq<Seq<char>>>,
    ErrorKind,
>
    decreases n,
{
    if n <= 0 {
        Ok(Seq::empty())
    } else {
        match hands_lists(hands, n - 1) {
            Err(e) => Err(e),
            Ok(v) => match parse_tile_list_spec(hands[n - 1]) {
                None => Err(ErrorKind::InvalidFormat),
                Some(l) => Ok(v.push(l)),
            },
        }
    }
}

/// The initialization tag: seals the round in progress, if any, and
/// opens a fresh one labeled with its 1-based ordinal.
pub open spec fn do_init(st: StateV, attrs: Seq<AttrV>) -> Result<StateV, ErrorKind> {
    match init_fold(attrs, attrs.len() as int, (Seq::empty(), Seq::empty(), 0u8, four_empty())) {
        Err(e) => Err(e),
        Ok((seed, ten, oya, hands)) => match seed_fields(seed) {
            Err(e) => Err(e),
            Ok((rn, honba, kyoutaku, d1, d2, dora)) => match ten_scores(ten) {
                Err(e) => Err(e),
                Ok(scores) => match hands_lists(hands, 4) {
                    Err(e) => Err(e),
                    Ok(hl) => {
                        let init = InitV {
                            round_number: rn,
                            honba: honba,
                            kyoutaku: kyoutaku,
                            dice: seq![d1, d2],
                            dora_indicator: dora,
                            initial_scores: scores,
                            initial_hands: hl,
                        };
                        let rounds2 = match st.cur {
                            Some(r) => st.rounds.push(r),
                            None => st.rounds,
                        };
                        Ok(
                            StateV {
                                mjlog_version: st.mjlog_version,
                                rules: st.rules,
                                players: st.players,
                                rounds: rounds2,
                                cur: Some(
                                    RoundV {
                                        round_id: "Round "@ + dec_str(rounds2.len() as int + 1),
                                        dealer_seat: oya,
                                        init: init,
                                        events: Seq::empty(),
                                    },
                                ),
                            },
                        )
                    },
                },
            },
        },
    }
}

/// Appends an event to the round in progress.
pub open spec fn push_event(st: StateV, r: RoundV, ev: EventV) -> StateV {
    StateV {
        mjlog_version: st.mjlog_version,
        rules: st.rules,
        players: st.players,
        rounds: st.rounds,
        cur: Some(
            RoundV {
                round_id: r.round_id,
                dealer_seat: r.dealer_seat,
                init: r.init,
                events: r.events.push(ev),
            },
        ),
    }
}

/// The value of the first attribute with an empty key, if any: the
/// unnamed attribute a draw or discard tag may carry its tile in.
pub open spec fn first_unnamed(attrs: Seq<AttrV>) -> Option<Seq<char>>
    decreases attrs.len(),
{
    if attrs.len() == 0 {
        None
    } else if attrs[0].0.len() == 0 {
        Some(attrs[0].1)
    } else {
        first_unnamed(attrs.drop_first())
    }
}

/// The tile of a draw or discard tag: the unnamed attribute when present
/// (a bad value there is fatal), else the numeric suffix of the tag name
/// (a bad suffix yields no tile).
pub open spec fn draw_tile_id(name: Seq<char>, attrs: Seq<AttrV>) -> Result<Option<u32>, ErrorKind> {
    match first_unnamed(attrs) {
        Some(v) => match parse_u32_spec(v) {
            None => Err(ErrorKind::ParseInt),
            Some(id) => Ok(Some(id)),
        },
        None => if name.len() > 1 {
            match parse_u32_spec(name.skip(1)) {
                None => Ok(None),
                Some(id) => Ok(Some(id)),
            }
        } else {
            Ok(None)
        },
    }
}

/// A draw tag: appends a draw event to the open round; without a usable
/// tile, or with no round open, nothing is recorded.
pub open spec fn do_draw(st: StateV, name: Seq<char>, attrs: Seq<AttrV>, seat: u8) -> Result<
    StateV,
    ErrorKind,
> {
    match st.cur {
        None => Ok(st),
        Some(r) => match draw_tile_id(name, attrs) {
            Err(e) => Err(e),
            Ok(None) => Ok(st),
            Ok(Some(id)) => Ok(push_event(st, r, EventV::Draw { seat, tile: tile_name(id) })),
        },
    }
}

/// A discard tag: as a draw, with the riichi flag unresolved and left
/// false.
pub open spec fn do_discard(st: StateV, name: Seq<char>, attrs: Seq<AttrV>, seat: u8) -> Result<
    StateV,
    ErrorKind,
> {
    match st.cur {
        None => Ok(st),
        Some(r) => match draw_tile_id(name, attrs) {
            Err(e) => Err(e),
            Ok(None) => Ok(st),
            Ok(Some(id)) => Ok(
                push_event(
                    st,
                    r,
                    EventV::Discard { seat, tile: tile_name(id), is_riichi: false },
                ),
            ),
        },
    }
}

/// The acting seat of a call tag after reading the first `n` attributes.
pub open spec fn naki_fold(attrs: Seq<AttrV>, n: int, who: u8) -> Result<u8, ErrorKind>
    decreases n,
{
    if n <= 0 {
        Ok(who)
    } else {
        match naki_fold(attrs, n - 1, who) {
            Err(e) => Err(e),
            Ok(w) => {
                let (key, val) = attrs[n - 1];
                if key == "who"@ {
                    match parse_u8_spec(val) {
                        None => Err(ErrorKind::ParseInt),
                        Some(v) => Ok(v),
                    }
                } else {
                    Ok(w)
                }
            },
        }
    }
}

/// A call tag: the meld decomposition is unresolved; only the acting
/// seat is decoded, and a placeholder call event is recorded.
pub open spec fn do_naki(st: StateV, attrs: Seq<AttrV>) -> Result<StateV, ErrorKind> {
    match naki_fold(attrs, attrs.len() as int, 0u8) {
        Err(e) => Err(e),
        Ok(who) => match st.cur {
            None => Ok(st),
            Some(r) => Ok(
                push_event(
                    st,
                    r,
                    EventV::Pon { who, tiles: seq!["1m"@, "1m"@, "1m"@], from: 0u8 },
                ),
            ),
        },
    }
}

/// The indicator tiles named by the first `n` attributes of a
/// dora-reveal tag, in order.
pub open spec fn dora_fold(attrs: Seq<AttrV>, n: int) -> Result<Seq<u32>, ErrorKind>
    decreases n,
{
    if n <= 0 {
        Ok(Seq::empty())
    } else {
        match dora_fold(attrs, n - 1) {
            Err(e) => Err(e),
            Ok(ids) => {
                let (key, val) = attrs[n - 1];
                if key == "hai"@ {
                    match parse_u32_spec(val) {
                        None => Err(ErrorKind::ParseInt),
                        Some(id) => Ok(ids.push(id)),
                    }
                } else {
                    Ok(ids)
                }
            },
        }
    }
}

/// A dora-reveal tag: appends one dora event per indicator named.
pub open spec fn do_dora(st: StateV, attrs: Seq<AttrV>) -> Result<StateV, ErrorKind> {
    match dora_fold(attrs, attrs.len() as int) {
        Err(e) => Err(e),
        Ok(ids) => match st.cur {
            None => Ok(st),
            Some(r) => Ok(
                StateV {
                    mjlog_version: st.mjlog_version,
                    rules: st.rules,
                    players: st.players,
                    rounds: st.rounds,
                    cur: Some(
                        RoundV {
                            round_id: r.round_id,
                            dealer_seat: r.dealer_seat,
                            init: r.init,
                            events: r.events + ids.map_values(
                                |id: u32| EventV::Dora { indicator: tile_name(id) },
                            ),
                        },
                    ),
                },
            ),
        },
    }
}

/// Declarer, step and score snapshot of a ready declaration after
/// reading the first `n` attributes.
pub open spec fn reach_fold(attrs: Seq<AttrV>, n: int, acc: (u8, u8, Seq<i32>)) -> Result<
    (u8, u8, Seq<i32>),
    ErrorKind,
>
    decreases n,
{
    if n <= 0 {
        Ok(acc)
    } else {
        match reach_fold(attrs, n - 1, acc) {
            Err(e) => Err(e),
            Ok(a) => {
                let (key, val) = attrs[n - 1];
                if key == "who"@ {
                    match parse_u8_spec(val) {
                        None => Err(ErrorKind::ParseInt),
                        Some(v) => Ok((v, a.1, a.2)),
                    }
                } else if key == "step"@ {
                    match parse_u8_spec(val) {
                        None => Err(ErrorKind::ParseInt),
                        Some(v) => Ok((a.0, v, a.2)),
                    }
                } else if key == "ten"@ {
                    let parts = split_spec(val, ',');
                    match fill_i32(parts, upto4(parts.len() as int), a.2) {
                        Err(e) => Err(e),
                        Ok(s) => Ok((a.0, a.1, s)),
                    }
                } else {
                    Ok(a)
                }
            },
        }
    }
}

/// A ready declaration: records declarer, step and the optional score
/// snapshot.
pub open spec fn do_reach(st: StateV, attrs: Seq<AttrV>) -> Result<StateV, ErrorKind> {
    match reach_fold(attrs, attrs.len() as int, (0u8, 1u8, four_zero_i32())) {
        Err(e) => Err(e),
        Ok((who, step, scores)) => match st.cur {
            None => Ok(st),
            Some(r) => Ok(push_event(st, r, EventV::Reach { who, step, scores })),
        },
    }
}

/// Per-seat score deltas of the packed alternating before/delta list:
/// the first `n` pairs overwrite the accumulator; only the delta is
/// kept, though a bad before-value is fatal too.
pub open spec fn sc_fill(parts: Seq<Seq<char>>, n: int, acc: Seq<i32>) -> Result<
    Seq<i32>,
    ErrorKind,
>
    decreases n,
{
    if n <= 0 {
        Ok(acc)
    } else {
        match sc_fill(parts, n - 1, acc) {
            Err(e) => Err(e),
            Ok(v) => {
                let i = n - 1;
                if 2 * i + 1 < parts.len() {
                    if parse_i32_spec(parts[2 * i]) is None {
                        Err(ErrorKind::ParseInt)
                    } else {
                        match parse_i32_spec(parts[2 * i + 1]) {
                            None => Err(ErrorKind::ParseInt),
                            Some(chg) => Ok(v.update(i, chg)),
                        }
                    }
                } else {
                    Ok(v)
                }
            },
        }
    }
}

/// Win accumulator: winner, source seat, han, fu, scoring elements and
/// score deltas.
pub type AgariAcc = (u8, u8, u32, u32, Seq<YakuV>, Seq<i32>);

/// Win fields after reading the first `n` attributes. The packed ten
/// value contributes fu and han only when it has at least three fields;
/// each yaku attribute records a placeholder scoring element.
pub open spec fn agari_fold(attrs: Seq<AttrV>, n: int, acc: AgariAcc) -> Result<AgariAcc, ErrorKind>
    decreases n,
{
    if n <= 0 {
        Ok(acc)
    } else {
        match agari_fold(attrs, n - 1, acc) {
            Err(e) => Err(e),
            Ok(a) => {
                let (key, val) = attrs[n - 1];
                if key == "who"@ {
                    match parse_u8_spec(val) {
                        None => Err(ErrorKind::ParseInt),
                        Some(v) => Ok((v, a.1, a.2, a.3, a.4, a.5)),
                    }
                } else if key == "fromWho"@ {
                    match parse_u8_spec(val) {
                        None => Err(ErrorKind::ParseInt),
                        Some(v) => Ok((a.0, v, a.2, a.3, a.4, a.5)),
                    }
                } else if key == "ten"@ {
                    let parts = split_spec(val, ',');
                    if parts.len() >= 3 {
                        if parse_u32_spec(parts[0]) is None {
                            Err(ErrorKind::ParseInt)
                        } else if parse_i32_spec(parts[1]) is None {
                            Err(ErrorKind::ParseInt)
                        } else if parse_u32_spec(parts[2]) is None {
                            Err(ErrorKind::ParseInt)
                        } else {
                            Ok(
                                (
                                    a.0,
                                    a.1,
                                    parse_u32_spec(parts[2]).unwrap(),
                                    parse_u32_spec(parts[0]).unwrap(),
                                    a.4,
                                    a.5,
                                ),
                            )
                        }
                    } else {
                        Ok(a)
                    }
                } else if key == "yaku"@ {
                    Ok((a.0, a.1, a.2, a.3, a.4.push(YakuV { name: "Unknown"@, value: 1 }), a.5))
                } else if key == "sc"@ {
                    let parts = split_spec(val, ',');
                    match sc_fill(parts, 4, a.5) {
                        Err(e) => Err(e),
                        Ok(s) => Ok((a.0, a.1, a.2, a.3, a.4, s)),
                    }
                } else {
                    Ok(a)
                }
            },
        }
    }
}

/// A win tag: records the win with its score deltas.
pub open spec fn do_agari(st: StateV, attrs: Seq<AttrV>) -> Result<StateV, ErrorKind> {
    match agari_fold(
        attrs,
        attrs.len() as int,
        (0u8, 0u8, 0u32, 0u32, Seq::empty(), four_zero_i32()),
    ) {
        Err(e) => Err(e),
        Ok((who, from, han, fu, yakus, scores)) => match st.cur {
            None => Ok(st),
            Some(r) => Ok(
                push_event(
                    st,
                    r,
                    EventV::Agari { who, from, han, fu, yakus, dora_count: 0, scores },
                ),
            ),
        },
    }
}

/// The reason an exhaustive/abortive-draw tag names; every unrecognized
/// code falls back to the normal exhaustive draw.
pub open spec fn reason_of(code: Seq<char>) -> RyuukyokuReason {
    if code == "nm"@ {
        RyuukyokuReason::Normal
    } else if code == "yao9"@ {
        RyuukyokuReason::Yao9
    } else if code == "kaze4"@ {
        RyuukyokuReason::Kaze4
    } else if code == "reach4"@ {
        RyuukyokuReason::Reach4
    } else if code == "ron3"@ {
        RyuukyokuReason::Ron3
    } else if code == "kan4"@ {
        RyuukyokuReason::Kan4
    } else {
        RyuukyokuReason::Normal
    }
}

/// Draw-out fields after reading the first `n` attributes.
pub open spec fn ry_fold(attrs: Seq<AttrV>, n: int, acc: (RyuukyokuReason, Seq<i32>)) -> Result<
    (RyuukyokuReason, Seq<i32>),
    ErrorKind,
>
    decreases n,
{
    if n <= 0 {
        Ok(acc)
    } else {
        match ry_fold(attrs, n - 1, acc) {
            Err(e) => Err(e),
            Ok(a) => {
                let (key, val) = attrs[n - 1];
                if key == "type"@ {
                    Ok((reason_of(val), a.1))
                } else if key == "sc"@ {
                    let parts = split_spec(val, ',');
                    match sc_fill(parts, 4, a.1) {
                        Err(e) => Err(e),
                        Ok(s) => Ok((a.0, s)),
                    }
                } else {
                    Ok(a)
                }
            },
        }
    }
}

/// An exhaustive/abortive-draw tag: records the reason and the score
/// deltas.
pub open spec fn do_ryuukyoku(st: StateV, attrs: Seq<AttrV>) -> Result<StateV, ErrorKind> {
    match ry_fold(attrs, attrs.len() as int, (RyuukyokuReason::Normal, four_zero_i32())) {
        Err(e) => Err(e),
        Ok((reason, scores)) => match st.cur {
            None => Ok(st),
            Some(r) => Ok(push_event(st, r, EventV::Ryuukyoku { reason, scores })),
        },
    }
}

/// One transition of the round state machine: dispatches a tag by its
/// kind; unknown tags change nothing.
pub open spec fn step_tag(st: StateV, tag: TagV) -> Result<StateV, ErrorKind> {
    match tag_kind(tag.name) {
        TagKind::MjLoggm => Ok(do_mjloggm(st, tag.attrs)),
        TagKind::Go => do_go(st, tag.attrs),
        TagKind::Un => do_un(st, tag.attrs),
        TagKind::Taikyoku => do_taikyoku(st, tag.attrs),
        TagKind::Init => do_init(st, tag.attrs),
        TagKind::Naki => do_naki(st, tag.attrs),
        TagKind::Dora => do_dora(st, tag.attrs),
        TagKind::Reach => do_reach(st, tag.attrs),
        TagKind::Agari => do_agari(st, tag.attrs),
        TagKind::Ryuukyoku => do_ryuukyoku(st, tag.attrs),
        TagKind::Draw(seat) => do_draw(st, tag.name, tag.attrs, seat),
        TagKind::Discard(seat) => do_discard(st, tag.name, tag.attrs, seat),
        TagKind::Unknown => Ok(st),
    }
}

/// The state after consuming a whole tag stream, or the first fatal
/// error.
pub open spec fn fold_tags(st: StateV, tags: Seq<TagV>) -> Result<StateV, ErrorKind>
    decreases tags.len(),
{
    if tags.len() == 0 {
        Ok(st)
    } else {
        match step_tag(st, tags[0]) {
            Err(e) => Err(e),
            Ok(st2) => fold_tags(st2, tags.drop_first()),
        }
    }
}

/// Seals the round in progress, if any, at the end of the stream.
pub open spec fn seal(st: StateV) -> StateV {
    StateV {
        mjlog_version: st.mjlog_version,
        rules: st.rules,
        players: st.players,
        rounds: match st.cur {
            Some(r) => st.rounds.push(r),
            None => st.rounds,
        },
        cur: None,
    }
}

/// The document fields, without the process-generated game identifier.
pub ghost struct DocV {
    pub mjlog_version: Seq<char>,
    pub rules: Rules,
    pub players: Seq<PlayerV>,
    pub rounds: Seq<RoundV>,
}

/// The document a final state yields: the open round is sealed, and
/// missing rules default to zero flags and no lobby.
pub open spec fn finish(st: StateV) -> DocV {
    let st2 = seal(st);
    DocV {
        mjlog_version: st2.mjlog_version,
        rules: match st2.rules {
            Some(r) => r,
            None => Rules { type_flags: 0, lobby_id: None },
        },
        players: st2.players,
        rounds: st2.rounds,
    }
}

/// The document of a whole tag stream, from the initial state.
pub open spec fn run_tags(tags: Seq<TagV>) -> Result<DocV, ErrorKind> {
    match fold_tags(init_state(), tags) {
        Err(e) => Err(e),
        Ok(st) => Ok(finish(st)),
    }
}

/// The whole pipeline on a raw byte buffer: the size cap, the legacy
/// decoding with its total-corruption check, the tag scan, and the
/// state-machine fold.
pub open spec fn spec_parse(bytes: Seq<u8>) -> Result<DocV, ErrorKind> {
    if bytes.len() >= MAX_FILE_SIZE as int {
        Err(ErrorKind::Parse)
    } else {
        let (text, had_errors) = sj_decode(bytes);
        if had_errors && text.len() == 0 && bytes.len() > 0 {
            Err(ErrorKind::Encoding)
        } else {
            match scan_from(text, 0) {
                Err(e) => Err(e),
                Ok(tags) => run_tags(tags),
            }
        }
    }
}

/// A document matches a document-field value when every field but the
/// game identifier agrees.
pub open spec fn doc_matches(out: ParserOutputV, d: DocV) -> bool {
    &&& out.mjlog_version == d.mjlog_version
    &&& out.rules == d.rules
    &&& out.players == d.players
    &&& out.rounds == d.rounds
}


proof fn lemma_go_fold_err(attrs: Seq<AttrV>, acc: (u32, Option<u32>), m: int, n: int)
    requires
        0 <= m <= n,
        go_fold(attrs, m, acc) is Err,
    ensures
        go_fold(attrs, n, acc) == go_fold(attrs, m, acc),
    decreases n,
{
    if m < n {
        lemma_go_fold_err(attrs, acc, m, n - 1);
    }
}

proof fn lemma_un_fold_err(attrs: Seq<AttrV>, acc: UnAcc, m: int, n: int)
    requires
        0 <= m <= n,
        un_fold(attrs, m, acc) is Err,
    ensures
        un_fold(attrs, n, acc) == un_fold(attrs, m, acc),
    decreases n,
{
    if m < n {
        lemma_un_fold_err(attrs, acc, m, n - 1);
    }
}

proof fn lemma_tk_fold_err(attrs: Seq<AttrV>, m: int, n: int)
    requires
        0 <= m <= n,
        tk_fold(attrs, m) is Err,
    ensures
        tk_fold(attrs, n) == tk_fold(attrs, m),
    decreases n,
{
    if m < n {
        lemma_tk_fold_err(attrs, m, n - 1);
    }
}

proof fn lemma_init_fold_err(attrs: Seq<AttrV>, acc: InitAcc, m: int, n: int)
    requires
        0 <= m <= n,
        init_fold(attrs, m, acc) is Err,
    ensures
        init_fold(attrs, n, acc) == init_fold(attrs, m, acc),
    decreases n,
{
    if m < n {
        lemma_init_fold_err(attrs, acc, m, n - 1);
    }
}

proof fn lemma_naki_fold_err(attrs: Seq<AttrV>, who: u8, m: int, n: int)
    requires
        0 <= m <= n,
        naki_fold(attrs, m, who) is Err,
    ensures
        naki_fold(attrs, n, who) == naki_fold(attrs, m, who),
    decreases n,
{
    if m < n {
        lemma_naki_fold_err(attrs, who, m, n - 1);
    }
}

proof fn lemma_dora_fold_err(attrs: Seq<AttrV>, m: int, n: int)
    requires
        0 <= m <= n,
        dora_fold(attrs, m) is Err,
    ensures
        dora_fold(attrs, n) == dora_fold(attrs, m),
    decreases n,
{
    if m < n {
        lemma_dora_fold_err(attrs, m, n - 1);
    }
}

proof fn lemma_reach_fold_err(attrs: Seq<AttrV>, acc: (u8, u8, Seq<i32>), m: int, n: int)
    requires
        0 <= m <= n,
        reach_fold(attrs, m, acc) is Err,
    ensures
        reach_fold(attrs, n, acc) == reach_fold(attrs, m, acc),
    decreases n,
{
    if m < n {
        lemma_reach_fold_err(attrs, acc, m, n - 1);
    }
}

proof fn lemma_agari_fold_err(attrs: Seq<AttrV>, acc: AgariAcc, m: int, n: int)
    requires
        0 <= m <= n,
        agari_fold(attrs, m, acc) is Err,
    ensures
        agari_fold(attrs, n, acc) == agari_fold(attrs, m, acc),
    decreases n,
{
    if m < n {
        lemma_agari_fold_err(attrs, acc, m, n - 1);
    }
}

proof fn lemma_ry_fold_err(attrs: Seq<AttrV>, acc: (RyuukyokuReason, Seq<i32>), m: int, n: int)
    requires
        0 <= m <= n,
        ry_fold(attrs, m, acc) is Err,
    ensures
        ry_fold(attrs, n, acc) == ry_fold(attrs, m, acc),
    decreases n,
{
    if m < n {
        lemma_ry_fold_err(attrs, acc, m, n - 1);
    }
}

proof fn lemma_fill_u32_err(parts: Seq<Seq<char>>, acc: Seq<u32>, m: int, n: int)
    requires
        0 <= m <= n,
        fill_u32(parts, m, acc) is Err,
    ensures
        fill_u32(parts, n, acc) == fill_u32(parts, m, acc),
    decreases n,
{
    if m < n {
        lemma_fill_u32_err(parts, acc, m, n - 1);
    }
}

proof fn lemma_fill_i32_err(parts: Seq<Seq<char>>, acc: Seq<i32>, m: int, n: int)
    requires
        0 <= m <= n,
        fill_i32(parts, m, acc) is Err,
    ensures
        fill_i32(parts, n, acc) == fill_i32(parts, m, acc),
    decreases n,
{
    if m < n {
        lemma_fill_i32_err(parts, acc, m, n - 1);
    }
}

proof fn lemma_sc_fill_err(parts: Seq<Seq<char>>, acc: Seq<i32>, m: int, n: int)
    requires
        0 <= m <= n,
        sc_fill(parts, m, acc) is Err,
    ensures
        sc_fill(parts, n, acc) == sc_fill(parts, m, acc),
    decreases n,
{
    if m < n {
        lemma_sc_fill_err(parts, acc, m, n - 1);
    }
}

/// The round state machine: accumulates document fields, sealed rounds
/// and the round in progress while the tag stream is consumed.
pub struct MjlogParser {
    pub mjlog_version: String,
    pub game_id: String,
    pub rules: Option<Rules>,
    pub players: Vec<Player>,
    pub rounds: Vec<Round>,
    pub current_round: Option<Round>,
}

impl View for MjlogParser {
    type V = StateV;

    open spec fn view(&self) -> StateV {
        StateV {
            mjlog_version: self.mjlog_version@,
            rules: self.rules,
            players: self.players@.map_values(|p: Player| p@),
            rounds: self.rounds@.map_values(|r: Round| r@),
            cur: match self.current_round {
                Some(r) => Some(r@),
                None => None,
            },
        }
    }
}

impl MjlogParser {
    /// A fresh state machine with a newly generated game identifier.
    pub fn new() -> (p: MjlogParser)
        ensures
            p@ == init_state(),
            p.game_id@.len() == 36,
    {
        let p = MjlogParser {
            mjlog_version: String::new(),
            game_id: fresh_game_id(),
            rules: None,
            players: Vec::new(),
            rounds: Vec::new(),
            current_round: None,
        };
        proof {
            assert(p@.mjlog_version =~= init_state().mjlog_version);
            assert(p@.players =~= init_state().players);
            assert(p@.rounds =~= init_state().rounds);
        }
        p
    }

    /// The version tag: keeps the value of its last `ver` attribute.
    fn handle_mjloggm(&mut self, tag: &RawTag)
        ensures
            final(self)@ == do_mjloggm(old(self)@, tag@.attrs),
            final(self).game_id@ == old(self).game_id@,
    {
        let ghost attrs = tag@.attrs;
        let mut i: usize = 0;
        while i < tag.attrs.len()
            invariant
                i <= tag.attrs@.len(),
                attrs == tag@.attrs,
                attrs.len() == tag.attrs@.len(),
                self.mjlog_version@ == ver_fold(attrs, i as int, old(self)@.mjlog_version),
                self.game_id@ == old(self).game_id@,
                self.rules == old(self).rules,
                self.players == old(self).players,
                self.rounds == old(self).rounds,
                self.current_round == old(self).current_round,
            decreases tag.attrs@.len() - i,
        {
            proof {
                assert(attrs[i as int] == (tag.attrs@[i as int].0@, tag.attrs@[i as int].1@));
            }
            let a = &tag.attrs[i];
            if chars_eq_str(&a.0, "ver") {
                self.mjlog_version = chars_to_string(&a.1);
            }
            i = i + 1;
        }
    }

    /// The rule tag: reads the flag bitfield and the optional lobby.
    fn handle_go(&mut self, tag: &RawTag) -> (r: Result<(), ParserError>)
        ensures
            match r {
                Ok(_) => do_go(old(self)@, tag@.attrs) == Ok::<StateV, ErrorKind>(final(self)@)
                    && final(self).game_id@ == old(self).game_id@,
                Err(e) => do_go(old(self)@, tag@.attrs) == Err::<StateV, ErrorKind>(e.kind()),
            },
    {
        let ghost attrs = tag@.attrs;
        let mut type_flags: u32 = 0;
        let mut lobby: Option<u32> = None;
        let mut i: usize = 0;
        while i < tag.attrs.len()
            invariant
                i <= tag.attrs@.len(),
                attrs == tag@.attrs,
                attrs.len() == tag.attrs@.len(),
                go_fold(attrs, i as int, (0u32, Option::<u32>::None)) == Ok::<
                    (u32, Option<u32>),
                    ErrorKind,
                >((type_flags, lobby)),
            decreases tag.attrs@.len() - i,
        {
            proof {
                assert(attrs[i as int] == (tag.attrs@[i as int].0@, tag.attrs@[i as int].1@));
            }
            let a = &tag.attrs[i];
            if chars_eq_str(&a.0, "type") {
                match parse_u32_chars(&a.1) {
                    None => {
                        proof {
                            lemma_go_fold_err(
                                attrs,
                                (0u32, Option::<u32>::None),
                                i as int + 1,
                                attrs.len() as int,
                            );
                        }
                        return Err(
                            ParserError::ParseInt(String::from_str("invalid digit found in string")),
                        );
                    },
                    Some(v) => {
                        type_flags = v;
                    },
                }
            } else if chars_eq_str(&a.0, "lobby") {
                match parse_u32_chars(&a.1) {
                    None => {
                        proof {
                            lemma_go_fold_err(
                                attrs,
                                (0u32, Option::<u32>::None),
                                i as int + 1,
                                attrs.len() as int,
                            );
                        }
                        return Err(
                            ParserError::ParseInt(String::from_str("invalid digit found in string")),
                        );
                    },
                    Some(v) => {
                        lobby = if v == 0 {
                            None
                        } else {
                            Some(v)
                        };
                    },
                }
            }
            i = i + 1;
        }
        self.rules = Some(Rules { type_flags, lobby_id: lobby });
        Ok(())
    }

    /// The dealer tag: checks its `oya` value and keeps nothing of it.
    fn handle_taikyoku(&mut self, tag: &RawTag) -> (r: Result<(), ParserError>)
        ensures
            match r {
                Ok(_) => do_taikyoku(old(self)@, tag@.attrs) == Ok::<StateV, ErrorKind>(
                    final(self)@,
                ) && final(self).game_id@ == old(self).game_id@,
                Err(e) => do_taikyoku(old(self)@, tag@.attrs) == Err::<StateV, ErrorKind>(e.kind()),
            },
    {
        let ghost attrs = tag@.attrs;
        let mut i: usize = 0;
        while i < tag.attrs.len()
            invariant
                i <= tag.attrs@.len(),
                attrs == tag@.attrs,
                attrs.len() == tag.attrs@.len(),
                tk_fold(attrs, i as int) == Ok::<(), ErrorKind>(()),
                self == old(self),
            decreases tag.attrs@.len() - i,
        {
            proof {
                assert(attrs[i as int] == (tag.attrs@[i as int].0@, tag.attrs@[i as int].1@));
            }
            let a = &tag.attrs[i];
            if chars_eq_str(&a.0, "oya") {
                match parse_u8_chars(&a.1) {
                    None => {
                        proof {
                            lemma_tk_fold_err(attrs, i as int + 1, attrs.len() as int);
                        }
                        return Err(
                            ParserError::ParseInt(String::from_str("invalid digit found in string")),
                        );
                    },
                    Some(_) => {},
                }
            }
            i = i + 1;
        }
        Ok(())
    }
}


proof fn lemma_hands_lists_err(hands: Seq<Seq<char>>, m: int, n: int)
    requires
        0 <= m <= n,
        hands_lists(hands, m) is Err,
    ensures
        hands_lists(hands, n) == hands_lists(hands, m),
    decreases n,
{
    if m < n {
        lemma_hands_lists_err(hands, m, n - 1);
    }
}

impl MjlogParser {
    /// The roster tag: reads names, ranks, ratings and genders, and
    /// appends the four seated players.
    #[verifier::loop_isolation(false)]
    #[verifier::rlimit(100)]
    fn handle_un(&mut self, tag: &RawTag) -> (r: Result<(), ParserError>)
        ensures
            match r {
                Ok(_) => do_un(old(self)@, tag@.attrs) == Ok::<StateV, ErrorKind>(final(self)@)
                    && final(self).game_id@ == old(self).game_id@,
                Err(e) => do_un(old(self)@, tag@.attrs) == Err::<StateV, ErrorKind>(e.kind()),
            },
    {
        let ghost attrs = tag@.attrs;
        let ghost acc0: UnAcc = (four_empty(), four_zero_u32(), four_zero_u32(), four_empty());
        let mut names: Vec<String> = Vec::new();
        names.push(String::new());
        names.push(String::new());
        names.push(String::new());
        names.push(String::new());
        let mut dans: Vec<u32> = vec![0u32, 0u32, 0u32, 0u32];
        let mut rates: Vec<u32> = vec![0u32, 0u32, 0u32, 0u32];
        let mut genders: Vec<String> = Vec::new();
        genders.push(String::new());
        genders.push(String::new());
        genders.push(String::new());
        genders.push(String::new());
        proof {
            assert(names.deep_view() =~~= four_empty());
            assert(dans@ =~= four_zero_u32());
            assert(rates@ =~= four_zero_u32());
            assert(genders.deep_view() =~~= four_empty());
        }
        let mut i: usize = 0;
        while i < tag.attrs.len()
            invariant
                i <= tag.attrs@.len(),
                names@.len() == 4,
                dans@.len() == 4,
                rates@.len() == 4,
                genders@.len() == 4,
                un_fold(attrs, i as int, acc0) == Ok::<UnAcc, ErrorKind>(
                    (names.deep_view(), dans@, rates@, genders.deep_view()),
                ),
            decreases tag.attrs@.len() - i,
        {
            proof {
                assert(attrs[i as int] == (tag.attrs@[i as int].0@, tag.attrs@[i as int].1@));
            }
            let a = &tag.attrs[i];
            if chars_eq_str(&a.0, "n0") {
                let raw = chars_to_string(&a.1);
                let ghost before = names.deep_view();
                names.set(0, decode_player_id(raw.as_str()));
                proof {
                    assert(names.deep_view() =~~= before.update(0, percent_decoded(attrs[i as int].1)));
                }
            } else if chars_eq_str(&a.0, "n1") {
                let raw = chars_to_string(&a.1);
                let ghost before = names.deep_view();
                names.set(1, decode_player_id(raw.as_str()));
                proof {
                    assert(names.deep_view() =~~= before.update(1, percent_decoded(attrs[i as int].1)));
                }
            } else if chars_eq_str(&a.0, "n2") {
                let raw = chars_to_string(&a.1);
                let ghost before = names.deep_view();
                names.set(2, decode_player_id(raw.as_str()));
                proof {
                    assert(names.deep_view() =~~= before.update(2, percent_decoded(attrs[i as int].1)));
                }
            } else if chars_eq_str(&a.0, "n3") {
                let raw = chars_to_string(&a.1);
                let ghost before = names.deep_view();
                names.set(3, decode_player_id(raw.as_str()));
                proof {
                    assert(names.deep_view() =~~= before.update(3, percent_decoded(attrs[i as int].1)));
                }
            } else if chars_eq_str(&a.0, "dan") {
                let parts = split_chars(&a.1, ',');
                let ghost parts_v = parts.deep_view();
                let ghost entry = dans@;
                let m: usize = if parts.len() < 4 {
                    parts.len()
                } else {
                    4
                };
                let mut j: usize = 0;
                while j < m
                    invariant
                        j <= m,
                        dans@.len() == 4,
                        fill_u32(parts_v, j as int, entry) == Ok::<Seq<u32>, ErrorKind>(dans@),
                    decreases m - j,
                {
                    proof {
                        assert(parts_v[j as int] == parts@[j as int]@);
                    }
                    match parse_u32_chars(&parts[j]) {
                        None => {
                            proof {
                                lemma_fill_u32_err(
                                    parts_v,
                                    entry,
                                    j as int + 1,
                                    upto4(parts_v.len() as int),
                                );
                                lemma_un_fold_err(attrs, acc0, i as int + 1, attrs.len() as int);
                            }
                            return Err(
                                ParserError::ParseInt(
                                    String::from_str("invalid digit found in string"),
                                ),
                            );
                        },
                        Some(v) => {
                            dans.set(j, v);
                        },
                    }
                    j = j + 1;
                }
            } else if chars_eq_str(&a.0, "rate") {
                let parts = split_chars(&a.1, ',');
                let ghost parts_v = parts.deep_view();
                let ghost entry = rates@;
                let m: usize = if parts.len() < 4 {
                    parts.len()
                } else {
                    4
                };
                let mut j: usize = 0;
                while j < m
                    invariant
                        j <= m,
                        rates@.len() == 4,
                        fill_u32(parts_v, j as int, entry) == Ok::<Seq<u32>, ErrorKind>(rates@),
                    decreases m - j,
                {
                    proof {
                        assert(parts_v[j as int] == parts@[j as int]@);
                    }
                    match parse_u32_chars(&parts[j]) {
                        None => {
                            proof {
                                lemma_fill_u32_err(
                                    parts_v,
                                    entry,
                                    j as int + 1,
                                    upto4(parts_v.len() as int),
                                );
                                lemma_un_fold_err(attrs, acc0, i as int + 1, attrs.len() as int);
                            }
                            return Err(
                                ParserError::ParseInt(
                                    String::from_str("invalid digit found in string"),
                                ),
                            );
                        },
                        Some(v) => {
                            rates.set(j, v);
                        },
                    }
                    j = j + 1;
                }
            } else if chars_eq_str(&a.0, "sx") {
                let parts = split_chars(&a.1, ',');
                let ghost parts_v = parts.deep_view();
                let ghost entry = genders.deep_view();
                let m: usize = if parts.len() < 4 {
                    parts.len()
                } else {
                    4
                };
                let mut j: usize = 0;
                while j < m
                    invariant
                        j <= m,
                        genders@.len() == 4,
                        genders.deep_view() =~~= Seq::new(
                            4,
                            |k: int|
                                if k < j {
                                    parts_v[k]
                                } else {
                                    entry[k]
                                },
                        ),
                    decreases m - j,
                {
                    proof {
                        assert(parts_v[j as int] == parts@[j as int]@);
                    }
                    let s = chars_to_string(&parts[j]);
                    let ghost before_set = genders.deep_view();
                    genders.set(j, s);
                    proof {
                        assert(genders.deep_view() =~~= before_set.update(
                            j as int,
                            parts_v[j as int],
                        ));
                    }
                    j = j + 1;
                }
                proof {
                    assert(genders.deep_view() =~~= Seq::new(
                        4,
                        |k: int|
                            if k < parts_v.len() {
                                parts_v[k]
                            } else {
                                entry[k]
                            },
                    ));
                }
            }
            i = i + 1;
        }
        let p0 = Player {
            seat: 0,
            player_id: names[0].clone(),
            rank: dans[0],
            rate: rates[0],
            gender: genders[0].clone(),
        };
        let p1 = Player {
            seat: 1,
            player_id: names[1].clone(),
            rank: dans[1],
            rate: rates[1],
            gender: genders[1].clone(),
        };
        let p2 = Player {
            seat: 2,
            player_id: names[2].clone(),
            rank: dans[2],
            rate: rates[2],
            gender: genders[2].clone(),
        };
        let p3 = Player {
            seat: 3,
            player_id: names[3].clone(),
            rank: dans[3],
            rate: rates[3],
            gender: genders[3].clone(),
        };
        let ghost players_before = self@.players;
        self.players.push(p0);
        self.players.push(p1);
        self.players.push(p2);
        self.players.push(p3);
        proof {
            let names_v = names.deep_view();
            let genders_v = genders.deep_view();
            assert(self@.players =~~= players_before + Seq::new(
                4,
                |i: int|
                    PlayerV {
                        seat: i as u8,
                        player_id: names_v[i],
                        rank: dans@[i],
                        rate: rates@[i],
                        gender: genders_v[i],
                    },
            ));
        }
        Ok(())
    }
}



impl MjlogParser {
    /// The initialization tag: reads the packed seed and score fields and
    /// the starting hands, seals the round in progress, and opens a fresh
    /// round.
    #[verifier::loop_isolation(false)]
    #[verifier::rlimit(100)]
    fn handle_init(&mut self, tag: &RawTag) -> (r: Result<(), ParserError>)
        requires
            old(self)@.rounds.len() + 1 < usize::MAX,
        ensures
            match r {
                Ok(_) => do_init(old(self)@, tag@.attrs) == Ok::<StateV, ErrorKind>(final(self)@)
                    && final(self).game_id@ == old(self).game_id@,
                Err(e) => do_init(old(self)@, tag@.attrs) == Err::<StateV, ErrorKind>(e.kind()),
            },
    {
        let ghost attrs = tag@.attrs;
        let ghost acc0: InitAcc = (Seq::empty(), Seq::empty(), 0u8, four_empty());
        let mut seed: Vec<char> = Vec::new();
        let mut ten: Vec<char> = Vec::new();
        let mut oya: u8 = 0;
        let mut hands: Vec<Vec<char>> = Vec::new();
        hands.push(Vec::new());
        hands.push(Vec::new());
        hands.push(Vec::new());
        hands.push(Vec::new());
        proof {
            assert(seed@ =~= acc0.0);
            assert(ten@ =~= acc0.1);
            assert(hands.deep_view() =~~= four_empty());
        }
        let mut i: usize = 0;
        while i < tag.attrs.len()
            invariant
                i <= tag.attrs@.len(),
                hands@.len() == 4,
                init_fold(attrs, i as int, acc0) == Ok::<InitAcc, ErrorKind>(
                    (seed@, ten@, oya, hands.deep_view()),
                ),
            decreases tag.attrs@.len() - i,
        {
            proof {
                assert(attrs[i as int] == (tag.attrs@[i as int].0@, tag.attrs@[i as int].1@));
            }
            let a = &tag.attrs[i];
            if chars_eq_str(&a.0, "seed") {
                seed = copy_range(&a.1, 0, a.1.len());
                proof {
                    assert(seed@ =~= attrs[i as int].1);
                }
            } else if chars_eq_str(&a.0, "ten") {
                ten = copy_range(&a.1, 0, a.1.len());
                proof {
                    assert(ten@ =~= attrs[i as int].1);
                }
            } else if chars_eq_str(&a.0, "oya") {
                match parse_u8_chars(&a.1) {
                    None => {
                        proof {
                            lemma_init_fold_err(attrs, acc0, i as int + 1, attrs.len() as int);
                        }
                        return Err(
                            ParserError::ParseInt(String::from_str("invalid digit found in string")),
                        );
                    },
                    Some(v) => {
                        oya = v;
                    },
                }
            } else if chars_eq_str(&a.0, "hai0") {
                let ghost before = hands.deep_view();
                let h = copy_range(&a.1, 0, a.1.len());
                hands.set(0, h);
                proof {
                    assert(hands.deep_view() =~~= before.update(0, attrs[i as int].1));
                }
            } else if chars_eq_str(&a.0, "hai1") {
                let ghost before = hands.deep_view();
                let h = copy_range(&a.1, 0, a.1.len());
                hands.set(1, h);
                proof {
                    assert(hands.deep_view() =~~= before.update(1, attrs[i as int].1));
                }
            } else if chars_eq_str(&a.0, "hai2") {
                let ghost before = hands.deep_view();
                let h = copy_range(&a.1, 0, a.1.len());
                hands.set(2, h);
                proof {
                    assert(hands.deep_view() =~~= before.update(2, attrs[i as int].1));
                }
            } else if chars_eq_str(&a.0, "hai3") {
                let ghost before = hands.deep_view();
                let h = copy_range(&a.1, 0, a.1.len());
                hands.set(3, h);
                proof {
                    assert(hands.deep_view() =~~= before.update(3, attrs[i as int].1));
                }
            }
            i = i + 1;
        }
        let ghost hands_v = hands.deep_view();
        let seed_parts = split_chars(&seed, ',');
        let ghost sp = seed_parts.deep_view();
        if seed_parts.len() < 6 {
            return Err(ParserError::invalid_format("Invalid seed format"));
        }
        proof {
            assert(sp[0] == seed_parts@[0]@);
            assert(sp[1] == seed_parts@[1]@);
            assert(sp[2] == seed_parts@[2]@);
            assert(sp[3] == seed_parts@[3]@);
            assert(sp[4] == seed_parts@[4]@);
            assert(sp[5] == seed_parts@[5]@);
        }
        let rn = match parse_u32_chars(&seed_parts[0]) {
            None => {
                return Err(ParserError::ParseInt(String::from_str("invalid digit found in string")));
            },
            Some(v) => v,
        };
        let honba = match parse_u32_chars(&seed_parts[1]) {
            None => {
                return Err(ParserError::ParseInt(String::from_str("invalid digit found in string")));
            },
            Some(v) => v,
        };
        let kyoutaku = match parse_u32_chars(&seed_parts[2]) {
            None => {
                return Err(ParserError::ParseInt(String::from_str("invalid digit found in string")));
            },
            Some(v) => v,
        };
        let d1 = match parse_u32_chars(&seed_parts[3]) {
            None => {
                return Err(ParserError::ParseInt(String::from_str("invalid digit found in string")));
            },
            Some(v) => v,
        };
        let d2 = match parse_u32_chars(&seed_parts[4]) {
            None => {
                return Err(ParserError::ParseInt(String::from_str("invalid digit found in string")));
            },
            Some(v) => v,
        };
        let dora = match parse_u32_chars(&seed_parts[5]) {
            None => {
                return Err(ParserError::ParseInt(String::from_str("invalid digit found in string")));
            },
            Some(v) => v,
        };
        let ten_parts = split_chars(&ten, ',');
        let ghost tp = ten_parts.deep_view();
        if ten_parts.len() < 4 {
            return Err(ParserError::invalid_format("Invalid ten format"));
        }
        proof {
            assert(tp[0] == ten_parts@[0]@);
            assert(tp[1] == ten_parts@[1]@);
            assert(tp[2] == ten_parts@[2]@);
            assert(tp[3] == ten_parts@[3]@);
        }
        let s0 = match parse_i32_chars(&ten_parts[0]) {
            None => {
                return Err(ParserError::ParseInt(String::from_str("invalid digit found in string")));
            },
            Some(v) => v,
        };
        let s1 = match parse_i32_chars(&ten_parts[1]) {
            None => {
                return Err(ParserError::ParseInt(String::from_str("invalid digit found in string")));
            },
            Some(v) => v,
        };
        let s2 = match parse_i32_chars(&ten_parts[2]) {
            None => {
                return Err(ParserError::ParseInt(String::from_str("invalid digit found in string")));
            },
            Some(v) => v,
        };
        let s3 = match parse_i32_chars(&ten_parts[3]) {
            None => {
                return Err(ParserError::ParseInt(String::from_str("invalid digit found in string")));
            },
            Some(v) => v,
        };
        proof {
            assert(hands_v[0] == hands@[0]@);
            assert(hands_v[1] == hands@[1]@);
            assert(hands_v[2] == hands@[2]@);
            assert(hands_v[3] == hands@[3]@);
            assert(hands_lists(hands_v, 0) == Ok::<Seq<Seq<Seq<char>>>, ErrorKind>(Seq::empty()));
        }
        let h0 = match parse_tile_list_chars(&hands[0]) {
            Err(e) => {
                proof {
                    lemma_hands_lists_err(hands_v, 1, 4);
                }
                return Err(e);
            },
            Ok(v) => v,
        };
        let h1 = match parse_tile_list_chars(&hands[1]) {
            Err(e) => {
                proof {
                    assert(hands_lists(hands_v, 1) == Ok::<Seq<Seq<Seq<char>>>, ErrorKind>(
                        Seq::empty().push(h0.deep_view()),
                    ));
                    lemma_hands_lists_err(hands_v, 2, 4);
                }
                return Err(e);
            },
            Ok(v) => v,
        };
        let h2 = match parse_tile_list_chars(&hands[2]) {
            Err(e) => {
                proof {
                    assert(hands_lists(hands_v, 1) == Ok::<Seq<Seq<Seq<char>>>, ErrorKind>(
                        Seq::empty().push(h0.deep_view()),
                    ));
                    assert(hands_lists(hands_v, 2) == Ok::<Seq<Seq<Seq<char>>>, ErrorKind>(
                        Seq::empty().push(h0.deep_view()).push(h1.deep_view()),
                    ));
                    lemma_hands_lists_err(hands_v, 3, 4);
                }
                return Err(e);
            },
            Ok(v) => v,
        };
        let h3 = match parse_tile_list_chars(&hands[3]) {
            Err(e) => {
                proof {
                    assert(hands_lists(hands_v, 1) == Ok::<Seq<Seq<Seq<char>>>, ErrorKind>(
                        Seq::empty().push(h0.deep_view()),
                    ));
                    assert(hands_lists(hands_v, 2) == Ok::<Seq<Seq<Seq<char>>>, ErrorKind>(
                        Seq::empty().push(h0.deep_view()).push(h1.deep_view()),
                    ));
                    assert(hands_lists(hands_v, 3) == Ok::<Seq<Seq<Seq<char>>>, ErrorKind>(
                        Seq::empty().push(h0.deep_view()).push(h1.deep_view()).push(h2.deep_view()),
                    ));
                }
                return Err(e);
            },
            Ok(v) => v,
        };
        proof {
            assert(hands_lists(hands_v, 1) == Ok::<Seq<Seq<Seq<char>>>, ErrorKind>(
                Seq::empty().push(h0.deep_view()),
            ));
            assert(hands_lists(hands_v, 2) == Ok::<Seq<Seq<Seq<char>>>, ErrorKind>(
                Seq::empty().push(h0.deep_view()).push(h1.deep_view()),
            ));
            assert(hands_lists(hands_v, 3) == Ok::<Seq<Seq<Seq<char>>>, ErrorKind>(
                Seq::empty().push(h0.deep_view()).push(h1.deep_view()).push(h2.deep_view()),
            ));
            assert(hands_lists(hands_v, 4) == Ok::<Seq<Seq<Seq<char>>>, ErrorKind>(
                Seq::empty().push(h0.deep_view()).push(h1.deep_view()).push(h2.deep_view()).push(
                    h3.deep_view(),
                ),
            ));
        }
        let mut initial_hands: Vec<Vec<String>> = Vec::new();
        initial_hands.push(h0);
        initial_hands.push(h1);
        initial_hands.push(h2);
        initial_hands.push(h3);
        let prev = self.current_round.take();
        match prev {
            Some(rr) => {
                let ghost rb = self@.rounds;
                self.rounds.push(rr);
                proof {
                    assert(self@.rounds =~~= rb.push(rr@));
                }
            },
            None => {},
        }
        let num = self.rounds.len() + 1;
        let num_str = usize_to_dec_string(num);
        let mut label = String::from_str("Round ");
        label.append(num_str.as_str());
        let init = Init {
            round_number: rn,
            honba: honba,
            kyoutaku: kyoutaku,
            dice: [d1, d2],
            dora_indicator: dora,
            initial_scores: [s0, s1, s2, s3],
            initial_hands: initial_hands,
        };
        proof {
            assert(init@.dice =~= seq![d1, d2]);
            assert(init@.initial_scores =~= seq![s0, s1, s2, s3]);
            assert(init@.initial_hands =~~= Seq::empty().push(h0.deep_view()).push(
                h1.deep_view(),
            ).push(h2.deep_view()).push(h3.deep_view()));
        }
        let events: Vec<Event> = Vec::new();
        proof {
            assert(events@.map_values(|e: Event| e@) =~= Seq::<EventV>::empty());
        }
        self.current_round = Some(
            Round { round_id: label, dealer_seat: oya, init: init, events: events },
        );
        Ok(())
    }
}


/// Index of the first attribute with an empty key, if any.
fn find_unnamed(tag: &RawTag) -> (r: Option<usize>)
    ensures
        match r {
            Some(i) => i < tag.attrs@.len() && first_unnamed(tag@.attrs) == Some(
                tag@.attrs[i as int].1,
            ),
            None => first_unnamed(tag@.attrs) is None,
        },
{
    let ghost attrs = tag@.attrs;
    let mut i: usize = 0;
    proof {
        assert(attrs.skip(0) =~~= attrs);
    }
    while i < tag.attrs.len()
        invariant
            i <= tag.attrs@.len(),
            attrs == tag@.attrs,
            attrs.len() == tag.attrs@.len(),
            first_unnamed(attrs) == first_unnamed(attrs.skip(i as int)),
        decreases tag.attrs@.len() - i,
    {
        proof {
            assert(attrs[i as int] == (tag.attrs@[i as int].0@, tag.attrs@[i as int].1@));
            assert(attrs.skip(i as int)[0] == attrs[i as int]);
        }
        let a = &tag.attrs[i];
        if a.0.len() == 0 {
            return Some(i);
        }
        proof {
            assert(attrs.skip(i as int).drop_first() =~~= attrs.skip(i as int + 1));
        }
        i = i + 1;
    }
    None
}

impl MjlogParser {
    /// Appends an event to the round in progress.
    fn push_cur_event(&mut self, ev: Event)
        requires
            old(self).current_round is Some,
        ensures
            final(self)@ == push_event(old(self)@, old(self)@.cur.unwrap(), ev@),
            final(self).game_id@ == old(self).game_id@,
    {
        let cur = self.current_round.take();
        match cur {
            Some(mut r) => {
                let ghost rv = r@;
                r.events.push(ev);
                proof {
                    assert(r@.events =~~= rv.events.push(ev@));
                }
                self.current_round = Some(r);
            },
            None => {
                self.current_round = None;
            },
        }
    }

    /// A draw tag: appends a draw event to the open round, from the
    /// unnamed attribute or the numeric suffix of the tag name.
    fn handle_draw(&mut self, tag: &RawTag, seat: u8) -> (r: Result<(), ParserError>)
        ensures
            match r {
                Ok(_) => do_draw(old(self)@, tag@.name, tag@.attrs, seat) == Ok::<
                    StateV,
                    ErrorKind,
                >(final(self)@) && final(self).game_id@ == old(self).game_id@,
                Err(e) => do_draw(old(self)@, tag@.name, tag@.attrs, seat) == Err::<
                    StateV,
                    ErrorKind,
                >(e.kind()),
            },
    {
        if self.current_round.is_none() {
            return Ok(());
        }
        match find_unnamed(tag) {
            Some(i) => {
                let a = &tag.attrs[i];
                proof {
                    assert(tag@.attrs[i as int] == (tag.attrs@[i as int].0@, tag.attrs@[i as int].1@));
                }
                match parse_u32_chars(&a.1) {
                    None => Err(
                        ParserError::ParseInt(String::from_str("invalid digit found in string")),
                    ),
                    Some(id) => {
                        let tile = tile_id_to_string(id);
                        self.push_cur_event(Event::Draw { seat, tile });
                        Ok(())
                    },
                }
            },
            None => {
                if tag.name.len() > 1 {
                    let suffix = copy_range(&tag.name, 1, tag.name.len());
                    proof {
                        assert(suffix@ =~= tag@.name.skip(1));
                    }
                    match parse_u32_chars(&suffix) {
                        Some(id) => {
                            let tile = tile_id_to_string(id);
                            self.push_cur_event(Event::Draw { seat, tile });
                            Ok(())
                        },
                        None => Ok(()),
                    }
                } else {
                    Ok(())
                }
            },
        }
    }

    /// A discard tag: as a draw; the riichi flag is unresolved and left
    /// false.
    fn handle_discard(&mut self, tag: &RawTag, seat: u8) -> (r: Result<(), ParserError>)
        ensures
            match r {
                Ok(_) => do_discard(old(self)@, tag@.name, tag@.attrs, seat) == Ok::<
                    StateV,
                    ErrorKind,
                >(final(self)@) && final(self).game_id@ == old(self).game_id@,
                Err(e) => do_discard(old(self)@, tag@.name, tag@.attrs, seat) == Err::<
                    StateV,
                    ErrorKind,
                >(e.kind()),
            },
    {
        if self.current_round.is_none() {
            return Ok(());
        }
        match find_unnamed(tag) {
            Some(i) => {
                let a = &tag.attrs[i];
                proof {
                    assert(tag@.attrs[i as int] == (tag.attrs@[i as int].0@, tag.attrs@[i as int].1@));
                }
                match parse_u32_chars(&a.1) {
                    None => Err(
                        ParserError::ParseInt(String::from_str("invalid digit found in string")),
                    ),
                    Some(id) => {
                        let tile = tile_id_to_string(id);
                        self.push_cur_event(Event::Discard { seat, tile, is_riichi: false });
                        Ok(())
                    },
                }
            },
            None => {
                if tag.name.len() > 1 {
                    let suffix = copy_range(&tag.name, 1, tag.name.len());
                    proof {
                        assert(suffix@ =~= tag@.name.skip(1));
                    }
                    match parse_u32_chars(&suffix) {
                        Some(id) => {
                            let tile = tile_id_to_string(id);
                            self.push_cur_event(Event::Discard { seat, tile, is_riichi: false });
                            Ok(())
                        },
                        None => Ok(()),
                    }
                } else {
                    Ok(())
                }
            },
        }
    }

    /// A call tag: only the acting seat is decoded. The packed meld
    /// decomposition is a known unresolved area, so a best-effort call
    /// event with placeholder tiles is recorded rather than invented
    /// data passed off as real.
    #[verifier::loop_isolation(false)]
    fn handle_naki(&mut self, tag: &RawTag) -> (r: Result<(), ParserError>)
        ensures
            match r {
                Ok(_) => do_naki(old(self)@, tag@.attrs) == Ok::<StateV, ErrorKind>(final(self)@)
                    && final(self).game_id@ == old(self).game_id@,
                Err(e) => do_naki(old(self)@, tag@.attrs) == Err::<StateV, ErrorKind>(e.kind()),
            },
    {
        let ghost attrs = tag@.attrs;
        let mut who: u8 = 0;
        let mut i: usize = 0;
        while i < tag.attrs.len()
            invariant
                i <= tag.attrs@.len(),
                naki_fold(attrs, i as int, 0u8) == Ok::<u8, ErrorKind>(who),
            decreases tag.attrs@.len() - i,
        {
            proof {
                assert(attrs[i as int] == (tag.attrs@[i as int].0@, tag.attrs@[i as int].1@));
            }
            let a = &tag.attrs[i];
            if chars_eq_str(&a.0, "who") {
                match parse_u8_chars(&a.1) {
                    None => {
                        proof {
                            lemma_naki_fold_err(attrs, 0u8, i as int + 1, attrs.len() as int);
                        }
                        return Err(
                            ParserError::ParseInt(String::from_str("invalid digit found in string")),
                        );
                    },
                    Some(v) => {
                        who = v;
                    },
                }
            }
            i = i + 1;
        }
        if self.current_round.is_some() {
            let tiles = [String::from_str("1m"), String::from_str("1m"), String::from_str("1m")];
            proof {
                assert(tiles.deep_view() =~~= seq!["1m"@, "1m"@, "1m"@]);
            }
            self.push_cur_event(Event::Pon { who, tiles, from: 0 });
        }
        Ok(())
    }

    /// A dora-reveal tag: appends one dora event per indicator named.
    #[verifier::loop_isolation(false)]
    fn handle_dora(&mut self, tag: &RawTag) -> (r: Result<(), ParserError>)
        ensures
            match r {
                Ok(_) => do_dora(old(self)@, tag@.attrs) == Ok::<StateV, ErrorKind>(final(self)@)
                    && final(self).game_id@ == old(self).game_id@,
                Err(e) => do_dora(old(self)@, tag@.attrs) == Err::<StateV, ErrorKind>(e.kind()),
            },
    {
        let ghost attrs = tag@.attrs;
        let mut ids: Vec<u32> = Vec::new();
        let mut i: usize = 0;
        proof {
            assert(ids@ =~= Seq::<u32>::empty());
        }
        while i < tag.attrs.len()
            invariant
                i <= tag.attrs@.len(),
                dora_fold(attrs, i as int) == Ok::<Seq<u32>, ErrorKind>(ids@),
            decreases tag.attrs@.len() - i,
        {
            proof {
                assert(attrs[i as int] == (tag.attrs@[i as int].0@, tag.attrs@[i as int].1@));
            }
            let a = &tag.attrs[i];
            if chars_eq_str(&a.0, "hai") {
                match parse_u32_chars(&a.1) {
                    None => {
                        proof {
                            lemma_dora_fold_err(attrs, i as int + 1, attrs.len() as int);
                        }
                        return Err(
                            ParserError::ParseInt(String::from_str("invalid digit found in string")),
                        );
                    },
                    Some(id) => {
                        ids.push(id);
                    },
                }
            }
            i = i + 1;
        }
        if self.current_round.is_none() {
            return Ok(());
        }
        let ghost ids_v = ids@;
        let ghost st0 = self@;
        let ghost r0 = self@.cur.unwrap();
        let mut j: usize = 0;
        while j < ids.len()
            invariant
                j <= ids@.len(),
                ids@ == ids_v,
                self.current_round is Some,
                self@.mjlog_version == st0.mjlog_version,
                self@.rules == st0.rules,
                self@.players == st0.players,
                self@.rounds == st0.rounds,
                self.game_id@ == old(self).game_id@,
                self@.cur == Some(
                    RoundV {
                        round_id: r0.round_id,
                        dealer_seat: r0.dealer_seat,
                        init: r0.init,
                        events: r0.events + ids_v.take(j as int).map_values(
                            |id: u32| EventV::Dora { indicator: tile_name(id) },
                        ),
                    },
                ),
            decreases ids@.len() - j,
        {
            let id = ids[j];
            let tile = tile_id_to_string(id);
            self.push_cur_event(Event::Dora { indicator: tile });
            proof {
                assert(ids_v.take(j as int + 1).map_values(
                    |id: u32| EventV::Dora { indicator: tile_name(id) },
                ) =~~= ids_v.take(j as int).map_values(
                    |id: u32| EventV::Dora { indicator: tile_name(id) },
                ).push(EventV::Dora { indicator: tile_name(ids_v[j as int]) }));
            }
            j = j + 1;
        }
        proof {
            assert(ids_v.take(ids_v.len() as int) =~= ids_v);
        }
        Ok(())
    }

    /// A ready declaration: records declarer, step and the optional
    /// score snapshot.
    #[verifier::loop_isolation(false)]
    #[verifier::rlimit(100)]
    fn handle_reach(&mut self, tag: &RawTag) -> (r: Result<(), ParserError>)
        ensures
            match r {
                Ok(_) => do_reach(old(self)@, tag@.attrs) == Ok::<StateV, ErrorKind>(final(self)@)
                    && final(self).game_id@ == old(self).game_id@,
                Err(e) => do_reach(old(self)@, tag@.attrs) == Err::<StateV, ErrorKind>(e.kind()),
            },
    {
        let ghost attrs = tag@.attrs;
        let ghost acc0: (u8, u8, Seq<i32>) = (0u8, 1u8, four_zero_i32());
        let mut who: u8 = 0;
        let mut step: u8 = 1;
        let mut scores: Vec<i32> = vec![0i32, 0i32, 0i32, 0i32];
        proof {
            assert(scores@ =~= four_zero_i32());
        }
        let mut i: usize = 0;
        while i < tag.attrs.len()
            invariant
                i <= tag.attrs@.len(),
                scores@.len() == 4,
                reach_fold(attrs, i as int, acc0) == Ok::<(u8, u8, Seq<i32>), ErrorKind>(
                    (who, step, scores@),
                ),
            decreases tag.attrs@.len() - i,
        {
            proof {
                assert(attrs[i as int] == (tag.attrs@[i as int].0@, tag.attrs@[i as int].1@));
            }
            let a = &tag.attrs[i];
            if chars_eq_str(&a.0, "who") {
                match parse_u8_chars(&a.1) {
                    None => {
                        proof {
                            lemma_reach_fold_err(attrs, acc0, i as int + 1, attrs.len() as int);
                        }
                        return Err(
                            ParserError::ParseInt(String::from_str("invalid digit found in string")),
                        );
                    },
                    Some(v) => {
                        who = v;
                    },
                }
            } else if chars_eq_str(&a.0, "step") {
                match parse_u8_chars(&a.1) {
                    None => {
                        proof {
                            lemma_reach_fold_err(attrs, acc0, i as int + 1, attrs.len() as int);
                        }
                        return Err(
                            ParserError::ParseInt(String::from_str("invalid digit found in string")),
                        );
                    },
                    Some(v) => {
                        step = v;
                    },
                }
            } else if chars_eq_str(&a.0, "ten") {
                let parts = split_chars(&a.1, ',');
                let ghost parts_v = parts.deep_view();
                let ghost entry = scores@;
                let m: usize = if parts.len() < 4 {
                    parts.len()
                } else {
                    4
                };
                let mut j: usize = 0;
                while j < m
                    invariant
                        j <= m,
                        scores@.len() == 4,
                        fill_i32(parts_v, j as int, entry) == Ok::<Seq<i32>, ErrorKind>(scores@),
                    decreases m - j,
                {
                    proof {
                        assert(parts_v[j as int] == parts@[j as int]@);
                    }
                    match parse_i32_chars(&parts[j]) {
                        None => {
                            proof {
                                lemma_fill_i32_err(
                                    parts_v,
                                    entry,
                                    j as int + 1,
                                    upto4(parts_v.len() as int),
                                );
                                lemma_reach_fold_err(attrs, acc0, i as int + 1, attrs.len() as int);
                            }
                            return Err(
                                ParserError::ParseInt(
                                    String::from_str("invalid digit found in string"),
                                ),
                            );
                        },
                        Some(v) => {
                            scores.set(j, v);
                        },
                    }
                    j = j + 1;
                }
            }
            i = i + 1;
        }
        if self.current_round.is_none() {
            return Ok(());
        }
        let sc = [scores[0], scores[1], scores[2], scores[3]];
        proof {
            assert(sc@ =~= scores@);
        }
        self.push_cur_event(Event::Reach { who, step, scores: sc });
        Ok(())
    }
}


impl MjlogParser {
    /// A win tag: records winner, source seat, fu and han, the
    /// placeholder scoring elements, and the per-seat score deltas.
    #[verifier::loop_isolation(false)]
    #[verifier::rlimit(100)]
    fn handle_agari(&mut self, tag: &RawTag) -> (r: Result<(), ParserError>)
        ensures
            match r {
                Ok(_) => do_agari(old(self)@, tag@.attrs) == Ok::<StateV, ErrorKind>(final(self)@)
                    && final(self).game_id@ == old(self).game_id@,
                Err(e) => do_agari(old(self)@, tag@.attrs) == Err::<StateV, ErrorKind>(e.kind()),
            },
    {
        let ghost attrs = tag@.attrs;
        let ghost acc0: AgariAcc = (0u8, 0u8, 0u32, 0u32, Seq::empty(), four_zero_i32());
        let mut who: u8 = 0;
        let mut from: u8 = 0;
        let mut han: u32 = 0;
        let mut fu: u32 = 0;
        let mut yakus: Vec<Yaku> = Vec::new();
        let mut scores: Vec<i32> = vec![0i32, 0i32, 0i32, 0i32];
        proof {
            assert(yakus@.map_values(|y: Yaku| y@) =~= Seq::<YakuV>::empty());
            assert(scores@ =~= four_zero_i32());
        }
        let mut i: usize = 0;
        while i < tag.attrs.len()
            invariant
                i <= tag.attrs@.len(),
                scores@.len() == 4,
                agari_fold(attrs, i as int, acc0) == Ok::<AgariAcc, ErrorKind>(
                    (who, from, han, fu, yakus@.map_values(|y: Yaku| y@), scores@),
                ),
            decreases tag.attrs@.len() - i,
    {
            proof {
                assert(attrs[i as int] == (tag.attrs@[i as int].0@, tag.attrs@[i as int].1@));
            }
            let a = &tag.attrs[i];
            if chars_eq_str(&a.0, "who") {
                match parse_u8_chars(&a.1) {
                    None => {
                        proof {
                            lemma_agari_fold_err(attrs, acc0, i as int + 1, attrs.len() as int);
                        }
                        return Err(
                            ParserError::ParseInt(String::from_str("invalid digit found in string")),
                        );
                    },
                    Some(v) => {
                        who = v;
                    },
                }
            } else if chars_eq_str(&a.0, "fromWho") {
                match parse_u8_chars(&a.1) {
                    None => {
                        proof {
                            lemma_agari_fold_err(attrs, acc0, i as int + 1, attrs.len() as int);
                        }
                        return Err(
                            ParserError::ParseInt(String::from_str("invalid digit found in string")),
                        );
                    },
                    Some(v) => {
                        from = v;
                    },
                }
            } else if chars_eq_str(&a.0, "ten") {
                let parts = split_chars(&a.1, ',');
                let ghost parts_v = parts.deep_view();
                if parts.len() >= 3 {
                    proof {
                        assert(parts_v[0] == parts@[0]@);
                        assert(parts_v[1] == parts@[1]@);
                        assert(parts_v[2] == parts@[2]@);
                    }
                    let fu_new = match parse_u32_chars(&parts[0]) {
                        None => {
                            proof {
                                lemma_agari_fold_err(attrs, acc0, i as int + 1, attrs.len() as int);
                            }
                            return Err(
                                ParserError::ParseInt(
                                    String::from_str("invalid digit found in string"),
                                ),
                            );
                        },
                        Some(v) => v,
                    };
                    match parse_i32_chars(&parts[1]) {
                        None => {
                            proof {
                                lemma_agari_fold_err(attrs, acc0, i as int + 1, attrs.len() as int);
                            }
                            return Err(
                                ParserError::ParseInt(
                                    String::from_str("invalid digit found in string"),
                                ),
                            );
                        },
                        Some(_) => {},
                    }
                    let han_new = match parse_u32_chars(&parts[2]) {
                        None => {
                            proof {
                                lemma_agari_fold_err(attrs, acc0, i as int + 1, attrs.len() as int);
                            }
                            return Err(
                                ParserError::ParseInt(
                                    String::from_str("invalid digit found in string"),
                                ),
                            );
                        },
                        Some(v) => v,
                    };
                    fu = fu_new;
                    han = han_new;
                }
            } else if chars_eq_str(&a.0, "yaku") {
                let ghost yv = yakus@.map_values(|y: Yaku| y@);
                yakus.push(Yaku { name: String::from_str("Unknown"), value: 1 });
                proof {
                    assert(yakus@.map_values(|y: Yaku| y@) =~~= yv.push(
                        YakuV { name: "Unknown"@, value: 1 },
                    ));
                }
            } else if chars_eq_str(&a.0, "sc") {
                let parts = split_chars(&a.1, ',');
                let ghost parts_v = parts.deep_view();
                let ghost entry = scores@;
                let mut ci: usize = 0;
                while ci < 4
                    invariant
                        ci <= 4,
                        scores@.len() == 4,
                        sc_fill(parts_v, ci as int, entry) == Ok::<Seq<i32>, ErrorKind>(scores@),
                    decreases 4 - ci,
                {
                    if 2 * ci + 1 < parts.len() {
                        proof {
                            assert(parts_v[2 * ci as int] == parts@[2 * ci as int]@);
                            assert(parts_v[2 * ci as int + 1] == parts@[2 * ci as int + 1]@);
                        }
                        match parse_i32_chars(&parts[2 * ci]) {
                            None => {
                                proof {
                                    lemma_sc_fill_err(parts_v, entry, ci as int + 1, 4);
                                    lemma_agari_fold_err(
                                        attrs,
                                        acc0,
                                        i as int + 1,
                                        attrs.len() as int,
                                    );
                                }
                                return Err(
                                    ParserError::ParseInt(
                                        String::from_str("invalid digit found in string"),
                                    ),
                                );
                            },
                            Some(_) => {},
                        }
                        match parse_i32_chars(&parts[2 * ci + 1]) {
                            None => {
                                proof {
                                    lemma_sc_fill_err(parts_v, entry, ci as int + 1, 4);
                                    lemma_agari_fold_err(
                                        attrs,
                                        acc0,
                                        i as int + 1,
                                        attrs.len() as int,
                                    );
                                }
                                return Err(
                                    ParserError::ParseInt(
                                        String::from_str("invalid digit found in string"),
                                    ),
                                );
                            },
                            Some(chg) => {
                                scores.set(ci, chg);
                            },
                        }
                    }
                    ci = ci + 1;
                }
            }
            i = i + 1;
        }
        if self.current_round.is_none() {
            return Ok(());
        }
        let sc = [scores[0], scores[1], scores[2], scores[3]];
        proof {
            assert(sc@ =~= scores@);
        }
        self.push_cur_event(
            Event::Agari { who, from, han, fu, yakus, dora_count: 0, scores: sc },
        );
        Ok(())
    }

    /// An exhaustive/abortive-draw tag: records the reason, with its
    /// fallback, and the per-seat score deltas.
    #[verifier::loop_isolation(false)]
    #[verifier::rlimit(100)]
    fn handle_ryuukyoku(&mut self, tag: &RawTag) -> (r: Result<(), ParserError>)
        ensures
            match r {
                Ok(_) => do_ryuukyoku(old(self)@, tag@.attrs) == Ok::<StateV, ErrorKind>(
                    final(self)@,
                ) && final(self).game_id@ == old(self).game_id@,
                Err(e) => do_ryuukyoku(old(self)@, tag@.attrs) == Err::<StateV, ErrorKind>(
                    e.kind(),
                ),
            },
    {
        let ghost attrs = tag@.attrs;
        let ghost acc0: (RyuukyokuReason, Seq<i32>) = (RyuukyokuReason::Normal, four_zero_i32());
        let mut reason: RyuukyokuReason = RyuukyokuReason::Normal;
        let mut scores: Vec<i32> = vec![0i32, 0i32, 0i32, 0i32];
        proof {
            assert(scores@ =~= four_zero_i32());
        }
        let mut i: usize = 0;
        while i < tag.attrs.len()
            invariant
                i <= tag.attrs@.len(),
                scores@.len() == 4,
                ry_fold(attrs, i as int, acc0) == Ok::<(RyuukyokuReason, Seq<i32>), ErrorKind>(
                    (reason, scores@),
                ),
            decreases tag.attrs@.len() - i,
        {
            proof {
                assert(attrs[i as int] == (tag.attrs@[i as int].0@, tag.attrs@[i as int].1@));
            }
            let a = &tag.attrs[i];
            if chars_eq_str(&a.0, "type") {
                if chars_eq_str(&a.1, "nm") {
                    reason = RyuukyokuReason::Normal;
                } else if chars_eq_str(&a.1, "yao9") {
                    reason = RyuukyokuReason::Yao9;
                } else if chars_eq_str(&a.1, "kaze4") {
                    reason = RyuukyokuReason::Kaze4;
                } else if chars_eq_str(&a.1, "reach4") {
                    reason = RyuukyokuReason::Reach4;
                } else if chars_eq_str(&a.1, "ron3") {
                    reason = RyuukyokuReason::Ron3;
                } else if chars_eq_str(&a.1, "kan4") {
                    reason = RyuukyokuReason::Kan4;
                } else {
                    reason = RyuukyokuReason::Normal;
                }
            } else if chars_eq_str(&a.0, "sc") {
                let parts = split_chars(&a.1, ',');
                let ghost parts_v = parts.deep_view();
                let ghost entry = scores@;
                let mut ci: usize = 0;
                while ci < 4
                    invariant
                        ci <= 4,
                        scores@.len() == 4,
                        sc_fill(parts_v, ci as int, entry) == Ok::<Seq<i32>, ErrorKind>(scores@),
                    decreases 4 - ci,
                {
                    if 2 * ci + 1 < parts.len() {
                        proof {
                            assert(parts_v[2 * ci as int] == parts@[2 * ci as int]@);
                            assert(parts_v[2 * ci as int + 1] == parts@[2 * ci as int + 1]@);
                        }
                        match parse_i32_chars(&parts[2 * ci]) {
                            None => {
                                proof {
                                    lemma_sc_fill_err(parts_v, entry, ci as int + 1, 4);
                                    lemma_ry_fold_err(
                                        attrs,
                                        acc0,
                                        i as int + 1,
                                        attrs.len() as int,
                                    );
                                }
                                return Err(
                                    ParserError::ParseInt(
                                        String::from_str("invalid digit found in string"),
                                    ),
                                );
                            },
                            Some(_) => {},
                        }
                        match parse_i32_chars(&parts[2 * ci + 1]) {
                            None => {
                                proof {
                                    lemma_sc_fill_err(parts_v, entry, ci as int + 1, 4);
                                    lemma_ry_fold_err(
                                        attrs,
                                        acc0,
                                        i as int + 1,
                                        attrs.len() as int,
                                    );
                                }
                                return Err(
                                    ParserError::ParseInt(
                                        String::from_str("invalid digit found in string"),
                                    ),
                                );
                            },
                            Some(chg) => {
                                scores.set(ci, chg);
                            },
                        }
                    }
                    ci = ci + 1;
                }
            }
            i = i + 1;
        }
        if self.current_round.is_none() {
            return Ok(());
        }
        let sc = [scores[0], scores[1], scores[2], scores[3]];
        proof {
            assert(sc@ =~= scores@);
        }
        self.push_cur_event(Event::Ryuukyoku { reason, scores: sc });
        Ok(())
    }
}



impl MjlogParser {
    /// Dispatches one tag to its handler; unknown tags are ignored.
    #[verifier::rlimit(100)]
    pub fn process_tag(&mut self, tag: &RawTag) -> (r: Result<(), ParserError>)
        requires
            old(self)@.rounds.len() + 1 < usize::MAX,
        ensures
            match r {
                Ok(_) => step_tag(old(self)@, tag@) == Ok::<StateV, ErrorKind>(final(self)@)
                    && final(self).game_id@ == old(self).game_id@ && final(self)@.rounds.len()
                    <= old(self)@.rounds.len() + 1,
                Err(e) => step_tag(old(self)@, tag@) == Err::<StateV, ErrorKind>(e.kind()),
            },
    {
        let name = &tag.name;
        if chars_eq_str(name, "mjloggm") {
            self.handle_mjloggm(tag);
            Ok(())
        } else if chars_eq_str(name, "GO") {
            self.handle_go(tag)
        } else if chars_eq_str(name, "UN") {
            self.handle_un(tag)
        } else if chars_eq_str(name, "TAIKYOKU") {
            self.handle_taikyoku(tag)
        } else if chars_eq_str(name, "INIT") {
            self.handle_init(tag)
        } else if chars_eq_str(name, "N") {
            self.handle_naki(tag)
        } else if chars_eq_str(name, "DORA") {
            self.handle_dora(tag)
        } else if chars_eq_str(name, "REACH") {
            self.handle_reach(tag)
        } else if chars_eq_str(name, "AGARI") {
            self.handle_agari(tag)
        } else if chars_eq_str(name, "RYUUKYOKU") {
            self.handle_ryuukyoku(tag)
        } else if name.len() > 0 {
            let c = name[0];
            if c == 'T' {
                self.handle_draw(tag, 0)
            } else if c == 'U' {
                self.handle_draw(tag, 1)
            } else if c == 'V' {
                self.handle_draw(tag, 2)
            } else if c == 'W' {
                self.handle_draw(tag, 3)
            } else if c == 'D' {
                self.handle_discard(tag, 0)
            } else if c == 'E' {
                self.handle_discard(tag, 1)
            } else if c == 'F' {
                self.handle_discard(tag, 2)
            } else if c == 'G' {
                self.handle_discard(tag, 3)
            } else {
                proof {
                    assert(tag_kind(tag@.name) == TagKind::Unknown);
                }
                Ok(())
            }
        } else {
            proof {
                assert(tag_kind(tag@.name) == TagKind::Unknown);
            }
            Ok(())
        }
    }

    /// Consumes a whole tag stream and seals the round in progress at
    /// its end, as the end of the record does.
    #[verifier::loop_isolation(false)]
    pub fn parse_tags(&mut self, tags: &Vec<RawTag>) -> (r: Result<(), ParserError>)
        requires
            old(self)@.rounds.len() + tags@.len() < usize::MAX,
        ensures
            match r {
                Ok(_) => (fold_tags(old(self)@, tags_view(tags@)) matches Ok(st) && final(self)@
                    == seal(st)) && final(self).game_id@ == old(self).game_id@,
                Err(e) => fold_tags(old(self)@, tags_view(tags@)) == Err::<StateV, ErrorKind>(
                    e.kind(),
                ),
            },
    {
        let ghost tagsv = tags_view(tags@);
        let ghost st0 = old(self)@;
        proof {
            assert(tagsv.skip(0) =~= tagsv);
        }
        let mut i: usize = 0;
        while i < tags.len()
            invariant
                i <= tags@.len(),
                self@.rounds.len() <= st0.rounds.len() + i,
                fold_tags(st0, tagsv) == fold_tags(self@, tagsv.skip(i as int)),
                self.game_id@ == old(self).game_id@,
            decreases tags@.len() - i,
        {
            let tag = &tags[i];
            proof {
                assert(tagsv[i as int] == tags@[i as int]@);
                assert(tagsv.skip(i as int)[0] == tagsv[i as int]);
                assert(tagsv.skip(i as int).drop_first() =~= tagsv.skip(i as int + 1));
            }
            match self.process_tag(tag) {
                Ok(_) => {},
                Err(e) => {
                    return Err(e);
                },
            }
            i = i + 1;
        }
        proof {
            assert(tagsv.skip(tagsv.len() as int) =~= Seq::<TagV>::empty());
        }
        let prev = self.current_round.take();
        match prev {
            Some(rr) => {
                let ghost rb = self@.rounds;
                self.rounds.push(rr);
                proof {
                    assert(self@.rounds =~~= rb.push(rr@));
                }
            },
            None => {},
        }
        Ok(())
    }

    /// Yields the assembled document; missing rules default to zero
    /// flags and no lobby. The round in progress, if any, is not part of
    /// the document.
    pub fn into_output(self) -> (out: ParserOutput)
        ensures
            out@.game_id == self.game_id@,
            out@.mjlog_version == self@.mjlog_version,
            out@.rules == (match self@.rules {
                Some(r) => r,
                None => Rules { type_flags: 0, lobby_id: None },
            }),
            out@.players == self@.players,
            out@.rounds == self@.rounds,
    {
        ParserOutput {
            mjlog_version: self.mjlog_version,
            game_id: self.game_id,
            rules: match self.rules {
                Some(r) => r,
                None => Rules { type_flags: 0, lobby_id: None },
            },
            players: self.players,
            rounds: self.rounds,
        }
    }
}

/// Parses a whole raw record: enforces the size cap, decodes the legacy
/// text encoding, scans the tag stream and folds it into the typed
/// document. Everything but the freshly generated game identifier is
/// pinned by the record's bytes.
#[verifier::rlimit(100)]
pub fn parse_mjlog(data: &[u8]) -> (r: Result<ParserOutput, ParserError>)
    ensures
        match r {
            Ok(out) => (spec_parse(data@) matches Ok(d) && doc_matches(out@, d)) && out@.game_id.len()
                == 36,
            Err(e) => spec_parse(data@) == Err::<DocV, ErrorKind>(e.kind()),
        },
{
    if data.len() >= MAX_FILE_SIZE {
        return Err(
            ParserError::parse(
                "File too large. Maximum allowed size is 104857600 bytes",
                "file size validation",
            ),
        );
    }
    let decoded = decode_shift_jis(data);
    let chars = decoded.0;
    let had_errors = decoded.1;
    if had_errors && chars.len() == 0 && data.len() > 0 {
        return Err(
            ParserError::encoding("Critical encoding error: Unable to decode any content from Shift_JIS"),
        );
    }
    let tags = match scan_all(&chars) {
        Err(e) => {
            return Err(e);
        },
        Ok(t) => t,
    };
    let mut parser = MjlogParser::new();
    proof {
        assert(chars@.len() == chars.len());
        assert(3 * tags@.len() <= chars@.len());
        assert(parser@.rounds.len() + tags@.len() < usize::MAX);
    }
    match parser.parse_tags(&tags) {
        Err(e) => {
            return Err(e);
        },
        Ok(_) => {},
    }
    proof {
        let tagsv = tags_view(tags@);
        assert(fold_tags(init_state(), tagsv) is Ok);
        match fold_tags(init_state(), tagsv) {
            Ok(st) => {
                assert(seal(seal(st)) == seal(st));
            },
            Err(_) => {},
        }
    }
    Ok(parser.into_output())
}


/// One when a round is in progress, else zero.
pub open spec fn open_round_count(cur: Option<RoundV>) -> int {
    match cur {
        Some(_) => 1,
        None => 0,
    }
}

/// How many initialization tags a tag stream holds.
pub open spec fn count_init_tags(tags: Seq<TagV>) -> int
    decreases tags.len(),
{
    if tags.len() == 0 {
        0
    } else {
        (if tag_kind(tags[0].name) is Init {
            1int
        } else {
            0int
        }) + count_init_tags(tags.drop_first())
    }
}

/// One successful transition changes the round count — sealed rounds
/// plus the open one — exactly when the tag is an initialization tag,
/// and then by one.
pub proof fn lemma_step_round_count(st: StateV, tag: TagV)
    ensures
        step_tag(st, tag) matches Ok(st2) ==> st2.rounds.len() + open_round_count(st2.cur)
            == st.rounds.len() + open_round_count(st.cur) + (
        if tag_kind(tag.name) is Init {
            1int
        } else {
            0int
        }),
        step_tag(st, tag) matches Ok(st2) ==> (!(tag_kind(tag.name) is Init) ==> st2.rounds
            == st.rounds),
{
}

proof fn lemma_count_init_nonneg(tags: Seq<TagV>)
    ensures
        count_init_tags(tags) >= 0,
    decreases tags.len(),
{
    if tags.len() > 0 {
        lemma_count_init_nonneg(tags.drop_first());
    }
}

proof fn lemma_fold_round_count(st: StateV, tags: Seq<TagV>)
    ensures
        fold_tags(st, tags) matches Ok(st2) ==> st2.rounds.len() + open_round_count(st2.cur)
            == st.rounds.len() + open_round_count(st.cur) + count_init_tags(tags),
        fold_tags(st, tags) matches Ok(st2) ==> (count_init_tags(tags) == 0 ==> st2.rounds
            == st.rounds),
    decreases tags.len(),
{
    if tags.len() > 0 {
        lemma_step_round_count(st, tags[0]);
        lemma_count_init_nonneg(tags.drop_first());
        match step_tag(st, tags[0]) {
            Ok(st1) => {
                lemma_fold_round_count(st1, tags.drop_first());
            },
            Err(_) => {},
        }
    }
}

/// A record with N initialization tags yields a document with exactly N
/// rounds: each initialization tag opens one round, and the last one is
/// sealed by the end of the stream.
pub proof fn lemma_round_count(tags: Seq<TagV>)
    ensures
        run_tags(tags) matches Ok(d) ==> d.rounds.len() == count_init_tags(tags),
{
    lemma_fold_round_count(init_state(), tags);
}

/// After the last initialization tag, no further round is sealed: every
/// later event stays in the round that tag opened, which the end of the
/// stream seals as the last round of the document.
pub proof fn lemma_tail_events_stay_in_last_round(st: StateV, tags: Seq<TagV>)
    requires
        count_init_tags(tags) == 0,
    ensures
        fold_tags(st, tags) matches Ok(st2) ==> st2.rounds == st.rounds,
{
    lemma_fold_round_count(st, tags);
}

/// Folding a concatenated stream folds its two halves in turn.
pub proof fn lemma_fold_tags_split(st: StateV, a: Seq<TagV>, b: Seq<TagV>)
    ensures
        fold_tags(st, a + b) == (match fold_tags(st, a) {
            Ok(m) => fold_tags(m, b),
            Err(e) => Err(e),
        }),
    decreases a.len(),
{
    if a.len() == 0 {
        assert(a + b =~= b);
    } else {
        assert((a + b)[0] == a[0]);
        assert((a + b).drop_first() =~= a.drop_first() + b);
        match step_tag(st, a[0]) {
            Ok(st1) => {
                lemma_fold_tags_split(st1, a.drop_first(), b);
            },
            Err(_) => {},
        }
    }
}

/// A successful initialization transition always leaves a freshly
/// opened round with no events.
proof fn lemma_init_opens_fresh(st: StateV, attrs: Seq<AttrV>)
    ensures
        do_init(st, attrs) matches Ok(st2) ==> (st2.cur matches Some(r) && r.events.len() == 0),
{
}

/// The document's last round is exactly the fold of the stream's tail
/// over the round the last initialization tag opened: when `tags[n]` is
/// an initialization tag and no later one follows, that tag opens a
/// round with no events, the tail's events accumulate in it, and the end
/// of the stream seals it as the last round.
#[verifier::rlimit(100)]
pub proof fn lemma_last_round_collects_tail(tags: Seq<TagV>, n: int)
    requires
        0 <= n < tags.len(),
        tag_kind(tags[n].name) is Init,
        count_init_tags(tags.skip(n + 1)) == 0,
    ensures
        run_tags(tags) matches Ok(d) ==> ({
            &&& fold_tags(init_state(), tags.take(n + 1)) matches Ok(st1)
            &&& st1.cur matches Some(r1)
            &&& r1.events.len() == 0
            &&& fold_tags(st1, tags.skip(n + 1)) matches Ok(st2)
            &&& st2.cur matches Some(r2)
            &&& d.rounds.len() > 0
            &&& d.rounds.last() == r2
        }),
{
    let pre = tags.take(n + 1);
    let post = tags.skip(n + 1);
    assert(tags =~= pre + post);
    lemma_fold_tags_split(init_state(), pre, post);
    match fold_tags(init_state(), pre) {
        Ok(st1) => {
            let head = tags.take(n);
            let last = seq![tags[n]];
            assert(pre =~= head + last);
            lemma_fold_tags_split(init_state(), head, last);
            match fold_tags(init_state(), head) {
                Ok(m) => {
                    assert(last.drop_first() =~= Seq::<TagV>::empty());
                    assert(last[0] == tags[n]);
                    assert(step_tag(m, tags[n]) == do_init(m, tags[n].attrs));
                    lemma_init_opens_fresh(m, tags[n].attrs);
                    match step_tag(m, tags[n]) {
                        Ok(x) => {
                            assert(fold_tags(x, last.drop_first()) == Ok::<StateV, ErrorKind>(x));
                            assert(fold_tags(m, last) == Ok::<StateV, ErrorKind>(x));
                            assert(x == st1);
                        },
                        Err(_) => {},
                    }
                },
                Err(_) => {},
            }
            lemma_fold_round_count(st1, post);
            match fold_tags(st1, post) {
                Ok(st2) => {
                    assert(st2.rounds == st1.rounds);
                },
                Err(_) => {},
            }
        },
        Err(_) => {},
    }
}

/// An initialization tag whose packed score field has fewer than the
/// required four entries — two, say — is a fatal invalid-format error,
/// whatever else the tag holds.
pub proof fn lemma_init_rejects_short_scores(st: StateV, attrs: Seq<AttrV>)
    requires
        ({
            let r = init_fold(
                attrs,
                attrs.len() as int,
                (Seq::empty(), Seq::empty(), 0u8, four_empty()),
            );
            &&& r matches Ok(acc)
            &&& seed_fields(acc.0) is Ok
            &&& split_spec(acc.1, ',').len() < 4
        }),
    ensures
        do_init(st, attrs) == Err::<StateV, ErrorKind>(ErrorKind::InvalidFormat),
{
}

/// Round labels are well-formed: each sealed round is labeled with its
/// 1-based position, and the round in progress with the position it
/// will seal to.
pub open spec fn labels_ok(st: StateV) -> bool {
    &&& forall|k: int|
        0 <= k < st.rounds.len() ==> (#[trigger] st.rounds[k]).round_id == "Round "@ + dec_str(
            k + 1,
        )
    &&& st.cur matches Some(r) ==> r.round_id == "Round "@ + dec_str(st.rounds.len() as int + 1)
}

proof fn lemma_step_labels(st: StateV, tag: TagV)
    requires
        labels_ok(st),
    ensures
        step_tag(st, tag) matches Ok(st2) ==> labels_ok(st2),
{
    match step_tag(st, tag) {
        Ok(st2) => {
            assert forall|k: int| 0 <= k < st2.rounds.len() implies (#[trigger] st2.rounds[k]).round_id
                == "Round "@ + dec_str(k + 1) by {
                if k < st.rounds.len() {
                    assert(st.rounds[k].round_id == "Round "@ + dec_str(k + 1));
                }
            }
        },
        Err(_) => {},
    }
}

proof fn lemma_fold_labels(st: StateV, tags: Seq<TagV>)
    requires
        labels_ok(st),
    ensures
        fold_tags(st, tags) matches Ok(st2) ==> labels_ok(st2),
    decreases tags.len(),
{
    if tags.len() > 0 {
        lemma_step_labels(st, tags[0]);
        match step_tag(st, tags[0]) {
            Ok(st1) => {
                lemma_fold_labels(st1, tags.drop_first());
            },
            Err(_) => {},
        }
    }
}

/// Every round of a parsed document carries its human-readable 1-based
/// sequential label.
pub proof fn lemma_round_labels(tags: Seq<TagV>)
    ensures
        run_tags(tags) matches Ok(d) ==> forall|k: int|
            0 <= k < d.rounds.len() ==> (#[trigger] d.rounds[k]).round_id == "Round "@ + dec_str(
                k + 1,
            ),
{
    lemma_fold_labels(init_state(), tags);
}

/// Each roster tag appends exactly the four seated players, their seats
/// in order: the document's players come in groups whose seats are the
/// permutation 0, 1, 2, 3.
pub proof fn lemma_roster_appends_four(st: StateV, attrs: Seq<AttrV>)
    ensures
        do_un(st, attrs) matches Ok(st2) ==> st2.players.len() == st.players.len() + 4 && (forall|
            k: int,
        |
            0 <= k < 4 ==> (#[trigger] st2.players[st.players.len() + k]).seat == k as u8),
{
}

/// Events are append-only within a round: any transition other than an
/// initialization tag keeps the open round's label, dealer and snapshot,
/// and only appends to its events.
pub proof fn lemma_events_append_only(st: StateV, tag: TagV)
    requires
        !(tag_kind(tag.name) is Init),
    ensures
        step_tag(st, tag) matches Ok(st2) ==> (st.cur matches Some(r) ==> st2.cur matches Some(r2)
            && r2.round_id == r.round_id && r2.dealer_seat == r.dealer_seat && r2.init == r.init
            && r2.events.len() >= r.events.len() && r2.events.take(r.events.len() as int)
            == r.events),
{
    match step_tag(st, tag) {
        Ok(st2) => {
            match (st.cur, st2.cur) {
                (Some(r), Some(r2)) => {
                    assert(r2.events.take(r.events.len() as int) =~= r.events);
                },
                _ => {},
            }
        },
        Err(_) => {},
    }
}

/// An unrecognized tag name anywhere in the stream neither aborts the
/// parse nor changes the state: no event comes of it.
pub proof fn lemma_unknown_tag_ignored(st: StateV, tag: TagV)
    requires
        tag_kind(tag.name) is Unknown,
    ensures
        step_tag(st, tag) == Ok::<StateV, ErrorKind>(st),
{
}

/// Every unrecognized draw-reason code falls back to the normal
/// exhaustive draw rather than an error.
pub proof fn lemma_unknown_reason_defaults(code: Seq<char>)
    requires
        code != "nm"@,
        code != "yao9"@,
        code != "kaze4"@,
        code != "reach4"@,
        code != "ron3"@,
        code != "kan4"@,
    ensures
        reason_of(code) == RyuukyokuReason::Normal,
{
}

} // verus!
