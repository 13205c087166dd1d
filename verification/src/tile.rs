//! Tile codec: bidirectional mapping between tile identifiers 0..=135 and
//! canonical tile names.

use vstd::prelude::*;
use vstd::string::*;
use crate::error::ParserError;
use crate::text::dec_digit_val;
use crate::text::dec_str;
use crate::text::is_dec_digit;
use crate::text::parse_u32_spec;
use crate::text::parse_u32_chars;
use crate::text::split_spec;
use crate::text::split_chars;
use crate::text::str_to_chars;
use crate::text::str_eq;
use crate::text::chars_to_string;
use crate::text::u32_to_dec_string;

verus! {

/// The 34 tile kinds, each with four physical copies: ranks 1-9 of the
/// three suits, four winds and three dragons.
#[derive(Debug, Clone, Copy, PartialEq, Eq, Structural)]
pub enum TileType {
    Man(u8),
    Pin(u8),
    Sou(u8),
    East,
    South,
    West,
    North,
    White,
    Green,
    Red,
}

/// The canonical name of a tile identifier; identifiers beyond the 136
/// physical tiles get a deterministic fallback name embedding the raw
/// identifier.
pub open spec fn tile_name(id: u32) -> Seq<char> {
    let k = id / 4;
    if k == 0 {
        "1m"@
    } else if k == 1 {
        "2m"@
    } else if k == 2 {
        "3m"@
    } else if k == 3 {
        "4m"@
    } else if k == 4 {
        "5m"@
    } else if k == 5 {
        "6m"@
    } else if k == 6 {
        "7m"@
    } else if k == 7 {
        "8m"@
    } else if k == 8 {
        "9m"@
    } else if k == 9 {
        "1p"@
    } else if k == 10 {
        "2p"@
    } else if k == 11 {
        "3p"@
    } else if k == 12 {
        "4p"@
    } else if k == 13 {
        "5p"@
    } else if k == 14 {
        "6p"@
    } else if k == 15 {
        "7p"@
    } else if k == 16 {
        "8p"@
    } else if k == 17 {
        "9p"@
    } else if k == 18 {
        "1s"@
    } else if k == 19 {
        "2s"@
    } else if k == 20 {
        "3s"@
    } else if k == 21 {
        "4s"@
    } else if k == 22 {
        "5s"@
    } else if k == 23 {
        "6s"@
    } else if k == 24 {
        "7s"@
    } else if k == 25 {
        "8s"@
    } else if k == 26 {
        "9s"@
    } else if k == 27 {
        "east"@
    } else if k == 28 {
        "south"@
    } else if k == 29 {
        "west"@
    } else if k == 30 {
        "north"@
    } else if k == 31 {
        "white"@
    } else if k == 32 {
        "green"@
    } else if k == 33 {
        "red"@
    } else {
        "unknown_"@ + dec_str(id as int)
    }
}

/// Converts a tile identifier to its name. Total: identifiers outside
/// 0..=135 yield the fallback name rather than an error.
pub fn tile_id_to_string(id: u32) -> (s: String)
    ensures
        s@ == tile_name(id),
{
    let k = id / 4;
    if k == 0 {
        String::from_str("1m")
    } else if k == 1 {
        String::from_str("2m")
    } else if k == 2 {
        String::from_str("3m")
    } else if k == 3 {
        String::from_str("4m")
    } else if k == 4 {
        String::from_str("5m")
    } else if k == 5 {
        String::from_str("6m")
    } else if k == 6 {
        String::from_str("7m")
    } else if k == 7 {
        String::from_str("8m")
    } else if k == 8 {
        String::from_str("9m")
    } else if k == 9 {
        String::from_str("1p")
    } else if k == 10 {
        String::from_str("2p")
    } else if k == 11 {
        String::from_str("3p")
    } else if k == 12 {
        String::from_str("4p")
    } else if k == 13 {
        String::from_str("5p")
    } else if k == 14 {
        String::from_str("6p")
    } else if k == 15 {
        String::from_str("7p")
    } else if k == 16 {
        String::from_str("8p")
    } else if k == 17 {
        String::from_str("9p")
    } else if k == 18 {
        String::from_str("1s")
    } else if k == 19 {
        String::from_str("2s")
    } else if k == 20 {
        String::from_str("3s")
    } else if k == 21 {
        String::from_str("4s")
    } else if k == 22 {
        String::from_str("5s")
    } else if k == 23 {
        String::from_str("6s")
    } else if k == 24 {
        String::from_str("7s")
    } else if k == 25 {
        String::from_str("8s")
    } else if k == 26 {
        String::from_str("9s")
    } else if k == 27 {
        String::from_str("east")
    } else if k == 28 {
        String::from_str("south")
    } else if k == 29 {
        String::from_str("west")
    } else if k == 30 {
        String::from_str("north")
    } else if k == 31 {
        String::from_str("white")
    } else if k == 32 {
        String::from_str("green")
    } else if k == 33 {
        String::from_str("red")
    } else {
        String::from_str("unknown_").concat(u32_to_dec_string(id).as_str())
    }
}

/// The identifier a tile name decodes to: the first of the four physical
/// copies of its kind. Partial: only the canonical two-character suited
/// forms and the seven honor names are accepted.
pub open spec fn tile_decode(s: Seq<char>) -> Option<u32> {
    if s.len() == 2 && s[1] == 'm' {
        if is_dec_digit(s[0]) && 1 <= dec_digit_val(s[0]) <= 9 {
            Some(((dec_digit_val(s[0]) - 1) * 4) as u32)
        } else {
            None
        }
    } else if s.len() == 2 && s[1] == 'p' {
        if is_dec_digit(s[0]) && 1 <= dec_digit_val(s[0]) <= 9 {
            Some(((dec_digit_val(s[0]) - 1 + 9) * 4) as u32)
        } else {
            None
        }
    } else if s.len() == 2 && s[1] == 's' {
        if is_dec_digit(s[0]) && 1 <= dec_digit_val(s[0]) <= 9 {
            Some(((dec_digit_val(s[0]) - 1 + 18) * 4) as u32)
        } else {
            None
        }
    } else if s == "east"@ {
        Some(108)
    } else if s == "south"@ {
        Some(112)
    } else if s == "west"@ {
        Some(116)
    } else if s == "north"@ {
        Some(120)
    } else if s == "white"@ {
        Some(124)
    } else if s == "green"@ {
        Some(128)
    } else if s == "red"@ {
        Some(132)
    } else {
        None
    }
}

/// Converts a tile name to the identifier of the first physical copy of
/// its kind; any other string is an invalid-format error.
pub fn tile_string_to_id(tile: &str) -> (r: Result<u32, ParserError>)
    ensures
        match r {
            Ok(id) => tile_decode(tile@) == Some(id),
            Err(e) => tile_decode(tile@) is None && e is InvalidFormat,
        },
{
    let n = tile.unicode_len();
    if n == 2 {
        let c1 = tile.get_char(1);
        let c0 = tile.get_char(0);
        let u = c0 as u32;
        if c1 == 'm' {
            if u >= 49 && u <= 57 {
                Ok((u - 49) * 4)
            } else {
                Err(ParserError::InvalidFormat(String::from_str("Invalid man tile: ").concat(tile)))
            }
        } else if c1 == 'p' {
            if u >= 49 && u <= 57 {
                Ok((u - 49 + 9) * 4)
            } else {
                Err(ParserError::InvalidFormat(String::from_str("Invalid pin tile: ").concat(tile)))
            }
        } else if c1 == 's' {
            if u >= 49 && u <= 57 {
                Ok((u - 49 + 18) * 4)
            } else {
                Err(ParserError::InvalidFormat(String::from_str("Invalid sou tile: ").concat(tile)))
            }
        } else {
            proof {
                reveal_strlit("east");
                reveal_strlit("south");
                reveal_strlit("west");
                reveal_strlit("north");
                reveal_strlit("white");
                reveal_strlit("green");
                reveal_strlit("red");
            }
            Err(ParserError::InvalidFormat(String::from_str("Unknown tile: ").concat(tile)))
        }
    } else if str_eq(tile, "east") {
        Ok(108)
    } else if str_eq(tile, "south") {
        Ok(112)
    } else if str_eq(tile, "west") {
        Ok(116)
    } else if str_eq(tile, "north") {
        Ok(120)
    } else if str_eq(tile, "white") {
        Ok(124)
    } else if str_eq(tile, "green") {
        Ok(128)
    } else if str_eq(tile, "red") {
        Ok(132)
    } else {
        Err(ParserError::InvalidFormat(String::from_str("Unknown tile: ").concat(tile)))
    }
}

/// The tile kind of an identifier, when it denotes one of the 136
/// physical tiles.
pub open spec fn tile_type_spec(id: u32) -> Option<TileType> {
    let k = id / 4;
    if k <= 8 {
        Some(TileType::Man((k + 1) as u8))
    } else if k <= 17 {
        Some(TileType::Pin((k - 8) as u8))
    } else if k <= 26 {
        Some(TileType::Sou((k - 17) as u8))
    } else if k == 27 {
        Some(TileType::East)
    } else if k == 28 {
        Some(TileType::South)
    } else if k == 29 {
        Some(TileType::West)
    } else if k == 30 {
        Some(TileType::North)
    } else if k == 31 {
        Some(TileType::White)
    } else if k == 32 {
        Some(TileType::Green)
    } else if k == 33 {
        Some(TileType::Red)
    } else {
        None
    }
}

/// Converts a tile identifier to its kind; identifiers outside 0..=135
/// are rejected.
pub fn tile_id_to_type(id: u32) -> (r: Result<TileType, ParserError>)
    ensures
        match r {
            Ok(t) => tile_type_spec(id) == Some(t),
            Err(e) => tile_type_spec(id) is None && (e matches ParserError::InvalidTileId(x) && x
                == id),
        },
{
    let k = id / 4;
    if k <= 8 {
        Ok(TileType::Man((k + 1) as u8))
    } else if k <= 17 {
        Ok(TileType::Pin((k - 8) as u8))
    } else if k <= 26 {
        Ok(TileType::Sou((k - 17) as u8))
    } else if k == 27 {
        Ok(TileType::East)
    } else if k == 28 {
        Ok(TileType::South)
    } else if k == 29 {
        Ok(TileType::West)
    } else if k == 30 {
        Ok(TileType::North)
    } else if k == 31 {
        Ok(TileType::White)
    } else if k == 32 {
        Ok(TileType::Green)
    } else if k == 33 {
        Ok(TileType::Red)
    } else {
        Err(ParserError::InvalidTileId(id))
    }
}

/// Names of the tiles behind the first `n` comma-separated fields, or
/// `None` as soon as one field is not an unsigned integer.
pub open spec fn tile_list_from_parts(parts: Seq<Seq<char>>, n: int) -> Option<Seq<Seq<char>>>
    decreases n,
{
    if n <= 0 {
        Some(Seq::empty())
    } else {
        match tile_list_from_parts(parts, n - 1) {
            None => None,
            Some(v) => match parse_u32_spec(parts[n - 1]) {
                None => None,
                Some(id) => Some(v.push(tile_name(id))),
            },
        }
    }
}

/// What `parse_tile_list` returns: the empty string yields the empty
/// list; otherwise every comma-separated field must be an unsigned
/// integer, and each is encoded to its tile name.
pub open spec fn parse_tile_list_spec(s: Seq<char>) -> Option<Seq<Seq<char>>> {
    if s.len() == 0 {
        Some(Seq::empty())
    } else {
        let parts = split_spec(s, ',');
        tile_list_from_parts(parts, parts.len() as int)
    }
}

proof fn lemma_tile_list_none(parts: Seq<Seq<char>>, m: int, n: int)
    requires
        0 <= m <= n,
        tile_list_from_parts(parts, m) is None,
    ensures
        tile_list_from_parts(parts, n) is None,
    decreases n,
{
    if n > m {
        lemma_tile_list_none(parts, m, n - 1);
    }
}

/// Parses a comma-separated list of tile identifiers into tile names;
/// a single bad field fails the whole list.
pub fn parse_tile_list(tiles: &str) -> (r: Result<Vec<String>, ParserError>)
    ensures
        match r {
            Ok(v) => parse_tile_list_spec(tiles@) == Some(v.deep_view()),
            Err(e) => parse_tile_list_spec(tiles@) is None && e is InvalidFormat,
        },
{
    let chars = str_to_chars(tiles);
    parse_tile_list_chars(&chars)
}

/// `parse_tile_list` over a character vector.
pub fn parse_tile_list_chars(tiles: &Vec<char>) -> (r: Result<Vec<String>, ParserError>)
    ensures
        match r {
            Ok(v) => parse_tile_list_spec(tiles@) == Some(v.deep_view()),
            Err(e) => parse_tile_list_spec(tiles@) is None && e is InvalidFormat,
        },
{
    if tiles.len() == 0 {
        let r: Vec<String> = Vec::new();
        proof {
            assert(r.deep_view() =~~= Seq::<Seq<char>>::empty());
        }
        return Ok(r);
    }
    let parts = split_chars(tiles, ',');
    let ghost parts_v = parts.deep_view();
    let mut out: Vec<String> = Vec::new();
    let mut i: usize = 0;
    proof {
        assert(out.deep_view() =~~= Seq::<Seq<char>>::empty());
    }
    while i < parts.len()
        invariant
            i <= parts@.len(),
            parts_v == parts.deep_view(),
            parts_v.len() == parts@.len(),
            tiles@.len() != 0,
            parts_v == split_spec(tiles@, ','),
            tile_list_from_parts(parts_v, i as int) == Some(out.deep_view()),
        decreases parts@.len() - i,
    {
        proof {
            assert(parts_v[i as int] == parts@[i as int]@);
        }
        match parse_u32_chars(&parts[i]) {
            None => {
                proof {
                    lemma_tile_list_none(parts_v, i + 1, parts_v.len() as int);
                }
                let part_str = chars_to_string(&parts[i]);
                return Err(ParserError::InvalidFormat(String::from_str("Invalid tile ID: ").concat(
                    part_str.as_str(),
                )));
            },
            Some(id) => {
                let ghost old_out = out.deep_view();
                out.push(tile_id_to_string(id));
                proof {
                    assert(out.deep_view() =~~= old_out.push(tile_name(id)));
                }
            },
        }
        i = i + 1;
    }
    Ok(out)
}

/// A name of the fallback form: it begins with the fallback prefix.
pub open spec fn is_fallback_name(s: Seq<char>) -> bool {
    s.len() >= 8 && s.subrange(0, 8) == "unknown_"@
}

/// Every identifier of a physical tile has a non-empty canonical name,
/// never one of the fallback form.
pub proof fn lemma_tile_name_canonical(id: u32)
    requires
        id <= 135,
    ensures
        tile_name(id).len() > 0,
        !is_fallback_name(tile_name(id)),
{
    reveal_strlit("1m");
    reveal_strlit("2m");
    reveal_strlit("3m");
    reveal_strlit("4m");
    reveal_strlit("5m");
    reveal_strlit("6m");
    reveal_strlit("7m");
    reveal_strlit("8m");
    reveal_strlit("9m");
    reveal_strlit("1p");
    reveal_strlit("2p");
    reveal_strlit("3p");
    reveal_strlit("4p");
    reveal_strlit("5p");
    reveal_strlit("6p");
    reveal_strlit("7p");
    reveal_strlit("8p");
    reveal_strlit("9p");
    reveal_strlit("1s");
    reveal_strlit("2s");
    reveal_strlit("3s");
    reveal_strlit("4s");
    reveal_strlit("5s");
    reveal_strlit("6s");
    reveal_strlit("7s");
    reveal_strlit("8s");
    reveal_strlit("9s");
    reveal_strlit("east");
    reveal_strlit("south");
    reveal_strlit("west");
    reveal_strlit("north");
    reveal_strlit("white");
    reveal_strlit("green");
    reveal_strlit("red");
    assert(id / 4 <= 33);
    assert(tile_name(id).len() > 0 && tile_name(id).len() <= 5);
}

/// Decoding the name of any physical tile recovers the first identifier
/// of the same kind: the tile kind survives the round trip, the
/// physical-copy index is intentionally lost.
pub proof fn lemma_tile_round_trip(id: u32)
    requires
        id <= 135,
    ensures
        tile_decode(tile_name(id)) == Some(((id / 4) * 4) as u32),
        tile_decode(tile_name(id)) matches Some(v) && v / 4 == id / 4,
{
    reveal_strlit("1m");
    reveal_strlit("2m");
    reveal_strlit("3m");
    reveal_strlit("4m");
    reveal_strlit("5m");
    reveal_strlit("6m");
    reveal_strlit("7m");
    reveal_strlit("8m");
    reveal_strlit("9m");
    reveal_strlit("1p");
    reveal_strlit("2p");
    reveal_strlit("3p");
    reveal_strlit("4p");
    reveal_strlit("5p");
    reveal_strlit("6p");
    reveal_strlit("7p");
    reveal_strlit("8p");
    reveal_strlit("9p");
    reveal_strlit("1s");
    reveal_strlit("2s");
    reveal_strlit("3s");
    reveal_strlit("4s");
    reveal_strlit("5s");
    reveal_strlit("6s");
    reveal_strlit("7s");
    reveal_strlit("8s");
    reveal_strlit("9s");
    reveal_strlit("east");
    reveal_strlit("south");
    reveal_strlit("west");
    reveal_strlit("north");
    reveal_strlit("white");
    reveal_strlit("green");
    reveal_strlit("red");
    let k = id / 4;
    if k == 0 {
        assert(tile_decode(tile_name(id)) == Some(0u32));
    } else if k == 1 {
        assert(tile_decode(tile_name(id)) == Some(4u32));
    } else if k == 2 {
        assert(tile_decode(tile_name(id)) == Some(8u32));
    } else if k == 3 {
        assert(tile_decode(tile_name(id)) == Some(12u32));
    } else if k == 4 {
        assert(tile_decode(tile_name(id)) == Some(16u32));
    } else if k == 5 {
        assert(tile_decode(tile_name(id)) == Some(20u32));
    } else if k == 6 {
        assert(tile_decode(tile_name(id)) == Some(24u32));
    } else if k == 7 {
        assert(tile_decode(tile_name(id)) == Some(28u32));
    } else if k == 8 {
        assert(tile_decode(tile_name(id)) == Some(32u32));
    } else if k == 9 {
        assert(tile_decode(tile_name(id)) == Some(36u32));
    } else if k == 10 {
        assert(tile_decode(tile_name(id)) == Some(40u32));
    } else if k == 11 {
        assert(tile_decode(tile_name(id)) == Some(44u32));
    } else if k == 12 {
        assert(tile_decode(tile_name(id)) == Some(48u32));
    } else if k == 13 {
        assert(tile_decode(tile_name(id)) == Some(52u32));
    } else if k == 14 {
        assert(tile_decode(tile_name(id)) == Some(56u32));
    } else if k == 15 {
        assert(tile_decode(tile_name(id)) == Some(60u32));
    } else if k == 16 {
        assert(tile_decode(tile_name(id)) == Some(64u32));
    } else if k == 17 {
        assert(tile_decode(tile_name(id)) == Some(68u32));
    } else if k == 18 {
        assert(tile_decode(tile_name(id)) == Some(72u32));
    } else if k == 19 {
        assert(tile_decode(tile_name(id)) == Some(76u32));
    } else if k == 20 {
        assert(tile_decode(tile_name(id)) == Some(80u32));
    } else if k == 21 {
        assert(tile_decode(tile_name(id)) == Some(84u32));
    } else if k == 22 {
        assert(tile_decode(tile_name(id)) == Some(88u32));
    } else if k == 23 {
        assert(tile_decode(tile_name(id)) == Some(92u32));
    } else if k == 24 {
        assert(tile_decode(tile_name(id)) == Some(96u32));
    } else if k == 25 {
        assert(tile_decode(tile_name(id)) == Some(100u32));
    } else if k == 26 {
        assert(tile_decode(tile_name(id)) == Some(104u32));
    } else if k == 27 {
        assert(tile_decode(tile_name(id)) == Some(108u32));
    } else if k == 28 {
        assert("south"@ != "east"@) by {
            assert("south"@.len() == 5 && "east"@.len() == 4);
        }
        assert(tile_decode(tile_name(id)) == Some(112u32));
    } else if k == 29 {
        assert("west"@ != "east"@) by {
            assert("west"@[0] == 'w' && "east"@[0] == 'e');
        }
        assert("west"@ != "south"@) by {
            assert("west"@.len() == 4 && "south"@.len() == 5);
        }
        assert(tile_decode(tile_name(id)) == Some(116u32));
    } else if k == 30 {
        assert("north"@ != "east"@) by {
            assert("north"@.len() == 5 && "east"@.len() == 4);
        }
        assert("north"@ != "south"@) by {
            assert("north"@[0] == 'n' && "south"@[0] == 's');
        }
        assert("north"@ != "west"@) by {
            assert("north"@.len() == 5 && "west"@.len() == 4);
        }
        assert(tile_decode(tile_name(id)) == Some(120u32));
    } else if k == 31 {
        assert("white"@ != "east"@) by {
            assert("white"@.len() == 5 && "east"@.len() == 4);
        }
        assert("white"@ != "south"@) by {
            assert("white"@[0] == 'w' && "south"@[0] == 's');
        }
        assert("white"@ != "west"@) by {
            assert("white"@.len() == 5 && "west"@.len() == 4);
        }
        assert("white"@ != "north"@) by {
            assert("white"@[0] == 'w' && "north"@[0] == 'n');
        }
        assert(tile_decode(tile_name(id)) == Some(124u32));
    } else if k == 32 {
        assert("green"@ != "east"@) by {
            assert("green"@.len() == 5 && "east"@.len() == 4);
        }
        assert("green"@ != "south"@) by {
            assert("green"@[0] == 'g' && "south"@[0] == 's');
        }
        assert("green"@ != "west"@) by {
            assert("green"@.len() == 5 && "west"@.len() == 4);
        }
        assert("green"@ != "north"@) by {
            assert("green"@[0] == 'g' && "north"@[0] == 'n');
        }
        assert("green"@ != "white"@) by {
            assert("green"@[0] == 'g' && "white"@[0] == 'w');
        }
        assert(tile_decode(tile_name(id)) == Some(128u32));
    } else if k == 33 {
        assert("red"@ != "east"@) by {
            assert("red"@.len() == 3 && "east"@.len() == 4);
        }
        assert("red"@ != "south"@) by {
            assert("red"@.len() == 3 && "south"@.len() == 5);
        }
        assert("red"@ != "west"@) by {
            assert("red"@.len() == 3 && "west"@.len() == 4);
        }
        assert("red"@ != "north"@) by {
            assert("red"@.len() == 3 && "north"@.len() == 5);
        }
        assert("red"@ != "white"@) by {
            assert("red"@.len() == 3 && "white"@.len() == 5);
        }
        assert("red"@ != "green"@) by {
            assert("red"@.len() == 3 && "green"@.len() == 5);
        }
        assert(tile_decode(tile_name(id)) == Some(132u32));
    }
}

} // verus!
