//! Text utilities shared by the codec and the record parser: decimal
//! parsing and rendering, comma splitting, and character/string helpers.

use vstd::prelude::*;
use vstd::string::*;

verus! {

/// XML whitespace characters.
pub open spec fn is_ws(c: char) -> bool {
    c == ' ' || c == '\t' || c == '\r' || c == '\n'
}

/// Decimal digit test.
pub open spec fn is_dec_digit(c: char) -> bool {
    48 <= c as u32 <= 57
}

/// Numeric value of a decimal digit character.
pub open spec fn dec_digit_val(c: char) -> int {
    c as u32 - 48
}

/// Every character of the sequence is a decimal digit.
pub open spec fn seq_all_digits(s: Seq<char>) -> bool {
    forall|i: int| 0 <= i < s.len() ==> is_dec_digit(#[trigger] s[i])
}

/// Value of a digit string read in base 10.
pub open spec fn dec_value(s: Seq<char>) -> int
    decreases s.len(),
{
    if s.len() == 0 {
        0
    } else {
        dec_value(s.drop_last()) * 10 + dec_digit_val(s.last())
    }
}

pub proof fn lemma_dec_value_nonneg(s: Seq<char>)
    requires
        seq_all_digits(s),
    ensures
        dec_value(s) >= 0,
    decreases s.len(),
{
    if s.len() > 0 {
        assert(seq_all_digits(s.drop_last()));
        lemma_dec_value_nonneg(s.drop_last());
        assert(is_dec_digit(s.last()));
    }
}

/// Digit-string value with an optional leading plus sign, as `str::parse`
/// reads an unsigned integer; `None` on an empty body or a non-digit.
pub open spec fn parse_uint_val(s: Seq<char>) -> Option<int> {
    let body = if s.len() > 0 && s[0] == '+' {
        s.drop_first()
    } else {
        s
    };
    if body.len() == 0 || !seq_all_digits(body) {
        None
    } else {
        Some(dec_value(body))
    }
}

/// What `str::parse::<u32>` returns on the given characters.
pub open spec fn parse_u32_spec(s: Seq<char>) -> Option<u32> {
    match parse_uint_val(s) {
        Some(v) => if v <= u32::MAX as int {
            Some(v as u32)
        } else {
            None
        },
        None => None,
    }
}

/// What `str::parse::<u8>` returns on the given characters.
pub open spec fn parse_u8_spec(s: Seq<char>) -> Option<u8> {
    match parse_uint_val(s) {
        Some(v) => if v <= u8::MAX as int {
            Some(v as u8)
        } else {
            None
        },
        None => None,
    }
}

/// What `str::parse::<i32>` returns on the given characters.
pub open spec fn parse_i32_spec(s: Seq<char>) -> Option<i32> {
    if s.len() > 0 && s[0] == '-' {
        let body = s.drop_first();
        if body.len() == 0 || !seq_all_digits(body) {
            None
        } else if dec_value(body) <= 0x8000_0000 {
            Some((-dec_value(body)) as i32)
        } else {
            None
        }
    } else {
        match parse_uint_val(s) {
            Some(v) => if v <= i32::MAX as int {
                Some(v as i32)
            } else {
                None
            },
            None => None,
        }
    }
}

/// Reads the digit body `s[start..]`; `None` on an empty body, a non-digit,
/// or a value above `u32::MAX`.
fn parse_digits_exec(s: &Vec<char>, start: usize) -> (r: Option<u32>)
    requires
        start <= s@.len(),
    ensures
        ({
            let body = s@.skip(start as int);
            match r {
                Some(v) => body.len() > 0 && seq_all_digits(body) && dec_value(body) == v as int,
                None => body.len() == 0 || !seq_all_digits(body) || dec_value(body)
                    > u32::MAX as int,
            }
        }),
{
    let ghost body = s@.skip(start as int);
    if start == s.len() {
        return None;
    }
    let mut value: u64 = 0;
    let mut too_big: bool = false;
    let mut i: usize = start;
    while i < s.len()
        invariant
            start <= i <= s@.len(),
            body == s@.skip(start as int),
            seq_all_digits(s@.subrange(start as int, i as int)),
            !too_big ==> value as int == dec_value(s@.subrange(start as int, i as int)) && value
                <= u32::MAX as u64,
            too_big ==> dec_value(s@.subrange(start as int, i as int)) > u32::MAX as int,
        decreases s@.len() - i,
    {
        let c = s[i];
        let u = c as u32;
        if u < 48 || u > 57 {
            proof {
                assert(body[i - start] == s@[i as int]);
                assert(!is_dec_digit(body[i - start]));
            }
            return None;
        }
        let d: u64 = (u - 48) as u64;
        proof {
            let p = s@.subrange(start as int, i as int);
            let p2 = s@.subrange(start as int, i as int + 1);
            assert(p2.drop_last() =~= p);
            assert(p2.last() == s@[i as int]);
            assert(dec_value(p2) == dec_value(p) * 10 + dec_digit_val(s@[i as int]));
        }
        if too_big {
            proof {
                let p = s@.subrange(start as int, i as int);
                assert(dec_value(p) * 10 + d >= dec_value(p));
            }
        } else {
            let next: u64 = value * 10 + d;
            if next > 0xFFFF_FFFF {
                too_big = true;
            } else {
                value = next;
            }
        }
        i = i + 1;
    }
    proof {
        assert(s@.subrange(start as int, s@.len() as int) =~= body);
    }
    if too_big {
        None
    } else {
        Some(value as u32)
    }
}

/// `str::parse::<u32>` over a character vector.
pub fn parse_u32_chars(s: &Vec<char>) -> (r: Option<u32>)
    ensures
        r == parse_u32_spec(s@),
{
    let start: usize = if s.len() > 0 && s[0] == '+' {
        1
    } else {
        0
    };
    proof {
        if s@.len() > 0 && s@[0] == '+' {
            assert(s@.skip(1) =~= s@.drop_first());
        } else {
            assert(s@.skip(0) =~= s@);
        }
        if seq_all_digits(s@.skip(start as int)) {
            lemma_dec_value_nonneg(s@.skip(start as int));
        }
    }
    parse_digits_exec(s, start)
}

/// `str::parse::<u8>` over a character vector.
pub fn parse_u8_chars(s: &Vec<char>) -> (r: Option<u8>)
    ensures
        r == parse_u8_spec(s@),
{
    let start: usize = if s.len() > 0 && s[0] == '+' {
        1
    } else {
        0
    };
    proof {
        if s@.len() > 0 && s@[0] == '+' {
            assert(s@.skip(1) =~= s@.drop_first());
        } else {
            assert(s@.skip(0) =~= s@);
        }
        if seq_all_digits(s@.skip(start as int)) {
            lemma_dec_value_nonneg(s@.skip(start as int));
        }
    }
    match parse_digits_exec(s, start) {
        Some(v) => if v <= 255 {
            Some(v as u8)
        } else {
            None
        },
        None => None,
    }
}

/// `str::parse::<i32>` over a character vector.
pub fn parse_i32_chars(s: &Vec<char>) -> (r: Option<i32>)
    ensures
        r == parse_i32_spec(s@),
{
    if s.len() > 0 && s[0] == '-' {
        proof {
            assert(s@.skip(1) =~= s@.drop_first());
            if seq_all_digits(s@.skip(1)) {
                lemma_dec_value_nonneg(s@.skip(1));
            }
        }
        match parse_digits_exec(s, 1) {
            Some(v) => if v <= 0x8000_0000 {
                if v == 0x8000_0000 {
                    Some(i32::MIN)
                } else {
                    Some(-(v as i32))
                }
            } else {
                None
            },
            None => None,
        }
    } else {
        let start: usize = if s.len() > 0 && s[0] == '+' {
            1
        } else {
            0
        };
        proof {
            if s@.len() > 0 && s@[0] == '+' {
                assert(s@.skip(1) =~= s@.drop_first());
            } else {
                assert(s@.skip(0) =~= s@);
            }
            if seq_all_digits(s@.skip(start as int)) {
                lemma_dec_value_nonneg(s@.skip(start as int));
            }
        }
        match parse_digits_exec(s, start) {
            Some(v) => if v <= 0x7FFF_FFFF {
                Some(v as i32)
            } else {
                None
            },
            None => None,
        }
    }
}

/// Character of a decimal digit value.
pub open spec fn dec_digit_char(d: int) -> char {
    if d == 0 {
        '0'
    } else if d == 1 {
        '1'
    } else if d == 2 {
        '2'
    } else if d == 3 {
        '3'
    } else if d == 4 {
        '4'
    } else if d == 5 {
        '5'
    } else if d == 6 {
        '6'
    } else if d == 7 {
        '7'
    } else if d == 8 {
        '8'
    } else {
        '9'
    }
}

/// Decimal rendering of a non-negative integer, as `format!("{}", n)`
/// writes it.
pub open spec fn dec_str(n: int) -> Seq<char>
    decreases n,
{
    if n < 10 {
        seq![dec_digit_char(n)]
    } else {
        dec_str(n / 10).push(dec_digit_char(n % 10))
    }
}

/// One-character string of a decimal digit value.
fn digit_str_lit(d: u32) -> (s: &'static str)
    requires
        d < 10,
    ensures
        s@ == seq![dec_digit_char(d as int)],
{
    if d == 0 {
        proof {
            reveal_strlit("0");
            assert("0"@ =~= seq![dec_digit_char(0)]);
        }
        "0"
    } else if d == 1 {
        proof {
            reveal_strlit("1");
            assert("1"@ =~= seq![dec_digit_char(1)]);
        }
        "1"
    } else if d == 2 {
        proof {
            reveal_strlit("2");
            assert("2"@ =~= seq![dec_digit_char(2)]);
        }
        "2"
    } else if d == 3 {
        proof {
            reveal_strlit("3");
            assert("3"@ =~= seq![dec_digit_char(3)]);
        }
        "3"
    } else if d == 4 {
        proof {
            reveal_strlit("4");
            assert("4"@ =~= seq![dec_digit_char(4)]);
        }
        "4"
    } else if d == 5 {
        proof {
            reveal_strlit("5");
            assert("5"@ =~= seq![dec_digit_char(5)]);
        }
        "5"
    } else if d == 6 {
        proof {
            reveal_strlit("6");
            assert("6"@ =~= seq![dec_digit_char(6)]);
        }
        "6"
    } else if d == 7 {
        proof {
            reveal_strlit("7");
            assert("7"@ =~= seq![dec_digit_char(7)]);
        }
        "7"
    } else if d == 8 {
        proof {
            reveal_strlit("8");
            assert("8"@ =~= seq![dec_digit_char(8)]);
        }
        "8"
    } else {
        proof {
            reveal_strlit("9");
            assert("9"@ =~= seq![dec_digit_char(9)]);
        }
        "9"
    }
}

/// Decimal rendering of `n`.
pub fn u32_to_dec_string(n: u32) -> (s: String)
    ensures
        s@ == dec_str(n as int),
    decreases n,
{
    if n < 10 {
        String::from_str(digit_str_lit(n))
    } else {
        let mut s = u32_to_dec_string(n / 10);
        s.append(digit_str_lit(n % 10));
        proof {
            assert(s@ =~= dec_str(n as int / 10).push(dec_digit_char(n as int % 10)));
        }
        s
    }
}

/// Decimal rendering of `n`.
pub fn usize_to_dec_string(n: usize) -> (s: String)
    ensures
        s@ == dec_str(n as int),
    decreases n,
{
    if n < 10 {
        String::from_str(digit_str_lit(n as u32))
    } else {
        let mut s = usize_to_dec_string(n / 10);
        s.append(digit_str_lit((n % 10) as u32));
        proof {
            assert(s@ =~= dec_str(n as int / 10).push(dec_digit_char(n as int % 10)));
        }
        s
    }
}

/// Splitting on a separator, as `str::split` does: the empty string yields
/// one empty part, and each separator starts a new part.
pub open spec fn split_spec(s: Seq<char>, sep: char) -> Seq<Seq<char>>
    decreases s.len(),
{
    if s.len() == 0 {
        seq![Seq::<char>::empty()]
    } else if s[0] == sep {
        seq![Seq::<char>::empty()] + split_spec(s.drop_first(), sep)
    } else {
        let r = split_spec(s.drop_first(), sep);
        seq![seq![s[0]] + r[0]] + r.drop_first()
    }
}

pub proof fn lemma_split_len(s: Seq<char>, sep: char)
    ensures
        split_spec(s, sep).len() >= 1,
    decreases s.len(),
{
    if s.len() > 0 {
        lemma_split_len(s.drop_first(), sep);
    }
}

/// Splitting a string whose first separator stands at `j` (or that has
/// none, when `j` is the length) takes the prefix as the first part.
pub proof fn lemma_split_at_first(s: Seq<char>, sep: char, j: int)
    requires
        0 <= j <= s.len(),
        forall|k: int| 0 <= k < j ==> s[k] != sep,
        j < s.len() ==> s[j] == sep,
    ensures
        j < s.len() ==> split_spec(s, sep) == seq![s.take(j)] + split_spec(s.skip(j + 1), sep),
        j == s.len() ==> split_spec(s, sep) == seq![s],
    decreases j,
{
    lemma_split_len(s, sep);
    if j == 0 {
        if 0 < s.len() {
            assert(s[0] == sep);
            assert(s.take(0) =~= Seq::<char>::empty());
            assert(s.drop_first() =~= s.skip(1));
            assert(split_spec(s, sep) =~= seq![s.take(0)] + split_spec(s.skip(1), sep));
        } else {
            assert(split_spec(s, sep) =~~= seq![s]);
        }
    } else {
        let s1 = s.drop_first();
        assert(s[0] != sep);
        assert(forall|k: int| 0 <= k < j - 1 ==> s1[k] == s[k + 1] && s[k + 1] != sep);
        assert(j - 1 < s1.len() ==> s1[j - 1] == s[j as int]);
        lemma_split_at_first(s1, sep, j - 1);
        lemma_split_len(s1, sep);
        let r = split_spec(s1, sep);
        if j < s.len() {
            assert(r == seq![s1.take(j - 1)] + split_spec(s1.skip(j), sep));
            assert(r[0] == s1.take(j - 1));
            assert(seq![s[0]] + s1.take(j - 1) =~= s.take(j));
            assert(r.drop_first() =~= split_spec(s1.skip(j), sep));
            assert(s1.skip(j) =~= s.skip(j + 1));
            assert(split_spec(s, sep) =~= seq![s.take(j)] + split_spec(s.skip(j + 1), sep));
        } else {
            assert(r == seq![s1]);
            assert(seq![s[0]] + r[0] =~= s);
            assert(r.drop_first() =~= Seq::<Seq<char>>::empty());
            assert(split_spec(s, sep) =~= seq![seq![s[0]] + r[0]] + r.drop_first());
            assert(split_spec(s, sep) =~~= seq![s]);
        }
    }
}

/// Splits on a separator character, as `str::split` does.
pub fn split_chars(s: &Vec<char>, sep: char) -> (parts: Vec<Vec<char>>)
    ensures
        parts.deep_view() == split_spec(s@, sep),
{
    let mut parts: Vec<Vec<char>> = Vec::new();
    let mut part: Vec<char> = Vec::new();
    let mut i: usize = 0;
    let ghost mut start: int = 0;
    proof {
        assert(s@.skip(0) =~= s@);
        assert(parts.deep_view() + split_spec(s@, sep) =~~= split_spec(s@, sep));
    }
    while i < s.len()
        invariant
            0 <= start <= i <= s@.len(),
            part@ == s@.subrange(start, i as int),
            forall|k: int| start <= k < i ==> s@[k] != sep,
            split_spec(s@, sep) == parts.deep_view() + split_spec(s@.skip(start), sep),
        decreases s@.len() - i,
    {
        let c = s[i];
        if c == sep {
            proof {
                let suffix = s@.skip(start);
                assert(forall|k: int| 0 <= k < i - start ==> suffix[k] == s@[k + start]);
                lemma_split_at_first(suffix, sep, i - start);
                assert(suffix.take(i - start) =~= part@);
                assert(suffix.skip(i - start + 1) =~= s@.skip(i + 1));
            }
            let ghost old_parts = parts.deep_view();
            parts.push(part);
            proof {
                assert(parts.deep_view() =~~= old_parts.push(part@));
                assert(parts.deep_view() + split_spec(s@.skip(i + 1), sep) =~~= old_parts + (seq![
                    part@,
                ] + split_spec(s@.skip(i + 1), sep)));
            }
            part = Vec::new();
            proof {
                start = i + 1;
                assert(part@ =~= s@.subrange(start, i + 1));
            }
        } else {
            part.push(c);
            proof {
                assert(part@ =~= s@.subrange(start, i + 1));
            }
        }
        i = i + 1;
    }
    proof {
        let suffix = s@.skip(start);
        assert(suffix =~= part@);
        lemma_split_at_first(suffix, sep, suffix.len() as int);
        assert(split_spec(suffix, sep) == seq![suffix]);
    }
    let ghost old_parts = parts.deep_view();
    parts.push(part);
    proof {
        assert(parts.deep_view() =~~= old_parts.push(part@));
        assert(parts.deep_view() =~~= split_spec(s@, sep));
    }
    parts
}

/// The characters of a string slice, in order.
pub fn str_to_chars(s: &str) -> (v: Vec<char>)
    ensures
        v@ == s@,
{
    let n = s.unicode_len();
    let mut v: Vec<char> = Vec::new();
    let mut i: usize = 0;
    while i < n
        invariant
            i <= n,
            n == s@.len(),
            v@ == s@.take(i as int),
        decreases n - i,
    {
        let c = s.get_char(i);
        v.push(c);
        proof {
            assert(v@ =~= s@.take(i + 1));
        }
        i = i + 1;
    }
    proof {
        assert(v@ =~= s@);
    }
    v
}

/// Relies on `String`'s `FromIterator` over `char`: collecting yields
/// exactly the characters handed in, in order.
#[verifier::external_body]
pub fn chars_to_string(v: &Vec<char>) -> (s: String)
    ensures
        s@ == v@,
{
    v.iter().collect()
}

/// Whether a character vector holds exactly the characters of a string.
pub fn chars_eq_str(v: &Vec<char>, s: &str) -> (b: bool)
    ensures
        b == (v@ == s@),
{
    let n = s.unicode_len();
    if v.len() != n {
        proof {
            assert(v@.len() != s@.len());
        }
        return false;
    }
    let mut i: usize = 0;
    while i < n
        invariant
            i <= n,
            n == s@.len(),
            v@.len() == n,
            forall|k: int| 0 <= k < i ==> v@[k] == s@[k],
        decreases n - i,
    {
        if v[i] != s.get_char(i) {
            return false;
        }
        i = i + 1;
    }
    proof {
        assert(v@ =~= s@);
    }
    true
}

/// Whether two string slices hold the same characters.
pub fn str_eq(a: &str, b: &str) -> (r: bool)
    ensures
        r == (a@ == b@),
{
    let n = a.unicode_len();
    if b.unicode_len() != n {
        proof {
            assert(a@.len() != b@.len());
        }
        return false;
    }
    let mut i: usize = 0;
    while i < n
        invariant
            i <= n,
            n == a@.len(),
            b@.len() == n,
            forall|k: int| 0 <= k < i ==> a@[k] == b@[k],
        decreases n - i,
    {
        if a.get_char(i) != b.get_char(i) {
            return false;
        }
        i = i + 1;
    }
    proof {
        assert(a@ =~= b@);
    }
    true
}

/// Copy of the characters `t[a..b]`.
pub fn copy_range(t: &Vec<char>, a: usize, b: usize) -> (v: Vec<char>)
    requires
        a <= b <= t@.len(),
    ensures
        v@ == t@.subrange(a as int, b as int),
{
    let mut v: Vec<char> = Vec::new();
    let mut i: usize = a;
    while i < b
        invariant
            a <= i <= b <= t@.len(),
            v@ == t@.subrange(a as int, i as int),
        decreases b - i,
    {
        let c = t[i];
        v.push(c);
        proof {
            assert(v@ =~= t@.subrange(a as int, i + 1));
        }
        i = i + 1;
    }
    v
}

} // verus!
