//! Reading numbers, booleans and hexadecimal byte strings out of text.
//!
//! The integer and boolean readers follow the rules of `str::parse` for
//! `i32` and `bool`; the hexadecimal reader follows `u8::from_str_radix`
//! with radix 16. Each rule is written below as a spec function and the
//! readers are proved against it.

use vstd::prelude::*;
use vstd::string::*;

verus! {

/// Why a decimal integer could not be read (the kinds of `std::num::IntErrorKind`
/// that `i32::from_str` can produce).
#[derive(Debug, Clone, Copy, PartialEq, Eq, Structural)]
pub enum IntErrorKind {
    Empty,
    InvalidDigit,
    PosOverflow,
    NegOverflow,
}

pub open spec fn is_dec_digit(c: char) -> bool {
    '0' <= c && c <= '9'
}

pub open spec fn dec_digit_value(c: char) -> int {
    c as int - '0' as int
}

/// Left-to-right accumulation of decimal digits, stopping at the first digit
/// that is not one, or at the first step that leaves the range of `i32`.
pub open spec fn accumulate_i32(digits: Seq<char>, negative: bool, acc: int) -> Result<int, IntErrorKind>
    decreases digits.len(),
{
    if digits.len() == 0 {
        Ok(acc)
    } else if !is_dec_digit(digits[0]) {
        Err(IntErrorKind::InvalidDigit)
    } else {
        let next = if negative {
            acc * 10 - dec_digit_value(digits[0])
        } else {
            acc * 10 + dec_digit_value(digits[0])
        };
        if next > i32::MAX {
            Err(IntErrorKind::PosOverflow)
        } else if next < i32::MIN {
            Err(IntErrorKind::NegOverflow)
        } else {
            accumulate_i32(digits.drop_first(), negative, next)
        }
    }
}

pub open spec fn is_sign(c: char) -> bool {
    c == '+' || c == '-'
}

/// What `s.parse::<i32>()` gives: an optional sign, then at least one decimal digit.
pub open spec fn spec_parse_i32(s: Seq<char>) -> Result<i32, IntErrorKind> {
    if s.len() == 0 {
        Err(IntErrorKind::Empty)
    } else if s.len() == 1 && is_sign(s[0]) {
        Err(IntErrorKind::InvalidDigit)
    } else {
        let digits = if is_sign(s[0]) { s.drop_first() } else { s };
        match accumulate_i32(digits, s[0] == '-', 0) {
            Ok(v) => Ok(v as i32),
            Err(e) => Err(e),
        }
    }
}

proof fn lemma_accumulate_i32_in_range(digits: Seq<char>, negative: bool, acc: int)
    requires
        i32::MIN <= acc <= i32::MAX,
    ensures
        accumulate_i32(digits, negative, acc) matches Ok(v) ==> i32::MIN <= v <= i32::MAX,
    decreases digits.len(),
{
    if digits.len() > 0 && is_dec_digit(digits[0]) {
        let next = if negative {
            acc * 10 - dec_digit_value(digits[0])
        } else {
            acc * 10 + dec_digit_value(digits[0])
        };
        if i32::MIN <= next <= i32::MAX {
            lemma_accumulate_i32_in_range(digits.drop_first(), negative, next);
        }
    }
}

/// Reads a decimal `i32` as `str::parse::<i32>` does.
pub fn parse_i32(s: &str) -> (res: Result<i32, IntErrorKind>)
    ensures
        res == spec_parse_i32(s@),
{
    let n = s.unicode_len();
    if n == 0 {
        return Err(IntErrorKind::Empty);
    }
    let first = s.get_char(0);
    let signed = first == '+' || first == '-';
    if n == 1 && signed {
        return Err(IntErrorKind::InvalidDigit);
    }
    let negative = first == '-';
    let mut i: usize = if signed { 1 } else { 0 };
    let ghost digits = if signed { s@.drop_first() } else { s@ };
    assert(digits =~= s@.skip(i as int));
    let mut acc: i64 = 0;
    while i < n
        invariant
            n == s@.len(),
            n >= 1,
            !(n == 1 && is_sign(s@[0])),
            negative == (s@[0] == '-'),
            digits == (if is_sign(s@[0]) { s@.drop_first() } else { s@ }),
            i <= n,
            i32::MIN <= acc <= i32::MAX,
            accumulate_i32(digits, negative, 0) == accumulate_i32(s@.skip(i as int), negative, acc as int),
        decreases n - i,
    {
        let c = s.get_char(i);
        assert(s@.skip(i as int)[0] == c);
        if !('0' <= c && c <= '9') {
            return Err(IntErrorKind::InvalidDigit);
        }
        let d: i64 = (c as u32 - '0' as u32) as i64;
        let next: i64 = if negative { acc * 10 - d } else { acc * 10 + d };
        if next > i32::MAX as i64 {
            return Err(IntErrorKind::PosOverflow);
        }
        if next < i32::MIN as i64 {
            return Err(IntErrorKind::NegOverflow);
        }
        assert(s@.skip(i as int).drop_first() =~= s@.skip(i + 1));
        acc = next;
        i = i + 1;
    }
    assert(s@.skip(i as int).len() == 0);
    proof {
        lemma_accumulate_i32_in_range(digits, negative, 0);
    }
    Ok(acc as i32)
}

/// What `s.parse::<bool>()` gives: only the exact words `true` and `false` are read.
pub open spec fn spec_parse_bool(s: Seq<char>) -> Option<bool> {
    if s =~= seq!['t', 'r', 'u', 'e'] {
        Some(true)
    } else if s =~= seq!['f', 'a', 'l', 's', 'e'] {
        Some(false)
    } else {
        None
    }
}

/// Reads a boolean as `str::parse::<bool>` does.
pub fn parse_bool(s: &str) -> (res: Option<bool>)
    ensures
        res == spec_parse_bool(s@),
{
    let n = s.unicode_len();
    if n == 4 && s.get_char(0) == 't' && s.get_char(1) == 'r' && s.get_char(2) == 'u'
        && s.get_char(3) == 'e' {
        assert(s@ =~= seq!['t', 'r', 'u', 'e']);
        Some(true)
    } else if n == 5 && s.get_char(0) == 'f' && s.get_char(1) == 'a' && s.get_char(2) == 'l'
        && s.get_char(3) == 's' && s.get_char(4) == 'e' {
        assert(s@ =~= seq!['f', 'a', 'l', 's', 'e']);
        Some(false)
    } else {
        proof {
            if s@ =~= seq!['t', 'r', 'u', 'e'] {
                assert(s@[0] == 't' && s@[1] == 'r' && s@[2] == 'u' && s@[3] == 'e');
            }
            if s@ =~= seq!['f', 'a', 'l', 's', 'e'] {
                assert(s@[0] == 'f' && s@[1] == 'a' && s@[2] == 'l' && s@[3] == 's' && s@[4] == 'e');
            }
        }
        None
    }
}

/// The value of a hexadecimal digit, in either case.
pub open spec fn hex_digit_value(c: char) -> Option<int> {
    if '0' <= c && c <= '9' {
        Some(c as int - '0' as int)
    } else if 'a' <= c && c <= 'f' {
        Some(c as int - 'a' as int + 10)
    } else if 'A' <= c && c <= 'F' {
        Some(c as int - 'A' as int + 10)
    } else {
        None
    }
}

/// Left-to-right accumulation of hexadecimal digits into a byte.
pub open spec fn accumulate_hex_u8(digits: Seq<char>, acc: int) -> Option<int>
    decreases digits.len(),
{
    if digits.len() == 0 {
        Some(acc)
    } else {
        match hex_digit_value(digits[0]) {
            None => None,
            Some(d) => if acc * 16 + d > 255 {
                None
            } else {
                accumulate_hex_u8(digits.drop_first(), acc * 16 + d)
            },
        }
    }
}

/// What `u8::from_str_radix(s, 16)` gives: an optional `+`, then at least one
/// hexadecimal digit, the whole fitting in a byte.
pub open spec fn spec_parse_hex_u8(s: Seq<char>) -> Option<u8> {
    if s.len() == 0 {
        None
    } else if s.len() == 1 && is_sign(s[0]) {
        None
    } else {
        let digits = if s[0] == '+' { s.drop_first() } else { s };
        match accumulate_hex_u8(digits, 0) {
            Some(v) => Some(v as u8),
            None => None,
        }
    }
}

fn hex_digit(c: char) -> (res: Option<u8>)
    ensures
        res matches Some(d) ==> hex_digit_value(c) == Some(d as int),
        res is None ==> hex_digit_value(c) is None,
{
    if '0' <= c && c <= '9' {
        Some((c as u32 - '0' as u32) as u8)
    } else if 'a' <= c && c <= 'f' {
        Some((c as u32 - 'a' as u32 + 10) as u8)
    } else if 'A' <= c && c <= 'F' {
        Some((c as u32 - 'A' as u32 + 10) as u8)
    } else {
        None
    }
}

/// Reads a byte written in hexadecimal as `u8::from_str_radix(s, 16)` does.
pub fn parse_hex_u8(s: &[char]) -> (res: Option<u8>)
    ensures
        res == spec_parse_hex_u8(s@),
{
    let n = s.len();
    if n == 0 {
        return None;
    }
    if n == 1 && (s[0] == '+' || s[0] == '-') {
        return None;
    }
    let mut i: usize = if s[0] == '+' { 1 } else { 0 };
    let ghost digits = if s@[0] == '+' { s@.drop_first() } else { s@ };
    assert(digits =~= s@.skip(i as int));
    let mut acc: u32 = 0;
    while i < n
        invariant
            n == s@.len(),
            n >= 1,
            !(n == 1 && is_sign(s@[0])),
            digits == (if s@[0] == '+' { s@.drop_first() } else { s@ }),
            i <= n,
            acc <= 255,
            accumulate_hex_u8(digits, 0) == accumulate_hex_u8(s@.skip(i as int), acc as int),
        decreases n - i,
    {
        assert(s@.skip(i as int)[0] == s@[i as int]);
        match hex_digit(s[i]) {
            None => {
                return None;
            },
            Some(d) => {
                if acc * 16 + d as u32 > 255 {
                    return None;
                }
                assert(s@.skip(i as int).drop_first() =~= s@.skip(i + 1));
                acc = acc * 16 + d as u32;
            },
        }
        i = i + 1;
    }
    assert(s@.skip(i as int).len() == 0);
    Some(acc as u8)
}

/// The first piece of `s` when it is cut into pieces of two (the last may have one).
pub open spec fn first_pair<T>(s: Seq<T>) -> Seq<T> {
    if s.len() >= 2 {
        s.take(2)
    } else {
        s
    }
}

/// What is left of `s` after its first piece of two.
pub open spec fn after_first_pair<T>(s: Seq<T>) -> Seq<T> {
    if s.len() >= 2 {
        s.skip(2)
    } else {
        Seq::empty()
    }
}

/// Every piece of two characters of `s` is a byte in hexadecimal.
pub open spec fn is_hex_text(s: Seq<char>) -> bool
    decreases s.len(),
{
    if s.len() == 0 {
        true
    } else {
        spec_parse_hex_u8(first_pair(s)) is Some && is_hex_text(after_first_pair(s))
    }
}

/// The bytes that the pieces of two characters of `s` stand for, in order.
pub open spec fn hex_text_bytes(s: Seq<char>) -> Seq<u8>
    decreases s.len(),
{
    if s.len() == 0 {
        Seq::empty()
    } else {
        seq![spec_parse_hex_u8(first_pair(s))->Some_0] + hex_text_bytes(after_first_pair(s))
    }
}

/// Each byte taken as the character with the same number.
pub open spec fn byte_chars(b: Seq<u8>) -> Seq<char> {
    b.map_values(|x: u8| x as char)
}

/// Every piece of two bytes of `b` is valid UTF-8 on its own.
pub open spec fn pairs_are_utf8(b: Seq<u8>) -> bool
    decreases b.len(),
{
    if b.len() == 0 {
        true
    } else {
        vstd::utf8::valid_utf8(first_pair(b)) && pairs_are_utf8(after_first_pair(b))
    }
}

/// The bytes that the pieces of two bytes of `b` stand for in hexadecimal; a
/// piece that is no hexadecimal byte is passed over.
///
/// A piece that is valid UTF-8 but not ASCII is one character that is no
/// hexadecimal digit, and it is passed over here as well.
pub open spec fn hex_input_bytes(b: Seq<u8>) -> Seq<u8>
    decreases b.len(),
{
    if b.len() == 0 {
        Seq::empty()
    } else {
        match spec_parse_hex_u8(byte_chars(first_pair(b))) {
            Some(v) => seq![v] + hex_input_bytes(after_first_pair(b)),
            None => hex_input_bytes(after_first_pair(b)),
        }
    }
}

/// Reads a text of hexadecimal bytes, two characters to a byte, where the
/// last byte may be written with a single digit.
pub fn decode_hex_text(s: &str) -> (res: Vec<u8>)
    requires
        is_hex_text(s@),
    ensures
        res@ == hex_text_bytes(s@),
{
    let n = s.unicode_len();
    let mut res: Vec<u8> = Vec::new();
    let mut i: usize = 0;
    assert(s@.skip(0) =~= s@);
    assert(res@ + hex_text_bytes(s@) =~= hex_text_bytes(s@));
    while i < n
        invariant
            n == s@.len(),
            i <= n,
            is_hex_text(s@.skip(i as int)),
            hex_text_bytes(s@) == res@ + hex_text_bytes(s@.skip(i as int)),
        decreases n - i,
    {
        let ghost rest = s@.skip(i as int);
        let mut pair: Vec<char> = Vec::new();
        pair.push(s.get_char(i));
        if i + 1 < n {
            pair.push(s.get_char(i + 1));
            assert(pair@ =~= first_pair(rest));
            assert(after_first_pair(rest) =~= s@.skip(i + 2));
        } else {
            assert(pair@ =~= first_pair(rest));
            assert(after_first_pair(rest) =~= s@.skip(i + 1));
        }
        let v = parse_hex_u8(pair.as_slice());
        let b = v.unwrap();
        res.push(b);
        if i + 1 < n {
            i = i + 2;
        } else {
            i = i + 1;
        }
        proof {
            assert(res@ + hex_text_bytes(s@.skip(i as int)) =~= res@.drop_last() + hex_text_bytes(rest));
        }
    }
    assert(s@.skip(i as int) =~= Seq::<char>::empty());
    assert(res@ + Seq::<u8>::empty() =~= res@);
    res
}

/// Reads bytes written in hexadecimal from raw input, two bytes to a byte;
/// pieces that are no hexadecimal byte (such as a line end) are passed over.
pub fn decode_hex_input(input: &[u8]) -> (res: Vec<u8>)
    requires
        pairs_are_utf8(input@),
    ensures
        res@ == hex_input_bytes(input@),
{
    let n = input.len();
    let mut res: Vec<u8> = Vec::new();
    let mut i: usize = 0;
    assert(input@.skip(0) =~= input@);
    assert(res@ + hex_input_bytes(input@) =~= hex_input_bytes(input@));
    while i < n
        invariant
            n == input@.len(),
            i <= n,
            hex_input_bytes(input@) == res@ + hex_input_bytes(input@.skip(i as int)),
        decreases n - i,
    {
        let ghost rest = input@.skip(i as int);
        let mut pair: Vec<char> = Vec::new();
        pair.push(input[i] as char);
        if i + 1 < n {
            pair.push(input[i + 1] as char);
            assert(pair@ =~= byte_chars(first_pair(rest)));
            assert(after_first_pair(rest) =~= input@.skip(i + 2));
        } else {
            assert(pair@ =~= byte_chars(first_pair(rest)));
            assert(after_first_pair(rest) =~= input@.skip(i + 1));
        }
        let ghost before = res@;
        match parse_hex_u8(pair.as_slice()) {
            Some(b) => {
                res.push(b);
            },
            None => {},
        }
        if i + 1 < n {
            i = i + 2;
        } else {
            i = i + 1;
        }
        proof {
            match spec_parse_hex_u8(byte_chars(first_pair(rest))) {
                Some(v) => {
                    assert(res@ + hex_input_bytes(input@.skip(i as int)) =~= before + (seq![v]
                        + hex_input_bytes(input@.skip(i as int))));
                },
                None => {},
            }
        }
    }
    assert(input@.skip(i as int) =~= Seq::<u8>::empty());
    assert(res@ + Seq::<u8>::empty() =~= res@);
    res
}

/// The character of a decimal digit.
pub open spec fn digit_char(d: int) -> char {
    ('0' as int + d) as char
}

/// `n` written in decimal, as `format!("{}", n)` writes it.
pub open spec fn decimal_text(n: nat) -> Seq<char>
    decreases n,
{
    if n < 10 {
        seq![digit_char(n as int)]
    } else {
        decimal_text(n / 10).push(digit_char((n % 10) as int))
    }
}

fn digit_str(d: u8) -> (res: &'static str)
    requires
        d < 10,
    ensures
        res@ == seq![digit_char(d as int)],
{
    match d {
        0 => {
            proof { reveal_strlit("0"); }
            "0"
        },
        1 => {
            proof { reveal_strlit("1"); }
            "1"
        },
        2 => {
            proof { reveal_strlit("2"); }
            "2"
        },
        3 => {
            proof { reveal_strlit("3"); }
            "3"
        },
        4 => {
            proof { reveal_strlit("4"); }
            "4"
        },
        5 => {
            proof { reveal_strlit("5"); }
            "5"
        },
        6 => {
            proof { reveal_strlit("6"); }
            "6"
        },
        7 => {
            proof { reveal_strlit("7"); }
            "7"
        },
        8 => {
            proof { reveal_strlit("8"); }
            "8"
        },
        _ => {
            proof { reveal_strlit("9"); }
            "9"
        },
    }
}

/// Writes a byte in decimal.
pub fn u8_decimal(n: u8) -> (res: String)
    ensures
        res@ == decimal_text(n as nat),
{
    let mut res = String::new();
    if n >= 100 {
        res.append(digit_str(n / 100));
    }
    if n >= 10 {
        res.append(digit_str((n / 10) % 10));
    }
    res.append(digit_str(n % 10));
    proof {
        reveal_with_fuel(decimal_text, 3);
        if n >= 100 {
            assert((n / 10) / 10 == n / 100);
        }
    }
    res
}

/// `std::str::from_utf8(bytes)`, kept as an owned string: it succeeds exactly
/// when the bytes are valid UTF-8, and the text is then their decoding.
#[verifier::external_body]
pub(crate) fn utf8_text(bytes: &[u8]) -> (res: Option<String>)
    ensures
        res is Some <==> vstd::utf8::valid_utf8(bytes@),
        res matches Some(s) ==> s@ == vstd::utf8::decode_utf8(bytes@),
{
    std::str::from_utf8(bytes).ok().map(|s| s.to_string())
}

/// One step of `accumulate_i32`: the next character taken into `acc`.
pub open spec fn accumulate_i32_step(acc: int, c: char, negative: bool) -> Result<int, IntErrorKind> {
    if !is_dec_digit(c) {
        Err(IntErrorKind::InvalidDigit)
    } else {
        let next = if negative {
            acc * 10 - dec_digit_value(c)
        } else {
            acc * 10 + dec_digit_value(c)
        };
        if next > i32::MAX {
            Err(IntErrorKind::PosOverflow)
        } else if next < i32::MIN {
            Err(IntErrorKind::NegOverflow)
        } else {
            Ok(next)
        }
    }
}

proof fn lemma_accumulate_i32_push(s: Seq<char>, c: char, negative: bool, acc: int)
    ensures
        accumulate_i32(s.push(c), negative, acc) == match accumulate_i32(s, negative, acc) {
            Ok(v) => accumulate_i32_step(v, c, negative),
            Err(e) => Err(e),
        },
    decreases s.len(),
{
    if s.len() == 0 {
        assert(s.push(c)[0] == c);
        assert(s.push(c).drop_first() =~= Seq::<char>::empty());
        if is_dec_digit(c) {
            let next = if negative {
                acc * 10 - dec_digit_value(c)
            } else {
                acc * 10 + dec_digit_value(c)
            };
            assert(accumulate_i32(Seq::<char>::empty(), negative, next) == Ok::<int, IntErrorKind>(next));
        }
    } else {
        assert(s.push(c)[0] == s[0]);
        assert(s.push(c).drop_first() =~= s.drop_first().push(c));
        if is_dec_digit(s[0]) {
            let next = if negative {
                acc * 10 - dec_digit_value(s[0])
            } else {
                acc * 10 + dec_digit_value(s[0])
            };
            lemma_accumulate_i32_push(s.drop_first(), c, negative, next);
        }
    }
}

proof fn lemma_digit_char(d: int)
    requires
        0 <= d < 10,
    ensures
        is_dec_digit(digit_char(d)),
        dec_digit_value(digit_char(d)) == d,
        digit_char(d) as int == '0' as int + d,
{
}

proof fn lemma_accumulate_decimal(m: nat, negative: bool)
    requires
        negative ==> -m >= i32::MIN,
        !negative ==> m <= i32::MAX,
    ensures
        accumulate_i32(decimal_text(m), negative, 0) == Ok::<int, IntErrorKind>(if negative { -m } else { m as int }),
    decreases m,
{
    if m < 10 {
        lemma_digit_char(m as int);
        let s = seq![digit_char(m as int)];
        assert(decimal_text(m) == s);
        assert(s[0] == digit_char(m as int));
        assert(s.drop_first() =~= Seq::<char>::empty());
        let next: int = if negative { 0 - m } else { m as int };
        assert(accumulate_i32(s.drop_first(), negative, next) == Ok::<int, IntErrorKind>(next));
    } else {
        lemma_accumulate_decimal(m / 10, negative);
        lemma_digit_char((m % 10) as int);
        lemma_accumulate_i32_push(decimal_text(m / 10), digit_char((m % 10) as int), negative, 0);
        assert((m / 10) * 10 + m % 10 == m);
    }
}

/// The number that decimal digits stand for: each digit counts ten times
/// the one after it.
pub open spec fn digits_value(digits: Seq<char>) -> int
    decreases digits.len(),
{
    if digits.len() == 0 {
        0
    } else {
        digits_value(digits.drop_last()) * 10 + dec_digit_value(digits.last())
    }
}

pub open spec fn all_dec_digits(digits: Seq<char>) -> bool {
    forall|i: int| 0 <= i < digits.len() ==> is_dec_digit(#[trigger] digits[i])
}

proof fn lemma_digits_value_bounds(digits: Seq<char>)
    requires
        all_dec_digits(digits),
    ensures
        0 <= digits_value(digits),
        digits.len() > 0 ==> digits_value(digits.drop_last()) <= digits_value(digits),
    decreases digits.len(),
{
    if digits.len() > 0 {
        let rest = digits.drop_last();
        assert(all_dec_digits(rest)) by {
            assert forall|i: int| 0 <= i < rest.len() implies is_dec_digit(#[trigger] rest[i]) by {
                assert(rest[i] == digits[i]);
            }
        }
        lemma_digits_value_bounds(rest);
        assert(is_dec_digit(digits[digits.len() - 1]));
    }
}

pub proof fn lemma_digits_value_nonnegative(digits: Seq<char>)
    requires
        all_dec_digits(digits),
    ensures
        0 <= digits_value(digits),
{
    lemma_digits_value_bounds(digits);
}

proof fn lemma_accumulate_digits(digits: Seq<char>, negative: bool)
    requires
        all_dec_digits(digits),
        negative ==> -digits_value(digits) >= i32::MIN,
        !negative ==> digits_value(digits) <= i32::MAX,
    ensures
        accumulate_i32(digits, negative, 0) == Ok::<int, IntErrorKind>(
            if negative { -digits_value(digits) } else { digits_value(digits) },
        ),
    decreases digits.len(),
{
    if digits.len() > 0 {
        let rest = digits.drop_last();
        lemma_digits_value_bounds(digits);
        assert(all_dec_digits(rest)) by {
            assert forall|i: int| 0 <= i < rest.len() implies is_dec_digit(#[trigger] rest[i]) by {
                assert(rest[i] == digits[i]);
            }
        }
        lemma_digits_value_bounds(rest);
        lemma_accumulate_digits(rest, negative);
        assert(rest.push(digits.last()) =~= digits);
        lemma_accumulate_i32_push(rest, digits.last(), negative, 0);
        assert(is_dec_digit(digits[digits.len() - 1]));
    }
}

/// Text made of an optional sign and at least one decimal digit, whose
/// number fits in an `i32`, is read as that number, leading zeros and all.
pub proof fn lemma_parse_i32_reads_decimal(sign: Seq<char>, digits: Seq<char>)
    requires
        sign == Seq::<char>::empty() || sign == seq!['+'] || sign == seq!['-'],
        digits.len() > 0,
        all_dec_digits(digits),
        sign == seq!['-'] ==> -digits_value(digits) >= i32::MIN,
        sign != seq!['-'] ==> digits_value(digits) <= i32::MAX,
    ensures
        spec_parse_i32(sign + digits) == Ok::<i32, IntErrorKind>(
            (if sign == seq!['-'] { -digits_value(digits) } else { digits_value(digits) }) as i32,
        ),
{
    let s = sign + digits;
    let negative = sign == seq!['-'];
    lemma_accumulate_digits(digits, negative);
    if sign.len() == 0 {
        assert(s =~= digits);
        assert(is_dec_digit(digits[0]));
    } else {
        assert(s[0] == sign[0]);
        assert(s.drop_first() =~= digits);
        assert(s.len() > 1);
    }
}

/// An `i32` written in decimal, with a minus sign where it is negative.
pub open spec fn i32_text(n: i32) -> Seq<char> {
    if n < 0 {
        seq!['-'] + decimal_text((-(n as int)) as nat)
    } else {
        decimal_text(n as nat)
    }
}

/// Every `i32` written in decimal is read back as itself.
pub proof fn lemma_i32_text_round_trip(n: i32)
    ensures
        spec_parse_i32(i32_text(n)) == Ok::<i32, IntErrorKind>(n),
{
    if n < 0 {
        let m = (-(n as int)) as nat;
        lemma_accumulate_decimal(m, true);
        assert((seq!['-'] + decimal_text(m)).drop_first() =~= decimal_text(m));
        assert((seq!['-'] + decimal_text(m))[0] == '-');
    } else {
        lemma_accumulate_decimal(n as nat, false);
        if n < 10 {
            assert(decimal_text(n as nat)[0] == digit_char(n as int));
        } else {
            assert(decimal_text(n as nat).len() > 1) by {
                assert(decimal_text(n as nat) == decimal_text(n as nat / 10).push(digit_char((n % 10) as int)));
            }
            lemma_decimal_text_first_is_digit(n as nat);
        }
    }
}

proof fn lemma_decimal_text_first_is_digit(m: nat)
    ensures
        decimal_text(m).len() > 0,
        is_dec_digit(decimal_text(m)[0]),
    decreases m,
{
    if m >= 10 {
        lemma_decimal_text_first_is_digit(m / 10);
        assert(decimal_text(m)[0] == decimal_text(m / 10)[0]);
    }
}

/// A hexadecimal digit in lower case.
pub open spec fn hex_digit_char(d: int) -> char {
    if d < 10 {
        ('0' as int + d) as char
    } else {
        ('a' as int + d - 10) as char
    }
}

/// Bytes written in hexadecimal, two lower-case digits to a byte.
pub open spec fn hex_text_of(b: Seq<u8>) -> Seq<char>
    decreases b.len(),
{
    if b.len() == 0 {
        Seq::empty()
    } else {
        seq![hex_digit_char(b[0] as int / 16), hex_digit_char(b[0] as int % 16)] + hex_text_of(b.drop_first())
    }
}

proof fn lemma_hex_digit_char(d: int)
    requires
        0 <= d < 16,
    ensures
        hex_digit_value(hex_digit_char(d)) == Some(d),
        hex_digit_char(d) != '+',
{
}

proof fn lemma_hex_pair(x: u8)
    ensures
        spec_parse_hex_u8(seq![hex_digit_char(x as int / 16), hex_digit_char(x as int % 16)]) == Some(x),
{
    let hi = hex_digit_char(x as int / 16);
    let lo = hex_digit_char(x as int % 16);
    let pair = seq![hi, lo];
    lemma_hex_digit_char(x as int / 16);
    lemma_hex_digit_char(x as int % 16);
    assert(pair[0] == hi && pair[1] == lo);
    assert(pair.drop_first() =~= seq![lo]);
    assert(seq![lo][0] == lo);
    assert(seq![lo].drop_first() =~= Seq::<char>::empty());
    let a1 = x as int / 16;
    assert(a1 <= 15);
    let a2 = a1 * 16 + x as int % 16;
    assert(a2 == x as int);
    assert(accumulate_hex_u8(Seq::<char>::empty(), a2) == Some(a2));
    assert(accumulate_hex_u8(seq![lo], a1) == Some(a2));
    assert(accumulate_hex_u8(pair, 0) == Some(a2));
}

/// Bytes written in hexadecimal are read back as themselves.
pub proof fn lemma_hex_text_round_trip(b: Seq<u8>)
    ensures
        is_hex_text(hex_text_of(b)),
        hex_text_bytes(hex_text_of(b)) == b,
    decreases b.len(),
{
    if b.len() > 0 {
        let s = hex_text_of(b);
        let pair = seq![hex_digit_char(b[0] as int / 16), hex_digit_char(b[0] as int % 16)];
        assert(s == pair + hex_text_of(b.drop_first()));
        assert(first_pair(s) =~= pair);
        assert(after_first_pair(s) =~= hex_text_of(b.drop_first()));
        lemma_hex_pair(b[0]);
        lemma_hex_text_round_trip(b.drop_first());
        assert(seq![b[0]] + b.drop_first() =~= b);
    }
}

/// Characters taken as the bytes with the same numbers.
pub open spec fn char_bytes(s: Seq<char>) -> Seq<u8> {
    s.map_values(|c: char| c as u8)
}

proof fn lemma_hex_input_prefix(b: Seq<u8>, tail: Seq<u8>)
    ensures
        hex_input_bytes(char_bytes(hex_text_of(b)) + tail) == b + hex_input_bytes(tail),
    decreases b.len(),
{
    if b.len() == 0 {
        assert(char_bytes(hex_text_of(b)) + tail =~= tail);
        assert(b + hex_input_bytes(tail) =~= hex_input_bytes(tail));
    } else {
        let pair = seq![hex_digit_char(b[0] as int / 16), hex_digit_char(b[0] as int % 16)];
        let rest = char_bytes(hex_text_of(b.drop_first())) + tail;
        let all = char_bytes(hex_text_of(b)) + tail;
        assert(hex_text_of(b) == pair + hex_text_of(b.drop_first()));
        assert(all =~= char_bytes(pair) + rest);
        assert(first_pair(all) =~= char_bytes(pair));
        assert(after_first_pair(all) =~= rest);
        assert(byte_chars(char_bytes(pair)) =~= pair);
        lemma_hex_pair(b[0]);
        lemma_hex_input_prefix(b.drop_first(), tail);
        assert(seq![b[0]] + (b.drop_first() + hex_input_bytes(tail)) =~= b + hex_input_bytes(tail));
    }
}

proof fn lemma_ascii_is_utf8(p: Seq<u8>)
    requires
        forall|i: int| 0 <= i < p.len() ==> p[i] < 128,
    ensures
        vstd::utf8::valid_utf8(p),
{
    let chars = byte_chars(p);
    assert(vstd::utf8::is_ascii_chars(chars));
    vstd::utf8::is_ascii_chars_encode_utf8(chars);
    assert(vstd::utf8::encode_utf8(chars) =~= p);
    vstd::utf8::encode_utf8_valid_utf8(chars);
}

proof fn lemma_ascii_pairs_are_utf8(b: Seq<u8>)
    requires
        forall|i: int| 0 <= i < b.len() ==> b[i] < 128,
    ensures
        pairs_are_utf8(b),
    decreases b.len(),
{
    if b.len() > 0 {
        lemma_ascii_is_utf8(first_pair(b));
        lemma_ascii_pairs_are_utf8(after_first_pair(b));
    }
}

proof fn lemma_hex_digit_char_ascii(d: int)
    requires
        0 <= d < 16,
    ensures
        (hex_digit_char(d) as u8) < 128,
{
    let byte = hex_digit_char(d) as u8;
    assert(byte as char == hex_digit_char(d));
}

proof fn lemma_hex_text_is_ascii(b: Seq<u8>)
    ensures
        forall|i: int| 0 <= i < hex_text_of(b).len() ==> (hex_text_of(b)[i] as u8) < 128,
    decreases b.len(),
{
    if b.len() > 0 {
        lemma_hex_text_is_ascii(b.drop_first());
        let pair = seq![hex_digit_char(b[0] as int / 16), hex_digit_char(b[0] as int % 16)];
        assert(hex_text_of(b) == pair + hex_text_of(b.drop_first()));
        lemma_hex_digit_char_ascii(b[0] as int / 16);
        lemma_hex_digit_char_ascii(b[0] as int % 16);
        assert forall|i: int| 0 <= i < hex_text_of(b).len() implies (hex_text_of(b)[i] as u8) < 128 by {
            if i >= 2 {
                assert(hex_text_of(b)[i] == hex_text_of(b.drop_first())[i - 2]);
            }
        }
    }
}

/// Bytes written in hexadecimal and ended by a line feed, as text typed at
/// a terminal, are taken as input and read back as themselves.
pub proof fn lemma_hex_input_round_trip(b: Seq<u8>)
    ensures
        pairs_are_utf8(char_bytes(hex_text_of(b)) + seq![10u8]),
        hex_input_bytes(char_bytes(hex_text_of(b)) + seq![10u8]) == b,
{
    let typed = char_bytes(hex_text_of(b)) + seq![10u8];
    lemma_hex_text_is_ascii(b);
    assert forall|i: int| 0 <= i < typed.len() implies typed[i] < 128 by {
        if i < hex_text_of(b).len() {
            assert(typed[i] == hex_text_of(b)[i] as u8);
        }
    }
    lemma_ascii_pairs_are_utf8(typed);
    lemma_hex_input_prefix(b, seq![10u8]);
    let nl = seq![10u8];
    assert(first_pair(nl) =~= nl);
    assert(after_first_pair(nl) =~= Seq::<u8>::empty());
    let nl_chars = byte_chars(nl);
    assert(nl_chars.len() == 1);
    assert(nl_chars[0] == (10u8 as char));
    assert(hex_digit_value(nl_chars[0]) is None);
    assert(accumulate_hex_u8(nl_chars, 0) is None);
    assert(spec_parse_hex_u8(nl_chars) is None);
    assert(hex_input_bytes(Seq::<u8>::empty()) == Seq::<u8>::empty());
    assert(hex_input_bytes(nl) == Seq::<u8>::empty());
    assert(b + Seq::<u8>::empty() =~= b);
}

} // verus!
