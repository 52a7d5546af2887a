//! The values a user hands the tool on the command line.

use vstd::prelude::*;
use vstd::string::*;

use crate::cbor::{Cbor, CborValue};
use crate::text::{parse_bool, parse_i32, spec_parse_bool, spec_parse_i32, IntErrorKind};

verus! {

/// Compares two strings character by character.
pub fn str_equal(a: &str, b: &str) -> (res: bool)
    ensures
        res == (a@ == b@),
{
    let n = a.unicode_len();
    if n != b.unicode_len() {
        return false;
    }
    let mut i: usize = 0;
    while i < n
        invariant
            n == a@.len(),
            n == b@.len(),
            i <= n,
            forall|j: int| 0 <= j < i ==> a@[j] == b@[j],
        decreases n - i,
    {
        if a.get_char(i) != b.get_char(i) {
            return false;
        }
        i = i + 1;
    }
    assert(a@ =~= b@);
    true
}

pub open spec fn int_word() -> Seq<char> {
    seq!['i', 'n', 't']
}

pub open spec fn str_word() -> Seq<char> {
    seq!['s', 't', 'r']
}

pub open spec fn bin_word() -> Seq<char> {
    seq!['b', 'i', 'n']
}

pub open spec fn bool_word() -> Seq<char> {
    seq!['b', 'o', 'o', 'l']
}

fn is_int_word(s: &str) -> (res: bool)
    ensures
        res == (s@ == int_word()),
{
    proof {
        reveal_strlit("int");
        assert("int"@ =~= int_word());
    }
    str_equal(s, "int")
}

fn is_str_word(s: &str) -> (res: bool)
    ensures
        res == (s@ == str_word()),
{
    proof {
        reveal_strlit("str");
        assert("str"@ =~= str_word());
    }
    str_equal(s, "str")
}

fn is_bin_word(s: &str) -> (res: bool)
    ensures
        res == (s@ == bin_word()),
{
    proof {
        reveal_strlit("bin");
        assert("bin"@ =~= bin_word());
    }
    str_equal(s, "bin")
}

fn is_bool_word(s: &str) -> (res: bool)
    ensures
        res == (s@ == bool_word()),
{
    proof {
        reveal_strlit("bool");
        assert("bool"@ =~= bool_word());
    }
    str_equal(s, "bool")
}

/// Why a typed value could not be read.
#[derive(Debug, Clone, Copy, PartialEq, Eq, Structural)]
pub enum ValueError {
    /// The text is no decimal `i32`.
    InvalidInteger(IntErrorKind),
    /// The text is neither `true` nor `false`.
    InvalidBool,
    /// The type is none of `int`, `str`, `bin` and `bool`.
    InvalidType,
}

impl ValueError {
    /// The text of the error, as the standard parse errors word it.
    pub open spec fn spec_message(self) -> Seq<char> {
        match self {
            ValueError::InvalidInteger(IntErrorKind::Empty) => "cannot parse integer from empty string"@,
            ValueError::InvalidInteger(IntErrorKind::InvalidDigit) => "invalid digit found in string"@,
            ValueError::InvalidInteger(IntErrorKind::PosOverflow) => "number too large to fit in target type"@,
            ValueError::InvalidInteger(IntErrorKind::NegOverflow) => "number too small to fit in target type"@,
            ValueError::InvalidBool => "provided string was not `true` or `false`"@,
            ValueError::InvalidType => "Invalid value's type"@,
        }
    }

    pub fn message(&self) -> (res: String)
        ensures
            res@ == self.spec_message(),
    {
        match self {
            ValueError::InvalidInteger(IntErrorKind::Empty) => String::from_str("cannot parse integer from empty string"),
            ValueError::InvalidInteger(IntErrorKind::InvalidDigit) => String::from_str("invalid digit found in string"),
            ValueError::InvalidInteger(IntErrorKind::PosOverflow) => String::from_str("number too large to fit in target type"),
            ValueError::InvalidInteger(IntErrorKind::NegOverflow) => String::from_str("number too small to fit in target type"),
            ValueError::InvalidBool => String::from_str("provided string was not `true` or `false`"),
            ValueError::InvalidType => String::from_str("Invalid value's type"),
        }
    }
}

/// A value to store on a device.
pub struct Value(pub CborValue);

impl View for Value {
    type V = Cbor;

    open spec fn view(&self) -> Cbor {
        self.0.model()
    }
}

/// The value that `from_type_and_str` reads from a type name and a text.
pub open spec fn spec_typed_value(t: Seq<char>, s: Seq<char>) -> Result<Cbor, ValueError> {
    if t == int_word() {
        match spec_parse_i32(s) {
            Ok(n) => Ok(Cbor::Integer(n as int)),
            Err(k) => Err(ValueError::InvalidInteger(k)),
        }
    } else if t == str_word() {
        Ok(Cbor::Text(s))
    } else if t == bin_word() {
        Ok(Cbor::Bytes(Seq::empty()))
    } else if t == bool_word() {
        match spec_parse_bool(s) {
            Some(b) => Ok(Cbor::Bool(b)),
            None => Err(ValueError::InvalidBool),
        }
    } else {
        Err(ValueError::InvalidType)
    }
}

impl Value {
    /// A text value.
    pub fn text(s: &str) -> (res: Value)
        ensures
            res@ == Cbor::Text(s@),
    {
        Value(CborValue::Text(String::from_str(s)))
    }

    /// Reads a value of the type named `t` (`int`, `str`, `bin` or `bool`)
    /// from the text `s`. A `bin` value is always empty.
    pub fn from_type_and_str(t: &str, s: &str) -> (res: Result<Value, ValueError>)
        ensures
            match spec_typed_value(t@, s@) {
                Ok(v) => res matches Ok(r) && r@ == v,
                Err(e) => res == Err::<Value, ValueError>(e),
            },
    {
        if is_int_word(t) {
            match parse_i32(s) {
                Ok(n) => Ok(Value(CborValue::Integer(n as i128))),
                Err(k) => Err(ValueError::InvalidInteger(k)),
            }
        } else if is_str_word(t) {
            Ok(Value::text(s))
        } else if is_bin_word(t) {
            let v = Value(CborValue::Bytes(Vec::new()));
            assert(v@ == Cbor::Bytes(Seq::<u8>::empty()));
            Ok(v)
        } else if is_bool_word(t) {
            match parse_bool(s) {
                Some(b) => Ok(Value(CborValue::Bool(b))),
                None => Err(ValueError::InvalidBool),
            }
        } else {
            Err(ValueError::InvalidType)
        }
    }
}

/// A value read from a text alone is the value of type `str` read from it.
pub proof fn lemma_text_is_str_value(s: Seq<char>)
    ensures
        spec_typed_value(str_word(), s) == Ok::<Cbor, ValueError>(Cbor::Text(s)),
{
    assert(str_word() != int_word()) by {
        assert(str_word()[0] != int_word()[0]);
    }
}

/// Every `i32` written in decimal is read back, as an `int` value, as itself.
pub proof fn lemma_int_value_round_trip(n: i32)
    ensures
        spec_typed_value(int_word(), crate::text::i32_text(n)) == Ok::<Cbor, ValueError>(Cbor::Integer(n as int)),
{
    crate::text::lemma_i32_text_round_trip(n);
}

/// An `int` value is the number that `str::parse::<i32>` reads from the
/// text, for every text, and fails with the kind that it fails with.
pub proof fn lemma_int_value_is_the_parsed_number(s: Seq<char>)
    ensures
        spec_parse_i32(s) matches Ok(n) ==> spec_typed_value(int_word(), s) == Ok::<Cbor, ValueError>(Cbor::Integer(n as int)),
        spec_parse_i32(s) matches Err(k) ==> spec_typed_value(int_word(), s) == Err::<Cbor, ValueError>(ValueError::InvalidInteger(k)),
{
}

/// Text made of an optional sign and at least one decimal digit, whose
/// number fits in an `i32`, is read as an `int` value of that number, leading
/// zeros and all.
pub proof fn lemma_int_value_reads_decimal(sign: Seq<char>, digits: Seq<char>)
    requires
        sign == Seq::<char>::empty() || sign == seq!['+'] || sign == seq!['-'],
        digits.len() > 0,
        crate::text::all_dec_digits(digits),
        sign == seq!['-'] ==> -crate::text::digits_value(digits) >= i32::MIN,
        sign != seq!['-'] ==> crate::text::digits_value(digits) <= i32::MAX,
    ensures
        spec_typed_value(int_word(), sign + digits) == Ok::<Cbor, ValueError>(Cbor::Integer(
            if sign == seq!['-'] { -crate::text::digits_value(digits) } else { crate::text::digits_value(digits) },
        )),
{
    crate::text::lemma_parse_i32_reads_decimal(sign, digits);
    let v: int = if sign == seq!['-'] { -crate::text::digits_value(digits) } else { crate::text::digits_value(digits) };
    crate::text::lemma_digits_value_nonnegative(digits);
    assert(i32::MIN <= v <= i32::MAX);
    assert((v as i32) as int == v);
}

/// A `bool` value is read only from `true` or `false`, and is true exactly
/// when the text is `true`.
pub proof fn lemma_bool_value_is_the_word(s: Seq<char>)
    ensures
        spec_typed_value(bool_word(), s) is Ok <==> (s == seq!['t', 'r', 'u', 'e'] || s == seq!['f', 'a', 'l', 's', 'e']),
        spec_typed_value(bool_word(), s) is Ok ==> spec_typed_value(bool_word(), s) == Ok::<Cbor, ValueError>(Cbor::Bool(
            s == seq!['t', 'r', 'u', 'e'],
        )),
{
    assert(bool_word() != int_word() && bool_word() != str_word() && bool_word() != bin_word()) by {
        assert(bool_word().len() != int_word().len());
        assert(bool_word().len() != str_word().len());
        assert(bool_word().len() != bin_word().len());
    }
    assert(seq!['t', 'r', 'u', 'e'] != seq!['f', 'a', 'l', 's', 'e']) by {
        assert(seq!['t', 'r', 'u', 'e'].len() != seq!['f', 'a', 'l', 's', 'e'].len());
    }
}

impl core::str::FromStr for Value {
    type Err = ValueError;

    fn from_str(s: &str) -> (res: Result<Value, ValueError>)
        ensures
            res matches Ok(v) && v@ == Cbor::Text(s@),
    {
        Ok(Value::text(s))
    }
}

} // verus!
