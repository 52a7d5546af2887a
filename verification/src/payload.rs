//! The payload that a user describes on the command line: a key, a value and
//! the type to read the value as, or hexadecimal CBOR given on the input.

use vstd::prelude::*;
use vstd::string::*;

use crate::cbor::{Cbor, CborValue};
use crate::text::{
    decode_hex_text, hex_text_bytes, is_hex_text, parse_bool, parse_i32, spec_parse_bool,
    spec_parse_i32,
};
use crate::value::{bin_word, bool_word, int_word, str_equal, str_word};

verus! {

/// The type to read a payload value as.
#[derive(Debug, Clone, Copy, PartialEq, Eq, Structural)]
pub enum ValType {
    StringType,
    IntType,
    BinType,
    BoolType,
}

/// The name under which a type is given on the command line.
pub open spec fn val_type_word(t: ValType) -> Seq<char> {
    match t {
        ValType::StringType => str_word(),
        ValType::IntType => int_word(),
        ValType::BinType => bin_word(),
        ValType::BoolType => bool_word(),
    }
}

/// The type that a name stands for, if any.
pub open spec fn spec_val_type_of(s: Seq<char>) -> Option<ValType> {
    if s == int_word() {
        Some(ValType::IntType)
    } else if s == str_word() {
        Some(ValType::StringType)
    } else if s == bin_word() {
        Some(ValType::BinType)
    } else if s == bool_word() {
        Some(ValType::BoolType)
    } else {
        None
    }
}

/// The name given is no type.
#[derive(Debug, Clone, Copy, PartialEq, Eq, Structural)]
pub struct UnknownValType;

impl UnknownValType {
    pub fn message(&self) -> (res: String)
        ensures
            res@ == "Unknown value type. Use int, str, or bin"@,
    {
        String::from_str("Unknown value type. Use int, str, or bin")
    }
}

impl ValType {
    /// Reads a type from its name.
    pub fn parse(s: &str) -> (res: Result<ValType, UnknownValType>)
        ensures
            match spec_val_type_of(s@) {
                Some(t) => res == Ok::<ValType, UnknownValType>(t),
                None => res == Err::<ValType, UnknownValType>(UnknownValType),
            },
    {
        proof {
            reveal_strlit("int");
            reveal_strlit("str");
            reveal_strlit("bin");
            reveal_strlit("bool");
            assert("int"@ =~= int_word());
            assert("str"@ =~= str_word());
            assert("bin"@ =~= bin_word());
            assert("bool"@ =~= bool_word());
        }
        if str_equal(s, "int") {
            Ok(ValType::IntType)
        } else if str_equal(s, "str") {
            Ok(ValType::StringType)
        } else if str_equal(s, "bin") {
            Ok(ValType::BinType)
        } else if str_equal(s, "bool") {
            Ok(ValType::BoolType)
        } else {
            Err(UnknownValType)
        }
    }

    /// The name of the type.
    pub fn to_string(&self) -> (res: String)
        ensures
            res@ == val_type_word(*self),
    {
        proof {
            reveal_strlit("int");
            reveal_strlit("str");
            reveal_strlit("bin");
            reveal_strlit("bool");
            assert("int"@ =~= int_word());
            assert("str"@ =~= str_word());
            assert("bin"@ =~= bin_word());
            assert("bool"@ =~= bool_word());
        }
        match self {
            ValType::StringType => String::from_str("str"),
            ValType::IntType => String::from_str("int"),
            ValType::BinType => String::from_str("bin"),
            ValType::BoolType => String::from_str("bool"),
        }
    }
}

impl core::str::FromStr for ValType {
    type Err = UnknownValType;

    fn from_str(s: &str) -> (res: Result<ValType, UnknownValType>)
        ensures
            match spec_val_type_of(s@) {
                Some(t) => res == Ok::<ValType, UnknownValType>(t),
                None => res == Err::<ValType, UnknownValType>(UnknownValType),
            },
    {
        ValType::parse(s)
    }
}

/// A type read back from its own name is the same type.
pub proof fn lemma_val_type_name_round_trip(t: ValType)
    ensures
        spec_val_type_of(val_type_word(t)) == Some(t),
{
    assert(int_word() != str_word() && int_word() != bin_word() && int_word() != bool_word()) by {
        assert(int_word()[0] != str_word()[0]);
        assert(int_word()[0] != bin_word()[0]);
        assert(int_word()[0] != bool_word()[0]);
    }
    assert(str_word() != bin_word() && str_word() != bool_word()) by {
        assert(str_word()[0] != bin_word()[0]);
        assert(str_word()[0] != bool_word()[0]);
    }
    assert(bin_word() != bool_word()) by {
        assert(bin_word().len() != bool_word().len());
    }
}

/// A name that is read as a type is the name of that type.
pub proof fn lemma_val_type_name_unique(s: Seq<char>)
    ensures
        spec_val_type_of(s) matches Some(t) ==> val_type_word(t) == s,
{
}

/// The payload fields given on the command line.
pub struct RequestPayload {
    pub key: Option<String>,
    pub value: Option<String>,
    pub value_type: ValType,
    pub hexstring: bool,
}

/// Where the payload's data item comes from.
pub enum PayloadSource {
    /// It is to be read as hexadecimal CBOR from the input.
    HexInput,
    /// It is this data item.
    Data(CborValue),
}

/// The payload fields name no data item.
#[derive(Debug, Clone, Copy, PartialEq, Eq, Structural)]
pub struct MissingData;

impl MissingData {
    pub fn message(&self) -> (res: String)
        ensures
            res@ == "Missing data in the passed structure"@,
    {
        String::from_str("Missing data in the passed structure")
    }
}

/// The value text can be read as the type: a decimal `i32`, hexadecimal
/// bytes, or `true` or `false`; any text is a string.
pub open spec fn value_readable(t: ValType, v: Seq<char>) -> bool {
    match t {
        ValType::StringType => true,
        ValType::IntType => spec_parse_i32(v) is Ok,
        ValType::BinType => is_hex_text(v),
        ValType::BoolType => spec_parse_bool(v) is Some,
    }
}

/// The data item that a value text stands for as the type.
pub open spec fn typed_value(t: ValType, v: Seq<char>) -> Cbor {
    match t {
        ValType::StringType => Cbor::Text(v),
        ValType::IntType => Cbor::Integer(spec_parse_i32(v)->Ok_0 as int),
        ValType::BinType => Cbor::Bytes(hex_text_bytes(v)),
        ValType::BoolType => Cbor::Bool(spec_parse_bool(v)->Some_0),
    }
}

/// Bytes written in hexadecimal are read back, as a `bin` value, as themselves.
pub proof fn lemma_bin_value_round_trip(b: Seq<u8>)
    ensures
        value_readable(ValType::BinType, crate::text::hex_text_of(b)),
        typed_value(ValType::BinType, crate::text::hex_text_of(b)) == Cbor::Bytes(b),
{
    crate::text::lemma_hex_text_round_trip(b);
}

/// A `bool` value is read only from `true` or `false`, and is true exactly
/// when the text is `true`.
pub proof fn lemma_bool_value_is_the_word(v: Seq<char>)
    ensures
        value_readable(ValType::BoolType, v) <==> (v == seq!['t', 'r', 'u', 'e'] || v == seq!['f', 'a', 'l', 's', 'e']),
        value_readable(ValType::BoolType, v) ==> typed_value(ValType::BoolType, v) == Cbor::Bool(
            v == seq!['t', 'r', 'u', 'e'],
        ),
{
    assert(seq!['t', 'r', 'u', 'e'] != seq!['f', 'a', 'l', 's', 'e']) by {
        assert(seq!['t', 'r', 'u', 'e'].len() != seq!['f', 'a', 'l', 's', 'e'].len());
    }
}

/// Every `i32` written in decimal is read back, as an `int` value, as itself.
pub proof fn lemma_int_payload_round_trip(n: i32)
    ensures
        value_readable(ValType::IntType, crate::text::i32_text(n)),
        typed_value(ValType::IntType, crate::text::i32_text(n)) == Cbor::Integer(n as int),
{
    crate::text::lemma_i32_text_round_trip(n);
}

impl RequestPayload {
    /// The value, where there is one to read, can be read as its type.
    pub open spec fn readable(&self) -> bool {
        !self.hexstring && self.key is Some && self.value is Some ==> value_readable(
            self.value_type,
            self.value->Some_0@,
        )
    }

    /// The data item the payload fields describe: hexadecimal input where
    /// that is asked for, else a map of the key to the typed value.
    pub fn source(&self) -> (res: Result<PayloadSource, MissingData>)
        requires
            self.readable(),
        ensures
            self.hexstring ==> res matches Ok(PayloadSource::HexInput),
            !self.hexstring ==> match (self.key, self.value) {
                (Some(k), Some(v)) => res matches Ok(PayloadSource::Data(d)) && d.model()
                    == Cbor::Mapping(seq![(Cbor::Text(k@), typed_value(self.value_type, v@))]),
                _ => res == Err::<PayloadSource, MissingData>(MissingData),
            },
    {
        if self.hexstring {
            return Ok(PayloadSource::HexInput);
        }
        match (&self.key, &self.value) {
            (Some(k), Some(v)) => {
                let item = match self.value_type {
                    ValType::StringType => CborValue::Text(v.clone()),
                    ValType::IntType => {
                        let n = parse_i32(v.as_str()).unwrap();
                        CborValue::Integer(n as i128)
                    },
                    ValType::BinType => CborValue::Bytes(decode_hex_text(v.as_str())),
                    ValType::BoolType => CborValue::Bool(parse_bool(v.as_str()).unwrap()),
                };
                assert(item.model() == typed_value(self.value_type, v@));
                let key = CborValue::Text(k.clone());
                assert(key.model() == Cbor::Text(k@));
                let mut entries: Vec<(CborValue, CborValue)> = Vec::new();
                entries.push((key, item));
                let d = CborValue::Mapping(entries);
                assert(d.model()->Mapping_0 =~= seq![(Cbor::Text(k@), typed_value(self.value_type, v@))]);
                Ok(PayloadSource::Data(d))
            },
            _ => Err(MissingData),
        }
    }
}

} // verus!
