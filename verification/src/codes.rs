//! The numbers that CoAP gives content formats, options and message classes,
//! as `coap_lite` defines and writes them.

use vstd::prelude::*;

use crate::text::digit_char;

verus! {

/// The content formats this tool sends and reads.
#[derive(Debug, Clone, Copy, PartialEq, Eq, Structural)]
pub enum ContentFormat {
    TextPlain,
    ApplicationCbor,
}

/// The registered number of a content format.
pub open spec fn content_format_code(cf: ContentFormat) -> nat {
    match cf {
        ContentFormat::TextPlain => 0,
        ContentFormat::ApplicationCbor => 60,
    }
}

/// The response classes this tool waits for.
#[derive(Debug, Clone, Copy, PartialEq, Eq, Structural)]
pub enum ResponseKind {
    /// 2.04 Changed
    Changed,
    /// 2.05 Content
    Content,
}

/// The code byte of a response class.
pub open spec fn response_code(r: ResponseKind) -> u8 {
    match r {
        ResponseKind::Changed => 0x44,
        ResponseKind::Content => 0x45,
    }
}

/// The number of the Content-Format option.
pub open spec fn content_format_option() -> u16 {
    12
}

/// A message class written as `coap_lite` writes it: the class digit, a dot
/// and the two-digit detail, as in `2.05`.
pub open spec fn class_text(code: u8) -> Seq<char> {
    let class = code as int / 32;
    let detail = code as int % 32;
    seq![digit_char(class), '.', digit_char(detail / 10), digit_char(detail % 10)]
}

/// `usize::from(coap_lite::ContentFormat)`: the registered number of the
/// content format, 0 for text/plain and 60 for application/cbor, as the
/// `From` impl in `coap_lite`'s `packet.rs` lists them.
#[verifier::external_body]
pub(crate) fn content_format_number(cf: ContentFormat) -> (res: usize)
    ensures
        res == content_format_code(cf),
{
    let format = match cf {
        ContentFormat::TextPlain => coap_lite::ContentFormat::TextPlain,
        ContentFormat::ApplicationCbor => coap_lite::ContentFormat::ApplicationCBOR,
    };
    usize::from(format)
}

/// `u16::from(coap_lite::CoapOption::ContentFormat)`: the option number 12.
#[verifier::external_body]
pub(crate) fn content_format_option_number() -> (res: u16)
    ensures
        res == content_format_option(),
{
    u16::from(coap_lite::CoapOption::ContentFormat)
}

/// `coap_lite::CoapOption::from(number)` compared with `CoapOption::ContentFormat`:
/// `coap_lite` maps the number 12, and no other, to the Content-Format option.
#[verifier::external_body]
pub(crate) fn is_content_format_option(number: u16) -> (res: bool)
    ensures
        res == (number == content_format_option()),
{
    coap_lite::CoapOption::from(number) == coap_lite::CoapOption::ContentFormat
}

/// `u8::from(coap_lite::MessageClass::Response(..))`: the code byte of the
/// response class, 0x44 for Changed and 0x45 for Content.
#[verifier::external_body]
pub(crate) fn response_class_code(r: ResponseKind) -> (res: u8)
    ensures
        res == response_code(r),
{
    let response = match r {
        ResponseKind::Changed => coap_lite::ResponseType::Changed,
        ResponseKind::Content => coap_lite::ResponseType::Content,
    };
    u8::from(coap_lite::MessageClass::Response(response))
}

/// `coap_lite::MessageClass::from(code).to_string()`: `coap_lite` turns the
/// class back into the same code byte and writes `code >> 5`, a dot and
/// `code & 0x1f` with two digits.
#[verifier::external_body]
pub(crate) fn message_class_text(code: u8) -> (res: String)
    ensures
        res@ == class_text(code),
{
    coap_lite::MessageClass::from(code).to_string()
}

} // verus!
