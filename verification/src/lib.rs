//! Home-automation management over CoAP: the values a user hands the tool,
//! the requests it sends to devices, and how it reads their answers.

pub mod text;
pub mod cbor;
pub mod value;
pub mod payload;
pub mod codes;
pub mod coap;
pub mod discovery;
pub mod net;
