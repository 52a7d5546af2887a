//! The requests this tool sends to devices over CoAP, and how it reads the
//! answers. Sending and receiving is left to the caller; this module decides
//! what goes into each request and what an answer means.

use vstd::prelude::*;
use vstd::string::*;

use crate::cbor::{cbor_text_map, encode_text_map, keys_ascending, text_less, text_pairs, Cbor, CborValue};
use crate::codes::{
    class_text, content_format_code, content_format_number, content_format_option,
    content_format_option_number, is_content_format_option, message_class_text,
    response_class_code, response_code, ContentFormat, ResponseKind,
};
use crate::text::{decimal_text, u8_decimal, utf8_text};
use crate::value::Value;

verus! {

/// The request methods this tool uses.
#[derive(Debug, Clone, Copy, PartialEq, Eq, Structural)]
pub enum Method {
    Get,
    Post,
}

/// The payload of a request: bytes as they are, or a data item that is sent
/// in its CBOR encoding.
pub enum Body {
    Bytes(Vec<u8>),
    Cbor(CborValue),
}

pub enum BodyModel {
    Bytes(Seq<u8>),
    Cbor(Cbor),
}

impl Body {
    pub open spec fn model(&self) -> BodyModel {
        match self {
            Body::Bytes(b) => BodyModel::Bytes(b@),
            Body::Cbor(v) => BodyModel::Cbor(v.model()),
        }
    }
}

/// A CoAP request: its method, the path of the resource, the host it is
/// sent to, whether it is confirmable, its token, its options (by number)
/// and its payload.
pub struct Request {
    pub method: Method,
    pub path: String,
    pub domain: String,
    pub confirmable: bool,
    pub token: Option<Vec<u8>>,
    pub options: Vec<(u16, Vec<u8>)>,
    pub payload: Option<Body>,
}

pub struct RequestModel {
    pub method: Method,
    pub path: Seq<char>,
    pub domain: Seq<char>,
    pub confirmable: bool,
    pub token: Option<Seq<u8>>,
    pub options: Seq<(u16, Seq<u8>)>,
    pub payload: Option<BodyModel>,
}

pub open spec fn options_model(options: Seq<(u16, Vec<u8>)>) -> Seq<(u16, Seq<u8>)> {
    Seq::new(options.len(), |i: int| (options[i].0, options[i].1@))
}

impl View for Request {
    type V = RequestModel;

    open spec fn view(&self) -> RequestModel {
        RequestModel {
            method: self.method,
            path: self.path@,
            domain: self.domain@,
            confirmable: self.confirmable,
            token: match self.token {
                Some(t) => Some(t@),
                None => None,
            },
            options: options_model(self.options@),
            payload: match self.payload {
                Some(b) => Some(b.model()),
                None => None,
            },
        }
    }
}

/// A request and the response class the device must answer it with.
pub struct Exchange {
    pub request: Request,
    pub expected: u8,
}

/// The answer is not what was asked for. Its kind is always that the data
/// received is invalid.
pub struct CoapError {
    pub message: String,
}

/// What a device answered to a read.
pub enum Content {
    PlainText(String),
    Cbor(CborValue),
}

/// The options that state a content format: the Content-Format option with
/// the format's number in one byte, or none.
pub open spec fn content_format_options(cf: Option<ContentFormat>) -> Seq<(u16, Seq<u8>)> {
    match cf {
        Some(c) => seq![(content_format_option(), seq![content_format_code(c) as u8])],
        None => Seq::empty(),
    }
}

/// A confirmable POST to the resource `path` on the host `addr`.
pub open spec fn spec_post(
    addr: Seq<char>,
    path: Seq<char>,
    cf: Option<ContentFormat>,
    payload: Option<BodyModel>,
) -> RequestModel {
    RequestModel {
        method: Method::Post,
        path: path,
        domain: addr,
        confirmable: true,
        token: None,
        options: content_format_options(cf),
        payload: payload,
    }
}

/// The pairs of the service search filter: the name, then the type, each
/// where it is given.
pub open spec fn search_filter_model(name: Option<Seq<char>>, kind: Option<Seq<char>>) -> Seq<(Seq<char>, Seq<char>)> {
    (match name {
        Some(n) => seq![("name"@, n)],
        None => Seq::empty(),
    }) + (match kind {
        Some(t) => seq![("type"@, t)],
        None => Seq::empty(),
    })
}

/// The service search: a non-confirmable GET of `sd` on the group `ff05::1`
/// with the token 0, 1, 2, 3, carrying the filter in CBOR where there is one.
pub open spec fn spec_search(filter: Option<Seq<u8>>) -> RequestModel {
    RequestModel {
        method: Method::Get,
        path: "sd"@,
        domain: "ff05::1"@,
        confirmable: false,
        token: Some(seq![0u8, 1u8, 2u8, 3u8]),
        options: match filter {
            Some(_) => content_format_options(Some(ContentFormat::ApplicationCbor)),
            None => Seq::empty(),
        },
        payload: match filter {
            Some(f) => Some(BodyModel::Bytes(f)),
            None => None,
        },
    }
}

pub open spec fn opt_view(s: Option<&str>) -> Option<Seq<char>> {
    match s {
        Some(x) => Some(x@),
        None => None,
    }
}

/// What a Content-Format option value says: an empty value is text, the
/// one byte 60 is CBOR, another single byte and a longer value are errors.
pub open spec fn format_of_value(v: Seq<u8>) -> Result<Option<ContentFormat>, Seq<char>> {
    if v.len() == 0 {
        Ok(Some(ContentFormat::TextPlain))
    } else if v.len() == 1 && v[0] == 60 {
        Ok(Some(ContentFormat::ApplicationCbor))
    } else if v.len() == 1 {
        Err("Unexpected content format: "@ + decimal_text(v[0] as nat))
    } else {
        Err("Content format too long"@)
    }
}

/// The content format of an answer: what the first value of the first
/// Content-Format option that has one says, or none.
pub open spec fn spec_content_format_of(options: Seq<(u16, Seq<Seq<u8>>)>) -> Result<Option<ContentFormat>, Seq<char>>
    decreases options.len(),
{
    if options.len() == 0 {
        Ok(None)
    } else if options[0].0 == content_format_option() && options[0].1.len() > 0 {
        format_of_value(options[0].1[0])
    } else {
        spec_content_format_of(options.drop_first())
    }
}

/// An option states a content format: it is the Content-Format option and
/// carries a value.
pub open spec fn states_format(o: (u16, Seq<Seq<u8>>)) -> bool {
    o.0 == content_format_option() && o.1.len() > 0
}

/// The format of an answer does not depend on its other options: an option
/// that is not the Content-Format option, added anywhere, changes nothing.
pub proof fn lemma_other_options_do_not_matter(
    before: Seq<(u16, Seq<Seq<u8>>)>,
    other: (u16, Seq<Seq<u8>>),
    after: Seq<(u16, Seq<Seq<u8>>)>,
)
    requires
        other.0 != content_format_option(),
    ensures
        spec_content_format_of(before + seq![other] + after) == spec_content_format_of(before + after),
    decreases before.len(),
{
    if before.len() == 0 {
        assert(before + seq![other] + after =~= seq![other] + after);
        assert((seq![other] + after).drop_first() =~= after);
        assert(before + after =~= after);
    } else {
        lemma_other_options_do_not_matter(before.drop_first(), other, after);
        assert((before + seq![other] + after).drop_first() =~= before.drop_first() + seq![other] + after);
        assert((before + after).drop_first() =~= before.drop_first() + after);
        assert((before + seq![other] + after)[0] == before[0]);
        assert((before + after)[0] == before[0]);
    }
}

/// An answer states no format exactly when none of its options states one;
/// otherwise its format is what the first value of the first option that
/// states one says.
pub proof fn lemma_format_is_the_first_stated(options: Seq<(u16, Seq<Seq<u8>>)>)
    ensures
        (forall|i: int| 0 <= i < options.len() ==> !#[trigger] states_format(options[i])) ==> spec_content_format_of(options)
            == Ok::<Option<ContentFormat>, Seq<char>>(None),
        forall|i: int| 0 <= i < options.len() && #[trigger] states_format(options[i]) && (forall|k: int| 0 <= k < i ==> !states_format(
            options[k],
        )) ==> spec_content_format_of(options) == format_of_value(options[i].1[0]),
    decreases options.len(),
{
    if options.len() > 0 {
        let rest = options.drop_first();
        lemma_format_is_the_first_stated(rest);
        if forall|i: int| 0 <= i < options.len() ==> !#[trigger] states_format(options[i]) {
            assert(!states_format(options[0]));
            assert forall|i: int| 0 <= i < rest.len() implies !#[trigger] states_format(rest[i]) by {
                assert(rest[i] == options[i + 1]);
            }
        }
        assert forall|i: int| 0 <= i < options.len() && #[trigger] states_format(options[i]) && (forall|k: int| 0 <= k < i ==> !states_format(
            options[k],
        )) implies spec_content_format_of(options) == format_of_value(options[i].1[0]) by {
            if i > 0 {
                assert(!states_format(options[0]));
                assert(rest[i - 1] == options[i]);
                assert forall|k: int| 0 <= k < i - 1 implies !states_format(rest[k]) by {
                    assert(rest[k] == options[k + 1]);
                }
            }
        }
    }
}

pub open spec fn response_options_model(options: Seq<(u16, Vec<Vec<u8>>)>) -> Seq<(u16, Seq<Seq<u8>>)> {
    Seq::new(options.len(), |i: int| (options[i].0, Seq::new(options[i].1@.len(), |j: int| options[i].1@[j]@)))
}

/// The text of the error for an answer of the wrong class.
pub open spec fn unexpected_class_message(received: u8, expected: u8) -> Seq<char> {
    "Expected "@ + class_text(expected) + " reponse type but received "@ + class_text(received)
}

/// The CoAP client of the tool.
pub struct Coap {}

impl Coap {
    pub fn new() -> (res: Self)
        ensures
            res == (Coap {}),
    {
        Coap {}
    }

    /// Sets the content format of a request: the Content-Format option, with
    /// the format's number, becomes its only option; without a format the
    /// request is left as it is.
    pub fn set_content_format(request: Request, content_format: Option<ContentFormat>) -> (res: Request)
        ensures
            content_format is Some ==> res@ == (RequestModel {
                options: content_format_options(content_format),
                ..request@
            }),
            content_format is None ==> res@ == request@,
    {
        match content_format {
            Some(cf) => {
                let number = content_format_number(cf);
                let mut value: Vec<u8> = Vec::new();
                value.push(number as u8);
                let mut options: Vec<(u16, Vec<u8>)> = Vec::new();
                options.push((content_format_option_number(), value));
                let res = Request { options: options, ..request };
                assert(options_model(res.options@) =~= content_format_options(content_format));
                res
            },
            None => request,
        }
    }

    /// A confirmable POST to `resource` on `addr`.
    fn post(addr: &str, resource: &str, content_format: Option<ContentFormat>, payload: Option<Body>) -> (res: Request)
        ensures
            res@ == spec_post(
                addr@,
                resource@,
                content_format,
                match payload {
                    Some(b) => Some(b.model()),
                    None => None,
                },
            ),
    {
        let request = Request {
            method: Method::Post,
            path: String::from_str(resource),
            domain: String::from_str(addr),
            confirmable: true,
            token: None,
            options: Vec::new(),
            payload: payload,
        };
        assert(options_model(request.options@) =~= Seq::<(u16, Seq<u8>)>::empty());
        Coap::set_content_format(request, content_format)
    }

    /// A provisioning POST: the map from `key` to `value`, in CBOR, to `prov`.
    fn post_provisioning(addr: &str, key: &str, value: CborValue) -> (res: Exchange)
        ensures
            res.request@ == spec_post(
                addr@,
                "prov"@,
                Some(ContentFormat::ApplicationCbor),
                Some(BodyModel::Cbor(Cbor::Mapping(seq![(Cbor::Text(key@), value.model())]))),
            ),
            res.expected == response_code(ResponseKind::Changed),
    {
        let ghost value_model = value.model();
        let mut tree: Vec<(CborValue, CborValue)> = Vec::new();
        let k = CborValue::Text(String::from_str(key));
        assert(k.model() == Cbor::Text(key@));
        tree.push((k, value));
        assert(tree@[0].0.model() == Cbor::Text(key@));
        assert(tree@[0].1.model() == value_model);
        let body = CborValue::Mapping(tree);
        assert(body.model()->Mapping_0 =~= seq![(Cbor::Text(key@), value_model)]);
        let request = Coap::post(addr, "prov", Some(ContentFormat::ApplicationCbor), Some(Body::Cbor(body)));
        Exchange { request, expected: response_class_code(ResponseKind::Changed) }
    }

    /// Provisions the device at `addr`: sets `key` to `value`.
    pub fn provision(&self, addr: &str, key: &str, value: &Value) -> (res: Exchange)
        ensures
            res.request@ == spec_post(
                addr@,
                "prov"@,
                Some(ContentFormat::ApplicationCbor),
                Some(BodyModel::Cbor(Cbor::Mapping(seq![(Cbor::Text(key@), value@)]))),
            ),
            res.expected == response_code(ResponseKind::Changed),
    {
        Coap::post_provisioning(addr, key, value.0.duplicate())
    }

    /// Resets the provisioning of `key` on the device at `addr`: sets it to
    /// the empty text.
    pub fn reset_provisioning(&self, addr: &str, key: &str) -> (res: Exchange)
        ensures
            res.request@ == spec_post(
                addr@,
                "prov"@,
                Some(ContentFormat::ApplicationCbor),
                Some(BodyModel::Cbor(Cbor::Mapping(seq![(Cbor::Text(key@), Cbor::Text(Seq::empty()))]))),
            ),
            res.expected == response_code(ResponseKind::Changed),
    {
        let reset_value = CborValue::Text(String::new());
        Coap::post_provisioning(addr, key, reset_value)
    }

    /// Writes `payload_map`, in CBOR, to `resource` on the device at `addr`.
    pub fn set(&self, addr: &str, resource: &str, payload_map: &Value) -> (res: Exchange)
        ensures
            res.request@ == spec_post(
                addr@,
                resource@,
                Some(ContentFormat::ApplicationCbor),
                Some(BodyModel::Cbor(payload_map@)),
            ),
            res.expected == response_code(ResponseKind::Changed),
    {
        let request = Coap::post(
            addr,
            resource,
            Some(ContentFormat::ApplicationCbor),
            Some(Body::Cbor(payload_map.0.duplicate())),
        );
        Exchange { request, expected: response_class_code(ResponseKind::Changed) }
    }

    /// Asks the device at `rmt_addr` to fetch a firmware update from
    /// `coap://{local_addr}/fota`.
    pub fn fota_req(&self, rmt_addr: &str, local_addr: &str) -> (res: Exchange)
        ensures
            res.request@ == spec_post(
                rmt_addr@,
                "fota_req"@,
                Some(ContentFormat::TextPlain),
                Some(BodyModel::Bytes(vstd::utf8::encode_utf8("coap://"@ + local_addr@ + "/fota"@))),
            ),
            res.expected == response_code(ResponseKind::Changed),
    {
        let mut payload = String::from_str("coap://");
        payload.append(local_addr);
        payload.append("/fota");
        let bytes = payload.as_str().as_bytes_vec();
        let request = Coap::post(rmt_addr, "fota_req", Some(ContentFormat::TextPlain), Some(Body::Bytes(bytes)));
        Exchange { request, expected: response_class_code(ResponseKind::Changed) }
    }
}

impl Coap {
    /// The pairs of the service search filter.
    pub fn search_filter(srv_name: Option<&str>, srv_type: Option<&str>) -> (res: Vec<(String, String)>)
        ensures
            text_pairs(res@) == search_filter_model(opt_view(srv_name), opt_view(srv_type)),
    {
        let mut data: Vec<(String, String)> = Vec::new();
        if let Some(n) = srv_name {
            data.push((String::from_str("name"), String::from_str(n)));
        }
        if let Some(t) = srv_type {
            data.push((String::from_str("type"), String::from_str(t)));
        }
        assert(text_pairs(data@) =~= search_filter_model(opt_view(srv_name), opt_view(srv_type)));
        data
    }

    /// The service search request, carrying the filter already encoded, if
    /// there is one.
    pub fn search_request(filter: Option<Vec<u8>>) -> (res: Request)
        ensures
            res@ == spec_search(
                match filter {
                    Some(f) => Some(f@),
                    None => None,
                },
            ),
    {
        let mut token: Vec<u8> = Vec::new();
        token.push(0);
        token.push(1);
        token.push(2);
        token.push(3);
        assert(token@ =~= seq![0u8, 1u8, 2u8, 3u8]);
        let request = Request {
            method: Method::Get,
            path: String::from_str("sd"),
            domain: String::from_str("ff05::1"),
            confirmable: false,
            token: Some(token),
            options: Vec::new(),
            payload: None,
        };
        assert(options_model(request.options@) =~= Seq::<(u16, Seq<u8>)>::empty());
        match filter {
            Some(f) => {
                let request = Coap::set_content_format(request, Some(ContentFormat::ApplicationCbor));
                Request { payload: Some(Body::Bytes(f)), ..request }
            },
            None => request,
        }
    }

    /// The request that searches for services, by name and type where they
    /// are given; the filter goes out as a CBOR map from text to text.
    pub fn init_search_services(srv_name: Option<&str>, srv_type: Option<&str>) -> (res: Request)
        ensures
            res@ == spec_search(
                if srv_name is Some || srv_type is Some {
                    Some(cbor_text_map(search_filter_model(opt_view(srv_name), opt_view(srv_type))))
                } else {
                    None
                },
            ),
    {
        if srv_name.is_some() || srv_type.is_some() {
            let data = Coap::search_filter(srv_name, srv_type);
            proof {
                reveal_strlit("name");
                reveal_strlit("type");
                let pairs = search_filter_model(opt_view(srv_name), opt_view(srv_type));
                assert(text_less("name"@, "type"@));
                assert(keys_ascending(pairs));
            }
            let payload = encode_text_map(&data);
            Coap::search_request(Some(payload))
        } else {
            Coap::search_request(None)
        }
    }

    /// The URL that a read of `resource` on the device at the IPv6 address
    /// `addr` goes to; the answer is read with `content_format_of`.
    pub fn get(&self, addr: &str, resource: &str) -> (res: String)
        ensures
            res@ == "coap://["@ + addr@ + "]/"@ + resource@,
    {
        let mut url = String::from_str("coap://[");
        url.append(addr);
        url.append("]/");
        url.append(resource);
        url
    }

    /// What a Content-Format option value says of the payload.
    fn format_of_value(v: &Vec<u8>) -> (res: Result<Option<ContentFormat>, CoapError>)
        ensures
            match format_of_value(v@) {
                Ok(f) => res matches Ok(r) && r == f,
                Err(m) => res matches Err(e) && e.message@ == m,
            },
    {
        if v.len() == 0 {
            Ok(Some(ContentFormat::TextPlain))
        } else if v.len() == 1 && v[0] == 60 {
            Ok(Some(ContentFormat::ApplicationCbor))
        } else if v.len() == 1 {
            let mut message = String::from_str("Unexpected content format: ");
            let number = u8_decimal(v[0]);
            message.append(number.as_str());
            Err(CoapError { message })
        } else {
            Err(CoapError { message: String::from_str("Content format too long") })
        }
    }

    /// The content format of an answer with these options (by number, each
    /// with its values): what the first value of the Content-Format option
    /// says, or none where the answer states no format.
    pub fn content_format_of(options: &Vec<(u16, Vec<Vec<u8>>)>) -> (res: Result<Option<ContentFormat>, CoapError>)
        ensures
            match spec_content_format_of(response_options_model(options@)) {
                Ok(f) => res matches Ok(r) && r == f,
                Err(m) => res matches Err(e) && e.message@ == m,
            },
    {
        let ghost all = response_options_model(options@);
        let mut i: usize = 0;
        assert(all.skip(0) =~= all);
        while i < options.len()
            invariant
                i <= options@.len(),
                all == response_options_model(options@),
                spec_content_format_of(all) == spec_content_format_of(all.skip(i as int)),
            decreases options@.len() - i,
        {
            assert(all.skip(i as int)[0] == all[i as int]);
            let (number, values) = &options[i];
            if is_content_format_option(*number) && values.len() > 0 {
                assert(all[i as int].1[0] == values@[0]@);
                return Coap::format_of_value(&values[0]);
            }
            assert(all.skip(i as int).drop_first() =~= all.skip(i + 1));
            i = i + 1;
        }
        assert(all.skip(i as int).len() == 0);
        Ok(None)
    }

    /// Checks that an answer is of the class that was asked for.
    pub fn response_type_is_expected(received: u8, expected: u8) -> (res: Result<(), CoapError>)
        ensures
            received == expected ==> res is Ok,
            received != expected ==> (res matches Err(e) && e.message@ == unexpected_class_message(received, expected)),
    {
        if received == expected {
            Ok(())
        } else {
            let mut message = String::from_str("Expected ");
            let expected_text = message_class_text(expected);
            message.append(expected_text.as_str());
            message.append(" reponse type but received ");
            let received_text = message_class_text(received);
            message.append(received_text.as_str());
            Err(CoapError { message })
        }
    }
}

impl Content {
    /// A text answer: the payload read as UTF-8.
    pub fn plain_text(payload: &[u8]) -> (res: Content)
        requires
            vstd::utf8::valid_utf8(payload@),
        ensures
            res matches Content::PlainText(s) && s@ == vstd::utf8::decode_utf8(payload@),
    {
        Content::PlainText(utf8_text(payload).unwrap())
    }
}

} // verus!
