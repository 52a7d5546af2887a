use home_mng::cbor::CborValue;
use home_mng::coap::{Body, Coap, Content, Method, Request};
use home_mng::codes::ContentFormat;
use home_mng::value::Value;

fn cbor_of(body: &Option<Body>) -> &CborValue {
    match body {
        Some(Body::Cbor(v)) => v,
        _ => panic!("not a CBOR body"),
    }
}

fn bytes_of(body: &Option<Body>) -> &Vec<u8> {
    match body {
        Some(Body::Bytes(b)) => b,
        _ => panic!("not a byte body"),
    }
}

fn text_of(v: &CborValue) -> &str {
    match v {
        CborValue::Text(s) => s.as_str(),
        _ => panic!("not a text"),
    }
}

fn check_post(r: &Request, addr: &str, path: &str, format: u8) {
    assert!(r.method == Method::Post);
    assert_eq!(r.domain, addr);
    assert_eq!(r.path, path);
    assert!(r.confirmable);
    assert!(r.token.is_none());
    assert_eq!(r.options, vec![(12u16, vec![format])]);
}

#[test]
fn new_client() {
    let _coap = Coap::new();
}

#[test]
fn provision_posts_key_and_value() {
    let coap = Coap::new();
    let value = Value(CborValue::Integer(5));
    let exchange = coap.provision("fd00::1", "channel", &value);
    check_post(&exchange.request, "fd00::1", "prov", 60);
    assert_eq!(exchange.expected, 0x44);
    match cbor_of(&exchange.request.payload) {
        CborValue::Mapping(entries) => {
            assert_eq!(entries.len(), 1);
            assert_eq!(text_of(&entries[0].0), "channel");
            assert!(matches!(entries[0].1, CborValue::Integer(5)));
        }
        _ => panic!("not a map"),
    }
}

#[test]
fn reset_provisioning_posts_empty_text() {
    let coap = Coap::new();
    let exchange = coap.reset_provisioning("fd00::2", "pan_id");
    check_post(&exchange.request, "fd00::2", "prov", 60);
    assert_eq!(exchange.expected, 0x44);
    match cbor_of(&exchange.request.payload) {
        CborValue::Mapping(entries) => {
            assert_eq!(entries.len(), 1);
            assert_eq!(text_of(&entries[0].0), "pan_id");
            assert_eq!(text_of(&entries[0].1), "");
        }
        _ => panic!("not a map"),
    }
}

#[test]
fn set_posts_the_value() {
    let coap = Coap::new();
    let value = Value(CborValue::Bool(true));
    let exchange = coap.set("fd00::3", "light", &value);
    check_post(&exchange.request, "fd00::3", "light", 60);
    assert_eq!(exchange.expected, 0x44);
    assert!(matches!(cbor_of(&exchange.request.payload), CborValue::Bool(true)));
}

#[test]
fn fota_req_posts_the_url_as_text() {
    let coap = Coap::new();
    let exchange = coap.fota_req("fd00::4", "[2001:db8::1]");
    check_post(&exchange.request, "fd00::4", "fota_req", 0);
    assert_eq!(exchange.expected, 0x44);
    assert_eq!(bytes_of(&exchange.request.payload), &b"coap://[2001:db8::1]/fota".to_vec());
}

#[test]
fn set_content_format_replaces_options() {
    let request = Request {
        method: Method::Get,
        path: "x".to_string(),
        domain: "d".to_string(),
        confirmable: false,
        token: None,
        options: vec![(3, vec![1, 2])],
        payload: None,
    };
    let r = Coap::set_content_format(request, Some(ContentFormat::TextPlain));
    assert_eq!(r.options, vec![(12u16, vec![0u8])]);
    let r = Coap::set_content_format(r, None);
    assert_eq!(r.options, vec![(12u16, vec![0u8])]);
    let r = Coap::set_content_format(r, Some(ContentFormat::ApplicationCbor));
    assert_eq!(r.options, vec![(12u16, vec![60u8])]);
}

#[test]
fn search_without_filter() {
    let r = Coap::init_search_services(None, None);
    assert!(r.method == Method::Get);
    assert_eq!(r.path, "sd");
    assert_eq!(r.domain, "ff05::1");
    assert!(!r.confirmable);
    assert_eq!(r.token, Some(vec![0, 1, 2, 3]));
    assert!(r.options.is_empty());
    assert!(r.payload.is_none());
}

#[test]
fn search_with_name_filter() {
    let r = Coap::init_search_services(Some("lamp"), None);
    assert_eq!(r.options, vec![(12u16, vec![60u8])]);
    let expected: Vec<u8> = vec![0xa1, 0x64, b'n', b'a', b'm', b'e', 0x64, b'l', b'a', b'm', b'p'];
    assert_eq!(bytes_of(&r.payload), &expected);
}

#[test]
fn search_with_name_and_type_filter() {
    let r = Coap::init_search_services(Some("a"), Some("b"));
    let expected: Vec<u8> = vec![
        0xa2, 0x64, b'n', b'a', b'm', b'e', 0x61, b'a', 0x64, b't', b'y', b'p', b'e', 0x61, b'b',
    ];
    assert_eq!(bytes_of(&r.payload), &expected);
    let only_type = Coap::init_search_services(None, Some("light"));
    let expected: Vec<u8> = vec![0xa1, 0x64, b't', b'y', b'p', b'e', 0x65, b'l', b'i', b'g', b'h', b't'];
    assert_eq!(bytes_of(&only_type.payload), &expected);
}

#[test]
fn search_filter_pairs() {
    assert_eq!(
        Coap::search_filter(Some("n"), Some("t")),
        vec![("name".to_string(), "n".to_string()), ("type".to_string(), "t".to_string())]
    );
    assert!(Coap::search_filter(None, None).is_empty());
}

#[test]
fn get_url_brackets_the_address() {
    let coap = Coap::new();
    assert_eq!(coap.get("fd00::5", "temp"), "coap://[fd00::5]/temp");
}

#[test]
fn content_format_of_answers() {
    assert!(matches!(Coap::content_format_of(&vec![]), Ok(None)));
    assert!(matches!(Coap::content_format_of(&vec![(11, vec![b"x".to_vec()])]), Ok(None)));
    assert!(matches!(
        Coap::content_format_of(&vec![(12, vec![vec![]])]),
        Ok(Some(ContentFormat::TextPlain))
    ));
    assert!(matches!(
        Coap::content_format_of(&vec![(3, vec![vec![1]]), (12, vec![vec![60]])]),
        Ok(Some(ContentFormat::ApplicationCbor))
    ));
    assert!(matches!(Coap::content_format_of(&vec![(12, vec![]), (14, vec![vec![1]])]), Ok(None)));
    match Coap::content_format_of(&vec![(12, vec![vec![50]])]) {
        Err(e) => assert_eq!(e.message, "Unexpected content format: 50"),
        _ => panic!("accepted"),
    }
    match Coap::content_format_of(&vec![(12, vec![vec![0]])]) {
        Err(e) => assert_eq!(e.message, "Unexpected content format: 0"),
        _ => panic!("accepted"),
    }
    match Coap::content_format_of(&vec![(12, vec![vec![1, 2]])]) {
        Err(e) => assert_eq!(e.message, "Content format too long"),
        _ => panic!("accepted"),
    }
}

#[test]
fn response_type_check() {
    assert!(Coap::response_type_is_expected(0x44, 0x44).is_ok());
    match Coap::response_type_is_expected(0x45, 0x44) {
        Err(e) => assert_eq!(e.message, "Expected 2.04 reponse type but received 2.05"),
        Ok(()) => panic!("accepted"),
    }
    match Coap::response_type_is_expected(0x84, 0x45) {
        Err(e) => assert_eq!(e.message, "Expected 2.05 reponse type but received 4.04"),
        Ok(()) => panic!("accepted"),
    }
    match Coap::response_type_is_expected(0xa0, 0x44) {
        Err(e) => assert_eq!(e.message, "Expected 2.04 reponse type but received 5.00"),
        Ok(()) => panic!("accepted"),
    }
}

#[test]
fn plain_text_content() {
    match Content::plain_text("21.5 °C".as_bytes()) {
        Content::PlainText(s) => assert_eq!(s, "21.5 °C"),
        _ => panic!("not text"),
    }
}
