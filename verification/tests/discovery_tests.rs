use home_mng::discovery::{DiscoveryError, ServiceDiscovery, UnprovisionedDiscovery};
use home_mng::net::{select_local_address, IpNetwork};

fn text(s: &str) -> Vec<u8> {
    assert!(s.len() < 24);
    let mut out = vec![0x60 + s.len() as u8];
    out.extend_from_slice(s.as_bytes());
    out
}

fn map_header(n: u8) -> Vec<u8> {
    vec![0xa0 + n]
}

/// {"lamp": {"type": "light"}, "sensor": {"room": "hall"}}
fn two_services() -> Vec<u8> {
    let mut out = map_header(2);
    out.extend(text("lamp"));
    out.extend(map_header(1));
    out.extend(text("type"));
    out.extend(text("light"));
    out.extend(text("sensor"));
    out.extend(map_header(1));
    out.extend(text("room"));
    out.extend(text("hall"));
    out
}

#[test]
fn services_are_gathered_in_order() {
    let mut d: ServiceDiscovery<u32> = ServiceDiscovery::new();
    assert!(d.on_response(0x45, Some(7), &two_services()).is_ok());
    assert_eq!(d.services.len(), 2);
    assert_eq!(d.services[0].name, "lamp");
    assert_eq!(d.services[0].service_type, Some("light".to_string()));
    assert_eq!(d.services[0].address, 7);
    assert_eq!(d.services[1].name, "sensor");
    assert_eq!(d.services[1].service_type, None);
    assert_eq!(d.services[1].address, 7);

    let mut one = map_header(1);
    one.extend(text("door"));
    one.extend(map_header(0));
    assert!(d.on_response(0x45, Some(9), &one).is_ok());
    assert_eq!(d.services.len(), 3);
    assert_eq!(d.services[2].name, "door");
    assert_eq!(d.services[2].address, 9);
}

#[test]
fn answers_without_address_are_passed_over() {
    let mut d: ServiceDiscovery<u32> = ServiceDiscovery::new();
    assert!(d.on_response(0x45, None, &two_services()).is_ok());
    assert!(d.services.is_empty());
}

#[test]
fn answer_of_wrong_class_ends_discovery() {
    let mut d: ServiceDiscovery<u32> = ServiceDiscovery::new();
    match d.on_response(0x84, Some(1), &two_services()) {
        Err(DiscoveryError::UnexpectedResponse(e)) => {
            assert_eq!(e.message, "Expected 2.05 reponse type but received 4.04")
        }
        _ => panic!("accepted"),
    }
    assert!(d.services.is_empty());
}

#[test]
fn malformed_directory_is_reported() {
    let mut d: ServiceDiscovery<u32> = ServiceDiscovery::new();
    assert!(matches!(d.on_response(0x45, Some(1), &[0xff, 0x00]), Err(DiscoveryError::MalformedDirectory)));
    assert!(matches!(d.on_response(0x45, Some(1), &text("lamp")), Err(DiscoveryError::MalformedDirectory)));
    assert!(d.services.is_empty());
}

#[test]
fn unprovisioned_devices_answer_an_empty_map() {
    let mut d: UnprovisionedDiscovery<u32> = UnprovisionedDiscovery::new();
    assert!(d.on_response(0x45, Some(1), &map_header(0)).is_ok());
    assert!(d.on_response(0x45, Some(2), &two_services()).is_ok());
    assert!(d.on_response(0x45, None, &map_header(0)).is_ok());
    assert!(d.on_response(0x45, Some(3), &map_header(0)).is_ok());
    assert_eq!(d.addresses, vec![1, 3]);
    assert!(matches!(d.on_response(0x44, Some(4), &map_header(0)), Err(DiscoveryError::UnexpectedResponse(_))));
    assert!(matches!(d.on_response(0x45, Some(4), &[0x1f]), Err(DiscoveryError::MalformedDirectory)));
    assert_eq!(d.addresses, vec![1, 3]);
}

fn v6(first: u8, prefix: u8) -> IpNetwork {
    let mut octets = [0u8; 16];
    octets[0] = first;
    octets[15] = prefix;
    IpNetwork::V6 { octets, prefix }
}

#[test]
fn local_address_is_global_unicast() {
    let lo = IpNetwork::V4 { bytes: [127, 0, 0, 1], prefix: 8 };
    let link_local = v6(0xfe, 64);
    let global = v6(0x20, 64);
    let host_route = v6(0x20, 128);
    let ifaces = vec![vec![lo, link_local, host_route, global]];
    assert_eq!(select_local_address(&ifaces), Some(match global {
        IpNetwork::V6 { octets, .. } => octets,
        _ => unreachable!(),
    }));
    assert_eq!(select_local_address(&vec![vec![lo, link_local]]), None);
    assert_eq!(select_local_address(&vec![]), None);
}

#[test]
fn local_address_of_the_last_interface_that_has_one() {
    let a = v6(0x20, 48);
    let b = v6(0x3f, 56);
    let c = v6(0x21, 60);
    let octets = |n: IpNetwork| match n {
        IpNetwork::V6 { octets, .. } => octets,
        _ => unreachable!(),
    };
    let ifaces = vec![vec![a], vec![b, c], vec![v6(0xfd, 64)]];
    assert_eq!(select_local_address(&ifaces), Some(octets(b)));
}

#[test]
fn discovery_starts_with_the_search_request() {
    let coap = home_mng::coap::Coap::new();
    let (request, found): (home_mng::coap::Request, ServiceDiscovery<u32>) =
        coap.service_discovery(Some("lamp"), None);
    assert_eq!(request.path, "sd");
    assert_eq!(request.domain, "ff05::1");
    assert!(found.services.is_empty());
    assert!(request.payload.is_some());
    let (request, found): (home_mng::coap::Request, UnprovisionedDiscovery<u32>) =
        coap.not_provisioned_discovery();
    assert!(request.payload.is_none());
    assert!(request.options.is_empty());
    assert!(found.addresses.is_empty());
}

#[test]
fn service_names_of_an_answer_come_ascending() {
    let mut payload = map_header(2);
    payload.extend(text("zeta"));
    payload.extend(map_header(0));
    payload.extend(text("alpha"));
    payload.extend(map_header(0));
    let mut d: ServiceDiscovery<u32> = ServiceDiscovery::new();
    assert!(d.on_response(0x45, Some(1), &payload).is_ok());
    let names: Vec<&str> = d.services.iter().map(|s| s.name.as_str()).collect();
    assert_eq!(names, vec!["alpha", "zeta"]);
}

#[test]
fn unprovisioned_devices_are_the_answers_without_services() {
    let mut with_service = map_header(1);
    with_service.extend(text("lamp"));
    with_service.extend(map_header(0));
    let answers: Vec<(u8, Option<u32>, Vec<u8>)> = vec![
        (0x45, Some(1), map_header(0)),
        (0x45, Some(2), with_service.clone()),
        (0x45, None, with_service),
        (0x45, Some(3), two_services()),
        (0x45, Some(4), map_header(0)),
    ];
    let mut services: ServiceDiscovery<u32> = ServiceDiscovery::new();
    let mut unprovisioned: UnprovisionedDiscovery<u32> = UnprovisionedDiscovery::new();
    let mut silent = Vec::new();
    for (code, address, payload) in answers.iter() {
        let before = services.services.len();
        assert!(services.on_response(*code, *address, payload).is_ok());
        assert!(unprovisioned.on_response(*code, *address, payload).is_ok());
        if let Some(a) = address {
            if services.services.len() == before {
                silent.push(*a);
            }
        }
    }
    assert_eq!(unprovisioned.addresses, silent);
    assert_eq!(unprovisioned.addresses, vec![1, 4]);
}
