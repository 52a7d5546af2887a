//! Service discovery: the answers that devices send to a multicast search,
//! gathered one at a time. The caller receives the answers and stops at the
//! first silence; each answer goes through `on_response`.
//!
//! A device answers with a CBOR map from the names of its services to maps
//! of their details; a device that is not yet provisioned answers with an
//! empty map.

use vstd::prelude::*;
use vstd::string::*;

use crate::cbor::{
    cbor_service_directory, cbor_text_map, decode_service_directory, directory_view, keys_ascending,
};
use crate::coap::{
    opt_view, search_filter_model, spec_search, unexpected_class_message, Coap, CoapError, Request,
};
use crate::codes::{response_class_code, response_code, ResponseKind};
use crate::value::str_equal;

verus! {

/// A service found on a device: its name, its type where it has one, and
/// the address of the device.
pub struct Service<A> {
    pub name: String,
    pub service_type: Option<String>,
    pub address: A,
}

pub open spec fn service_model<A>(s: Service<A>) -> (Seq<char>, Option<Seq<char>>, A) {
    (
        s.name@,
        match s.service_type {
            Some(t) => Some(t@),
            None => None,
        },
        s.address,
    )
}

pub open spec fn services_model<A>(v: Seq<Service<A>>) -> Seq<(Seq<char>, Option<Seq<char>>, A)> {
    Seq::new(v.len(), |i: int| service_model(v[i]))
}

/// The value of the first detail named `type`.
pub open spec fn lookup_type(details: Seq<(Seq<char>, Seq<char>)>) -> Option<Seq<char>>
    decreases details.len(),
{
    if details.len() == 0 {
        None
    } else if details[0].0 == "type"@ {
        Some(details[0].1)
    } else {
        lookup_type(details.drop_first())
    }
}

/// The type found among a service's details is a detail named `type`, and
/// where the details hold one, a type is found; where the detail names are
/// distinct, the type found is the value of that detail, wherever it stands.
pub proof fn lemma_type_is_the_type_detail(details: Seq<(Seq<char>, Seq<char>)>)
    ensures
        lookup_type(details) matches Some(v) ==> exists|i: int| 0 <= i < details.len() && details[i] == ("type"@, v),
        (exists|i: int| 0 <= i < details.len() && details[i].0 == "type"@) ==> lookup_type(details) is Some,
        (forall|i: int, j: int| 0 <= i < j < details.len() ==> details[i].0 != details[j].0) ==> forall|i: int|
            0 <= i < details.len() && details[i].0 == "type"@ ==> lookup_type(details) == Some(details[i].1),
    decreases details.len(),
{
    if details.len() > 0 {
        let rest = details.drop_first();
        lemma_type_is_the_type_detail(rest);
        if let Some(v) = lookup_type(details) {
            if details[0].0 != "type"@ {
                let k = choose|k: int| 0 <= k < rest.len() && rest[k] == ("type"@, v);
                assert(details[k + 1] == rest[k]);
            }
        }
        if exists|i: int| 0 <= i < details.len() && details[i].0 == "type"@ {
            if details[0].0 != "type"@ {
                let i = choose|i: int| 0 <= i < details.len() && details[i].0 == "type"@;
                assert(rest[i - 1] == details[i]);
            }
        }
        if forall|i: int, j: int| 0 <= i < j < details.len() ==> details[i].0 != details[j].0 {
            assert forall|i: int, j: int| 0 <= i < j < rest.len() implies rest[i].0 != rest[j].0 by {
                assert(rest[i] == details[i + 1] && rest[j] == details[j + 1]);
            }
            assert forall|i: int| 0 <= i < details.len() && details[i].0 == "type"@ implies lookup_type(details)
                == Some(details[i].1) by {
                if i > 0 {
                    assert(details[0].0 != details[i].0);
                    assert(rest[i - 1] == details[i]);
                }
            }
        }
    }
}

proof fn lemma_text_less_irreflexive(a: Seq<char>)
    ensures
        !crate::cbor::text_less(a, a),
    decreases a.len(),
{
    if a.len() > 0 {
        lemma_text_less_irreflexive(a.drop_first());
    }
}

/// The services that a device at `address` lists, in the order of its answer.
pub open spec fn directory_services<A>(
    directory: Seq<(Seq<char>, Seq<(Seq<char>, Seq<char>)>)>,
    address: A,
) -> Seq<(Seq<char>, Option<Seq<char>>, A)> {
    Seq::new(directory.len(), |i: int| (directory[i].0, lookup_type(directory[i].1), address))
}

/// An answer that the discovery takes in without ending: of the class
/// Content, and, where it comes from a known address, with a payload that is
/// a map from names to maps of text.
pub open spec fn answer_accepted<A>(code: u8, address: Option<A>, payload: Seq<u8>) -> bool {
    &&& code == response_code(ResponseKind::Content)
    &&& address is Some ==> cbor_service_directory(payload) is Some
}

/// Where the details of each service have their names in ascending order, as
/// an answer's are, each service listed has the type `v` exactly when its
/// details hold the detail `type` with the value `v`.
pub proof fn lemma_service_type_is_its_type_detail<A>(
    directory: Seq<(Seq<char>, Seq<(Seq<char>, Seq<char>)>)>,
    address: A,
)
    requires
        forall|i: int| 0 <= i < directory.len() ==> #[trigger] keys_ascending(directory[i].1),
    ensures
        forall|i: int, v: Seq<char>| 0 <= i < directory.len() ==> (directory_services(directory, address)[i].1
            == Some(v) <==> exists|j: int| 0 <= j < directory[i].1.len() && #[trigger] directory[i].1[j] == ("type"@, v)),
{
    assert forall|i: int, v: Seq<char>| 0 <= i < directory.len() implies (directory_services(directory, address)[i].1
        == Some(v) <==> exists|j: int| 0 <= j < directory[i].1.len() && #[trigger] directory[i].1[j] == ("type"@, v)) by {
        let ds = directory[i].1;
        assert(keys_ascending(ds));
        assert forall|p: int, q: int| 0 <= p < q < ds.len() implies ds[p].0 != ds[q].0 by {
            if ds[p].0 == ds[q].0 {
                lemma_text_less_irreflexive(ds[p].0);
            }
        }
        lemma_type_is_the_type_detail(ds);
        if exists|j: int| 0 <= j < ds.len() && ds[j] == ("type"@, v) {
            let j = choose|j: int| 0 <= j < ds.len() && ds[j] == ("type"@, v);
            assert(ds[j].0 == "type"@);
        }
    }
}

/// The services that an accepted answer adds to the list.
pub open spec fn answer_services<A>(address: Option<A>, payload: Seq<u8>) -> Seq<(Seq<char>, Option<Seq<char>>, A)> {
    match address {
        Some(a) => match cbor_service_directory(payload) {
            Some(d) => directory_services(d, a),
            None => Seq::empty(),
        },
        None => Seq::empty(),
    }
}

/// The address that an accepted answer adds to the list of devices that
/// are not provisioned: its own, where it lists no service.
pub open spec fn answer_unprovisioned<A>(address: Option<A>, payload: Seq<u8>) -> Seq<A> {
    match address {
        Some(a) => match cbor_service_directory(payload) {
            Some(d) => if d.len() == 0 {
                seq![a]
            } else {
                Seq::empty()
            },
            None => Seq::empty(),
        },
        None => Seq::empty(),
    }
}

/// The services' names come strictly ascending.
pub open spec fn names_ascending<A>(services: Seq<(Seq<char>, Option<Seq<char>>, A)>) -> bool {
    forall|i: int, j: int| 0 <= i < j < services.len() ==> crate::cbor::text_less(services[i].0, services[j].0)
}

/// The services that a search gathers from these answers (class, address,
/// payload), in order, where each answer is accepted.
pub open spec fn gathered_services<A>(answers: Seq<(u8, Option<A>, Seq<u8>)>) -> Seq<(Seq<char>, Option<Seq<char>>, A)>
    decreases answers.len(),
{
    if answers.len() == 0 {
        Seq::empty()
    } else {
        gathered_services(answers.drop_last()) + answer_services(answers.last().1, answers.last().2)
    }
}

/// The devices that are not provisioned that a search gathers from these
/// answers, in order, where each answer is accepted.
pub open spec fn gathered_unprovisioned<A>(answers: Seq<(u8, Option<A>, Seq<u8>)>) -> Seq<A>
    decreases answers.len(),
{
    if answers.len() == 0 {
        Seq::empty()
    } else {
        gathered_unprovisioned(answers.drop_last()) + answer_unprovisioned(answers.last().1, answers.last().2)
    }
}

/// The addresses of the answers that add no service, in order.
pub open spec fn silent_addresses<A>(answers: Seq<(u8, Option<A>, Seq<u8>)>) -> Seq<A>
    decreases answers.len(),
{
    if answers.len() == 0 {
        Seq::empty()
    } else {
        silent_addresses(answers.drop_last()) + match answers.last().1 {
            Some(a) => if answer_services(answers.last().1, answers.last().2).len() == 0 {
                seq![a]
            } else {
                Seq::empty()
            },
            None => Seq::empty(),
        }
    }
}

/// Over the same accepted answers, the devices found not provisioned are,
/// in order, exactly the answers with an address that add no service to the
/// service search; an answer that adds a service adds no such device.
pub proof fn lemma_unprovisioned_are_answers_without_services<A>(answers: Seq<(u8, Option<A>, Seq<u8>)>)
    requires
        forall|i: int| 0 <= i < answers.len() ==> #[trigger] answer_accepted(answers[i].0, answers[i].1, answers[i].2),
    ensures
        gathered_unprovisioned(answers) == silent_addresses(answers),
        forall|i: int| 0 <= i < answers.len() && #[trigger] answer_services(answers[i].1, answers[i].2).len() > 0
            ==> answer_unprovisioned(answers[i].1, answers[i].2).len() == 0,
    decreases answers.len(),
{
    if answers.len() > 0 {
        let rest = answers.drop_last();
        assert forall|i: int| 0 <= i < rest.len() implies #[trigger] answer_accepted(rest[i].0, rest[i].1, rest[i].2) by {
            assert(rest[i] == answers[i]);
        }
        lemma_unprovisioned_are_answers_without_services(rest);
        let last = answers.last();
        assert(answer_accepted(answers[answers.len() - 1].0, answers[answers.len() - 1].1, answers[answers.len() - 1].2));
        assert(answer_unprovisioned(last.1, last.2) == match last.1 {
            Some(a) => if answer_services(last.1, last.2).len() == 0 {
                seq![a]
            } else {
                Seq::<A>::empty()
            },
            None => Seq::<A>::empty(),
        });
    }
}

/// Why an answer ends the discovery.
pub enum DiscoveryError {
    /// The answer is not of the class Content.
    UnexpectedResponse(CoapError),
    /// The payload is no map from names to maps of text.
    MalformedDirectory,
}

/// The value of the detail named `type`, if there is one.
fn find_type(details: &Vec<(String, String)>) -> (res: Option<String>)
    ensures
        match lookup_type(crate::cbor::text_pairs(details@)) {
            Some(t) => res matches Some(r) && r@ == t,
            None => res is None,
        },
{
    let ghost all = crate::cbor::text_pairs(details@);
    let mut i: usize = 0;
    assert(all.skip(0) =~= all);
    while i < details.len()
        invariant
            i <= details@.len(),
            all == crate::cbor::text_pairs(details@),
            lookup_type(all) == lookup_type(all.skip(i as int)),
        decreases details@.len() - i,
    {
        assert(all.skip(i as int)[0] == all[i as int]);
        if str_equal(details[i].0.as_str(), "type") {
            return Some(details[i].1.clone());
        }
        assert(all.skip(i as int).drop_first() =~= all.skip(i + 1));
        i = i + 1;
    }
    None
}

/// The services found so far.
pub struct ServiceDiscovery<A> {
    pub services: Vec<Service<A>>,
}

impl<A: Copy> ServiceDiscovery<A> {
    pub fn new() -> (res: Self)
        ensures
            res.services@.len() == 0,
    {
        ServiceDiscovery { services: Vec::new() }
    }

    /// Adds the services that the device at `address` lists.
    pub fn add_directory(&mut self, address: A, directory: &Vec<(String, Vec<(String, String)>)>)
        ensures
            services_model(final(self).services@) == services_model(old(self).services@)
                + directory_services(directory_view(directory@), address),
    {
        let ghost start = services_model(self.services@);
        let ghost dir = directory_view(directory@);
        let mut i: usize = 0;
        while i < directory.len()
            invariant
                i <= directory@.len(),
                dir == directory_view(directory@),
                services_model(self.services@) =~= start + directory_services(dir, address).take(i as int),
            decreases directory@.len() - i,
        {
            let service = Service {
                name: directory[i].0.clone(),
                service_type: find_type(&directory[i].1),
                address: address,
            };
            assert(dir[i as int].0 == directory@[i as int].0@);
            assert(dir[i as int].1 == crate::cbor::text_pairs(directory@[i as int].1@));
            assert(service_model(service) == directory_services(dir, address)[i as int]);
            let ghost before = self.services@;
            self.services.push(service);
            assert(services_model(self.services@) =~= services_model(before).push(service_model(service)));
            assert(start + directory_services(dir, address).take(i + 1) =~= (start + directory_services(
                dir,
                address,
            ).take(i as int)).push(directory_services(dir, address)[i as int]));
            i = i + 1;
        }
        assert(directory_services(dir, address).take(i as int) =~= directory_services(dir, address));
    }

    /// Takes in one answer to the search: its class, the address it came
    /// from where that is known, and its payload.
    pub fn on_response(&mut self, code: u8, address: Option<A>, payload: &[u8]) -> (res: Result<(), DiscoveryError>)
        ensures
            code != response_code(ResponseKind::Content) ==> (res matches Err(DiscoveryError::UnexpectedResponse(e))
                && e.message@ == unexpected_class_message(code, response_code(ResponseKind::Content))
                && final(self).services@ == old(self).services@),
            code == response_code(ResponseKind::Content) && address is None ==> (res is Ok
                && final(self).services@ == old(self).services@),
            code == response_code(ResponseKind::Content) && address is Some ==> match cbor_service_directory(payload@) {
                Some(d) => res is Ok && services_model(final(self).services@) == services_model(old(self).services@)
                    + directory_services(d, address->Some_0),
                None => res matches Err(DiscoveryError::MalformedDirectory) && final(self).services@ == old(self).services@,
            },
            answer_accepted(code, address, payload@) ==> res is Ok && services_model(final(self).services@)
                == services_model(old(self).services@) + answer_services(address, payload@),
            answer_accepted(code, address, payload@) ==> names_ascending(answer_services(address, payload@)),
            answer_accepted(code, address, payload@) && address is Some ==> forall|i: int|
                0 <= i < cbor_service_directory(payload@)->Some_0.len() ==> #[trigger] keys_ascending(
                    cbor_service_directory(payload@)->Some_0[i].1,
                ),
            !answer_accepted(code, address, payload@) ==> res is Err && final(self).services@ == old(self).services@,
    {
        let expected = response_class_code(ResponseKind::Content);
        match Coap::response_type_is_expected(code, expected) {
            Err(e) => {
                return Err(DiscoveryError::UnexpectedResponse(e));
            },
            Ok(()) => {},
        }
        match address {
            None => Ok(()),
            Some(a) => match decode_service_directory(payload) {
                None => Err(DiscoveryError::MalformedDirectory),
                Some(directory) => {
                    self.add_directory(a, &directory);
                    Ok(())
                },
            },
        }
    }
}

/// The addresses of the devices found so far that are not provisioned.
pub struct UnprovisionedDiscovery<A> {
    pub addresses: Vec<A>,
}

impl<A: Copy> UnprovisionedDiscovery<A> {
    pub fn new() -> (res: Self)
        ensures
            res.addresses@.len() == 0,
    {
        UnprovisionedDiscovery { addresses: Vec::new() }
    }

    /// Adds the device at `address` where it lists no service.
    pub fn add_directory(&mut self, address: A, directory: &Vec<(String, Vec<(String, String)>)>)
        ensures
            final(self).addresses@ == if directory@.len() == 0 {
                old(self).addresses@.push(address)
            } else {
                old(self).addresses@
            },
    {
        if directory.len() == 0 {
            self.addresses.push(address);
        }
    }

    /// Takes in one answer to the search: its class, the address it came
    /// from where that is known, and its payload.
    pub fn on_response(&mut self, code: u8, address: Option<A>, payload: &[u8]) -> (res: Result<(), DiscoveryError>)
        ensures
            code != response_code(ResponseKind::Content) ==> (res matches Err(DiscoveryError::UnexpectedResponse(e))
                && e.message@ == unexpected_class_message(code, response_code(ResponseKind::Content))
                && final(self).addresses@ == old(self).addresses@),
            code == response_code(ResponseKind::Content) && address is None ==> (res is Ok
                && final(self).addresses@ == old(self).addresses@),
            code == response_code(ResponseKind::Content) && address is Some ==> match cbor_service_directory(payload@) {
                Some(d) => res is Ok && final(self).addresses@ == if d.len() == 0 {
                    old(self).addresses@.push(address->Some_0)
                } else {
                    old(self).addresses@
                },
                None => res matches Err(DiscoveryError::MalformedDirectory) && final(self).addresses@ == old(self).addresses@,
            },
            answer_accepted(code, address, payload@) ==> res is Ok && final(self).addresses@
                == old(self).addresses@ + answer_unprovisioned(address, payload@),
            !answer_accepted(code, address, payload@) ==> res is Err && final(self).addresses@ == old(self).addresses@,
    {
        let expected = response_class_code(ResponseKind::Content);
        match Coap::response_type_is_expected(code, expected) {
            Err(e) => {
                return Err(DiscoveryError::UnexpectedResponse(e));
            },
            Ok(()) => {},
        }
        match address {
            None => Ok(()),
            Some(a) => match decode_service_directory(payload) {
                None => Err(DiscoveryError::MalformedDirectory),
                Some(directory) => {
                    self.add_directory(a, &directory);
                    Ok(())
                },
            },
        }
    }
}

impl Coap {
    /// Starts a search for services, by name and type where they are given:
    /// the request to send to the group, and the list of the services found,
    /// empty so far.
    pub fn service_discovery<A: Copy>(&self, srv_name: Option<&str>, srv_type: Option<&str>) -> (res: (Request, ServiceDiscovery<A>))
        ensures
            res.0@ == spec_search(
                if srv_name is Some || srv_type is Some {
                    Some(cbor_text_map(search_filter_model(opt_view(srv_name), opt_view(srv_type))))
                } else {
                    None
                },
            ),
            res.1.services@.len() == 0,
    {
        (Coap::init_search_services(srv_name, srv_type), ServiceDiscovery::new())
    }

    /// Starts a search for devices that are not provisioned: the request to
    /// send to the group, with no filter, and the list of the devices found,
    /// empty so far.
    pub fn not_provisioned_discovery<A: Copy>(&self) -> (res: (Request, UnprovisionedDiscovery<A>))
        ensures
            res.0@ == spec_search(None),
            res.1.addresses@.len() == 0,
    {
        (Coap::init_search_services(None, None), UnprovisionedDiscovery::new())
    }
}

} // verus!
