//! Choosing the local address that a device is to fetch a firmware update from.

use vstd::prelude::*;

verus! {

/// An address of a network interface, with the length of its prefix.
#[derive(Debug, Clone, Copy)]
pub enum IpNetwork {
    V4 { bytes: [u8; 4], prefix: u8 },
    V6 { octets: [u8; 16], prefix: u8 },
}

/// An IPv6 address with a prefix shorter than 128 bits in the global
/// unicast range 2000::/3.
pub open spec fn is_global_unicast(n: IpNetwork) -> bool {
    match n {
        IpNetwork::V6 { octets, prefix } => prefix < 128 && octets@[0] & 0xe0u8 == 0x20u8,
        IpNetwork::V4 { .. } => false,
    }
}

/// The first global unicast IPv6 address of an interface.
pub open spec fn first_global_unicast(ips: Seq<IpNetwork>) -> Option<[u8; 16]>
    decreases ips.len(),
{
    if ips.len() == 0 {
        None
    } else if is_global_unicast(ips[0]) {
        Some(ips[0]->V6_octets)
    } else {
        first_global_unicast(ips.drop_first())
    }
}

/// The address chosen among the interfaces: the first global unicast IPv6
/// address of the last interface that has one.
pub open spec fn chosen_local_address(interfaces: Seq<Seq<IpNetwork>>) -> Option<[u8; 16]>
    decreases interfaces.len(),
{
    if interfaces.len() == 0 {
        None
    } else {
        match first_global_unicast(interfaces.last()) {
            Some(a) => Some(a),
            None => chosen_local_address(interfaces.drop_last()),
        }
    }
}

/// An interface's first global unicast address is the address of one of its
/// global unicast networks, with none of those before it; it has one exactly
/// when one of its networks is global unicast.
pub proof fn lemma_first_global_unicast(ips: Seq<IpNetwork>)
    ensures
        first_global_unicast(ips) is None <==> forall|j: int| 0 <= j < ips.len() ==> !#[trigger] is_global_unicast(ips[j]),
        first_global_unicast(ips) matches Some(a) ==> exists|j: int| 0 <= j < ips.len() && #[trigger] is_global_unicast(ips[j])
            && ips[j]->V6_octets == a && forall|k: int| 0 <= k < j ==> !is_global_unicast(ips[k]),
    decreases ips.len(),
{
    if ips.len() > 0 {
        let rest = ips.drop_first();
        lemma_first_global_unicast(rest);
        if !is_global_unicast(ips[0]) {
            assert forall|j: int| 0 <= j < rest.len() implies rest[j] == ips[j + 1] by {}
            if first_global_unicast(ips) is None {
                assert forall|j: int| 0 <= j < ips.len() implies !#[trigger] is_global_unicast(ips[j]) by {
                    if j > 0 {
                        assert(rest[j - 1] == ips[j]);
                    }
                }
            } else {
                let a = first_global_unicast(ips)->Some_0;
                let j = choose|j: int| 0 <= j < rest.len() && #[trigger] is_global_unicast(rest[j])
                    && rest[j]->V6_octets == a && forall|k: int| 0 <= k < j ==> !is_global_unicast(rest[k]);
                assert(ips[j + 1] == rest[j]);
                assert forall|k: int| 0 <= k < j + 1 implies !is_global_unicast(ips[k]) by {
                    if k > 0 {
                        assert(ips[k] == rest[k - 1]);
                    }
                }
            }
        } else {
            assert(is_global_unicast(ips[0]));
        }
    }
}

/// Interfaces without a global unicast address play no part in the choice:
/// one added anywhere changes nothing.
pub proof fn lemma_interfaces_without_address_do_not_matter(
    before: Seq<Seq<IpNetwork>>,
    other: Seq<IpNetwork>,
    after: Seq<Seq<IpNetwork>>,
)
    requires
        first_global_unicast(other) is None,
    ensures
        chosen_local_address(before + seq![other] + after) == chosen_local_address(before + after),
    decreases after.len(),
{
    if after.len() == 0 {
        assert(before + seq![other] + after =~= before.push(other));
        assert(before.push(other).drop_last() =~= before);
        assert(before + after =~= before);
    } else {
        lemma_interfaces_without_address_do_not_matter(before, other, after.drop_last());
        assert((before + seq![other] + after).drop_last() =~= before + seq![other] + after.drop_last());
        assert((before + after).drop_last() =~= before + after.drop_last());
        assert((before + seq![other] + after).last() == after.last());
        assert((before + after).last() == after.last());
    }
}

/// An address is chosen exactly when some interface has a global unicast
/// address.
pub proof fn lemma_chosen_exactly_when_some_interface_has_one(interfaces: Seq<Seq<IpNetwork>>)
    ensures
        chosen_local_address(interfaces) is Some <==> exists|i: int| 0 <= i < interfaces.len()
            && #[trigger] first_global_unicast(interfaces[i]) is Some,
    decreases interfaces.len(),
{
    if interfaces.len() > 0 {
        let rest = interfaces.drop_last();
        let n = interfaces.len() - 1;
        lemma_chosen_exactly_when_some_interface_has_one(rest);
        if first_global_unicast(interfaces[n]) is None {
            if exists|i: int| 0 <= i < interfaces.len() && #[trigger] first_global_unicast(interfaces[i]) is Some {
                let i = choose|i: int| 0 <= i < interfaces.len() && #[trigger] first_global_unicast(interfaces[i]) is Some;
                assert(rest[i] == interfaces[i]);
                assert(first_global_unicast(rest[i]) is Some);
            }
            if exists|i: int| 0 <= i < rest.len() && #[trigger] first_global_unicast(rest[i]) is Some {
                let i = choose|i: int| 0 <= i < rest.len() && #[trigger] first_global_unicast(rest[i]) is Some;
                assert(rest[i] == interfaces[i]);
            }
        } else {
            assert(first_global_unicast(interfaces[n]) is Some);
        }
    }
}

/// The address chosen is the first global unicast address of the last
/// interface that has one.
pub proof fn lemma_chosen_is_from_last_interface_with_one(interfaces: Seq<Seq<IpNetwork>>, i: int)
    requires
        0 <= i < interfaces.len(),
        first_global_unicast(interfaces[i]) is Some,
        forall|k: int| i < k < interfaces.len() ==> #[trigger] first_global_unicast(interfaces[k]) is None,
    ensures
        chosen_local_address(interfaces) == first_global_unicast(interfaces[i]),
    decreases interfaces.len(),
{
    let n = interfaces.len() - 1;
    if i < n {
        let rest = interfaces.drop_last();
        assert(first_global_unicast(interfaces[n]) is None);
        assert(rest[i] == interfaces[i]);
        assert forall|k: int| i < k < rest.len() implies #[trigger] first_global_unicast(rest[k]) is None by {
            assert(rest[k] == interfaces[k]);
        }
        lemma_chosen_is_from_last_interface_with_one(rest, i);
    }
}

pub open spec fn interfaces_view(interfaces: Seq<Vec<IpNetwork>>) -> Seq<Seq<IpNetwork>> {
    Seq::new(interfaces.len(), |i: int| interfaces[i]@)
}

/// Goes through the interfaces in order and, in each, through its addresses
/// up to the first global unicast IPv6 one; the last one found is chosen.
pub fn select_local_address(interfaces: &Vec<Vec<IpNetwork>>) -> (res: Option<[u8; 16]>)
    ensures
        res == chosen_local_address(interfaces_view(interfaces@)),
{
    let ghost all = interfaces_view(interfaces@);
    let mut local_addr: Option<[u8; 16]> = None;
    let mut i: usize = 0;
    assert(all.take(0) =~= Seq::<Seq<IpNetwork>>::empty());
    while i < interfaces.len()
        invariant
            i <= interfaces@.len(),
            all == interfaces_view(interfaces@),
            local_addr == chosen_local_address(all.take(i as int)),
        decreases interfaces@.len() - i,
    {
        let ips = &interfaces[i];
        let ghost found_before = local_addr;
        let mut j: usize = 0;
        assert(ips@.skip(0) =~= ips@);
        while j < ips.len()
            invariant_except_break
                local_addr == found_before,
            invariant
                j <= ips@.len(),
                i < all.len(),
                ips@ == all[i as int],
                first_global_unicast(ips@) == first_global_unicast(ips@.skip(j as int)),
            ensures
                match first_global_unicast(ips@) {
                    Some(a) => local_addr == Some(a),
                    None => local_addr == found_before,
                },
            decreases ips@.len() - j,
        {
            assert(ips@.skip(j as int)[0] == ips@[j as int]);
            match ips[j] {
                IpNetwork::V6 { octets, prefix } => {
                    if prefix < 128 && (octets[0] & 0xe0 == 0x20) {
                        local_addr = Some(octets);
                        break;
                    }
                },
                IpNetwork::V4 { .. } => {},
            }
            assert(ips@.skip(j as int).drop_first() =~= ips@.skip(j + 1));
            j = j + 1;
        }
        proof {
            assert(all.take(i + 1).last() == all[i as int]);
            assert(all.take(i + 1).drop_last() =~= all.take(i as int));
        }
        i = i + 1;
    }
    assert(all.take(i as int) =~= all);
    local_addr
}

} // verus!
