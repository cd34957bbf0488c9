//! What an address is, as far as its value says, and whether it sits on one of the phone's own
//! subnets.
use vstd::prelude::*;

use crate::routes::ip::{parse_ip, parsed_ip};
use crate::text::{before_first, chars_of, taken_before, trim_leading, trim_trailing,
    trimmed_leading, trimmed_trailing};

verus! {

/// What an address is, as far as its value says.
#[derive(Clone, Copy, Debug, PartialEq, Eq, Structural)]
pub enum RouteKind {
    /// RFC 1918, link-local, or a unique local IPv6 address outside Tailscale's range.
    LocalNetwork,
    /// Tailscale's 100.64.0.0/10 or `fd7a:115c:a1e0::/48`.
    Tailscale,
    /// Anything else, including a name rather than an address.
    OtherPrivate,
}

/// The kind of network the phone is on now.
#[derive(Clone, Copy, Debug, PartialEq, Eq, Structural)]
pub enum PhoneLink {
    Wifi,
    Ethernet,
    Cellular,
    Other,
    Offline,
}

/// One of the phone's own addresses on its current physical network, not a VPN's.
#[derive(Clone, Debug, PartialEq, Eq)]
pub struct PhoneAddress {
    pub address: String,
    pub prefix_length: u8,
}

impl View for PhoneAddress {
    type V = (Seq<char>, u8);

    open spec fn view(&self) -> (Seq<char>, u8) {
        (self.address@, self.prefix_length)
    }
}

/// The address text without brackets around it or an interface scope after a `%`.
pub open spec fn unscoped_address(address: Seq<char>) -> Seq<char> {
    before_first(trim_trailing(trim_leading(address, '['), ']'), '%')
}

/// The octets an address text stands for, when it is an IP address.
pub open spec fn ip_of(address: Seq<char>) -> Option<Seq<u8>> {
    parsed_ip(unscoped_address(address))
}

pub open spec fn is_tailscale_v4(octets: Seq<u8>) -> bool {
    octets[0] == 100 && 64 <= octets[1] < 128
}

pub open spec fn is_local_v4(octets: Seq<u8>) -> bool {
    ||| octets[0] == 10
    ||| octets[0] == 172 && 16 <= octets[1] < 32
    ||| octets[0] == 192 && octets[1] == 168
    ||| octets[0] == 169 && octets[1] == 254
}

pub open spec fn is_tailscale_v6(octets: Seq<u8>) -> bool {
    octets[0] == 0xfd && octets[1] == 0x7a && octets[2] == 0x11 && octets[3] == 0x5c
        && octets[4] == 0xa1 && octets[5] == 0xe0
}

/// `fe80::/10`.
pub open spec fn is_link_local_v6(octets: Seq<u8>) -> bool {
    octets[0] == 0xfe && 0x80 <= octets[1] < 0xc0
}

/// `fc00::/7`.
pub open spec fn is_unique_local_v6(octets: Seq<u8>) -> bool {
    octets[0] == 0xfc || octets[0] == 0xfd
}

pub open spec fn kind_of_octets(octets: Seq<u8>) -> RouteKind {
    if octets.len() == 4 {
        if is_tailscale_v4(octets) {
            RouteKind::Tailscale
        } else if is_local_v4(octets) {
            RouteKind::LocalNetwork
        } else {
            RouteKind::OtherPrivate
        }
    } else if octets.len() == 16 {
        if is_tailscale_v6(octets) {
            RouteKind::Tailscale
        } else if is_unique_local_v6(octets) || is_link_local_v6(octets) {
            RouteKind::LocalNetwork
        } else {
            RouteKind::OtherPrivate
        }
    } else {
        RouteKind::OtherPrivate
    }
}

/// The kind of an address text.
pub open spec fn kind_of(address: Seq<char>) -> RouteKind {
    match ip_of(address) {
        Some(octets) => kind_of_octets(octets),
        None => RouteKind::OtherPrivate,
    }
}

/// The octets of an address text, brackets and scope taken off first.
pub fn address_ip(address: &str) -> (r: Option<Vec<u8>>)
    ensures
        r is None <==> ip_of(address@) is None,
        r matches Some(octets) ==> ip_of(address@) == Some(octets@),
        r matches Some(octets) ==> octets@.len() == 4 || octets@.len() == 16,
{
    let chars = chars_of(address);
    let opened = trimmed_leading(&chars, '[');
    let closed = trimmed_trailing(&opened, ']');
    let unscoped = taken_before(&closed, '%');
    parse_ip(&unscoped)
}

fn octets_kind(octets: &Vec<u8>) -> (r: RouteKind)
    ensures
        r == kind_of_octets(octets@),
{
    if octets.len() == 4 {
        if octets[0] == 100 && 64 <= octets[1] && octets[1] < 128 {
            RouteKind::Tailscale
        } else if octets[0] == 10 || (octets[0] == 172 && 16 <= octets[1] && octets[1] < 32)
            || (octets[0] == 192 && octets[1] == 168) || (octets[0] == 169 && octets[1] == 254) {
            RouteKind::LocalNetwork
        } else {
            RouteKind::OtherPrivate
        }
    } else if octets.len() == 16 {
        if tailscale_v6(octets) {
            RouteKind::Tailscale
        } else if octets[0] == 0xfc || octets[0] == 0xfd || link_local_v6(octets) {
            RouteKind::LocalNetwork
        } else {
            RouteKind::OtherPrivate
        }
    } else {
        RouteKind::OtherPrivate
    }
}

fn tailscale_v4(octets: &Vec<u8>) -> (r: bool)
    requires
        octets@.len() == 4,
    ensures
        r == is_tailscale_v4(octets@),
{
    octets[0] == 100 && 64 <= octets[1] && octets[1] < 128
}

fn tailscale_v6(octets: &Vec<u8>) -> (r: bool)
    requires
        octets@.len() == 16,
    ensures
        r == is_tailscale_v6(octets@),
{
    octets[0] == 0xfd && octets[1] == 0x7a && octets[2] == 0x11 && octets[3] == 0x5c
        && octets[4] == 0xa1 && octets[5] == 0xe0
}

fn link_local_v6(octets: &Vec<u8>) -> (r: bool)
    requires
        octets@.len() == 16,
    ensures
        r == is_link_local_v6(octets@),
{
    octets[0] == 0xfe && 0x80 <= octets[1] && octets[1] < 0xc0
}

/// Classifies an address by its value alone.
pub fn route_kind(address: &str) -> (r: RouteKind)
    ensures
        r == kind_of(address@),
{
    match address_ip(address) {
        Some(octets) => octets_kind(&octets),
        None => RouteKind::OtherPrivate,
    }
}

/// The first `length` bits of `left` and `right` agree, for a length that is neither zero nor
/// the whole address.
pub open spec fn same_prefix_spec(left: Seq<u8>, right: Seq<u8>, length: int) -> bool {
    let whole = length / 8;
    let rest = length % 8;
    &&& length != 0
    &&& length != left.len() * 8
    &&& left.take(whole) == right.take(whole)
    &&& (rest == 0 || (left[whole] >> ((8 - rest) as u8)) == (right[whole] >> ((8 - rest) as u8)))
}

proof fn lemma_mask(a: u8, b: u8, shift: u8)
    requires
        1 <= shift <= 7,
    ensures
        ((a & (0xffu8 << shift)) == (b & (0xffu8 << shift))) == ((a >> shift) == (b >> shift)),
{
    assert(((a & (0xffu8 << shift)) == (b & (0xffu8 << shift))) == ((a >> shift) == (b >> shift)))
        by (bit_vector)
        requires
            1 <= shift <= 7,
    ;
}

fn same_prefix(left: &Vec<u8>, right: &Vec<u8>, prefix_length: u8) -> (r: bool)
    requires
        left@.len() == right@.len(),
        left@.len() == 4 || left@.len() == 16,
        prefix_length as int <= left@.len() * 8,
    ensures
        r == same_prefix_spec(left@, right@, prefix_length as int),
{
    // A /0 or a host route says nothing about which network this is.
    if prefix_length == 0 || prefix_length as usize == left.len() * 8 {
        return false;
    }
    let whole = (prefix_length / 8) as usize;
    let rest = prefix_length % 8;
    assert(whole as int == prefix_length as int / 8);
    assert(rest as int == prefix_length as int % 8);
    let mut i: usize = 0;
    while i < whole
        invariant
            whole as int == prefix_length as int / 8,
            whole <= left@.len(),
            left@.len() == right@.len(),
            i <= whole,
            left@.take(i as int) == right@.take(i as int),
        decreases whole - i,
    {
        if left[i] != right[i] {
            proof {
                assert(left@.take(whole as int)[i as int] != right@.take(whole as int)[i as int]);
                assert(left@.take(whole as int) != right@.take(whole as int));
                let length = prefix_length as int;
                assert(length / 8 == whole as int);
                assert(same_prefix_spec(left@, right@, length) ==> left@.take(length / 8) == right@.take(length / 8));
            }
            return false;
        }
        proof {
            assert(left@.take(i + 1) =~= left@.take(i as int).push(left@[i as int]));
            assert(right@.take(i + 1) =~= right@.take(i as int).push(right@[i as int]));
        }
        i = i + 1;
    }
    if rest == 0 {
        return true;
    }
    let shift: u8 = 8 - rest;
    let mask: u8 = 0xffu8 << shift;
    proof {
        lemma_mask(left@[whole as int], right@[whole as int], shift);
    }
    left[whole] & mask == right[whole] & mask
}


/// The phone's own network: how it is connected, its addresses on it, and the fingerprint
/// that tells this network apart from others when there is one.
#[derive(Clone, Debug, PartialEq, Eq)]
pub struct PhoneNetwork {
    pub link: PhoneLink,
    pub addresses: Vec<PhoneAddress>,
    /// From `network_fingerprint`; `None` when the network cannot be told apart from others.
    pub fingerprint: Option<String>,
}

pub open spec fn phone_addresses(network: &PhoneNetwork) -> Seq<(Seq<char>, u8)> {
    network.addresses@.map_values(|a: PhoneAddress| a@)
}

pub open spec fn fingerprint_of(network: &PhoneNetwork) -> Option<Seq<char>> {
    match network.fingerprint {
        Some(f) => Some(f@),
        None => None,
    }
}

/// A link the phone has a physical network on.
pub open spec fn has_local_link(link: PhoneLink) -> bool {
    link == PhoneLink::Wifi || link == PhoneLink::Ethernet || link == PhoneLink::Other
}

/// One of the phone's own addresses puts `target` on its subnet. A link-local IPv6 target is
/// reachable on any local link the phone has.
#[verifier::opaque]
pub open spec fn own_address_covers(own: (Seq<char>, u8), target: Seq<u8>) -> bool {
    match ip_of(own.0) {
        None => false,
        Some(o) => if o.len() == 4 && target.len() == 4 {
            !is_tailscale_v4(o) && same_prefix_spec(o, target, if own.1 < 32 { own.1 as int } else { 32 })
        } else if o.len() == 16 && target.len() == 16 {
            is_link_local_v6(target) || (!is_tailscale_v6(o) && same_prefix_spec(
                o,
                target,
                if own.1 < 128 { own.1 as int } else { 128 },
            ))
        } else {
            false
        },
    }
}

/// Whether `address` is on the same subnet as one of the phone's own addresses.
pub open spec fn on_subnet(address: Seq<char>, link: PhoneLink, own: Seq<(Seq<char>, u8)>) -> bool {
    &&& has_local_link(link)
    &&& ip_of(address) is Some
    &&& exists|i: int| 0 <= i < own.len() && #[trigger] own_address_covers(own[i], ip_of(address).unwrap())
}

fn covers(own: &PhoneAddress, target: &Vec<u8>) -> (r: bool)
    requires
        target@.len() == 4 || target@.len() == 16,
    ensures
        r == own_address_covers(own@, target@),
{
    reveal(own_address_covers);
    let o = match address_ip(own.address.as_str()) {
        Some(o) => o,
        None => {
            return false;
        },
    };
    if o.len() == 4 && target.len() == 4 {
        let length = if own.prefix_length < 32 { own.prefix_length } else { 32 };
        !tailscale_v4(&o) && same_prefix(&o, target, length)
    } else if o.len() == 16 && target.len() == 16 {
        if link_local_v6(target) {
            return true;
        }
        let length = if own.prefix_length < 128 { own.prefix_length } else { 128 };
        !tailscale_v6(&o) && same_prefix(&o, target, length)
    } else {
        false
    }
}

/// Whether `address` is on the same subnet as one of the phone's own addresses.
pub fn on_phone_subnet(address: &str, network: &PhoneNetwork) -> (r: bool)
    ensures
        r == on_subnet(address@, network.link, phone_addresses(network)),
{
    if !(network.link == PhoneLink::Wifi || network.link == PhoneLink::Ethernet
        || network.link == PhoneLink::Other) {
        return false;
    }
    let target = match address_ip(address) {
        Some(t) => t,
        None => {
            return false;
        },
    };
    let mut i: usize = 0;
    while i < network.addresses.len()
        invariant
            i <= network.addresses@.len(),
            phone_addresses(network).len() == network.addresses@.len(),
            ip_of(address@) == Some(target@),
            has_local_link(network.link),
            target@.len() == 4 || target@.len() == 16,
            forall|j: int| 0 <= j < i ==> !#[trigger] own_address_covers(phone_addresses(network)[j], target@),
        decreases network.addresses@.len() - i,
    {
        if covers(&network.addresses[i], &target) {
            proof {
                assert(phone_addresses(network)[i as int] == network.addresses@[i as int]@);
                assert(own_address_covers(phone_addresses(network)[i as int], target@));
                let own = phone_addresses(network);
                assert(0 <= i < own.len() && own_address_covers(own[i as int], target@));
                assert(exists|k: int| 0 <= k < own.len() && #[trigger] own_address_covers(own[k], target@));
                assert(has_local_link(network.link));
                assert(ip_of(address@) is Some);
                assert(ip_of(address@).unwrap() == target@);
                assert(on_subnet(address@, network.link, own));
            }
            return true;
        }
        proof {
            assert(phone_addresses(network)[i as int] == network.addresses@[i as int]@);
        }
        i = i + 1;
    }
    false
}

} // verus!
