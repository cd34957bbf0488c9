//! A short, salted name for the network the phone is on, so the address that worked there can be
//! tried first next time. It is built from the phone's own subnets and its gateway, never from a
//! Wi-Fi name, and salted per install so it names nothing outside that install.
use vstd::prelude::*;

use crate::digest::{hex_of, hex_text, sha256, sha256_of};
use crate::routes::address::{address_ip, ip_of, is_link_local_v6, is_tailscale_v4, is_tailscale_v6,
    PhoneAddress, PhoneLink};
use crate::routes::ip::{parse_ip, parsed_ip};
use crate::text::{chars_of, string_of};

verus! {

// ---------------------------------------------------------------------------------------------
// Addresses as text, the way the standard library writes them.

/// The decimal digits of `n`, as ASCII bytes, without leading zeros.
pub open spec fn decimal(n: nat) -> Seq<u8>
    decreases n,
{
    if n < 10 {
        seq![(48 + n) as u8]
    } else {
        decimal(n / 10).push((48 + n % 10) as u8)
    }
}

/// The lowercase hexadecimal digit for `d < 16`, as an ASCII byte.
pub open spec fn hex_byte(d: nat) -> u8 {
    if d < 10 {
        (48 + d) as u8
    } else {
        (87 + d) as u8
    }
}

/// The lowercase hexadecimal digits of `n`, without leading zeros.
pub open spec fn hex_digits(n: nat) -> Seq<u8>
    decreases n,
{
    if n < 16 {
        seq![hex_byte(n)]
    } else {
        hex_digits(n / 16).push(hex_byte(n % 16))
    }
}

/// Four octets in dotted-quad form.
pub open spec fn ipv4_text(o: Seq<u8>) -> Seq<u8> {
    decimal(o[0] as nat) + seq![46u8] + decimal(o[1] as nat) + seq![46u8] + decimal(o[2] as nat)
        + seq![46u8] + decimal(o[3] as nat)
}

/// The `i`th 16-bit segment of an IPv6 address.
pub open spec fn segment(o: Seq<u8>, i: int) -> nat {
    o[2 * i] as nat * 256 + o[2 * i + 1] as nat
}

/// Segments `from..to`, each in hexadecimal, joined by colons.
pub open spec fn joined_segments(o: Seq<u8>, from: int, to: int) -> Seq<u8>
    decreases to - from,
{
    if to <= from {
        Seq::empty()
    } else if to == from + 1 {
        hex_digits(segment(o, from))
    } else {
        joined_segments(o, from, to - 1) + seq![58u8] + hex_digits(segment(o, to - 1))
    }
}

/// Scans segments `i..8` for zero runs, given the run in progress and the longest found so far
/// (start, length); a later run replaces the longest only when it is strictly longer.
pub open spec fn zero_run(o: Seq<u8>, i: int, current: (int, int), longest: (int, int)) -> (int, int)
    decreases 8 - i,
{
    if i >= 8 {
        longest
    } else {
        let next = if segment(o, i) == 0 {
            if current.1 == 0 {
                (i, 1int)
            } else {
                (current.0, current.1 + 1)
            }
        } else {
            (i + 1, 0int)
        };
        zero_run(o, i + 1, next, if next.1 > longest.1 { next } else { longest })
    }
}

/// The longest run of zero segments, the leftmost among equals, as (start, length).
pub open spec fn longest_zero_run(o: Seq<u8>) -> (int, int) {
    zero_run(o, 0, (0, 0), (0, 0))
}

/// `::ffff:a.b.c.d`.
pub open spec fn is_ipv4_mapped(o: Seq<u8>) -> bool {
    &&& forall|k: int| 0 <= k < 10 ==> o[k] == 0
    &&& o[10] == 0xff
    &&& o[11] == 0xff
}

/// Sixteen octets as IPv6 text: a mapped IPv4 address as `::ffff:` and its dotted quad, otherwise
/// hexadecimal segments with the longest run of two or more zero segments written `::`.
pub open spec fn ipv6_text(o: Seq<u8>) -> Seq<u8> {
    if is_ipv4_mapped(o) {
        seq![58u8, 58u8, 102u8, 102u8, 102u8, 102u8, 58u8] + ipv4_text(o.subrange(12, 16))
    } else {
        let run = longest_zero_run(o);
        if run.1 > 1 {
            joined_segments(o, 0, run.0) + seq![58u8, 58u8] + joined_segments(o, run.0 + run.1, 8)
        } else {
            joined_segments(o, 0, 8)
        }
    }
}

/// An address of four or sixteen octets as text.
pub open spec fn ip_text(o: Seq<u8>) -> Seq<u8> {
    if o.len() == 4 {
        ipv4_text(o)
    } else {
        ipv6_text(o)
    }
}

// ---------------------------------------------------------------------------------------------
// What the fingerprint is made of.

/// The mask byte that keeps the first `bits` bits of a byte.
pub open spec fn mask_byte(bits: int) -> u8 {
    if bits <= 0 {
        0
    } else if bits >= 8 {
        0xff
    } else {
        (0xffu8 << ((8 - bits) as u8)) as u8
    }
}

/// `o` with every bit after the first `length` cleared.
pub open spec fn masked(o: Seq<u8>, length: int) -> Seq<u8> {
    Seq::new(o.len(), |i: int| o[i] & mask_byte(length - 8 * i))
}

/// `169.254.0.0/16`.
pub open spec fn is_link_local_v4(o: Seq<u8>) -> bool {
    o[0] == 169 && o[1] == 254
}

/// The subnet one of the phone's addresses is on, as `network/length` text. Tailscale,
/// link-local and host-route addresses have none: they are the same on every network.
pub open spec fn subnet_text(address: (Seq<char>, u8)) -> Option<Seq<u8>> {
    match ip_of(address.0) {
        None => None,
        Some(o) => if o.len() == 4 {
            let length: int = if address.1 < 32 { address.1 as int } else { 32 };
            if is_tailscale_v4(o) || is_link_local_v4(o) || length == 0 || length == 32 {
                None
            } else {
                Some(ipv4_text(masked(o, length)) + seq![47u8] + decimal(length as nat))
            }
        } else {
            let length: int = if address.1 < 128 { address.1 as int } else { 128 };
            if is_tailscale_v6(o) || is_link_local_v6(o) || length == 0 || length == 128 {
                None
            } else {
                Some(ipv6_text(masked(o, length)) + seq![47u8] + decimal(length as nat))
            }
        },
    }
}

/// The subnets of the phone's addresses, in their order, those without one left out.
pub open spec fn subnet_parts(addresses: Seq<(Seq<char>, u8)>) -> Seq<Seq<u8>>
    decreases addresses.len(),
{
    if addresses.len() == 0 {
        Seq::empty()
    } else {
        let rest = subnet_parts(addresses.drop_last());
        match subnet_text(addresses.last()) {
            Some(t) => rest.push(t),
            None => rest,
        }
    }
}

/// `gateway ` and the gateway's address, when the gateway text is an IP address.
pub open spec fn gateway_part(gateway: Option<Seq<char>>) -> Option<Seq<u8>> {
    match gateway {
        None => None,
        Some(g) => match parsed_ip(g) {
            None => None,
            Some(o) => Some(seq![103u8, 97u8, 116u8, 101u8, 119u8, 97u8, 121u8, 32u8] + ip_text(o)),
        },
    }
}

/// The parts that name the network, before sorting: `cellular` on a cellular link (the carrier
/// changes the phone's address freely), the subnets and gateway on a local link, none offline.
pub open spec fn network_parts(link: PhoneLink, addresses: Seq<(Seq<char>, u8)>, gateway: Option<Seq<char>>) -> Seq<Seq<u8>> {
    match link {
        PhoneLink::Offline => Seq::empty(),
        PhoneLink::Cellular => seq![seq![99u8, 101u8, 108u8, 108u8, 117u8, 108u8, 97u8, 114u8]],
        _ => match gateway_part(gateway) {
            Some(g) => subnet_parts(addresses).push(g),
            None => subnet_parts(addresses),
        },
    }
}

/// Whether `a` comes before `b`, byte by byte, a prefix first.
pub open spec fn bytes_lt(a: Seq<u8>, b: Seq<u8>) -> bool
    decreases a.len(),
{
    if a.len() == 0 {
        b.len() > 0
    } else if b.len() == 0 {
        false
    } else if a[0] != b[0] {
        a[0] < b[0]
    } else {
        bytes_lt(a.drop_first(), b.drop_first())
    }
}

/// Where `x` goes in `s`: after every element it does not come before.
pub open spec fn part_position(s: Seq<Seq<u8>>, x: Seq<u8>) -> int
    decreases s.len(),
{
    if s.len() == 0 || bytes_lt(x, s[0]) {
        0
    } else {
        1 + part_position(s.drop_first(), x)
    }
}

/// `s` sorted by inserting each element in turn.
pub open spec fn sorted_parts(s: Seq<Seq<u8>>) -> Seq<Seq<u8>>
    decreases s.len(),
{
    if s.len() == 0 {
        s
    } else {
        let rest = sorted_parts(s.drop_last());
        rest.insert(part_position(rest, s.last()), s.last())
    }
}

/// `s` with each element equal to the one before it left out.
pub open spec fn dedup_adjacent(s: Seq<Seq<u8>>) -> Seq<Seq<u8>>
    decreases s.len(),
{
    if s.len() == 0 {
        s
    } else if s.len() >= 2 && s[s.len() - 2] == s.last() {
        dedup_adjacent(s.drop_last())
    } else {
        dedup_adjacent(s.drop_last()).push(s.last())
    }
}

/// A length as eight big-endian bytes.
pub open spec fn be_u64(n: nat) -> Seq<u8> {
    seq![
        (n / 0x100000000000000 % 256) as u8,
        (n / 0x1000000000000 % 256) as u8,
        (n / 0x10000000000 % 256) as u8,
        (n / 0x100000000 % 256) as u8,
        (n / 0x1000000 % 256) as u8,
        (n / 0x10000 % 256) as u8,
        (n / 0x100 % 256) as u8,
        (n % 256) as u8,
    ]
}

/// `multiplex-route-network-v1` and a zero byte: what every fingerprint's input starts with.
pub open spec fn fingerprint_domain() -> Seq<u8> {
    seq![109u8, 117u8, 108u8, 116u8, 105u8, 112u8, 108u8, 101u8, 120u8, 45u8, 114u8, 111u8, 117u8,
        116u8, 101u8, 45u8, 110u8, 101u8, 116u8, 119u8, 111u8, 114u8, 107u8, 45u8, 118u8, 49u8, 0u8]
}

/// Each part as its length and its bytes.
pub open spec fn framed_parts(parts: Seq<Seq<u8>>) -> Seq<u8>
    decreases parts.len(),
{
    if parts.len() == 0 {
        Seq::empty()
    } else {
        framed_parts(parts.drop_last()) + be_u64(parts.last().len()) + parts.last()
    }
}

/// What is hashed: the domain, the salt with its length, then the sorted distinct parts, each
/// with its length. `None` when there is nothing to name the network by.
pub open spec fn fingerprint_input(
    salt: Seq<u8>,
    link: PhoneLink,
    addresses: Seq<(Seq<char>, u8)>,
    gateway: Option<Seq<char>>,
) -> Option<Seq<u8>> {
    let parts = network_parts(link, addresses, gateway);
    if parts.len() == 0 {
        None
    } else {
        Some(fingerprint_domain() + be_u64(salt.len()) + salt + framed_parts(dedup_adjacent(sorted_parts(parts))))
    }
}

/// A fingerprint from its digest: the first sixteen bytes in lowercase hexadecimal.
pub open spec fn fingerprint_text(digest: Seq<u8>) -> Seq<char> {
    hex_text(digest.take(16))
}

pub open spec fn addresses_view(addresses: Seq<PhoneAddress>) -> Seq<(Seq<char>, u8)> {
    addresses.map_values(|a: PhoneAddress| a@)
}

pub open spec fn gateway_view(gateway: Option<String>) -> Option<Seq<char>> {
    match gateway {
        Some(g) => Some(g@),
        None => None,
    }
}

pub open spec fn parts_view(parts: Seq<Vec<u8>>) -> Seq<Seq<u8>> {
    parts.map_values(|p: Vec<u8>| p@)
}

// ---------------------------------------------------------------------------------------------
// Writing the text.

fn push_decimal(out: &mut Vec<u8>, n: u8)
    ensures
        final(out)@ == old(out)@ + decimal(n as nat),
{
    proof {
        reveal_with_fuel(decimal, 3);
    }
    if n >= 100 {
        out.push(48 + n / 100);
        out.push(48 + n / 10 % 10);
        out.push(48 + n % 10);
        assert(decimal(n as nat) =~= seq![(48 + n / 100) as u8, (48 + n / 10 % 10) as u8, (48 + n % 10) as u8]);
    } else if n >= 10 {
        out.push(48 + n / 10);
        out.push(48 + n % 10);
        assert(decimal(n as nat) =~= seq![(48 + n / 10) as u8, (48 + n % 10) as u8]);
    } else {
        out.push(48 + n);
    }
    assert(final(out)@ =~= old(out)@ + decimal(n as nat));
}

fn hex_byte_of(d: u16) -> (b: u8)
    requires
        d < 16,
    ensures
        b == hex_byte(d as nat),
{
    if d < 10 {
        48 + d as u8
    } else {
        87 + d as u8
    }
}

fn push_hex(out: &mut Vec<u8>, n: u16)
    ensures
        final(out)@ == old(out)@ + hex_digits(n as nat),
{
    proof {
        reveal_with_fuel(hex_digits, 4);
    }
    let ghost start = out@;
    if n >= 0x1000 {
        out.push(hex_byte_of(n / 0x1000));
    }
    if n >= 0x100 {
        out.push(hex_byte_of(n / 0x100 % 16));
    }
    if n >= 0x10 {
        out.push(hex_byte_of(n / 0x10 % 16));
    }
    out.push(hex_byte_of(n % 16));
    proof {
        if n >= 0x1000 {
            assert(n / 16 / 16 / 16 == n / 0x1000);
            assert(n / 16 / 16 % 16 == n / 0x100 % 16);
            assert(n / 16 % 16 == n / 0x10 % 16);
            assert(hex_digits(n as nat) =~= seq![hex_byte(n as nat / 0x1000), hex_byte(n as nat / 0x100 % 16),
                hex_byte(n as nat / 0x10 % 16), hex_byte(n as nat % 16)]);
        } else if n >= 0x100 {
            assert(n / 16 / 16 == n / 0x100);
            assert(hex_digits(n as nat) =~= seq![hex_byte(n as nat / 0x100 % 16),
                hex_byte(n as nat / 0x10 % 16), hex_byte(n as nat % 16)]);
        } else if n >= 0x10 {
            assert(hex_digits(n as nat) =~= seq![hex_byte(n as nat / 0x10 % 16), hex_byte(n as nat % 16)]);
        }
    }
    assert(out@ =~= start + hex_digits(n as nat));
}

fn push_bytes(out: &mut Vec<u8>, more: &[u8])
    ensures
        final(out)@ == old(out)@ + more@,
{
    let mut i: usize = 0;
    while i < more.len()
        invariant
            i <= more@.len(),
            out@ == old(out)@ + more@.take(i as int),
        decreases more@.len() - i,
    {
        out.push(more[i]);
        proof {
            assert(more@.take(i + 1) =~= more@.take(i as int).push(more@[i as int]));
        }
        i = i + 1;
    }
    assert(more@.take(more@.len() as int) =~= more@);
}

fn push_ipv4(out: &mut Vec<u8>, o: &[u8])
    requires
        o@.len() == 4,
    ensures
        final(out)@ == old(out)@ + ipv4_text(o@),
{
    let ghost start = out@;
    push_decimal(out, o[0]);
    out.push(46);
    push_decimal(out, o[1]);
    out.push(46);
    push_decimal(out, o[2]);
    out.push(46);
    push_decimal(out, o[3]);
    assert(out@ =~= start + ipv4_text(o@));
}

fn segment_at(o: &[u8], i: usize) -> (s: u16)
    requires
        o@.len() == 16,
        i < 8,
    ensures
        s == segment(o@, i as int),
{
    (o[2 * i] as u16) * 256 + o[2 * i + 1] as u16
}

fn push_segments(out: &mut Vec<u8>, o: &[u8], from: usize, to: usize)
    requires
        o@.len() == 16,
        from <= to <= 8,
    ensures
        final(out)@ == old(out)@ + joined_segments(o@, from as int, to as int),
{
    let ghost start = out@;
    let mut i: usize = from;
    while i < to
        invariant
            o@.len() == 16,
            from <= i <= to <= 8,
            out@ == start + joined_segments(o@, from as int, i as int),
        decreases to - i,
    {
        let ghost before = out@;
        if i > from {
            out.push(58);
        }
        push_hex(out, segment_at(o, i));
        proof {
            if i > from {
                assert(out@ =~= before + seq![58u8] + hex_digits(segment(o@, i as int)));
            } else {
                assert(joined_segments(o@, from as int, from as int) =~= Seq::<u8>::empty());
            }
        }
        i = i + 1;
    }
}

fn longest_zeros(o: &[u8]) -> (r: (usize, usize))
    requires
        o@.len() == 16,
    ensures
        r.0 as int == longest_zero_run(o@).0,
        r.1 as int == longest_zero_run(o@).1,
        r.0 + r.1 <= 8,
{
    let mut current: (usize, usize) = (0, 0);
    let mut longest: (usize, usize) = (0, 0);
    let mut i: usize = 0;
    while i < 8
        invariant
            o@.len() == 16,
            i <= 8,
            current.0 + current.1 == i || current.1 == 0,
            current.0 <= i,
            longest.0 + longest.1 <= i,
            zero_run(o@, i as int, (current.0 as int, current.1 as int), (longest.0 as int, longest.1 as int))
                == longest_zero_run(o@),
        decreases 8 - i,
    {
        if segment_at(o, i) == 0 {
            if current.1 == 0 {
                current = (i, 1);
            } else {
                current = (current.0, current.1 + 1);
            }
        } else {
            current = (i + 1, 0);
        }
        if current.1 > longest.1 {
            longest = current;
        }
        i = i + 1;
    }
    longest
}

fn mapped_v4(o: &[u8]) -> (r: bool)
    requires
        o@.len() == 16,
    ensures
        r == is_ipv4_mapped(o@),
{
    let mut k: usize = 0;
    while k < 10
        invariant
            o@.len() == 16,
            k <= 10,
            forall|j: int| 0 <= j < k ==> o@[j] == 0,
        decreases 10 - k,
    {
        if o[k] != 0 {
            return false;
        }
        k = k + 1;
    }
    o[10] == 0xff && o[11] == 0xff
}

fn push_ipv6(out: &mut Vec<u8>, o: &[u8])
    requires
        o@.len() == 16,
    ensures
        final(out)@ == old(out)@ + ipv6_text(o@),
{
    let ghost start = out@;
    if mapped_v4(o) {
        out.push(58);
        out.push(58);
        out.push(102);
        out.push(102);
        out.push(102);
        out.push(102);
        out.push(58);
        let tail = vstd::slice::slice_subrange(o, 12, 16);
        push_ipv4(out, tail);
        assert(out@ =~= start + ipv6_text(o@));
    } else {
        let (at, len) = longest_zeros(o);
        if len > 1 {
            push_segments(out, o, 0, at);
            out.push(58);
            out.push(58);
            push_segments(out, o, at + len, 8);
        } else {
            push_segments(out, o, 0, 8);
        }
        assert(out@ =~= start + ipv6_text(o@));
    }
}

fn push_ip(out: &mut Vec<u8>, o: &[u8])
    requires
        o@.len() == 4 || o@.len() == 16,
    ensures
        final(out)@ == old(out)@ + ip_text(o@),
{
    if o.len() == 4 {
        push_ipv4(out, o);
    } else {
        push_ipv6(out, o);
    }
}

fn mask_byte_of(bits: u8) -> (m: u8)
    ensures
        m == mask_byte(bits as int),
{
    if bits == 0 {
        0
    } else if bits >= 8 {
        0xff
    } else {
        0xffu8 << (8 - bits)
    }
}

fn masked_octets(o: &[u8], length: u8) -> (r: Vec<u8>)
    requires
        o@.len() <= 16,
    ensures
        r@ == masked(o@, length as int),
{
    let mut out: Vec<u8> = Vec::new();
    let mut i: usize = 0;
    while i < o.len()
        invariant
            o@.len() <= 16,
            i <= o@.len(),
            out@ =~= masked(o@, length as int).take(i as int),
        decreases o@.len() - i,
    {
        let done = (8 * i) as u8;
        let bits: u8 = if length > done { length - done } else { 0 };
        let m = mask_byte_of(bits);
        proof {
            assert(mask_byte(bits as int) == mask_byte(length - 8 * i));
        }
        out.push(o[i] & m);
        i = i + 1;
    }
    out
}

fn subnet_of(address: &PhoneAddress) -> (r: Option<Vec<u8>>)
    ensures
        r matches Some(t) ==> subnet_text(address@) == Some(t@),
        r is None ==> subnet_text(address@) is None,
{
    let o = match address_ip(address.address.as_str()) {
        Some(o) => o,
        None => return None,
    };
    if o.len() == 4 {
        let length: u8 = if address.prefix_length < 32 { address.prefix_length } else { 32 };
        if (o[0] == 100 && 64 <= o[1] && o[1] < 128) || (o[0] == 169 && o[1] == 254) || length == 0 || length == 32 {
            return None;
        }
        let mut out: Vec<u8> = Vec::new();
        let m = masked_octets(o.as_slice(), length);
        push_ipv4(&mut out, m.as_slice());
        out.push(47);
        push_decimal(&mut out, length);
        assert(out@ =~= ipv4_text(masked(o@, length as int)) + seq![47u8] + decimal(length as nat));
        Some(out)
    } else {
        let length: u8 = if address.prefix_length < 128 { address.prefix_length } else { 128 };
        if (o[0] == 0xfd && o[1] == 0x7a && o[2] == 0x11 && o[3] == 0x5c && o[4] == 0xa1 && o[5] == 0xe0)
            || (o[0] == 0xfe && 0x80 <= o[1] && o[1] < 0xc0) || length == 0 || length == 128 {
            return None;
        }
        let mut out: Vec<u8> = Vec::new();
        let m = masked_octets(o.as_slice(), length);
        push_ipv6(&mut out, m.as_slice());
        out.push(47);
        push_decimal(&mut out, length);
        assert(out@ =~= ipv6_text(masked(o@, length as int)) + seq![47u8] + decimal(length as nat));
        Some(out)
    }
}

fn gateway_text(gateway: &Option<String>) -> (r: Option<Vec<u8>>)
    ensures
        r matches Some(t) ==> gateway_part(gateway_view(*gateway)) == Some(t@),
        r is None ==> gateway_part(gateway_view(*gateway)) is None,
{
    match gateway {
        None => None,
        Some(g) => {
            let chars = chars_of(g.as_str());
            match parse_ip(chars.as_slice()) {
                None => None,
                Some(o) => {
                    let mut out: Vec<u8> = Vec::new();
                    push_bytes(&mut out, &[103u8, 97u8, 116u8, 101u8, 119u8, 97u8, 121u8, 32u8]);
                    push_ip(&mut out, o.as_slice());
                    assert(out@ =~= seq![103u8, 97u8, 116u8, 101u8, 119u8, 97u8, 121u8, 32u8] + ip_text(o@));
                    Some(out)
                },
            }
        },
    }
}

// ---------------------------------------------------------------------------------------------
// Sorting and framing the parts.

fn bytes_less(a: &[u8], b: &[u8]) -> (r: bool)
    ensures
        r == bytes_lt(a@, b@),
{
    let mut i: usize = 0;
    proof {
        assert(a@.skip(0) =~= a@);
        assert(b@.skip(0) =~= b@);
    }
    while i < a.len() && i < b.len() && a[i] == b[i]
        invariant
            i <= a@.len(),
            i <= b@.len(),
            bytes_lt(a@, b@) == bytes_lt(a@.skip(i as int), b@.skip(i as int)),
        decreases a@.len() - i,
    {
        proof {
            assert(a@.skip(i as int).drop_first() =~= a@.skip(i + 1));
            assert(b@.skip(i as int).drop_first() =~= b@.skip(i + 1));
        }
        i = i + 1;
    }
    if i == a.len() {
        i < b.len()
    } else if i == b.len() {
        false
    } else {
        a[i] < b[i]
    }
}

fn bytes_equal(a: &[u8], b: &[u8]) -> (r: bool)
    ensures
        r == (a@ == b@),
{
    if a.len() != b.len() {
        return false;
    }
    let mut i: usize = 0;
    while i < a.len()
        invariant
            a@.len() == b@.len(),
            i <= a@.len(),
            a@.take(i as int) == b@.take(i as int),
        decreases a@.len() - i,
    {
        if a[i] != b[i] {
            return false;
        }
        proof {
            assert(a@.take(i + 1) =~= a@.take(i as int).push(a@[i as int]));
            assert(b@.take(i + 1) =~= b@.take(i as int).push(b@[i as int]));
        }
        i = i + 1;
    }
    assert(a@ =~= a@.take(a@.len() as int));
    assert(b@ =~= b@.take(b@.len() as int));
    true
}

/// Inserts `x` where `sorted_parts` puts the last element.
fn insert_sorted(sorted: &mut Vec<Vec<u8>>, x: Vec<u8>)
    ensures
        parts_view(final(sorted)@) == parts_view(old(sorted)@).insert(
            part_position(parts_view(old(sorted)@), x@), x@),
{
    let mut p: usize = 0;
    proof {
        assert(parts_view(sorted@).skip(0) =~= parts_view(sorted@));
    }
    while p < sorted.len() && !bytes_less(x.as_slice(), sorted[p].as_slice())
        invariant
            p <= sorted@.len(),
            part_position(parts_view(sorted@), x@) == p + part_position(parts_view(sorted@).skip(p as int), x@),
        decreases sorted@.len() - p,
    {
        proof {
            assert(parts_view(sorted@).skip(p as int).drop_first() =~= parts_view(sorted@).skip(p + 1));
        }
        p = p + 1;
    }
    let ghost before = sorted@;
    let ghost xv = x@;
    proof {
        assert(part_position(parts_view(sorted@).skip(p as int), x@) == 0);
    }
    sorted.insert(p, x);
    proof {
        assert(parts_view(sorted@) =~= parts_view(before).insert(p as int, xv));
    }
}

fn push_be_u64(out: &mut Vec<u8>, n: u64)
    ensures
        final(out)@ == old(out)@ + be_u64(n as nat),
{
    let ghost start = out@;
    out.push((n / 0x100000000000000 % 256) as u8);
    out.push((n / 0x1000000000000 % 256) as u8);
    out.push((n / 0x10000000000 % 256) as u8);
    out.push((n / 0x100000000 % 256) as u8);
    out.push((n / 0x1000000 % 256) as u8);
    out.push((n / 0x10000 % 256) as u8);
    out.push((n / 0x100 % 256) as u8);
    out.push((n % 256) as u8);
    assert(out@ =~= start + be_u64(n as nat));
}

proof fn lemma_sorted_len(s: Seq<Seq<u8>>)
    ensures
        sorted_parts(s).len() == s.len(),
    decreases s.len(),
{
    if s.len() > 0 {
        lemma_sorted_len(s.drop_last());
        lemma_position_bounds(sorted_parts(s.drop_last()), s.last());
    }
}

proof fn lemma_position_bounds(s: Seq<Seq<u8>>, x: Seq<u8>)
    ensures
        0 <= part_position(s, x) <= s.len(),
    decreases s.len(),
{
    if s.len() > 0 {
        lemma_position_bounds(s.drop_first(), x);
    }
}

/// The subnets and the gateway, sorted.
fn sorted_local_parts(addresses: &Vec<PhoneAddress>, gateway: &Option<String>) -> (r: Vec<Vec<u8>>)
    ensures
        parts_view(r@) == sorted_parts(match gateway_part(gateway_view(*gateway)) {
            Some(g) => subnet_parts(addresses_view(addresses@)).push(g),
            None => subnet_parts(addresses_view(addresses@)),
        }),
{
    let ghost av = addresses_view(addresses@);
    let ghost mut raw: Seq<Seq<u8>> = Seq::empty();
    let mut sorted: Vec<Vec<u8>> = Vec::new();
    let mut i: usize = 0;
    proof {
        assert(parts_view(sorted@) =~= Seq::<Seq<u8>>::empty());
        assert(av.take(0) =~= Seq::<(Seq<char>, u8)>::empty());
    }
    while i < addresses.len()
        invariant
            av == addresses_view(addresses@),
            i <= addresses@.len(),
            raw == subnet_parts(av.take(i as int)),
            parts_view(sorted@) == sorted_parts(raw),
        decreases addresses@.len() - i,
    {
        let subnet = subnet_of(&addresses[i]);
        proof {
            assert(av.take(i + 1).drop_last() =~= av.take(i as int));
            assert(av.take(i + 1).last() == addresses@[i as int]@);
        }
        match subnet {
            Some(t) => {
                proof {
                    assert(raw.push(t@).drop_last() =~= raw);
                    raw = raw.push(t@);
                }
                insert_sorted(&mut sorted, t);
            },
            None => {},
        }
        i = i + 1;
    }
    proof {
        assert(av.take(addresses@.len() as int) =~= av);
    }
    match gateway_text(gateway) {
        Some(g) => {
            proof {
                assert(raw.push(g@).drop_last() =~= raw);
            }
            insert_sorted(&mut sorted, g);
        },
        None => {},
    }
    sorted
}

/// The parts that name the network, sorted.
fn sorted_network_parts(
    link: PhoneLink,
    addresses: &Vec<PhoneAddress>,
    gateway: &Option<String>,
) -> (r: Vec<Vec<u8>>)
    ensures
        parts_view(r@) == sorted_parts(network_parts(link, addresses_view(addresses@), gateway_view(*gateway))),
{
    match link {
        PhoneLink::Offline => {
            let sorted: Vec<Vec<u8>> = Vec::new();
            assert(parts_view(sorted@) =~= Seq::<Seq<u8>>::empty());
            let ghost e = network_parts(link, addresses_view(addresses@), gateway_view(*gateway));
            assert(e =~= Seq::<Seq<u8>>::empty());
            assert(sorted_parts(e) == e);
            sorted
        },
        PhoneLink::Cellular => {
            let mut sorted: Vec<Vec<u8>> = Vec::new();
            let mut cellular: Vec<u8> = Vec::new();
            push_bytes(&mut cellular, &[99u8, 101u8, 108u8, 108u8, 117u8, 108u8, 97u8, 114u8]);
            let ghost cv = cellular@;
            assert(parts_view(sorted@) =~= Seq::<Seq<u8>>::empty());
            insert_sorted(&mut sorted, cellular);
            proof {
                let raw = network_parts(link, addresses_view(addresses@), gateway_view(*gateway));
                assert(cv =~= seq![99u8, 101u8, 108u8, 108u8, 117u8, 108u8, 97u8, 114u8]);
                assert(raw =~= seq![cv]);
                let none = raw.drop_last();
                assert(none =~= Seq::<Seq<u8>>::empty());
                assert(sorted_parts(none) == none);
                assert(part_position(none, cv) == 0);
                assert(sorted_parts(raw) == none.insert(0, cv));
            }
            sorted
        },
        _ => {
            let sorted = sorted_local_parts(addresses, gateway);
            assert(parts_view(sorted@) == sorted_parts(network_parts(link, addresses_view(addresses@), gateway_view(*gateway))));
            sorted
        },
    }
}

/// The domain, the salt with its length, then each sorted part that differs from the one before
/// it, with its length.
fn framed_message(salt: &Vec<u8>, sorted: &Vec<Vec<u8>>) -> (r: Vec<u8>)
    ensures
        r@ == fingerprint_domain() + be_u64(salt@.len()) + salt@ + framed_parts(dedup_adjacent(parts_view(sorted@))),
{
    let ghost sv = parts_view(sorted@);
    let mut message: Vec<u8> = Vec::new();
    push_bytes(&mut message, &[109u8, 117u8, 108u8, 116u8, 105u8, 112u8, 108u8, 101u8, 120u8, 45u8,
        114u8, 111u8, 117u8, 116u8, 101u8, 45u8, 110u8, 101u8, 116u8, 119u8, 111u8, 114u8, 107u8, 45u8,
        118u8, 49u8, 0u8]);
    push_be_u64(&mut message, salt.len() as u64);
    push_bytes(&mut message, salt.as_slice());
    let ghost head = message@;
    proof {
        assert(head =~= fingerprint_domain() + be_u64(salt@.len()) + salt@);
        assert(dedup_adjacent(sv.take(0)) =~= Seq::<Seq<u8>>::empty());
        assert(message@ =~= head + framed_parts(dedup_adjacent(sv.take(0))));
    }
    let mut j: usize = 0;
    while j < sorted.len()
        invariant
            sv == parts_view(sorted@),
            j <= sorted@.len(),
            message@ == head + framed_parts(dedup_adjacent(sv.take(j as int))),
        decreases sorted@.len() - j,
    {
        let repeat = j > 0 && bytes_equal(sorted[j - 1].as_slice(), sorted[j].as_slice());
        proof {
            let t = sv.take(j + 1);
            assert(t.drop_last() =~= sv.take(j as int));
            assert(t.last() == sv[j as int]);
            if j > 0 {
                assert(t[t.len() - 2] == sv[j - 1]);
            }
        }
        if !repeat {
            let ghost d = dedup_adjacent(sv.take(j as int));
            push_be_u64(&mut message, sorted[j].len() as u64);
            push_bytes(&mut message, sorted[j].as_slice());
            proof {
                let e = d.push(sv[j as int]);
                assert(e.drop_last() =~= d);
                assert(message@ =~= head + framed_parts(e));
            }
        }
        j = j + 1;
    }
    proof {
        assert(sv.take(sorted@.len() as int) =~= sv);
    }
    message
}

/// The bytes that are hashed for a fingerprint, or `None` where the phone is offline or nothing
/// on its link names the network.
pub fn fingerprint_input_of(
    salt: &Vec<u8>,
    link: PhoneLink,
    addresses: &Vec<PhoneAddress>,
    gateway: &Option<String>,
) -> (r: Option<Vec<u8>>)
    ensures
        r is None <==> fingerprint_input(salt@, link, addresses_view(addresses@), gateway_view(*gateway)) is None,
        r matches Some(m) ==> fingerprint_input(salt@, link, addresses_view(addresses@), gateway_view(*gateway)) == Some(m@),
{
    let sorted = sorted_network_parts(link, addresses, gateway);
    proof {
        lemma_sorted_len(network_parts(link, addresses_view(addresses@), gateway_view(*gateway)));
    }
    if sorted.len() == 0 {
        None
    } else {
        Some(framed_message(salt, &sorted))
    }
}

/// The fingerprint for a digest: its first sixteen bytes in lowercase hexadecimal.
pub fn fingerprint_from_digest(digest: &[u8]) -> (r: String)
    requires
        digest@.len() >= 16,
    ensures
        r@ == fingerprint_text(digest@),
        r@.len() == 32,
{
    let head = vstd::slice::slice_subrange(digest, 0, 16);
    assert(head@ =~= digest@.take(16));
    let hex = hex_of(head);
    string_of(hex.as_slice())
}

/// A short, salted name for the phone's current network: the first sixteen bytes of the
/// SHA-256 of `fingerprint_input`, in hexadecimal; `None` offline or where nothing names the
/// network.
pub fn network_fingerprint(
    salt: Vec<u8>,
    link: PhoneLink,
    addresses: Vec<PhoneAddress>,
    gateway: Option<String>,
) -> (r: Option<String>)
    ensures
        r is None <==> fingerprint_input(salt@, link, addresses_view(addresses@), gateway_view(gateway)) is None,
        r matches Some(text) ==> fingerprint_input(salt@, link, addresses_view(addresses@), gateway_view(gateway))
            matches Some(m) && text@ == fingerprint_text(sha256_of(m)),
{
    match fingerprint_input_of(&salt, link, &addresses, &gateway) {
        None => None,
        Some(message) => {
            let digest = sha256(message.as_slice());
            Some(fingerprint_from_digest(digest.as_slice()))
        },
    }
}

} // verus!
