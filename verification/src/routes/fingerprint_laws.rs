//! The network fingerprint depends on which subnets and gateway the phone sees, not on the order
//! or number of times its addresses list them.
use vstd::prelude::*;

use crate::routes::address::PhoneLink;
use crate::routes::fingerprint::{bytes_lt, dedup_adjacent, fingerprint_input, gateway_part, network_parts,
    part_position, sorted_parts, subnet_parts, subnet_text};

verus! {

proof fn lemma_bytes_lt_irreflexive(a: Seq<u8>)
    ensures
        !bytes_lt(a, a),
    decreases a.len(),
{
    if a.len() > 0 {
        lemma_bytes_lt_irreflexive(a.drop_first());
    }
}

proof fn lemma_bytes_lt_transitive(a: Seq<u8>, b: Seq<u8>, c: Seq<u8>)
    requires
        bytes_lt(a, b),
        bytes_lt(b, c),
    ensures
        bytes_lt(a, c),
    decreases a.len(),
{
    if a.len() > 0 && b.len() > 0 && c.len() > 0 && a[0] == b[0] && b[0] == c[0] {
        lemma_bytes_lt_transitive(a.drop_first(), b.drop_first(), c.drop_first());
    }
}

proof fn lemma_bytes_lt_total(a: Seq<u8>, b: Seq<u8>)
    requires
        a != b,
    ensures
        bytes_lt(a, b) || bytes_lt(b, a),
    decreases a.len(),
{
    if a.len() > 0 && b.len() > 0 && a[0] == b[0] {
        if a.drop_first() == b.drop_first() {
            assert(a =~= seq![a[0]] + a.drop_first());
            assert(b =~= seq![b[0]] + b.drop_first());
        } else {
            lemma_bytes_lt_total(a.drop_first(), b.drop_first());
        }
    } else if a.len() == 0 && b.len() == 0 {
        assert(a =~= b);
    }
}

/// No element comes before one that precedes it.
spec fn ascending(s: Seq<Seq<u8>>) -> bool {
    forall|i: int, j: int| 0 <= i < j < s.len() ==> !bytes_lt(#[trigger] s[j], #[trigger] s[i])
}

/// Each element comes before every later one.
spec fn strictly_ascending(s: Seq<Seq<u8>>) -> bool {
    forall|i: int, j: int| 0 <= i < j < s.len() ==> bytes_lt(#[trigger] s[i], #[trigger] s[j])
}

proof fn lemma_part_position(s: Seq<Seq<u8>>, x: Seq<u8>)
    ensures
        0 <= part_position(s, x) <= s.len(),
        forall|k: int| 0 <= k < part_position(s, x) ==> !bytes_lt(x, #[trigger] s[k]),
        part_position(s, x) < s.len() ==> bytes_lt(x, s[part_position(s, x)]),
    decreases s.len(),
{
    if !(s.len() == 0 || bytes_lt(x, s[0])) {
        let t = s.drop_first();
        lemma_part_position(t, x);
        assert forall|k: int| 0 <= k < part_position(s, x) implies !bytes_lt(x, #[trigger] s[k]) by {
            if k > 0 {
                assert(s[k] == t[k - 1]);
            }
        }
        if part_position(s, x) < s.len() {
            assert(s[part_position(s, x)] == t[part_position(t, x)]);
        }
    }
}

proof fn lemma_sorted_parts(s: Seq<Seq<u8>>)
    ensures
        ascending(sorted_parts(s)),
        sorted_parts(s).to_set() == s.to_set(),
    decreases s.len(),
{
    if s.len() > 0 {
        let t = s.drop_last();
        lemma_sorted_parts(t);
        let rest = sorted_parts(t);
        let x = s.last();
        let p = part_position(rest, x);
        lemma_part_position(rest, x);
        let r = rest.insert(p, x);
        assert(sorted_parts(s) == r);
        assert forall|i: int, j: int| 0 <= i < j < r.len() implies !bytes_lt(#[trigger] r[j], #[trigger] r[i]) by {
            if j < p {
                assert(r[i] == rest[i] && r[j] == rest[j]);
            } else if j == p {
                assert(r[i] == rest[i]);
            } else if i > p {
                assert(r[i] == rest[i - 1] && r[j] == rest[j - 1]);
            } else if i == p {
                assert(r[j] == rest[j - 1]);
                if bytes_lt(rest[j - 1], x) {
                    lemma_bytes_lt_transitive(rest[j - 1], x, rest[p]);
                    if j - 1 == p {
                        lemma_bytes_lt_irreflexive(rest[p]);
                    }
                }
            } else {
                assert(r[i] == rest[i] && r[j] == rest[j - 1]);
            }
        }
        assert forall|y: Seq<u8>| r.to_set().contains(y) <==> s.to_set().contains(y) by {
            if r.contains(y) {
                let k = choose|k: int| 0 <= k < r.len() && r[k] == y;
                if k == p {
                    assert(s[s.len() - 1] == y);
                } else {
                    if k < p {
                        assert(rest[k] == y);
                    } else {
                        assert(rest[k - 1] == y);
                    }
                    assert(rest.to_set().contains(y));
                    assert(t.contains(y));
                    let m = choose|m: int| 0 <= m < t.len() && t[m] == y;
                    assert(s[m] == y);
                }
            }
            if s.contains(y) {
                let k = choose|k: int| 0 <= k < s.len() && s[k] == y;
                if k == s.len() - 1 {
                    assert(r[p] == y);
                } else {
                    assert(t[k] == y);
                    assert(t.to_set().contains(y));
                    assert(rest.contains(y));
                    let m = choose|m: int| 0 <= m < rest.len() && rest[m] == y;
                    if m < p {
                        assert(r[m] == y);
                    } else {
                        assert(r[m + 1] == y);
                    }
                }
            }
        }
        assert(r.to_set() =~= s.to_set());
    }
}

proof fn lemma_dedup_adjacent(s: Seq<Seq<u8>>)
    requires
        ascending(s),
    ensures
        strictly_ascending(dedup_adjacent(s)),
        dedup_adjacent(s).to_set() == s.to_set(),
        s.len() > 0 ==> dedup_adjacent(s).len() > 0 && dedup_adjacent(s).last() == s.last(),
    decreases s.len(),
{
    if s.len() > 0 {
        let t = s.drop_last();
        assert forall|i: int, j: int| 0 <= i < j < t.len() implies !bytes_lt(#[trigger] t[j], #[trigger] t[i]) by {
            assert(t[i] == s[i] && t[j] == s[j]);
        }
        lemma_dedup_adjacent(t);
        let d = dedup_adjacent(t);
        let x = s.last();
        if s.len() >= 2 && s[s.len() - 2] == x {
            assert(t.last() == x);
            assert forall|y: Seq<u8>| d.to_set().contains(y) <==> s.to_set().contains(y) by {
                if s.contains(y) {
                    let k = choose|k: int| 0 <= k < s.len() && s[k] == y;
                    if k < t.len() {
                        assert(t[k] == y);
                    } else {
                        assert(t[t.len() - 1] == y);
                    }
                    assert(t.contains(y));
                    assert(t.to_set().contains(y));
                }
                if d.contains(y) {
                    assert(d.to_set().contains(y));
                    assert(t.contains(y));
                    let k = choose|k: int| 0 <= k < t.len() && t[k] == y;
                    assert(s[k] == y);
                }
            }
            assert(d.to_set() =~= s.to_set());
        } else {
            let e = d.push(x);
            assert(dedup_adjacent(s) == e);
            if t.len() > 0 {
                assert(t.last() == s[s.len() - 2]);
                assert(!bytes_lt(x, s[s.len() - 2]));
                lemma_bytes_lt_total(x, s[s.len() - 2]);
                assert(bytes_lt(d.last(), x));
            }
            assert forall|i: int, j: int| 0 <= i < j < e.len() implies bytes_lt(#[trigger] e[i], #[trigger] e[j]) by {
                if j < d.len() {
                    assert(e[i] == d[i] && e[j] == d[j]);
                } else {
                    assert(e[j] == x);
                    assert(e[i] == d[i]);
                    if i < d.len() - 1 {
                        assert(bytes_lt(d[i], d[d.len() - 1]));
                        lemma_bytes_lt_transitive(d[i], d.last(), x);
                    }
                }
            }
            assert forall|y: Seq<u8>| e.to_set().contains(y) <==> s.to_set().contains(y) by {
                if s.contains(y) {
                    let k = choose|k: int| 0 <= k < s.len() && s[k] == y;
                    if k < t.len() {
                        assert(t[k] == y);
                        assert(t.contains(y));
                        assert(t.to_set().contains(y));
                        assert(d.contains(y));
                        let m = choose|m: int| 0 <= m < d.len() && d[m] == y;
                        assert(e[m] == y);
                    } else {
                        assert(e[d.len() as int] == y);
                    }
                }
                if e.contains(y) {
                    let k = choose|k: int| 0 <= k < e.len() && e[k] == y;
                    if k < d.len() {
                        assert(d[k] == y);
                        assert(d.contains(y));
                        assert(d.to_set().contains(y));
                        assert(t.contains(y));
                        let m = choose|m: int| 0 <= m < t.len() && t[m] == y;
                        assert(s[m] == y);
                    } else {
                        assert(s[s.len() - 1] == y);
                    }
                }
            }
            assert(e.to_set() =~= s.to_set());
        }
    }
}

/// Two strictly ascending sequences of the same elements are the same sequence.
proof fn lemma_strictly_ascending_unique(a: Seq<Seq<u8>>, b: Seq<Seq<u8>>)
    requires
        strictly_ascending(a),
        strictly_ascending(b),
        a.to_set() == b.to_set(),
    ensures
        a == b,
    decreases a.len(),
{
    if a.len() == 0 {
        if b.len() > 0 {
            assert(b.to_set().contains(b[0]));
        }
        assert(a =~= b);
    } else {
        assert(a.to_set().contains(a[0]));
        assert(b.contains(a[0]));
        assert(b.len() > 0);
        assert(b.to_set().contains(b[0]));
        assert(a.contains(b[0]));
        if a[0] != b[0] {
            let i = choose|i: int| 0 <= i < a.len() && a[i] == b[0];
            let j = choose|j: int| 0 <= j < b.len() && b[j] == a[0];
            assert(i > 0 && j > 0);
            assert(bytes_lt(a[0], a[i]));
            assert(bytes_lt(b[0], b[j]));
            lemma_bytes_lt_transitive(a[0], b[0], a[0]);
            lemma_bytes_lt_irreflexive(a[0]);
        }
        let ta = a.drop_first();
        let tb = b.drop_first();
        assert forall|i: int, j: int| 0 <= i < j < ta.len() implies bytes_lt(#[trigger] ta[i], #[trigger] ta[j]) by {
            assert(ta[i] == a[i + 1] && ta[j] == a[j + 1]);
        }
        assert forall|i: int, j: int| 0 <= i < j < tb.len() implies bytes_lt(#[trigger] tb[i], #[trigger] tb[j]) by {
            assert(tb[i] == b[i + 1] && tb[j] == b[j + 1]);
        }
        assert forall|y: Seq<u8>| ta.to_set().contains(y) <==> tb.to_set().contains(y) by {
            if ta.contains(y) {
                let k = choose|k: int| 0 <= k < ta.len() && ta[k] == y;
                assert(a[k + 1] == y);
                assert(bytes_lt(a[0], y));
                lemma_bytes_lt_irreflexive(y);
                assert(a.to_set().contains(y));
                assert(b.contains(y));
                let m = choose|m: int| 0 <= m < b.len() && b[m] == y;
                assert(m != 0);
                assert(tb[m - 1] == y);
            }
            if tb.contains(y) {
                let k = choose|k: int| 0 <= k < tb.len() && tb[k] == y;
                assert(b[k + 1] == y);
                assert(bytes_lt(b[0], y));
                lemma_bytes_lt_irreflexive(y);
                assert(b.to_set().contains(y));
                assert(a.contains(y));
                let m = choose|m: int| 0 <= m < a.len() && a[m] == y;
                assert(m != 0);
                assert(ta[m - 1] == y);
            }
        }
        assert(ta.to_set() =~= tb.to_set());
        lemma_strictly_ascending_unique(ta, tb);
        assert(a =~= seq![a[0]] + ta);
        assert(b =~= seq![b[0]] + tb);
    }
}

proof fn lemma_subnet_parts_step(addresses: Seq<(Seq<char>, u8)>)
    requires
        addresses.len() > 0,
    ensures
        subnet_parts(addresses) == match subnet_text(addresses.last()) {
            Some(t) => subnet_parts(addresses.drop_last()).push(t),
            None => subnet_parts(addresses.drop_last()),
        },
{
}

#[verifier::rlimit(100)]
proof fn lemma_subnet_parts_contains(addresses: Seq<(Seq<char>, u8)>, x: Seq<u8>)
    ensures
        subnet_parts(addresses).contains(x)
            <==> exists|i: int| 0 <= i < addresses.len() && subnet_text(#[trigger] addresses[i]) == Some(x),
    decreases addresses.len(),
{
    if addresses.len() > 0 {
        let t = addresses.drop_last();
        lemma_subnet_parts_contains(t, x);
        lemma_subnet_parts_step(addresses);
        let r = subnet_parts(t);
        let last = subnet_text(addresses.last());
        let whole = subnet_parts(addresses);
        assert(whole == if last is Some { r.push(last->0) } else { r });
        assert(forall|i: int| 0 <= i < t.len() ==> #[trigger] t[i] == addresses[i]);
        if whole.contains(x) {
            let k = choose|k: int| 0 <= k < whole.len() && whole[k] == x;
            if k < r.len() {
                assert(whole[k] == r[k]);
                assert(r.contains(x));
                let i = choose|i: int| 0 <= i < t.len() && subnet_text(#[trigger] t[i]) == Some(x);
                assert(addresses[i] == t[i]);
            } else {
                assert(last == Some(x));
                assert(subnet_text(addresses[addresses.len() - 1]) == Some(x));
            }
        }
        if exists|i: int| 0 <= i < addresses.len() && subnet_text(#[trigger] addresses[i]) == Some(x) {
            let i = choose|i: int| 0 <= i < addresses.len() && subnet_text(#[trigger] addresses[i]) == Some(x);
            if i < t.len() {
                assert(subnet_text(t[i]) == Some(x));
                assert(r.contains(x));
                let k = choose|k: int| 0 <= k < r.len() && r[k] == x;
                assert(whole[k] == x);
            } else {
                assert(addresses[i] == addresses.last());
                assert(whole[r.len() as int] == x);
            }
        }
    }
}

/// The subnets the phone's addresses are on, as the fingerprint names them.
#[verifier::opaque]
pub open spec fn subnets(addresses: Seq<(Seq<char>, u8)>) -> Set<Seq<u8>> {
    Set::new(|x: Seq<u8>| exists|i: int| 0 <= i < addresses.len() && subnet_text(#[trigger] addresses[i]) == Some(x))
}

#[verifier::rlimit(100)]
proof fn lemma_network_parts_set(
    link: PhoneLink,
    addresses: Seq<(Seq<char>, u8)>,
    other: Seq<(Seq<char>, u8)>,
    gateway: Option<Seq<char>>,
)
    requires
        subnets(addresses) == subnets(other),
    ensures
        network_parts(link, addresses, gateway).to_set() == network_parts(link, other, gateway).to_set(),
{
    assert forall|x: Seq<u8>| subnet_parts(addresses).contains(x) <==> subnet_parts(other).contains(x) by {
        lemma_subnet_parts_contains(addresses, x);
        lemma_subnet_parts_contains(other, x);
        reveal(subnets);
        assert(subnets(addresses).contains(x)
            <==> exists|i: int| 0 <= i < addresses.len() && subnet_text(#[trigger] addresses[i]) == Some(x));
        assert(subnets(other).contains(x)
            <==> exists|i: int| 0 <= i < other.len() && subnet_text(#[trigger] other[i]) == Some(x));
    }
    let a = subnet_parts(addresses);
    let b = subnet_parts(other);
    match link {
        PhoneLink::Offline => {},
        PhoneLink::Cellular => {},
        _ => match gateway_part(gateway) {
            Some(g) => {
                assert forall|x: Seq<u8>| a.push(g).contains(x) <==> b.push(g).contains(x) by {
                    if a.push(g).contains(x) {
                        let k = choose|k: int| 0 <= k < a.push(g).len() && a.push(g)[k] == x;
                        if k < a.len() {
                            assert(a[k] == x);
                            assert(b.contains(x));
                            let m = choose|m: int| 0 <= m < b.len() && b[m] == x;
                            assert(b.push(g)[m] == x);
                        } else {
                            assert(b.push(g)[b.len() as int] == x);
                        }
                    }
                    if b.push(g).contains(x) {
                        let k = choose|k: int| 0 <= k < b.push(g).len() && b.push(g)[k] == x;
                        if k < b.len() {
                            assert(b[k] == x);
                            assert(a.contains(x));
                            let m = choose|m: int| 0 <= m < a.len() && a[m] == x;
                            assert(a.push(g)[m] == x);
                        } else {
                            assert(a.push(g)[a.len() as int] == x);
                        }
                    }
                }
                assert(a.push(g).to_set() =~= b.push(g).to_set());
            },
            None => {
                assert(a.to_set() =~= b.to_set());
            },
        },
    }
}

/// The fingerprint names the network by the subnets of the phone's addresses, not by the
/// addresses themselves: addresses in another order, listed more than once, with other host bits
/// inside the same subnets, or with addresses that name no subnet added or left out, give the same
/// fingerprint.
pub proof fn only_the_subnets_of_the_addresses_name_the_network(
    salt: Seq<u8>,
    link: PhoneLink,
    addresses: Seq<(Seq<char>, u8)>,
    other: Seq<(Seq<char>, u8)>,
    gateway: Option<Seq<char>>,
)
    requires
        subnets(addresses) == subnets(other),
    ensures
        fingerprint_input(salt, link, addresses, gateway) == fingerprint_input(salt, link, other, gateway),
{
    let pa = network_parts(link, addresses, gateway);
    let pb = network_parts(link, other, gateway);
    lemma_network_parts_set(link, addresses, other, gateway);
    lemma_sorted_parts(pa);
    lemma_sorted_parts(pb);
    lemma_dedup_adjacent(sorted_parts(pa));
    lemma_dedup_adjacent(sorted_parts(pb));
    lemma_strictly_ascending_unique(dedup_adjacent(sorted_parts(pa)), dedup_adjacent(sorted_parts(pb)));
    if pa.len() > 0 {
        assert(pa.to_set().contains(pa[0]));
        assert(pb.contains(pa[0]));
    }
    if pb.len() > 0 {
        assert(pb.to_set().contains(pb[0]));
        assert(pa.contains(pb[0]));
    }
}

/// In particular, the phone's addresses in another order, or with some listed more than once,
/// give the same fingerprint.
pub proof fn the_order_and_repeats_of_addresses_leave_the_fingerprint(
    salt: Seq<u8>,
    link: PhoneLink,
    addresses: Seq<(Seq<char>, u8)>,
    other: Seq<(Seq<char>, u8)>,
    gateway: Option<Seq<char>>,
)
    requires
        addresses.to_set() == other.to_set(),
    ensures
        fingerprint_input(salt, link, addresses, gateway) == fingerprint_input(salt, link, other, gateway),
{
    reveal(subnets);
    assert forall|x: Seq<u8>| subnets(addresses).contains(x) <==> subnets(other).contains(x) by {
        if subnets(addresses).contains(x) {
            let i = choose|i: int| 0 <= i < addresses.len() && subnet_text(#[trigger] addresses[i]) == Some(x);
            assert(addresses.to_set().contains(addresses[i]));
            assert(other.contains(addresses[i]));
            let j = choose|j: int| 0 <= j < other.len() && other[j] == addresses[i];
            assert(subnet_text(other[j]) == Some(x));
        }
        if subnets(other).contains(x) {
            let i = choose|i: int| 0 <= i < other.len() && subnet_text(#[trigger] other[i]) == Some(x);
            assert(other.to_set().contains(other[i]));
            assert(addresses.contains(other[i]));
            let j = choose|j: int| 0 <= j < addresses.len() && addresses[j] == other[i];
            assert(subnet_text(addresses[j]) == Some(x));
        }
    }
    assert(subnets(addresses) =~= subnets(other));
    only_the_subnets_of_the_addresses_name_the_network(salt, link, addresses, other, gateway);
}

} // verus!
