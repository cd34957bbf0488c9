//! Which addresses a phone tries, in what order, and when each attempt starts and gives up.
//!
//! - The address that worked last time on this same network goes first.
//! - Then addresses Bonjour resolved just now, then local addresses in the phone's own subnet.
//! - Then Tailscale addresses, then every other saved address.
//! - Attempts are staggered, not queued: each starts at its `start_after_millis`, or as soon as
//!   every attempt started before it has failed, whichever comes first.
use vstd::prelude::*;

use crate::routes::address::{
    fingerprint_of, kind_of, on_phone_subnet, on_subnet, phone_addresses, route_kind, PhoneNetwork,
    RouteKind,
};

verus! {

/// Attempts start at least this far apart.
pub const STAGGER_MILLIS: u32 = 100;
/// Tailscale addresses start no earlier than this, giving the local network a head start.
pub const TAILSCALE_START_MILLIS: u32 = 250;
/// Every other saved address starts no earlier than this.
pub const OTHER_START_MILLIS: u32 = 500;
/// A local address that has not connected by now is not there.
pub const LOCAL_TIMEOUT_MILLIS: u32 = 3000;
/// A tunnel may need to wake up or relay through a DERP server first.
pub const TUNNEL_TIMEOUT_MILLIS: u32 = 6000;
/// The whole race gives up after this.
pub const RACE_DEADLINE_MILLIS: u32 = 12000;
/// More than a host ever has; anything past it is not tried.
pub const MAX_ATTEMPTS: usize = 16;
/// Networks remembered per paired computer.
pub const MAX_REMEMBERED: usize = 8;

/// An address and port a computer was reached at.
#[derive(Clone, Debug, PartialEq, Eq, Hash)]
pub struct RouteAddress {
    pub address: String,
    pub port: u16,
}

impl View for RouteAddress {
    type V = (Seq<char>, u16);

    open spec fn view(&self) -> (Seq<char>, u16) {
        (self.address@, self.port)
    }
}

impl RouteAddress {
    /// A copy of this address.
    pub fn duplicate(&self) -> (r: Self)
        ensures
            r@ == self@,
    {
        RouteAddress { address: self.address.clone(), port: self.port }
    }

    /// Whether both name the same address and port.
    pub fn same_as(&self, other: &RouteAddress) -> (r: bool)
        ensures
            r == (self@ == other@),
    {
        self.port == other.port && self.address == other.address
    }
}

/// The address that last connected on one network.
#[derive(Clone, Debug, PartialEq, Eq)]
pub struct RememberedRoute {
    pub fingerprint: String,
    pub route: RouteAddress,
}

impl View for RememberedRoute {
    type V = (Seq<char>, (Seq<char>, u16));

    open spec fn view(&self) -> (Seq<char>, (Seq<char>, u16)) {
        (self.fingerprint@, self.route@)
    }
}

#[derive(Clone, Debug, PartialEq, Eq)]
pub struct PlannedAttempt {
    pub route: RouteAddress,
    pub kind: RouteKind,
    /// 0 remembered, 1 Bonjour or this subnet, 2 Tailscale, 3 anything else.
    pub tier: u8,
    pub start_after_millis: u32,
    pub timeout_millis: u32,
}

impl View for PlannedAttempt {
    type V = ((Seq<char>, u16), RouteKind, u8, u32, u32);

    open spec fn view(&self) -> ((Seq<char>, u16), RouteKind, u8, u32, u32) {
        (self.route@, self.kind, self.tier, self.start_after_millis, self.timeout_millis)
    }
}

#[derive(Clone, Debug, PartialEq, Eq)]
pub struct RoutePlan {
    pub attempts: Vec<PlannedAttempt>,
    /// Give up on the whole race this long after it started.
    pub deadline_millis: u32,
}

pub open spec fn routes_view(routes: Seq<RouteAddress>) -> Seq<(Seq<char>, u16)> {
    routes.map_values(|r: RouteAddress| r@)
}

pub open spec fn remembered_view(entries: Seq<RememberedRoute>) -> Seq<(Seq<char>, (Seq<char>, u16))> {
    entries.map_values(|e: RememberedRoute| e@)
}

pub open spec fn attempts_view(attempts: Seq<PlannedAttempt>) -> Seq<((Seq<char>, u16), RouteKind, u8, u32, u32)> {
    attempts.map_values(|a: PlannedAttempt| a@)
}

// ---------------------------------------------------------------------------------------------
// Ordering addresses by their text, then their port.

/// `a` comes before `b` in code point order: at the first character where they differ, or by
/// being a proper prefix of it. This is the byte order of their UTF-8 encodings.
pub open spec fn chars_lt(a: Seq<char>, b: Seq<char>) -> bool
    decreases a.len(),
{
    if a.len() == 0 {
        b.len() > 0
    } else if b.len() == 0 {
        false
    } else if a[0] != b[0] {
        (a[0] as u32) < (b[0] as u32)
    } else {
        chars_lt(a.drop_first(), b.drop_first())
    }
}

pub open spec fn route_lt(a: (Seq<char>, u16), b: (Seq<char>, u16)) -> bool {
    chars_lt(a.0, b.0) || (a.0 == b.0 && a.1 < b.1)
}

/// Where `x` goes in `s`: before the first element it comes before.
pub open spec fn insert_position(s: Seq<(Seq<char>, u16)>, x: (Seq<char>, u16)) -> int
    decreases s.len(),
{
    if s.len() == 0 || route_lt(x, s[0]) {
        0
    } else {
        1 + insert_position(s.drop_first(), x)
    }
}

/// `s` sorted by inserting each element in turn, from the first.
pub open spec fn sort_routes(s: Seq<(Seq<char>, u16)>) -> Seq<(Seq<char>, u16)>
    decreases s.len(),
{
    if s.len() == 0 {
        s
    } else {
        let rest = sort_routes(s.drop_last());
        rest.insert(insert_position(rest, s.last()), s.last())
    }
}

// ---------------------------------------------------------------------------------------------
// Which addresses are tried.

/// The elements of `s` with every repeat after the first left out.
pub open spec fn dedup(s: Seq<(Seq<char>, u16)>) -> Seq<(Seq<char>, u16)>
    decreases s.len(),
{
    if s.len() == 0 {
        s
    } else {
        let d = dedup(s.drop_last());
        if d.contains(s.last()) {
            d
        } else {
            d.push(s.last())
        }
    }
}

/// The elements of `s` that are (`keep == true`) or are not in `other`, in order.
pub open spec fn select(s: Seq<(Seq<char>, u16)>, other: Seq<(Seq<char>, u16)>, keep: bool) -> Seq<(Seq<char>, u16)>
    decreases s.len(),
{
    if s.len() == 0 {
        s
    } else {
        let r = select(s.drop_last(), other, keep);
        if other.contains(s.last()) == keep {
            r.push(s.last())
        } else {
            r
        }
    }
}

/// Discovered addresses lead, in case one is new; saved ones follow in their own order:
/// saved addresses Bonjour found, then the ones it found that were not saved, sorted, then
/// the rest of the saved ones.
pub open spec fn discovered_first_spec(
    discovered: Seq<(Seq<char>, u16)>,
    saved: Seq<(Seq<char>, u16)>,
) -> Seq<(Seq<char>, u16)> {
    select(saved, discovered, true) + sort_routes(dedup(select(discovered, saved, false)))
        + select(saved, discovered, false)
}

/// The addresses tried: each once, at most `MAX_ATTEMPTS` of them.
pub open spec fn considered(
    saved: Seq<(Seq<char>, u16)>,
    discovered: Seq<(Seq<char>, u16)>,
) -> Seq<(Seq<char>, u16)> {
    let all = dedup(discovered_first_spec(discovered, saved));
    if all.len() > MAX_ATTEMPTS {
        all.take(MAX_ATTEMPTS as int)
    } else {
        all
    }
}

/// The first remembered route for `fingerprint` among the `MAX_REMEMBERED` newest entries.
pub open spec fn remembered_for(
    entries: Seq<(Seq<char>, (Seq<char>, u16))>,
    fingerprint: Seq<char>,
    index: int,
) -> Option<(Seq<char>, u16)>
    decreases entries.len() - index,
{
    if index >= entries.len() || index >= MAX_REMEMBERED {
        None
    } else if entries[index].0 == fingerprint {
        Some(entries[index].1)
    } else {
        remembered_for(entries, fingerprint, index + 1)
    }
}

/// The route that worked last on the network the phone is on, when the network is known.
pub open spec fn remembered_here(
    fingerprint: Option<Seq<char>>,
    entries: Seq<(Seq<char>, (Seq<char>, u16))>,
) -> Option<(Seq<char>, u16)> {
    match fingerprint {
        Some(f) => remembered_for(entries, f, 0),
        None => None,
    }
}

/// 1 for Bonjour or this subnet, 2 for Tailscale, 3 for anything else.
pub open spec fn base_tier(
    route: (Seq<char>, u16),
    discovered: Seq<(Seq<char>, u16)>,
    network: &PhoneNetwork,
) -> u8 {
    let kind = kind_of(route.0);
    if discovered.contains(route) || (kind == RouteKind::LocalNetwork && on_subnet(
        route.0,
        network.link,
        phone_addresses(network),
    )) {
        1
    } else if kind == RouteKind::Tailscale {
        2
    } else {
        3
    }
}

/// Whether some address tried is in the first tier before the remembered one is moved.
pub open spec fn local_here(
    routes: Seq<(Seq<char>, u16)>,
    discovered: Seq<(Seq<char>, u16)>,
    network: &PhoneNetwork,
) -> bool {
    exists|i: int| 0 <= i < routes.len() && base_tier(#[trigger] routes[i], discovered, network) == 1
}

/// The tier an address is tried in. What worked here last time goes first, except that a
/// tunnel never jumps ahead of an address on the phone's own network.
pub open spec fn final_tier(
    route: (Seq<char>, u16),
    routes: Seq<(Seq<char>, u16)>,
    discovered: Seq<(Seq<char>, u16)>,
    network: &PhoneNetwork,
    remembered: Option<(Seq<char>, u16)>,
) -> u8 {
    if remembered == Some(route) && (kind_of(route.0) == RouteKind::LocalNetwork || !local_here(
        routes,
        discovered,
        network,
    )) {
        0
    } else {
        base_tier(route, discovered, network)
    }
}

/// The addresses tried with their tiers and kinds, before they are ordered.
pub open spec fn ranked(
    routes: Seq<(Seq<char>, u16)>,
    discovered: Seq<(Seq<char>, u16)>,
    network: &PhoneNetwork,
    remembered: Option<(Seq<char>, u16)>,
) -> Seq<(u8, (Seq<char>, u16), RouteKind)> {
    routes.map_values(
        |r: (Seq<char>, u16)|
            (final_tier(r, routes, discovered, network, remembered), r, kind_of(r.0)),
    )
}

/// The entries of `s` in tier `tier`, in order.
pub open spec fn in_tier(s: Seq<(u8, (Seq<char>, u16), RouteKind)>, tier: u8) -> Seq<(u8, (Seq<char>, u16), RouteKind)>
    decreases s.len(),
{
    if s.len() == 0 {
        s
    } else {
        let r = in_tier(s.drop_last(), tier);
        if s.last().0 == tier {
            r.push(s.last())
        } else {
            r
        }
    }
}

/// Ordered by tier, keeping the order within a tier.
pub open spec fn by_tier(s: Seq<(u8, (Seq<char>, u16), RouteKind)>) -> Seq<(u8, (Seq<char>, u16), RouteKind)> {
    in_tier(s, 0) + in_tier(s, 1) + in_tier(s, 2) + in_tier(s, 3)
}

// ---------------------------------------------------------------------------------------------
// When each attempt starts and gives up.

/// The earliest an attempt in `tier` starts.
pub open spec fn tier_floor(tier: u8) -> int {
    if tier <= 1 {
        0
    } else if tier == 2 {
        TAILSCALE_START_MILLIS as int
    } else {
        OTHER_START_MILLIS as int
    }
}

/// When attempt `i` starts: the first at once, each later one at its tier's floor but at least
/// `STAGGER_MILLIS` after the one before it.
pub open spec fn start_at(tiers: Seq<u8>, i: int) -> int
    decreases i,
{
    if i <= 0 {
        0
    } else {
        let after = start_at(tiers, i - 1) + STAGGER_MILLIS;
        if tier_floor(tiers[i]) > after {
            tier_floor(tiers[i])
        } else {
            after
        }
    }
}

/// How long an attempt may take, before the race's deadline cuts it short.
pub open spec fn timeout_for(tier: u8, kind: RouteKind, start: int) -> int {
    let limit = if tier <= 1 && kind == RouteKind::LocalNetwork {
        LOCAL_TIMEOUT_MILLIS as int
    } else {
        TUNNEL_TIMEOUT_MILLIS as int
    };
    let left = if start < RACE_DEADLINE_MILLIS { RACE_DEADLINE_MILLIS - start } else { 0 };
    if limit < left {
        limit
    } else {
        left
    }
}

/// The planned attempts for ordered entries: times as above, and a single address gets the
/// whole race.
pub open spec fn timed(s: Seq<(u8, (Seq<char>, u16), RouteKind)>) -> Seq<((Seq<char>, u16), RouteKind, u8, u32, u32)> {
    let tiers = s.map_values(|e: (u8, (Seq<char>, u16), RouteKind)| e.0);
    Seq::new(
        s.len(),
        |i: int|
            {
                let start = start_at(tiers, i);
                let timeout = if s.len() == 1 {
                    RACE_DEADLINE_MILLIS as int
                } else {
                    timeout_for(s[i].0, s[i].2, start)
                };
                (s[i].1, s[i].2, s[i].0, start as u32, timeout as u32)
            },
    )
}

/// The whole plan for one connection.
pub open spec fn plan_spec(
    saved: Seq<(Seq<char>, u16)>,
    discovered: Seq<(Seq<char>, u16)>,
    network: &PhoneNetwork,
    remembered: Seq<(Seq<char>, (Seq<char>, u16))>,
) -> Seq<((Seq<char>, u16), RouteKind, u8, u32, u32)> {
    let routes = considered(saved, discovered);
    let here = remembered_here(fingerprint_of(network), remembered);
    timed(by_tier(ranked(routes, discovered, network, here)))
}


// ---------------------------------------------------------------------------------------------
// Executable pieces.

proof fn lemma_routes_view_push(v: Seq<RouteAddress>, x: RouteAddress)
    ensures
        routes_view(v.push(x)) == routes_view(v).push(x@),
{
    assert(routes_view(v.push(x)) =~= routes_view(v).push(x@));
}

proof fn lemma_routes_view_take(v: Seq<RouteAddress>, i: int)
    requires
        0 <= i <= v.len(),
    ensures
        routes_view(v.take(i)) == routes_view(v).take(i),
{
    assert(routes_view(v.take(i)) =~= routes_view(v).take(i));
}

/// Whether `routes` holds `route`.
fn holds_route(routes: &Vec<RouteAddress>, route: &RouteAddress) -> (r: bool)
    ensures
        r == routes_view(routes@).contains(route@),
{
    let mut i: usize = 0;
    while i < routes.len()
        invariant
            i <= routes@.len(),
            forall|j: int| 0 <= j < i ==> routes_view(routes@)[j] != route@,
        decreases routes@.len() - i,
    {
        if routes[i].same_as(route) {
            proof {
                assert(routes_view(routes@)[i as int] == route@);
            }
            return true;
        }
        i = i + 1;
    }
    false
}

/// The routes of `s` that are (or are not) in `other`, in order.
fn select_routes(s: &Vec<RouteAddress>, other: &Vec<RouteAddress>, keep: bool) -> (r: Vec<RouteAddress>)
    ensures
        routes_view(r@) == select(routes_view(s@), routes_view(other@), keep),
{
    let mut out: Vec<RouteAddress> = Vec::new();
    let mut i: usize = 0;
    while i < s.len()
        invariant
            i <= s@.len(),
            routes_view(out@) == select(routes_view(s@).take(i as int), routes_view(other@), keep),
        decreases s@.len() - i,
    {
        let present = holds_route(other, &s[i]);
        proof {
            let t = routes_view(s@).take(i + 1);
            assert(t.drop_last() =~= routes_view(s@).take(i as int));
            assert(t.last() == s@[i as int]@);
        }
        if present == keep {
            let copy = s[i].duplicate();
            proof {
                lemma_routes_view_push(out@, copy);
            }
            out.push(copy);
        }
        i = i + 1;
    }
    proof {
        assert(routes_view(s@).take(s@.len() as int) =~= routes_view(s@));
    }
    out
}

/// `s` with repeats after the first left out.
fn dedup_routes(s: &Vec<RouteAddress>) -> (r: Vec<RouteAddress>)
    ensures
        routes_view(r@) == dedup(routes_view(s@)),
{
    let mut out: Vec<RouteAddress> = Vec::new();
    let mut i: usize = 0;
    while i < s.len()
        invariant
            i <= s@.len(),
            routes_view(out@) == dedup(routes_view(s@).take(i as int)),
        decreases s@.len() - i,
    {
        let present = holds_route(&out, &s[i]);
        proof {
            let t = routes_view(s@).take(i + 1);
            assert(t.drop_last() =~= routes_view(s@).take(i as int));
            assert(t.last() == s@[i as int]@);
        }
        if !present {
            let copy = s[i].duplicate();
            proof {
                lemma_routes_view_push(out@, copy);
            }
            out.push(copy);
        }
        i = i + 1;
    }
    proof {
        assert(routes_view(s@).take(s@.len() as int) =~= routes_view(s@));
    }
    out
}

/// Whether `a` comes before `b` by code point.
pub(crate) fn chars_less(a: &[char], b: &[char]) -> (r: bool)
    ensures
        r == chars_lt(a@, b@),
{
    let mut i: usize = 0;
    proof {
        assert(a@.skip(0) =~= a@);
        assert(b@.skip(0) =~= b@);
    }
    while i < a.len() && i < b.len() && a[i] == b[i]
        invariant
            i <= a@.len(),
            i <= b@.len(),
            chars_lt(a@, b@) == chars_lt(a@.skip(i as int), b@.skip(i as int)),
        decreases a@.len() - i,
    {
        proof {
            assert(a@.skip(i as int).drop_first() =~= a@.skip(i + 1));
            assert(b@.skip(i as int).drop_first() =~= b@.skip(i + 1));
        }
        i = i + 1;
    }
    if i == a.len() {
        i < b.len()
    } else if i == b.len() {
        false
    } else {
        (a[i] as u32) < (b[i] as u32)
    }
}

/// Whether `a` comes before `b`: by address text, then by port.
fn route_less(a: &RouteAddress, b: &RouteAddress) -> (r: bool)
    ensures
        r == route_lt(a@, b@),
{
    let left = crate::text::chars_of(a.address.as_str());
    let right = crate::text::chars_of(b.address.as_str());
    chars_less(&left, &right) || (a.address == b.address && a.port < b.port)
}

/// `s` sorted by inserting each route in turn.
fn sorted_routes(s: &Vec<RouteAddress>) -> (r: Vec<RouteAddress>)
    ensures
        routes_view(r@) == sort_routes(routes_view(s@)),
{
    let mut out: Vec<RouteAddress> = Vec::new();
    let mut i: usize = 0;
    while i < s.len()
        invariant
            i <= s@.len(),
            routes_view(out@) == sort_routes(routes_view(s@).take(i as int)),
        decreases s@.len() - i,
    {
        let x = s[i].duplicate();
        let mut p: usize = 0;
        proof {
            assert(routes_view(out@).skip(0) =~= routes_view(out@));
        }
        while p < out.len() && !route_less(&x, &out[p])
            invariant
                p <= out@.len(),
                insert_position(routes_view(out@), x@) == p + insert_position(routes_view(out@).skip(p as int), x@),
            decreases out@.len() - p,
        {
            proof {
                assert(routes_view(out@).skip(p as int).drop_first() =~= routes_view(out@).skip(p + 1));
            }
            p = p + 1;
        }
        proof {
            let t = routes_view(s@).take(i + 1);
            assert(t.drop_last() =~= routes_view(s@).take(i as int));
            assert(t.last() == s@[i as int]@);
            assert(insert_position(routes_view(out@).skip(p as int), x@) == 0);
            assert(routes_view(out@.insert(p as int, x)) =~= routes_view(out@).insert(p as int, x@));
        }
        out.insert(p, x);
        i = i + 1;
    }
    proof {
        assert(routes_view(s@).take(s@.len() as int) =~= routes_view(s@));
    }
    out
}


fn append_routes(out: &mut Vec<RouteAddress>, more: &Vec<RouteAddress>)
    ensures
        routes_view(final(out)@) == routes_view(old(out)@) + routes_view(more@),
{
    let ghost start = out@;
    let mut i: usize = 0;
    while i < more.len()
        invariant
            i <= more@.len(),
            routes_view(out@) == routes_view(start) + routes_view(more@).take(i as int),
        decreases more@.len() - i,
    {
        let copy = more[i].duplicate();
        proof {
            lemma_routes_view_push(out@, copy);
            assert(routes_view(more@).take(i + 1) =~= routes_view(more@).take(i as int).push(copy@));
            assert(routes_view(start) + routes_view(more@).take(i + 1) =~= (routes_view(start)
                + routes_view(more@).take(i as int)).push(copy@));
        }
        out.push(copy);
        i = i + 1;
    }
    proof {
        assert(routes_view(more@).take(more@.len() as int) =~= routes_view(more@));
    }
}

/// Discovered addresses lead, in case one is new; saved ones follow in their own order.
fn discovered_first(discovered: &Vec<RouteAddress>, saved: &Vec<RouteAddress>) -> (r: Vec<RouteAddress>)
    ensures
        routes_view(r@) == discovered_first_spec(routes_view(discovered@), routes_view(saved@)),
{
    let found_saved = select_routes(saved, discovered, true);
    let new_found = select_routes(discovered, saved, false);
    let fresh = sorted_routes(&dedup_routes(&new_found));
    let rest = select_routes(saved, discovered, false);
    let mut out = found_saved;
    append_routes(&mut out, &fresh);
    append_routes(&mut out, &rest);
    out
}

/// The addresses tried: each once, at most `MAX_ATTEMPTS`.
fn considered_routes(saved: &Vec<RouteAddress>, discovered: &Vec<RouteAddress>) -> (r: Vec<RouteAddress>)
    ensures
        routes_view(r@) == considered(routes_view(saved@), routes_view(discovered@)),
        r@.len() <= MAX_ATTEMPTS,
{
    let mut all = dedup_routes(&discovered_first(discovered, saved));
    if all.len() > MAX_ATTEMPTS {
        proof {
            lemma_routes_view_take(all@, MAX_ATTEMPTS as int);
        }
        all.truncate(MAX_ATTEMPTS);
    }
    all
}

/// The route that last worked on the phone's network, among the newest remembered entries.
fn remembered_route(network: &PhoneNetwork, remembered: &Vec<RememberedRoute>) -> (r: Option<RouteAddress>)
    ensures
        match r {
            Some(route) => remembered_here(fingerprint_of(network), remembered_view(remembered@)) == Some(route@),
            None => remembered_here(fingerprint_of(network), remembered_view(remembered@)) is None,
        },
{
    let fingerprint = match &network.fingerprint {
        Some(f) => f,
        None => {
            return None;
        },
    };
    let ghost entries = remembered_view(remembered@);
    let mut i: usize = 0;
    while i < remembered.len() && i < MAX_REMEMBERED
        invariant
            i <= remembered@.len(),
            entries == remembered_view(remembered@),
            remembered_for(entries, fingerprint@, 0) == remembered_for(entries, fingerprint@, i as int),
            fingerprint_of(network) == Some(fingerprint@),
        decreases remembered@.len() - i,
    {
        if remembered[i].fingerprint == *fingerprint {
            proof {
                assert(entries[i as int] == remembered@[i as int]@);
                assert(fingerprint_of(network) == Some(fingerprint@));
            }
            return Some(remembered[i].route.duplicate());
        }
        proof {
            assert(entries[i as int] == remembered@[i as int]@);
        }
        i = i + 1;
    }
    None
}


pub open spec fn entries_view(v: Seq<(u8, RouteAddress, RouteKind)>) -> Seq<(u8, (Seq<char>, u16), RouteKind)> {
    v.map_values(|e: (u8, RouteAddress, RouteKind)| (e.0, e.1@, e.2))
}

fn base_tier_of(route: &RouteAddress, discovered: &Vec<RouteAddress>, network: &PhoneNetwork) -> (r: (u8, RouteKind))
    ensures
        r.0 == base_tier(route@, routes_view(discovered@), network),
        r.1 == kind_of(route@.0),
{
    let kind = route_kind(route.address.as_str());
    let tier = if holds_route(discovered, route) || (kind == RouteKind::LocalNetwork
        && on_phone_subnet(route.address.as_str(), network)) {
        1
    } else if kind == RouteKind::Tailscale {
        2
    } else {
        3
    };
    (tier, kind)
}

/// The routes with the tier each is tried in and its kind.
fn rank_routes(
    routes: &Vec<RouteAddress>,
    discovered: &Vec<RouteAddress>,
    network: &PhoneNetwork,
    here: &Option<RouteAddress>,
) -> (r: Vec<(u8, RouteAddress, RouteKind)>)
    ensures
        entries_view(r@) == ranked(
            routes_view(routes@),
            routes_view(discovered@),
            network,
            match here {
                Some(h) => Some(h@),
                None => None,
            },
        ),
{
    let ghost rv = routes_view(routes@);
    let ghost dv = routes_view(discovered@);
    let ghost hv = match here {
        Some(h) => Some(h@),
        None => None::<(Seq<char>, u16)>,
    };
    let mut bases: Vec<(u8, RouteKind)> = Vec::new();
    let mut any_local = false;
    let mut i: usize = 0;
    while i < routes.len()
        invariant
            i <= routes@.len(),
            rv == routes_view(routes@),
            dv == routes_view(discovered@),
            bases@.len() == i,
            forall|j: int| 0 <= j < i ==> #[trigger] bases@[j] == (base_tier(rv[j], dv, network), kind_of(rv[j].0)),
            any_local == exists|j: int| 0 <= j < i && base_tier(#[trigger] rv[j], dv, network) == 1,
        decreases routes@.len() - i,
    {
        let b = base_tier_of(&routes[i], discovered, network);
        proof {
            assert(rv[i as int] == routes@[i as int]@);
        }
        if b.0 == 1 {
            any_local = true;
        }
        bases.push(b);
        i = i + 1;
    }
    proof {
        assert(any_local == local_here(rv, dv, network));
    }
    let mut out: Vec<(u8, RouteAddress, RouteKind)> = Vec::new();
    let mut k: usize = 0;
    while k < routes.len()
        invariant
            k <= routes@.len(),
            rv == routes_view(routes@),
            dv == routes_view(discovered@),
            bases@.len() == routes@.len(),
            forall|j: int| 0 <= j < routes@.len() ==> #[trigger] bases@[j] == (base_tier(rv[j], dv, network), kind_of(rv[j].0)),
            any_local == local_here(rv, dv, network),
            hv == match here {
                Some(h) => Some(h@),
                None => None,
            },
            entries_view(out@) == ranked(rv, dv, network, hv).take(k as int),
        decreases routes@.len() - k,
    {
        let (base, kind) = bases[k];
        let promoted = match here {
            Some(h) => h.same_as(&routes[k]) && (kind == RouteKind::LocalNetwork || !any_local),
            None => false,
        };
        let tier = if promoted { 0 } else { base };
        let entry = (tier, routes[k].duplicate(), kind);
        proof {
            assert(rv[k as int] == routes@[k as int]@);
            assert(ranked(rv, dv, network, hv)[k as int] == (tier, rv[k as int], kind));
            assert(entries_view(out@.push(entry)) =~= entries_view(out@).push((tier, entry.1@, kind)));
            assert(ranked(rv, dv, network, hv).take(k + 1) =~= ranked(rv, dv, network, hv).take(k as int).push((tier, rv[k as int], kind)));
        }
        out.push(entry);
        k = k + 1;
    }
    proof {
        assert(ranked(rv, dv, network, hv).take(routes@.len() as int) =~= ranked(rv, dv, network, hv));
    }
    out
}

fn copy_entry(e: &(u8, RouteAddress, RouteKind)) -> (r: (u8, RouteAddress, RouteKind))
    ensures
        (r.0, r.1@, r.2) == (e.0, e.1@, e.2),
{
    (e.0, e.1.duplicate(), e.2)
}

/// The entries in tier `tier`, appended to `out`.
fn append_tier(out: &mut Vec<(u8, RouteAddress, RouteKind)>, entries: &Vec<(u8, RouteAddress, RouteKind)>, tier: u8)
    ensures
        entries_view(final(out)@) == entries_view(old(out)@) + in_tier(entries_view(entries@), tier),
{
    let ghost start = entries_view(out@);
    let ghost ev = entries_view(entries@);
    let mut i: usize = 0;
    while i < entries.len()
        invariant
            i <= entries@.len(),
            ev == entries_view(entries@),
            entries_view(out@) == start + in_tier(ev.take(i as int), tier),
        decreases entries@.len() - i,
    {
        proof {
            let t = ev.take(i + 1);
            assert(t.drop_last() =~= ev.take(i as int));
            assert(t.last() == ev[i as int]);
        }
        if entries[i].0 == tier {
            let e = copy_entry(&entries[i]);
            proof {
                assert(entries_view(out@.push(e)) =~= entries_view(out@).push((e.0, e.1@, e.2)));
                assert(start + in_tier(ev.take(i as int), tier).push(ev[i as int]) =~= (start + in_tier(ev.take(i as int), tier)).push(ev[i as int]));
            }
            out.push(e);
        }
        i = i + 1;
    }
    proof {
        assert(ev.take(entries@.len() as int) =~= ev);
    }
}

/// Ordered by tier, keeping the order within each tier.
fn order_by_tier(entries: &Vec<(u8, RouteAddress, RouteKind)>) -> (r: Vec<(u8, RouteAddress, RouteKind)>)
    ensures
        entries_view(r@) == by_tier(entries_view(entries@)),
{
    let mut out: Vec<(u8, RouteAddress, RouteKind)> = Vec::new();
    proof {
        assert(entries_view(out@) =~= Seq::empty());
    }
    append_tier(&mut out, entries, 0);
    append_tier(&mut out, entries, 1);
    append_tier(&mut out, entries, 2);
    append_tier(&mut out, entries, 3);
    proof {
        let ev = entries_view(entries@);
        assert(Seq::<(u8, (Seq<char>, u16), RouteKind)>::empty() + in_tier(ev, 0) =~= in_tier(ev, 0));
    }
    out
}

pub(crate) proof fn lemma_start_bounds(tiers: Seq<u8>, i: int)
    requires
        0 <= i,
    ensures
        0 <= start_at(tiers, i) <= OTHER_START_MILLIS + STAGGER_MILLIS * i,
    decreases i,
{
    if i > 0 {
        lemma_start_bounds(tiers, i - 1);
    }
}

/// Times the ordered entries.
fn time_entries(entries: &Vec<(u8, RouteAddress, RouteKind)>) -> (r: Vec<PlannedAttempt>)
    requires
        entries@.len() <= MAX_ATTEMPTS,
    ensures
        attempts_view(r@) == timed(entries_view(entries@)),
{
    let ghost ev = entries_view(entries@);
    let ghost tiers = ev.map_values(|e: (u8, (Seq<char>, u16), RouteKind)| e.0);
    let n = entries.len();
    let mut out: Vec<PlannedAttempt> = Vec::new();
    let mut previous: u32 = 0;
    let mut i: usize = 0;
    while i < n
        invariant
            n == entries@.len(),
            n <= MAX_ATTEMPTS,
            i <= n,
            ev == entries_view(entries@),
            tiers == ev.map_values(|e: (u8, (Seq<char>, u16), RouteKind)| e.0),
            i > 0 ==> previous == start_at(tiers, i - 1),
            attempts_view(out@) == timed(ev).take(i as int),
        decreases n - i,
    {
        let (tier, _, kind) = entries[i];
        let floor: u32 = if tier <= 1 {
            0
        } else if tier == 2 {
            TAILSCALE_START_MILLIS
        } else {
            OTHER_START_MILLIS
        };
        proof {
            if i > 0 {
                lemma_start_bounds(tiers, i - 1);
            }
        }
        // The first attempt never waits: a head start only matters over an attempt ahead of it.
        let start: u32 = if i == 0 {
            0
        } else if floor > previous + STAGGER_MILLIS {
            floor
        } else {
            previous + STAGGER_MILLIS
        };
        let limit: u32 = if tier <= 1 && kind == RouteKind::LocalNetwork {
            LOCAL_TIMEOUT_MILLIS
        } else {
            TUNNEL_TIMEOUT_MILLIS
        };
        let left: u32 = if start < RACE_DEADLINE_MILLIS { RACE_DEADLINE_MILLIS - start } else { 0 };
        let timeout: u32 = if n == 1 {
            RACE_DEADLINE_MILLIS
        } else if limit < left {
            limit
        } else {
            left
        };
        let attempt = PlannedAttempt {
            route: entries[i].1.duplicate(),
            kind,
            tier,
            start_after_millis: start,
            timeout_millis: timeout,
        };
        proof {
            assert(tiers[i as int] == tier);
            assert(start as int == start_at(tiers, i as int));
            lemma_start_bounds(tiers, i as int);
            assert(timed(ev)[i as int] == attempt@);
            assert(attempts_view(out@.push(attempt)) =~= attempts_view(out@).push(attempt@));
            assert(timed(ev).take(i + 1) =~= timed(ev).take(i as int).push(attempt@));
        }
        out.push(attempt);
        previous = start;
        i = i + 1;
    }
    proof {
        assert(timed(ev).take(n as int) =~= timed(ev));
    }
    out
}

/// Orders and times the attempts for one connection.
///
/// `saved` is the host's saved addresses, most recently working first. `discovered` is what
/// Bonjour resolved for this host just now, if anything.
pub fn plan_routes(
    saved: Vec<RouteAddress>,
    discovered: Vec<RouteAddress>,
    network: PhoneNetwork,
    remembered: Vec<RememberedRoute>,
) -> (r: RoutePlan)
    ensures
        attempts_view(r.attempts@) == plan_spec(
            routes_view(saved@),
            routes_view(discovered@),
            &network,
            remembered_view(remembered@),
        ),
        r.deadline_millis == RACE_DEADLINE_MILLIS,
{
    let here = remembered_route(&network, &remembered);
    let routes = considered_routes(&saved, &discovered);
    let entries = rank_routes(&routes, &discovered, &network, &here);
    let ordered = order_by_tier(&entries);
    proof {
        lemma_by_tier_len(entries_view(entries@));
    }
    let attempts = time_entries(&ordered);
    RoutePlan { attempts, deadline_millis: RACE_DEADLINE_MILLIS }
}

/// Sorting by tier keeps every entry: the tiers in use are 0 through 3.
pub(crate) proof fn lemma_by_tier_len(s: Seq<(u8, (Seq<char>, u16), RouteKind)>)
    requires
        forall|i: int| 0 <= i < s.len() ==> #[trigger] s[i].0 <= 3,
    ensures
        by_tier(s).len() == s.len(),
    decreases s.len(),
{
    if s.len() > 0 {
        let t = s.drop_last();
        assert forall|i: int| 0 <= i < t.len() implies #[trigger] t[i].0 <= 3 by {
            assert(t[i] == s[i]);
        }
        lemma_by_tier_len(t);
    }
}

} // verus!
