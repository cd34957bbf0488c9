//! What to remember after a race, and what to tell the person about it.
use vstd::prelude::*;

use crate::routes::address::{
    kind_of, on_phone_subnet, on_subnet, phone_addresses, route_kind, PhoneLink, PhoneNetwork,
    RouteKind,
};
use crate::routes::plan::{routes_view, RememberedRoute, RouteAddress, MAX_REMEMBERED};

verus! {

/// How one attempt ended, as the app's transport saw it.
#[derive(Clone, Copy, Debug, PartialEq, Eq, Structural)]
pub enum AttemptResult {
    Connected,
    /// Something answered at the address and turned the connection away.
    Refused,
    /// The phone had no way to send there: no route, or the network said the host is unreachable.
    Unreachable,
    TimedOut,
    /// Cancelled because another attempt won, or the person gave up.
    Cancelled,
    Failed,
}

#[derive(Clone, Debug, PartialEq, Eq)]
pub struct AttemptOutcome {
    pub route: RouteAddress,
    pub result: AttemptResult,
}

/// What to tell the person after a race, beyond "connected" or "could not connect".
#[derive(Clone, Copy, Debug, PartialEq, Eq, Structural)]
pub enum RouteAdvice {
    NoAdvice,
    /// Connected over Tailscale while the computer's address on this very network did not
    /// answer first, though it started 250 ms ahead: a Tailscale exit node without "Allow
    /// local network access" does exactly this. A cancelled local attempt counts as not
    /// answering.
    LocalNetworkBlockedWhileTailscaleWorks,
    /// Something answered at the computer's address and refused: Remote access is probably off.
    RemoteAccessOff,
    /// On Wi-Fi or Ethernet, with no saved address on this network and no Tailscale address.
    NotOnComputersNetwork,
    /// Away from any local network, with no Tailscale address to try.
    NeedsRemoteRoute,
    /// Every address was tried and none answered.
    ComputerUnreachable,
}

pub open spec fn outcomes_view(outcomes: Seq<AttemptOutcome>) -> Seq<((Seq<char>, u16), AttemptResult)> {
    outcomes.map_values(|o: AttemptOutcome| (o.route@, o.result))
}

/// A local address on the phone's own subnet.
#[verifier::opaque]
pub open spec fn local_here_route(address: Seq<char>, network: &PhoneNetwork) -> bool {
    kind_of(address) == RouteKind::LocalNetwork && on_subnet(address, network.link, phone_addresses(network))
}

pub open spec fn on_lan(link: PhoneLink) -> bool {
    link == PhoneLink::Wifi || link == PhoneLink::Ethernet
}

/// The index of the first outcome that connected, from `i` on.
pub open spec fn first_connected(outcomes: Seq<((Seq<char>, u16), AttemptResult)>, i: int) -> Option<int>
    decreases outcomes.len() - i,
{
    if i < 0 || i >= outcomes.len() {
        None
    } else if outcomes[i].1 == AttemptResult::Connected {
        Some(i)
    } else {
        first_connected(outcomes, i + 1)
    }
}

pub open spec fn did_not_answer(result: AttemptResult) -> bool {
    result == AttemptResult::Unreachable || result == AttemptResult::TimedOut || result
        == AttemptResult::Cancelled
}

/// What, if anything, to tell the person after a race ended with `outcomes`.
pub open spec fn advice_spec(
    saved: Seq<(Seq<char>, u16)>,
    network: &PhoneNetwork,
    outcomes: Seq<((Seq<char>, u16), AttemptResult)>,
) -> RouteAdvice {
    match first_connected(outcomes, 0) {
        Some(w) => {
            let local_failed = exists|i: int|
                0 <= i < outcomes.len() && local_here_route(#[trigger] outcomes[i].0.0, network)
                    && did_not_answer(outcomes[i].1);
            if on_lan(network.link) && kind_of(outcomes[w].0.0) == RouteKind::Tailscale && local_failed {
                RouteAdvice::LocalNetworkBlockedWhileTailscaleWorks
            } else {
                RouteAdvice::NoAdvice
            }
        },
        None => {
            if exists|i: int| 0 <= i < outcomes.len() && #[trigger] outcomes[i].1 == AttemptResult::Refused {
                RouteAdvice::RemoteAccessOff
            } else if !(exists|i: int| 0 <= i < saved.len() && kind_of(#[trigger] saved[i].0) == RouteKind::Tailscale)
                && on_lan(network.link) && !(exists|i: int|
                0 <= i < saved.len() && local_here_route(#[trigger] saved[i].0, network)) {
                RouteAdvice::NotOnComputersNetwork
            } else if !(exists|i: int| 0 <= i < saved.len() && kind_of(#[trigger] saved[i].0) == RouteKind::Tailscale)
                && (network.link == PhoneLink::Cellular || network.link == PhoneLink::Offline) {
                RouteAdvice::NeedsRemoteRoute
            } else {
                RouteAdvice::ComputerUnreachable
            }
        },
    }
}

fn is_local_here(address: &str, network: &PhoneNetwork) -> (r: bool)
    ensures
        r == local_here_route(address@, network),
{
    reveal(local_here_route);
    route_kind(address) == RouteKind::LocalNetwork && on_phone_subnet(address, network)
}

/// What, if anything, to tell the person after a race ended with `outcomes`.
pub fn route_advice(saved: Vec<RouteAddress>, network: PhoneNetwork, outcomes: Vec<AttemptOutcome>) -> (r: RouteAdvice)
    ensures
        r == advice_spec(routes_view(saved@), &network, outcomes_view(outcomes@)),
{
    let ghost ov = outcomes_view(outcomes@);
    let ghost sv = routes_view(saved@);
    let lan = network.link == PhoneLink::Wifi || network.link == PhoneLink::Ethernet;
    let mut w: usize = 0;
    while w < outcomes.len() && outcomes[w].result != AttemptResult::Connected
        invariant
            w <= outcomes@.len(),
            ov == outcomes_view(outcomes@),
            first_connected(ov, 0) == first_connected(ov, w as int),
        decreases outcomes@.len() - w,
    {
        proof {
            assert(ov[w as int].1 == outcomes@[w as int].result);
        }
        w = w + 1;
    }
    if w < outcomes.len() {
        proof {
            assert(ov[w as int].1 == outcomes@[w as int].result);
            assert(first_connected(ov, 0) == Some(w as int));
        }
        let mut local_failed = false;
        let mut i: usize = 0;
        while i < outcomes.len()
            invariant
                i <= outcomes@.len(),
                ov == outcomes_view(outcomes@),
                local_failed == exists|j: int|
                    0 <= j < i && local_here_route(#[trigger] ov[j].0.0, &network) && did_not_answer(ov[j].1),
            decreases outcomes@.len() - i,
        {
            let res = outcomes[i].result;
            let unanswered = res == AttemptResult::Unreachable || res == AttemptResult::TimedOut
                || res == AttemptResult::Cancelled;
            let here = is_local_here(outcomes[i].route.address.as_str(), &network);
            proof {
                assert(ov[i as int] == (outcomes@[i as int].route@, outcomes@[i as int].result));
            }
            proof {
                assert(ov[i as int].0.0 == outcomes@[i as int].route.address@);
                assert(here == local_here_route(ov[i as int].0.0, &network));
                assert(unanswered == did_not_answer(ov[i as int].1));
            }
            if here && unanswered {
                local_failed = true;
            }
            i = i + 1;
        }
        let winner_kind = route_kind(outcomes[w].route.address.as_str());
        proof {
            assert(ov[w as int].0.0 == outcomes@[w as int].route.address@);
        }
        return if lan && winner_kind == RouteKind::Tailscale && local_failed {
            RouteAdvice::LocalNetworkBlockedWhileTailscaleWorks
        } else {
            RouteAdvice::NoAdvice
        };
    }
    proof {
        assert(first_connected(ov, w as int) is None);
    }
    let mut refused = false;
    let mut i: usize = 0;
    while i < outcomes.len()
        invariant
            i <= outcomes@.len(),
            ov == outcomes_view(outcomes@),
            refused == exists|j: int| 0 <= j < i && #[trigger] ov[j].1 == AttemptResult::Refused,
        decreases outcomes@.len() - i,
    {
        proof {
            assert(ov[i as int].1 == outcomes@[i as int].result);
        }
        if outcomes[i].result == AttemptResult::Refused {
            refused = true;
        }
        i = i + 1;
    }
    if refused {
        return RouteAdvice::RemoteAccessOff;
    }
    let mut has_tailscale = false;
    let mut has_local = false;
    let mut k: usize = 0;
    while k < saved.len()
        invariant
            k <= saved@.len(),
            sv == routes_view(saved@),
            has_tailscale == exists|j: int| 0 <= j < k && kind_of(#[trigger] sv[j].0) == RouteKind::Tailscale,
            has_local == exists|j: int| 0 <= j < k && local_here_route(#[trigger] sv[j].0, &network),
        decreases saved@.len() - k,
    {
        proof {
            assert(sv[k as int].0 == saved@[k as int].address@);
        }
        if route_kind(saved[k].address.as_str()) == RouteKind::Tailscale {
            has_tailscale = true;
        }
        if is_local_here(saved[k].address.as_str(), &network) {
            has_local = true;
        }
        k = k + 1;
    }
    if !has_tailscale {
        if lan && !has_local {
            return RouteAdvice::NotOnComputersNetwork;
        }
        if network.link == PhoneLink::Cellular || network.link == PhoneLink::Offline {
            return RouteAdvice::NeedsRemoteRoute;
        }
    }
    RouteAdvice::ComputerUnreachable
}

// ---------------------------------------------------------------------------------------------

/// The entries for networks other than `fingerprint`, in order.
pub open spec fn other_networks(
    entries: Seq<(Seq<char>, (Seq<char>, u16))>,
    fingerprint: Seq<char>,
) -> Seq<(Seq<char>, (Seq<char>, u16))>
    decreases entries.len(),
{
    if entries.len() == 0 {
        entries
    } else {
        let r = other_networks(entries.drop_last(), fingerprint);
        if entries.last().0 != fingerprint {
            r.push(entries.last())
        } else {
            r
        }
    }
}

/// `route` first for `fingerprint`, then the other networks, newest first, keeping at most
/// `MAX_REMEMBERED`.
pub open spec fn remember_spec(
    entries: Seq<(Seq<char>, (Seq<char>, u16))>,
    fingerprint: Seq<char>,
    route: (Seq<char>, u16),
) -> Seq<(Seq<char>, (Seq<char>, u16))> {
    let all = seq![(fingerprint, route)] + other_networks(entries, fingerprint);
    if all.len() > MAX_REMEMBERED {
        all.take(MAX_REMEMBERED as int)
    } else {
        all
    }
}

pub open spec fn memory_view(entries: Seq<RememberedRoute>) -> Seq<(Seq<char>, (Seq<char>, u16))> {
    entries.map_values(|e: RememberedRoute| e@)
}

/// Records `route` as the one that connected on `fingerprint`, keeping the most recent networks.
pub fn remember_route(remembered: Vec<RememberedRoute>, fingerprint: String, route: RouteAddress) -> (r: Vec<RememberedRoute>)
    ensures
        memory_view(r@) == remember_spec(memory_view(remembered@), fingerprint@, route@),
{
    let ghost mv = memory_view(remembered@);
    let ghost fv = fingerprint@;
    let mut out: Vec<RememberedRoute> = Vec::new();
    let first = RememberedRoute { fingerprint: fingerprint.clone(), route };
    out.push(first);
    proof {
        assert(memory_view(out@) =~= seq![(fv, first.route@)]);
        assert(mv.take(0) =~= Seq::<(Seq<char>, (Seq<char>, u16))>::empty());
    }
    let mut i: usize = 0;
    while i < remembered.len()
        invariant
            i <= remembered@.len(),
            mv == memory_view(remembered@),
            fv == fingerprint@,
            memory_view(out@) == seq![(fv, first.route@)] + other_networks(mv.take(i as int), fv),
        decreases remembered@.len() - i,
    {
        proof {
            let t = mv.take(i + 1);
            assert(t.drop_last() =~= mv.take(i as int));
            assert(t.last() == remembered@[i as int]@);
        }
        if remembered[i].fingerprint != fingerprint {
            let entry = RememberedRoute {
                fingerprint: remembered[i].fingerprint.clone(),
                route: remembered[i].route.duplicate(),
            };
            proof {
                assert(memory_view(out@.push(entry)) =~= memory_view(out@).push(entry@));
                assert(seq![(fv, first.route@)] + other_networks(mv.take(i as int), fv).push(entry@)
                    =~= (seq![(fv, first.route@)] + other_networks(mv.take(i as int), fv)).push(entry@));
            }
            out.push(entry);
        }
        i = i + 1;
    }
    proof {
        assert(mv.take(remembered@.len() as int) =~= mv);
    }
    if out.len() > MAX_REMEMBERED {
        proof {
            assert(memory_view(out@.take(MAX_REMEMBERED as int)) =~= memory_view(out@).take(MAX_REMEMBERED as int));
        }
        out.truncate(MAX_REMEMBERED);
    }
    out
}

} // verus!
