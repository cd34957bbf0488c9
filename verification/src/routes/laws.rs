//! What holds of every plan, every memory of routes and every fingerprint.
use vstd::prelude::*;

use crate::routes::address::{ip_of, kind_of, PhoneNetwork, RouteKind};
use crate::routes::fingerprint::{fingerprint_input, masked, subnet_parts, subnet_text};
use crate::routes::address::PhoneLink;
use crate::routes::plan::{base_tier, by_tier, considered, dedup, discovered_first_spec, final_tier, in_tier, insert_position,
    lemma_start_bounds, local_here, plan_spec, ranked, remembered_here, select, sort_routes, start_at, timed,
    MAX_ATTEMPTS, MAX_REMEMBERED, RACE_DEADLINE_MILLIS, STAGGER_MILLIS};
use crate::routes::advice::{advice_spec, first_connected, local_here_route, other_networks, remember_spec, AttemptResult,
    RouteAdvice};
use crate::routes::address::{fingerprint_of, on_subnet, phone_addresses};

verus! {

// ---------------------------------------------------------------------------------------------
// Helpers about ordering by tier.

proof fn lemma_in_tier(s: Seq<(u8, (Seq<char>, u16), RouteKind)>, tier: u8)
    ensures
        in_tier(s, tier).len() <= s.len(),
        forall|k: int| 0 <= k < in_tier(s, tier).len() ==> (#[trigger] in_tier(s, tier)[k]).0 == tier,
        forall|k: int| 0 <= k < in_tier(s, tier).len() ==> s.contains(#[trigger] in_tier(s, tier)[k]),
    decreases s.len(),
{
    if s.len() > 0 {
        lemma_in_tier(s.drop_last(), tier);
        let r = in_tier(s.drop_last(), tier);
        assert forall|k: int| 0 <= k < in_tier(s, tier).len() implies s.contains(#[trigger] in_tier(s, tier)[k]) by {
            if k < r.len() {
                let j = choose|j: int| 0 <= j < s.drop_last().len() && s.drop_last()[j] == r[k];
                assert(s[j] == r[k]);
            } else {
                assert(s[s.len() - 1] == in_tier(s, tier)[k]);
            }
        }
    }
}

proof fn lemma_in_tier_distinct(s: Seq<(u8, (Seq<char>, u16), RouteKind)>, tier: u8)
    requires
        forall|i: int, j: int| 0 <= i < j < s.len() ==> s[i] != s[j],
    ensures
        forall|i: int, j: int| 0 <= i < j < in_tier(s, tier).len() ==> in_tier(s, tier)[i] != in_tier(s, tier)[j],
    decreases s.len(),
{
    if s.len() > 0 {
        let t = s.drop_last();
        assert forall|i: int, j: int| 0 <= i < j < t.len() implies t[i] != t[j] by {
            assert(t[i] == s[i] && t[j] == s[j]);
        }
        lemma_in_tier_distinct(t, tier);
        lemma_in_tier(t, tier);
        let r = in_tier(t, tier);
        if s.last().0 == tier {
            assert forall|i: int, j: int| 0 <= i < j < in_tier(s, tier).len() implies in_tier(s, tier)[i] != in_tier(s, tier)[j] by {
                if j == r.len() {
                    assert(t.contains(r[i]));
                    let k = choose|k: int| 0 <= k < t.len() && t[k] == r[i];
                    assert(s[k] == r[i]);
                    assert(s[s.len() - 1] == in_tier(s, tier)[j]);
                } else {
                    assert(in_tier(s, tier)[i] == r[i] && in_tier(s, tier)[j] == r[j]);
                }
            }
        }
    }
}

/// The tier of each position of `by_tier(s)`, block by block.
proof fn lemma_by_tier_blocks(s: Seq<(u8, (Seq<char>, u16), RouteKind)>)
    ensures
        forall|k: int| 0 <= k < by_tier(s).len() ==> (#[trigger] by_tier(s)[k]).0 == (
            if k < in_tier(s, 0).len() {
                0u8
            } else if k < in_tier(s, 0).len() + in_tier(s, 1).len() {
                1u8
            } else if k < in_tier(s, 0).len() + in_tier(s, 1).len() + in_tier(s, 2).len() {
                2u8
            } else {
                3u8
            }),
        forall|k: int| 0 <= k < by_tier(s).len() ==> s.contains(#[trigger] by_tier(s)[k]),
{
    lemma_in_tier(s, 0);
    lemma_in_tier(s, 1);
    lemma_in_tier(s, 2);
    lemma_in_tier(s, 3);
    let a = in_tier(s, 0);
    let b = in_tier(s, 1);
    let c = in_tier(s, 2);
    let d = in_tier(s, 3);
    assert forall|k: int| 0 <= k < by_tier(s).len() implies (#[trigger] by_tier(s)[k]).0 == (
        if k < a.len() { 0u8 } else if k < a.len() + b.len() { 1u8 } else if k < a.len() + b.len() + c.len() { 2u8 } else { 3u8 })
        && s.contains(by_tier(s)[k]) by {
        if k < a.len() {
            assert(by_tier(s)[k] == a[k]);
        } else if k < a.len() + b.len() {
            assert(by_tier(s)[k] == b[k - a.len()]);
        } else if k < a.len() + b.len() + c.len() {
            assert(by_tier(s)[k] == c[k - a.len() - b.len()]);
        } else {
            assert(by_tier(s)[k] == d[k - a.len() - b.len() - c.len()]);
        }
    }
}

proof fn lemma_ranked_tiers(
    routes: Seq<(Seq<char>, u16)>,
    discovered: Seq<(Seq<char>, u16)>,
    network: &PhoneNetwork,
    here: Option<(Seq<char>, u16)>,
)
    ensures
        forall|i: int| 0 <= i < ranked(routes, discovered, network, here).len() ==>
            #[trigger] ranked(routes, discovered, network, here)[i].0 <= 3,
        ranked(routes, discovered, network, here).len() == routes.len(),
{
}

proof fn lemma_by_tier_len(s: Seq<(u8, (Seq<char>, u16), RouteKind)>)
    requires
        forall|i: int| 0 <= i < s.len() ==> #[trigger] s[i].0 <= 3,
    ensures
        by_tier(s).len() == s.len(),
{
    crate::routes::plan::lemma_by_tier_len(s);
}

proof fn lemma_dedup_distinct(s: Seq<(Seq<char>, u16)>)
    ensures
        forall|i: int, j: int| 0 <= i < j < dedup(s).len() ==> dedup(s)[i] != dedup(s)[j],
    decreases s.len(),
{
    if s.len() > 0 {
        lemma_dedup_distinct(s.drop_last());
        let d = dedup(s.drop_last());
        if !d.contains(s.last()) {
            assert forall|i: int, j: int| 0 <= i < j < dedup(s).len() implies dedup(s)[i] != dedup(s)[j] by {
                if j == d.len() {
                    assert(dedup(s)[i] == d[i]);
                } else {
                    assert(dedup(s)[i] == d[i] && dedup(s)[j] == d[j]);
                }
            }
        }
    }
}

/// The ordered, ranked routes of a plan, before timing.
spec fn ordered(
    saved: Seq<(Seq<char>, u16)>,
    discovered: Seq<(Seq<char>, u16)>,
    network: &PhoneNetwork,
    remembered: Seq<(Seq<char>, (Seq<char>, u16))>,
) -> Seq<(u8, (Seq<char>, u16), RouteKind)> {
    by_tier(ranked(considered(saved, discovered), discovered, network,
        remembered_here(fingerprint_of(network), remembered)))
}

proof fn lemma_ordered_len(
    saved: Seq<(Seq<char>, u16)>,
    discovered: Seq<(Seq<char>, u16)>,
    network: &PhoneNetwork,
    remembered: Seq<(Seq<char>, (Seq<char>, u16))>,
)
    ensures
        ordered(saved, discovered, network, remembered).len() <= MAX_ATTEMPTS,
        plan_spec(saved, discovered, network, remembered).len() == ordered(saved, discovered, network, remembered).len(),
        plan_spec(saved, discovered, network, remembered) == timed(ordered(saved, discovered, network, remembered)),
{
    let routes = considered(saved, discovered);
    let here = remembered_here(fingerprint_of(network), remembered);
    lemma_ranked_tiers(routes, discovered, network, here);
    lemma_by_tier_len(ranked(routes, discovered, network, here));
}

// ---------------------------------------------------------------------------------------------
// Laws of a plan.

/// A plan never holds more than `MAX_ATTEMPTS` attempts, and never the same address twice.
pub proof fn plan_tries_each_address_once(
    saved: Seq<(Seq<char>, u16)>,
    discovered: Seq<(Seq<char>, u16)>,
    network: &PhoneNetwork,
    remembered: Seq<(Seq<char>, (Seq<char>, u16))>,
)
    ensures
        plan_spec(saved, discovered, network, remembered).len() <= MAX_ATTEMPTS,
        forall|i: int, j: int|
            0 <= i < j < plan_spec(saved, discovered, network, remembered).len() ==>
                plan_spec(saved, discovered, network, remembered)[i].0
                    != plan_spec(saved, discovered, network, remembered)[j].0,
{
    lemma_ordered_len(saved, discovered, network, remembered);
    let routes = considered(saved, discovered);
    let here = remembered_here(fingerprint_of(network), remembered);
    let s = ranked(routes, discovered, network, here);
    let all = dedup(crate::routes::plan::discovered_first_spec(discovered, saved));
    lemma_dedup_distinct(crate::routes::plan::discovered_first_spec(discovered, saved));
    assert forall|i: int, j: int| 0 <= i < j < routes.len() implies routes[i] != routes[j] by {
        if all.len() > MAX_ATTEMPTS {
            assert(routes[i] == all[i] && routes[j] == all[j]);
        }
    }
    assert forall|i: int, j: int| 0 <= i < j < s.len() implies s[i] != s[j] by {
        assert(s[i].1 == routes[i] && s[j].1 == routes[j]);
    }
    lemma_in_tier_distinct(s, 0);
    lemma_in_tier_distinct(s, 1);
    lemma_in_tier_distinct(s, 2);
    lemma_in_tier_distinct(s, 3);
    lemma_by_tier_blocks(s);
    let o = by_tier(s);
    let p = plan_spec(saved, discovered, network, remembered);
    assert forall|i: int, j: int| 0 <= i < j < p.len() implies p[i].0 != p[j].0 by {
        assert(p[i].0 == o[i].1 && p[j].0 == o[j].1);
        assert(s.contains(o[i]) && s.contains(o[j]));
        let a = choose|a: int| 0 <= a < s.len() && s[a] == o[i];
        let b = choose|b: int| 0 <= b < s.len() && s[b] == o[j];
        if o[i].1 == o[j].1 {
            // The same route always gets the same tier and kind, so the entries are equal.
            assert(s[a] == s[b]);
            assert(o[i] == o[j]);
            let na = in_tier(s, 0).len();
            let nb = in_tier(s, 1).len();
            let nc = in_tier(s, 2).len();
            assert(o[i].0 == o[j].0);
            if i < na && j < na {
                assert(o[i] == in_tier(s, 0)[i] && o[j] == in_tier(s, 0)[j]);
            } else if na <= i && j < na + nb {
                assert(o[i] == in_tier(s, 1)[i - na] && o[j] == in_tier(s, 1)[j - na]);
            } else if na + nb <= i && j < na + nb + nc {
                assert(o[i] == in_tier(s, 2)[i - na - nb] && o[j] == in_tier(s, 2)[j - na - nb]);
            } else if na + nb + nc <= i {
                assert(o[i] == in_tier(s, 3)[i - na - nb - nc] && o[j] == in_tier(s, 3)[j - na - nb - nc]);
            }
        }
    }
}

proof fn lemma_dedup_contains(s: Seq<(Seq<char>, u16)>)
    ensures
        forall|x: (Seq<char>, u16)| dedup(s).contains(x) <==> s.contains(x),
    decreases s.len(),
{
    if s.len() > 0 {
        let t = s.drop_last();
        lemma_dedup_contains(t);
        let d = dedup(t);
        assert forall|x: (Seq<char>, u16)| dedup(s).contains(x) <==> s.contains(x) by {
            if s.contains(x) {
                let k = choose|k: int| 0 <= k < s.len() && s[k] == x;
                if k < t.len() {
                    assert(t[k] == x);
                    assert(t.contains(x));
                    assert(d.contains(x));
                    let m = choose|m: int| 0 <= m < d.len() && d[m] == x;
                    assert(dedup(s)[m] == x);
                } else if !d.contains(x) {
                    assert(dedup(s)[d.len() as int] == x);
                }
            }
            if dedup(s).contains(x) {
                let k = choose|k: int| 0 <= k < dedup(s).len() && dedup(s)[k] == x;
                if k < d.len() {
                    assert(dedup(s)[k] == d[k]);
                    assert(d.contains(x));
                    assert(t.contains(x));
                    let j = choose|j: int| 0 <= j < t.len() && t[j] == x;
                    assert(s[j] == x);
                } else {
                    assert(s[s.len() - 1] == x);
                }
            }
        }
    }
}

proof fn lemma_select_contains(s: Seq<(Seq<char>, u16)>, other: Seq<(Seq<char>, u16)>, keep: bool)
    ensures
        forall|x: (Seq<char>, u16)| select(s, other, keep).contains(x) <==> s.contains(x) && other.contains(x) == keep,
    decreases s.len(),
{
    if s.len() > 0 {
        let t = s.drop_last();
        lemma_select_contains(t, other, keep);
        let r = select(t, other, keep);
        assert forall|x: (Seq<char>, u16)| select(s, other, keep).contains(x) <==> s.contains(x) && other.contains(x) == keep by {
            if s.contains(x) && other.contains(x) == keep {
                let k = choose|k: int| 0 <= k < s.len() && s[k] == x;
                if k < t.len() {
                    assert(t[k] == x);
                    assert(t.contains(x));
                    let j = choose|j: int| 0 <= j < r.len() && r[j] == x;
                    assert(select(s, other, keep)[j] == x);
                } else {
                    assert(select(s, other, keep)[r.len() as int] == x);
                }
            }
            if select(s, other, keep).contains(x) {
                let k = choose|k: int| 0 <= k < select(s, other, keep).len() && select(s, other, keep)[k] == x;
                if k < r.len() {
                    assert(select(s, other, keep)[k] == r[k]);
                    assert(r.contains(x));
                    assert(t.contains(x));
                    let j = choose|j: int| 0 <= j < t.len() && t[j] == x;
                    assert(s[j] == x);
                } else {
                    assert(s[s.len() - 1] == x);
                }
            }
        }
    }
}

proof fn lemma_insert_position(s: Seq<(Seq<char>, u16)>, x: (Seq<char>, u16))
    ensures
        0 <= insert_position(s, x) <= s.len(),
    decreases s.len(),
{
    if !(s.len() == 0 || crate::routes::plan::route_lt(x, s[0])) {
        lemma_insert_position(s.drop_first(), x);
    }
}

proof fn lemma_sort_contains(s: Seq<(Seq<char>, u16)>)
    ensures
        forall|x: (Seq<char>, u16)| sort_routes(s).contains(x) <==> s.contains(x),
    decreases s.len(),
{
    if s.len() > 0 {
        let t = s.drop_last();
        lemma_sort_contains(t);
        let rest = sort_routes(t);
        let p = insert_position(rest, s.last());
        lemma_insert_position(rest, s.last());
        let r = rest.insert(p, s.last());
        assert(sort_routes(s) == r);
        assert forall|x: (Seq<char>, u16)| r.contains(x) <==> s.contains(x) by {
            if r.contains(x) {
                let k = choose|k: int| 0 <= k < r.len() && r[k] == x;
                if k == p {
                    assert(s[s.len() - 1] == x);
                } else {
                    if k < p {
                        assert(rest[k] == x);
                    } else {
                        assert(rest[k - 1] == x);
                    }
                    assert(rest.contains(x));
                    assert(t.contains(x));
                    let j = choose|j: int| 0 <= j < t.len() && t[j] == x;
                    assert(s[j] == x);
                }
            }
            if s.contains(x) {
                let k = choose|k: int| 0 <= k < s.len() && s[k] == x;
                if k == s.len() - 1 {
                    assert(r[p] == x);
                } else {
                    assert(t[k] == x);
                    assert(t.contains(x));
                    let m = choose|m: int| 0 <= m < rest.len() && rest[m] == x;
                    if m < p {
                        assert(r[m] == x);
                    } else {
                        assert(r[m + 1] == x);
                    }
                }
            }
        }
    }
}

/// The addresses a plan may try are exactly the saved and discovered ones.
proof fn lemma_all_routes(saved: Seq<(Seq<char>, u16)>, discovered: Seq<(Seq<char>, u16)>)
    ensures
        dedup(discovered_first_spec(discovered, saved)).to_set() == (saved + discovered).to_set(),
        dedup(discovered_first_spec(discovered, saved)).no_duplicates(),
{
    let f = discovered_first_spec(discovered, saved);
    let a = select(saved, discovered, true);
    let b = sort_routes(dedup(select(discovered, saved, false)));
    let c = select(saved, discovered, false);
    lemma_select_contains(saved, discovered, true);
    lemma_select_contains(saved, discovered, false);
    lemma_select_contains(discovered, saved, false);
    lemma_dedup_contains(select(discovered, saved, false));
    lemma_sort_contains(dedup(select(discovered, saved, false)));
    lemma_dedup_contains(f);
    lemma_dedup_distinct(f);
    assert forall|x: (Seq<char>, u16)| f.contains(x) <==> a.contains(x) || b.contains(x) || c.contains(x) by {
        if f.contains(x) {
            let k = choose|k: int| 0 <= k < f.len() && f[k] == x;
            if k < a.len() {
                assert(a[k] == x);
            } else if k < a.len() + b.len() {
                assert(b[k - a.len()] == x);
            } else {
                assert(c[k - a.len() - b.len()] == x);
            }
        }
        if a.contains(x) {
            let k = choose|k: int| 0 <= k < a.len() && a[k] == x;
            assert(f[k] == x);
        }
        if b.contains(x) {
            let k = choose|k: int| 0 <= k < b.len() && b[k] == x;
            assert(f[a.len() + k] == x);
        }
        if c.contains(x) {
            let k = choose|k: int| 0 <= k < c.len() && c[k] == x;
            assert(f[a.len() + b.len() + k] == x);
        }
    }
    assert forall|x: (Seq<char>, u16)| (saved + discovered).contains(x) <==> saved.contains(x) || discovered.contains(x) by {
        if (saved + discovered).contains(x) {
            let k = choose|k: int| 0 <= k < (saved + discovered).len() && (saved + discovered)[k] == x;
            if k < saved.len() {
                assert(saved[k] == x);
            } else {
                assert(discovered[k - saved.len()] == x);
            }
        }
        if saved.contains(x) {
            let k = choose|k: int| 0 <= k < saved.len() && saved[k] == x;
            assert((saved + discovered)[k] == x);
        }
        if discovered.contains(x) {
            let k = choose|k: int| 0 <= k < discovered.len() && discovered[k] == x;
            assert((saved + discovered)[saved.len() + k] == x);
        }
    }
    assert forall|x: (Seq<char>, u16)| dedup(f).to_set().contains(x) <==> (saved + discovered).to_set().contains(x) by {
        assert(dedup(f).contains(x) <==> f.contains(x));
        assert(a.contains(x) <==> saved.contains(x) && discovered.contains(x));
        assert(c.contains(x) <==> saved.contains(x) && !discovered.contains(x));
        assert(b.contains(x) <==> dedup(select(discovered, saved, false)).contains(x));
        assert(dedup(select(discovered, saved, false)).contains(x) <==> select(discovered, saved, false).contains(x));
        assert(select(discovered, saved, false).contains(x) <==> discovered.contains(x) && !saved.contains(x));
    }
    assert(dedup(f).to_set() =~= (saved + discovered).to_set());
}

/// Every entry of `s` has a place in `by_tier(s)`.
proof fn lemma_by_tier_keeps(s: Seq<(u8, (Seq<char>, u16), RouteKind)>, a: int)
    requires
        0 <= a < s.len(),
        s[a].0 <= 3,
    ensures
        by_tier(s).contains(s[a]),
{
    lemma_in_tier_keeps(s, s[a].0, a);
    let t0 = in_tier(s, 0);
    let t1 = in_tier(s, 1);
    let t2 = in_tier(s, 2);
    let t3 = in_tier(s, 3);
    let o = by_tier(s);
    let x = s[a];
    if x.0 == 0 {
        let k = choose|k: int| 0 <= k < t0.len() && t0[k] == x;
        assert(o[k] == x);
    } else if x.0 == 1 {
        let k = choose|k: int| 0 <= k < t1.len() && t1[k] == x;
        assert(o[t0.len() + k] == x);
    } else if x.0 == 2 {
        let k = choose|k: int| 0 <= k < t2.len() && t2[k] == x;
        assert(o[t0.len() + t1.len() + k] == x);
    } else {
        let k = choose|k: int| 0 <= k < t3.len() && t3[k] == x;
        assert(o[t0.len() + t1.len() + t2.len() + k] == x);
    }
}

proof fn lemma_in_tier_keeps(s: Seq<(u8, (Seq<char>, u16), RouteKind)>, tier: u8, a: int)
    requires
        0 <= a < s.len(),
        s[a].0 == tier,
    ensures
        in_tier(s, tier).contains(s[a]),
    decreases s.len(),
{
    let t = s.drop_last();
    if a < s.len() - 1 {
        lemma_in_tier_keeps(t, tier, a);
        assert(t[a] == s[a]);
        let r = in_tier(t, tier);
        let k = choose|k: int| 0 <= k < r.len() && r[k] == s[a];
        assert(in_tier(s, tier)[k] == s[a]);
    } else {
        assert(in_tier(s, tier)[in_tier(t, tier).len() as int] == s[a]);
    }
}

/// A plan tries the saved and discovered addresses and no others: every distinct one of them when
/// there are at most `MAX_ATTEMPTS`, else `MAX_ATTEMPTS` of them. An address tried alone gets the
/// whole race.
pub proof fn plan_tries_every_address_it_is_given(
    saved: Seq<(Seq<char>, u16)>,
    discovered: Seq<(Seq<char>, u16)>,
    network: &PhoneNetwork,
    remembered: Seq<(Seq<char>, (Seq<char>, u16))>,
)
    ensures
        ({
            let p = plan_spec(saved, discovered, network, remembered);
            let given = (saved + discovered).to_set();
            &&& p.len() == if given.len() > MAX_ATTEMPTS { MAX_ATTEMPTS as nat } else { given.len() }
            &&& forall|i: int| 0 <= i < p.len() ==> given.contains(#[trigger] p[i].0)
            &&& given.len() <= MAX_ATTEMPTS ==> forall|x: (Seq<char>, u16)| #[trigger] given.contains(x)
                ==> exists|i: int| 0 <= i < p.len() && p[i].0 == x
            &&& p.len() == 1 ==> p[0].4 == RACE_DEADLINE_MILLIS
        }),
{
    let p = plan_spec(saved, discovered, network, remembered);
    let given = (saved + discovered).to_set();
    let all = dedup(discovered_first_spec(discovered, saved));
    lemma_all_routes(saved, discovered);
    all.unique_seq_to_set();
    lemma_ordered_len(saved, discovered, network, remembered);
    let routes = considered(saved, discovered);
    let here = remembered_here(fingerprint_of(network), remembered);
    let s = ranked(routes, discovered, network, here);
    lemma_ranked_tiers(routes, discovered, network, here);
    lemma_by_tier_len(s);
    lemma_by_tier_blocks(s);
    let o = by_tier(s);
    assert(p == timed(o));
    assert(p.len() == routes.len());
    assert forall|i: int| 0 <= i < p.len() implies given.contains(#[trigger] p[i].0) by {
        assert(p[i].0 == o[i].1);
        assert(s.contains(o[i]));
        let a = choose|a: int| 0 <= a < s.len() && s[a] == o[i];
        assert(s[a].1 == routes[a]);
        assert(routes[a] == all[a]);
        assert(all.to_set().contains(all[a]));
    }
    if given.len() <= MAX_ATTEMPTS {
        assert(routes == all);
        assert forall|x: (Seq<char>, u16)| #[trigger] given.contains(x)
            implies exists|i: int| 0 <= i < p.len() && p[i].0 == x by {
            assert(all.to_set().contains(x));
            let a = choose|a: int| 0 <= a < all.len() && all[a] == x;
            assert(s[a].1 == x);
            lemma_by_tier_keeps(s, a);
            let i = choose|i: int| 0 <= i < o.len() && o[i] == s[a];
            assert(p[i].0 == o[i].1);
        }
    }
}

/// Attempts come in tier order: what worked here last time, then Bonjour and this subnet, then
/// Tailscale, then everything else.
pub proof fn plan_goes_tier_by_tier(
    saved: Seq<(Seq<char>, u16)>,
    discovered: Seq<(Seq<char>, u16)>,
    network: &PhoneNetwork,
    remembered: Seq<(Seq<char>, (Seq<char>, u16))>,
)
    ensures
        forall|i: int, j: int|
            0 <= i < j < plan_spec(saved, discovered, network, remembered).len() ==>
                plan_spec(saved, discovered, network, remembered)[i].2
                    <= plan_spec(saved, discovered, network, remembered)[j].2,
{
    lemma_ordered_len(saved, discovered, network, remembered);
    let o = ordered(saved, discovered, network, remembered);
    let routes = considered(saved, discovered);
    let here = remembered_here(fingerprint_of(network), remembered);
    lemma_by_tier_blocks(ranked(routes, discovered, network, here));
    let p = plan_spec(saved, discovered, network, remembered);
    assert forall|i: int, j: int| 0 <= i < j < p.len() implies p[i].2 <= p[j].2 by {
        assert(p[i].2 == o[i].0 && p[j].2 == o[j].0);
    }
}

/// The first attempt starts at once and each later one at least `STAGGER_MILLIS` after the one
/// before it; every attempt gives up by the race's deadline.
pub proof fn plan_is_staggered_within_the_deadline(
    saved: Seq<(Seq<char>, u16)>,
    discovered: Seq<(Seq<char>, u16)>,
    network: &PhoneNetwork,
    remembered: Seq<(Seq<char>, (Seq<char>, u16))>,
)
    ensures
        plan_spec(saved, discovered, network, remembered).len() > 0 ==>
            plan_spec(saved, discovered, network, remembered)[0].3 == 0,
        forall|i: int|
            0 < i < plan_spec(saved, discovered, network, remembered).len() ==>
                #[trigger] plan_spec(saved, discovered, network, remembered)[i].3
                    >= plan_spec(saved, discovered, network, remembered)[i - 1].3 + STAGGER_MILLIS,
        forall|i: int|
            0 <= i < plan_spec(saved, discovered, network, remembered).len() ==>
                plan_spec(saved, discovered, network, remembered)[i].3
                    + plan_spec(saved, discovered, network, remembered)[i].4 <= RACE_DEADLINE_MILLIS,
{
    lemma_ordered_len(saved, discovered, network, remembered);
    let o = ordered(saved, discovered, network, remembered);
    let tiers = o.map_values(|e: (u8, (Seq<char>, u16), RouteKind)| e.0);
    let p = plan_spec(saved, discovered, network, remembered);
    assert forall|i: int| 0 < i < p.len() implies #[trigger] p[i].3 >= p[i - 1].3 + STAGGER_MILLIS by {
        lemma_start_bounds(tiers, i);
        lemma_start_bounds(tiers, i - 1);
        assert(p[i].3 == start_at(tiers, i) as u32);
        assert(p[i - 1].3 == start_at(tiers, i - 1) as u32);
    }
    assert forall|i: int| 0 <= i < p.len() implies p[i].3 + p[i].4 <= RACE_DEADLINE_MILLIS by {
        lemma_start_bounds(tiers, i);
        assert(p[i].3 == start_at(tiers, i) as u32);
    }
}

// ---------------------------------------------------------------------------------------------
// Laws of remembering.

/// After remembering a route, it comes first, no other entry is for the same network, at most
/// `MAX_REMEMBERED` networks are kept, and networks that each had one entry still do.
pub proof fn remembering_keeps_one_entry_per_network(
    entries: Seq<(Seq<char>, (Seq<char>, u16))>,
    fingerprint: Seq<char>,
    route: (Seq<char>, u16),
)
    ensures
        remember_spec(entries, fingerprint, route).len() <= MAX_REMEMBERED,
        remember_spec(entries, fingerprint, route)[0] == (fingerprint, route),
        forall|i: int| 0 < i < remember_spec(entries, fingerprint, route).len() ==>
            (#[trigger] remember_spec(entries, fingerprint, route)[i]).0 != fingerprint,
        (forall|i: int, j: int| 0 <= i < j < entries.len() ==> entries[i].0 != entries[j].0) ==>
            forall|i: int, j: int| 0 <= i < j < remember_spec(entries, fingerprint, route).len() ==>
                remember_spec(entries, fingerprint, route)[i].0 != remember_spec(entries, fingerprint, route)[j].0,
{
    lemma_other_networks(entries, fingerprint);
    let r = remember_spec(entries, fingerprint, route);
    let all = seq![(fingerprint, route)] + other_networks(entries, fingerprint);
    assert forall|i: int| 0 < i < r.len() implies (#[trigger] r[i]).0 != fingerprint by {
        assert(r[i] == all[i]);
        assert(all[i] == other_networks(entries, fingerprint)[i - 1]);
    }
    if forall|i: int, j: int| 0 <= i < j < entries.len() ==> entries[i].0 != entries[j].0 {
        lemma_other_networks_distinct(entries, fingerprint);
        assert forall|i: int, j: int| 0 <= i < j < r.len() implies r[i].0 != r[j].0 by {
            assert(r[i] == all[i] && r[j] == all[j]);
            if i > 0 {
                assert(all[i] == other_networks(entries, fingerprint)[i - 1]);
            }
            assert(all[j] == other_networks(entries, fingerprint)[j - 1]);
        }
    }
}

proof fn lemma_other_networks(entries: Seq<(Seq<char>, (Seq<char>, u16))>, fingerprint: Seq<char>)
    ensures
        forall|k: int| 0 <= k < other_networks(entries, fingerprint).len() ==>
            (#[trigger] other_networks(entries, fingerprint)[k]).0 != fingerprint,
        forall|k: int| 0 <= k < other_networks(entries, fingerprint).len() ==>
            entries.contains(#[trigger] other_networks(entries, fingerprint)[k]),
    decreases entries.len(),
{
    if entries.len() > 0 {
        lemma_other_networks(entries.drop_last(), fingerprint);
        let r = other_networks(entries.drop_last(), fingerprint);
        assert forall|k: int| 0 <= k < other_networks(entries, fingerprint).len() implies
            entries.contains(#[trigger] other_networks(entries, fingerprint)[k]) by {
            if k < r.len() {
                let j = choose|j: int| 0 <= j < entries.drop_last().len() && entries.drop_last()[j] == r[k];
                assert(entries[j] == r[k]);
            } else {
                assert(entries[entries.len() - 1] == other_networks(entries, fingerprint)[k]);
            }
        }
    }
}

proof fn lemma_other_networks_distinct(entries: Seq<(Seq<char>, (Seq<char>, u16))>, fingerprint: Seq<char>)
    requires
        forall|i: int, j: int| 0 <= i < j < entries.len() ==> entries[i].0 != entries[j].0,
    ensures
        forall|i: int, j: int| 0 <= i < j < other_networks(entries, fingerprint).len() ==>
            other_networks(entries, fingerprint)[i].0 != other_networks(entries, fingerprint)[j].0,
    decreases entries.len(),
{
    if entries.len() > 0 {
        let t = entries.drop_last();
        assert forall|i: int, j: int| 0 <= i < j < t.len() implies t[i].0 != t[j].0 by {
            assert(t[i] == entries[i] && t[j] == entries[j]);
        }
        lemma_other_networks_distinct(t, fingerprint);
        lemma_other_networks(t, fingerprint);
        let r = other_networks(t, fingerprint);
        let o = other_networks(entries, fingerprint);
        assert forall|i: int, j: int| 0 <= i < j < o.len() implies o[i].0 != o[j].0 by {
            if j == r.len() {
                assert(t.contains(r[i]));
                let k = choose|k: int| 0 <= k < t.len() && t[k] == r[i];
                assert(entries[k] == r[i]);
                assert(o[j] == entries[entries.len() - 1]);
                assert(o[i] == r[i]);
            } else {
                assert(o[i] == r[i] && o[j] == r[j]);
            }
        }
    }
}

// ---------------------------------------------------------------------------------------------
// Laws of fingerprints.

/// A new lease on the same network names the same network: two addresses whose octets agree
/// on the subnet's prefix have the same subnet, so with the same salt, link and gateway they
/// give the same fingerprint input.
#[verifier::rlimit(60)]
#[verifier::spinoff_prover]
pub proof fn a_new_lease_keeps_the_fingerprint(
    salt: Seq<u8>,
    link: PhoneLink,
    first: Seq<char>,
    second: Seq<char>,
    prefix_length: u8,
    gateway: Option<Seq<char>>,
)
    requires
        ip_of(first) matches Some(a) && ip_of(second) matches Some(b) && a.len() == b.len()
            && a[0] == b[0] && a[1] == b[1] && (a.len() == 16 ==> a.subrange(0, 6) == b.subrange(0, 6))
            && masked(a, prefix_length as int) == masked(b, prefix_length as int),
    ensures
        fingerprint_input(salt, link, seq![(first, prefix_length)], gateway)
            == fingerprint_input(salt, link, seq![(second, prefix_length)], gateway),
{
    let a = ip_of(first).unwrap();
    let b = ip_of(second).unwrap();
    if a.len() == 16 {
        assert(a[2] == a.subrange(0, 6)[2] && b[2] == b.subrange(0, 6)[2]);
        assert(a[3] == a.subrange(0, 6)[3] && b[3] == b.subrange(0, 6)[3]);
        assert(a[4] == a.subrange(0, 6)[4] && b[4] == b.subrange(0, 6)[4]);
        assert(a[5] == a.subrange(0, 6)[5] && b[5] == b.subrange(0, 6)[5]);
    }
    assert(subnet_text((first, prefix_length)) == subnet_text((second, prefix_length)));
    assert(seq![(first, prefix_length)].drop_last() =~= seq![(second, prefix_length)].drop_last());
    assert(subnet_parts(seq![(first, prefix_length)]) == subnet_parts(seq![(second, prefix_length)]));
}

proof fn lemma_subnet_parts_concat(a: Seq<(Seq<char>, u8)>, b: Seq<(Seq<char>, u8)>)
    ensures
        subnet_parts(a + b) == subnet_parts(a) + subnet_parts(b),
    decreases b.len(),
{
    if b.len() == 0 {
        assert(a + b =~= a);
        assert(subnet_parts(a) + subnet_parts(b) =~= subnet_parts(a));
    } else {
        lemma_subnet_parts_concat(a, b.drop_last());
        assert((a + b).drop_last() =~= a + b.drop_last());
        assert((a + b).last() == b.last());
        match subnet_text(b.last()) {
            Some(t) => {
                assert(subnet_parts(a) + subnet_parts(b.drop_last()).push(t) =~= (subnet_parts(a) + subnet_parts(b.drop_last())).push(t));
            },
            None => {},
        }
    }
}

proof fn lemma_subnet_parts_none(ignored: Seq<(Seq<char>, u8)>)
    requires
        forall|i: int| 0 <= i < ignored.len() ==> subnet_text(#[trigger] ignored[i]) is None,
    ensures
        subnet_parts(ignored) == Seq::<Seq<u8>>::empty(),
    decreases ignored.len(),
{
    if ignored.len() > 0 {
        let t = ignored.drop_last();
        assert forall|i: int| 0 <= i < t.len() implies subnet_text(#[trigger] t[i]) is None by {
            assert(t[i] == ignored[i]);
        }
        lemma_subnet_parts_none(t);
        assert(subnet_text(ignored[ignored.len() - 1]) is None);
    }
}

/// Addresses that name no network (Tailscale, link-local, unparsable, a prefix of nothing or a
/// single host) leave the fingerprint as it is wherever they stand among the phone's addresses;
/// on a cellular link only the salt counts, whatever the addresses and gateway.
pub proof fn addresses_without_a_subnet_leave_the_fingerprint(
    salt: Seq<u8>,
    link: PhoneLink,
    before: Seq<(Seq<char>, u8)>,
    ignored: Seq<(Seq<char>, u8)>,
    after: Seq<(Seq<char>, u8)>,
    gateway: Option<Seq<char>>,
    other_addresses: Seq<(Seq<char>, u8)>,
    other_gateway: Option<Seq<char>>,
)
    requires
        forall|i: int| 0 <= i < ignored.len() ==> subnet_text(#[trigger] ignored[i]) is None,
    ensures
        fingerprint_input(salt, link, before + ignored + after, gateway) == fingerprint_input(salt, link, before + after, gateway),
        fingerprint_input(salt, PhoneLink::Cellular, before, gateway)
            == fingerprint_input(salt, PhoneLink::Cellular, other_addresses, other_gateway),
{
    lemma_subnet_parts_none(ignored);
    lemma_subnet_parts_concat(before, ignored);
    lemma_subnet_parts_concat(before + ignored, after);
    lemma_subnet_parts_concat(before, after);
    assert(subnet_parts(before) + subnet_parts(ignored) =~= subnet_parts(before));
    assert(subnet_parts(before + ignored + after) == subnet_parts(before + after));
}

proof fn lemma_in_tier_has(s: Seq<(u8, (Seq<char>, u16), RouteKind)>, tier: u8, i: int)
    requires
        0 <= i < s.len(),
        s[i].0 == tier,
    ensures
        in_tier(s, tier).len() > 0,
    decreases s.len(),
{
    if i < s.len() - 1 {
        lemma_in_tier_has(s.drop_last(), tier, i);
    }
}

/// The address that worked last time on this same network is tried first, whenever it is among
/// the addresses tried and it is on the local network, or no address of this network is there to
/// try (a tunnel never jumps ahead of one).
pub proof fn what_worked_here_goes_first(
    saved: Seq<(Seq<char>, u16)>,
    discovered: Seq<(Seq<char>, u16)>,
    network: &PhoneNetwork,
    remembered: Seq<(Seq<char>, (Seq<char>, u16))>,
)
    requires
        ({
            let routes = considered(saved, discovered);
            let here = remembered_here(fingerprint_of(network), remembered);
            &&& here is Some
            &&& routes.contains(here->0)
            &&& (kind_of((here->0).0) == RouteKind::LocalNetwork || !local_here(routes, discovered, network))
        }),
    ensures
        plan_spec(saved, discovered, network, remembered).len() > 0,
        plan_spec(saved, discovered, network, remembered)[0].0
            == remembered_here(fingerprint_of(network), remembered)->0,
        plan_spec(saved, discovered, network, remembered)[0].2 == 0,
{
    let routes = considered(saved, discovered);
    let here = remembered_here(fingerprint_of(network), remembered);
    let r = here->0;
    let s = ranked(routes, discovered, network, here);
    lemma_ordered_len(saved, discovered, network, remembered);
    let i = choose|i: int| 0 <= i < routes.len() && routes[i] == r;
    assert(s[i] == (final_tier(routes[i], routes, discovered, network, here), routes[i], kind_of(routes[i].0)));
    assert(s[i].0 == 0);
    lemma_in_tier_has(s, 0, i);
    lemma_in_tier(s, 0);
    let first = in_tier(s, 0)[0];
    assert(by_tier(s)[0] == first);
    assert(s.contains(first));
    let j = choose|j: int| 0 <= j < s.len() && s[j] == first;
    assert(s[j] == (final_tier(routes[j], routes, discovered, network, here), routes[j], kind_of(routes[j].0)));
    assert(first.0 == 0);
    assert(routes[j] == r);
    let ordered = by_tier(s);
    assert(timed(ordered)[0].0 == ordered[0].1);
    assert(timed(ordered)[0].2 == ordered[0].0);
}

/// A tunnel never jumps ahead of the phone's own network: when what worked here last time is not
/// an address on a local network, and some address tried is on the phone's network (found by
/// Bonjour, or on this subnet), no attempt is put in the first tier, and the remembered route is
/// tried after every attempt on the phone's network unless it is one of them.
pub proof fn a_tunnel_never_jumps_ahead_of_the_local_network(
    saved: Seq<(Seq<char>, u16)>,
    discovered: Seq<(Seq<char>, u16)>,
    network: &PhoneNetwork,
    remembered: Seq<(Seq<char>, (Seq<char>, u16))>,
)
    requires
        remembered_here(fingerprint_of(network), remembered) matches Some(r) ==> kind_of(r.0) != RouteKind::LocalNetwork,
        exists|i: int|
            0 <= i < considered(saved, discovered).len() && base_tier(
                #[trigger] considered(saved, discovered)[i],
                discovered,
                network,
            ) == 1,
    ensures
        ({
            let p = plan_spec(saved, discovered, network, remembered);
            let here = remembered_here(fingerprint_of(network), remembered);
            &&& forall|j: int| 0 <= j < p.len() ==> #[trigger] p[j].2 >= 1
            &&& forall|j: int| 0 <= j < p.len() ==> #[trigger] p[j].2 == base_tier(p[j].0, discovered, network)
            &&& forall|i: int, j: int|
                0 <= i < p.len() && 0 <= j < p.len() && here == Some(p[i].0) && #[trigger] p[j].2 == 1 && #[trigger] p[i].2
                    != 1 ==> j < i
        }),
{
    let routes = considered(saved, discovered);
    let here = remembered_here(fingerprint_of(network), remembered);
    let s = ranked(routes, discovered, network, here);
    lemma_ordered_len(saved, discovered, network, remembered);
    lemma_ranked_tiers(routes, discovered, network, here);
    lemma_by_tier_blocks(s);
    let o = by_tier(s);
    let p = plan_spec(saved, discovered, network, remembered);
    let w = choose|i: int| 0 <= i < routes.len() && base_tier(#[trigger] routes[i], discovered, network) == 1;
    assert(local_here(routes, discovered, network));
    assert forall|j: int| 0 <= j < p.len() implies #[trigger] p[j].2 == base_tier(p[j].0, discovered, network)
        && p[j].2 >= 1 by {
        assert(p[j].2 == o[j].0 && p[j].0 == o[j].1);
        assert(s.contains(o[j]));
        let a = choose|a: int| 0 <= a < s.len() && s[a] == o[j];
        assert(s[a] == (final_tier(routes[a], routes, discovered, network, here), routes[a], kind_of(routes[a].0)));
    }
    plan_goes_tier_by_tier(saved, discovered, network, remembered);
}

proof fn lemma_none_connected(outcomes: Seq<((Seq<char>, u16), AttemptResult)>, i: int)
    requires
        0 <= i,
        forall|k: int| 0 <= k < outcomes.len() ==> #[trigger] outcomes[k].1 != AttemptResult::Connected,
    ensures
        first_connected(outcomes, i) is None,
    decreases outcomes.len() - i,
{
    if i < outcomes.len() {
        lemma_none_connected(outcomes, i + 1);
    }
}

/// After a race that connected nowhere, one refusal anywhere is enough to say that Remote access
/// is probably off: something answered at the computer's address and turned the phone away,
/// whatever the other attempts did.
pub proof fn a_refusal_means_remote_access_is_off(
    saved: Seq<(Seq<char>, u16)>,
    network: &PhoneNetwork,
    outcomes: Seq<((Seq<char>, u16), AttemptResult)>,
    refused: int,
)
    requires
        forall|k: int| 0 <= k < outcomes.len() ==> #[trigger] outcomes[k].1 != AttemptResult::Connected,
        0 <= refused < outcomes.len(),
        outcomes[refused].1 == AttemptResult::Refused,
    ensures
        advice_spec(saved, network, outcomes) == RouteAdvice::RemoteAccessOff,
{
    lemma_none_connected(outcomes, 0);
}

proof fn lemma_first_connected_at(outcomes: Seq<((Seq<char>, u16), AttemptResult)>, i: int, w: int)
    requires
        0 <= i <= w < outcomes.len(),
        outcomes[w].1 == AttemptResult::Connected,
        forall|k: int| 0 <= k < w ==> #[trigger] outcomes[k].1 != AttemptResult::Connected,
    ensures
        first_connected(outcomes, i) == Some(w),
    decreases w - i,
{
    if i < w {
        lemma_first_connected_at(outcomes, i + 1, w);
    }
}

/// What the person is told after a race, case by case. When an attempt connected, the only advice
/// is about a Tailscale exit node, given exactly when the first attempt to connect went over
/// Tailscale while the phone is on Wi-Fi or Ethernet and an address on the phone's own subnet
/// timed out, was unreachable or was cancelled. When nothing connected and nothing refused, and
/// a Tailscale address was saved, the computer is unreachable; with no Tailscale address saved,
/// a phone on cellular or offline is told it needs a remote route.
pub proof fn the_advice_after_a_race(
    saved: Seq<(Seq<char>, u16)>,
    network: &PhoneNetwork,
    outcomes: Seq<((Seq<char>, u16), AttemptResult)>,
)
    ensures
        forall|w: int|
            0 <= w < outcomes.len() && #[trigger] outcomes[w].1 == AttemptResult::Connected && (forall|k: int|
                0 <= k < w ==> #[trigger] outcomes[k].1 != AttemptResult::Connected) ==> advice_spec(saved, network, outcomes)
                == if (network.link == PhoneLink::Wifi || network.link == PhoneLink::Ethernet) && kind_of(outcomes[w].0.0)
                == RouteKind::Tailscale && (exists|i: int|
                0 <= i < outcomes.len() && local_here_route(#[trigger] outcomes[i].0.0, network) && (outcomes[i].1
                    == AttemptResult::Unreachable || outcomes[i].1 == AttemptResult::TimedOut || outcomes[i].1
                    == AttemptResult::Cancelled)) {
                RouteAdvice::LocalNetworkBlockedWhileTailscaleWorks
            } else {
                RouteAdvice::NoAdvice
            },
        (forall|k: int| 0 <= k < outcomes.len() ==> #[trigger] outcomes[k].1 != AttemptResult::Connected
            && outcomes[k].1 != AttemptResult::Refused) ==> ((exists|i: int|
            0 <= i < saved.len() && kind_of(#[trigger] saved[i].0) == RouteKind::Tailscale) ==> advice_spec(
            saved,
            network,
            outcomes,
        ) == RouteAdvice::ComputerUnreachable),
        (forall|k: int| 0 <= k < outcomes.len() ==> #[trigger] outcomes[k].1 != AttemptResult::Connected
            && outcomes[k].1 != AttemptResult::Refused) ==> ((!exists|i: int|
            0 <= i < saved.len() && kind_of(#[trigger] saved[i].0) == RouteKind::Tailscale) && (network.link
            == PhoneLink::Cellular || network.link == PhoneLink::Offline) ==> advice_spec(saved, network, outcomes)
            == RouteAdvice::NeedsRemoteRoute),
{
    assert forall|w: int|
        0 <= w < outcomes.len() && #[trigger] outcomes[w].1 == AttemptResult::Connected && (forall|k: int|
            0 <= k < w ==> #[trigger] outcomes[k].1 != AttemptResult::Connected) implies first_connected(outcomes, 0)
        == Some(w) by {
        lemma_first_connected_at(outcomes, 0, w);
    }
    if forall|k: int| 0 <= k < outcomes.len() ==> #[trigger] outcomes[k].1 != AttemptResult::Connected
        && outcomes[k].1 != AttemptResult::Refused {
        lemma_none_connected(outcomes, 0);
    }
}

/// When each attempt starts and how long it may take: every attempt after the first waits for its
/// tier (250 ms for Tailscale, 500 ms for anything else); an attempt on the local network in the
/// first tiers may take 3 s, any other 6 s, both cut short by the race's 12 s deadline; a lone
/// attempt has the whole 12 s.
pub proof fn attempts_wait_for_their_tier_and_are_cut_at_the_deadline(
    saved: Seq<(Seq<char>, u16)>,
    discovered: Seq<(Seq<char>, u16)>,
    network: &PhoneNetwork,
    remembered: Seq<(Seq<char>, (Seq<char>, u16))>,
)
    ensures
        ({
            let p = plan_spec(saved, discovered, network, remembered);
            &&& forall|j: int| 0 < j < p.len() && #[trigger] p[j].2 == 2 ==> p[j].3 >= 250
            &&& forall|j: int| 0 < j < p.len() && #[trigger] p[j].2 == 3 ==> p[j].3 >= 500
            &&& p.len() > 1 ==> forall|j: int| 0 <= j < p.len() ==> {
                let limit: int = if p[j].2 <= 1 && p[j].1 == RouteKind::LocalNetwork { 3000 } else { 6000 };
                #[trigger] p[j].4 == if limit < 12000 - p[j].3 { limit } else { 12000 - p[j].3 }
            }
            &&& p.len() == 1 ==> p[0].3 == 0 && p[0].4 == 12000
        }),
{
    lemma_ordered_len(saved, discovered, network, remembered);
    let o = ordered(saved, discovered, network, remembered);
    let tiers = o.map_values(|e: (u8, (Seq<char>, u16), RouteKind)| e.0);
    let p = plan_spec(saved, discovered, network, remembered);
    assert forall|j: int| 0 <= j < p.len() implies p[j].3 == start_at(tiers, j) && 0 <= start_at(tiers, j) <= 2100
        && p[j].2 == tiers[j] by {
        lemma_start_bounds(tiers, j);
    }
    assert forall|j: int| 0 < j < p.len() && #[trigger] p[j].2 == 2 implies p[j].3 >= 250 by {
        assert(p[j].3 == start_at(tiers, j));
    }
    assert forall|j: int| 0 < j < p.len() && #[trigger] p[j].2 == 3 implies p[j].3 >= 500 by {
        assert(p[j].3 == start_at(tiers, j));
    }
}

/// Each attempt's kind is its address's, and its tier says why it is tried when it is: tier 0
/// only for what worked on this network last time; otherwise 1 for an address Bonjour found or
/// one on the phone's subnet, 2 for a Tailscale address, 3 for anything else.
pub proof fn each_attempt_is_tiered_by_where_its_address_is(
    saved: Seq<(Seq<char>, u16)>,
    discovered: Seq<(Seq<char>, u16)>,
    network: &PhoneNetwork,
    remembered: Seq<(Seq<char>, (Seq<char>, u16))>,
)
    ensures
        ({
            let p = plan_spec(saved, discovered, network, remembered);
            let here = remembered_here(fingerprint_of(network), remembered);
            forall|j: int| 0 <= j < p.len() ==> {
                let r = #[trigger] p[j].0;
                &&& p[j].1 == kind_of(r.0)
                &&& p[j].2 == 0 ==> here == Some(r)
                &&& p[j].2 != 0 ==> p[j].2 == if discovered.contains(r) || (kind_of(r.0) == RouteKind::LocalNetwork
                    && on_subnet(r.0, network.link, phone_addresses(network))) {
                    1u8
                } else if kind_of(r.0) == RouteKind::Tailscale {
                    2u8
                } else {
                    3u8
                }
            }
        }),
{
    let routes = considered(saved, discovered);
    let here = remembered_here(fingerprint_of(network), remembered);
    let s = ranked(routes, discovered, network, here);
    lemma_ordered_len(saved, discovered, network, remembered);
    lemma_ranked_tiers(routes, discovered, network, here);
    lemma_by_tier_blocks(s);
    let o = by_tier(s);
    let p = plan_spec(saved, discovered, network, remembered);
    assert forall|j: int| 0 <= j < p.len() implies p[j] == (o[j].1, o[j].2, o[j].0, p[j].3, p[j].4) by {}
    assert forall|j: int| 0 <= j < p.len() implies o[j].2 == kind_of(o[j].1.0) && (o[j].0 == 0 ==> here == Some(o[j].1))
        && (o[j].0 != 0 ==> o[j].0 == base_tier(o[j].1, discovered, network)) by {
        assert(s.contains(o[j]));
        let a = choose|a: int| 0 <= a < s.len() && s[a] == o[j];
        assert(s[a] == (final_tier(routes[a], routes, discovered, network, here), routes[a], kind_of(routes[a].0)));
    }
}

} // verus!
