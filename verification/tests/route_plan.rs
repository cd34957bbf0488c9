use sha2::{Digest, Sha256};
use multiplex::routes::address::{route_kind, PhoneAddress, PhoneLink, PhoneNetwork, RouteKind};
use multiplex::routes::fingerprint::{fingerprint_from_digest, fingerprint_input_of, network_fingerprint};
use multiplex::routes::advice::{
    remember_route, route_advice, AttemptOutcome, AttemptResult, RouteAdvice,
};
use multiplex::routes::plan::{
    plan_routes, RememberedRoute, RouteAddress, RoutePlan, MAX_ATTEMPTS, MAX_REMEMBERED,
    RACE_DEADLINE_MILLIS,
};

fn route(address: &str) -> RouteAddress {
    RouteAddress {
        address: address.to_owned(),
        port: 7_420,
    }
}

fn wifi(address: &str, prefix_length: u8, fingerprint: Option<&str>) -> PhoneNetwork {
    PhoneNetwork {
        link: PhoneLink::Wifi,
        addresses: vec![PhoneAddress {
            address: address.to_owned(),
            prefix_length,
        }],
        fingerprint: fingerprint.map(str::to_owned),
    }
}

fn order(plan: &RoutePlan) -> Vec<(&str, u8, u32)> {
    plan.attempts
        .iter()
        .map(|attempt| {
            (
                attempt.route.address.as_str(),
                attempt.tier,
                attempt.start_after_millis,
            )
        })
        .collect()
}

#[test]
fn addresses_are_classified_by_their_value() {
    assert_eq!(route_kind("192.168.1.20"), RouteKind::LocalNetwork);
    assert_eq!(route_kind("10.0.0.2"), RouteKind::LocalNetwork);
    assert_eq!(route_kind("172.20.1.1"), RouteKind::LocalNetwork);
    assert_eq!(route_kind("169.254.3.4"), RouteKind::LocalNetwork);
    assert_eq!(route_kind("100.101.102.103"), RouteKind::Tailscale);
    assert_eq!(route_kind("100.63.0.1"), RouteKind::OtherPrivate);
    assert_eq!(route_kind("100.128.0.1"), RouteKind::OtherPrivate);
    assert_eq!(route_kind("fd7a:115c:a1e0::1"), RouteKind::Tailscale);
    assert_eq!(route_kind("[fd12:3456::1]"), RouteKind::LocalNetwork);
    assert_eq!(route_kind("fe80::1%en0"), RouteKind::LocalNetwork);
    assert_eq!(route_kind("mac.tailnet.ts.net"), RouteKind::OtherPrivate);
}

#[test]
fn address_text_follows_the_standard_grammar() {
    // Leading zeros are refused in IPv4, and every octet must fit a byte.
    assert_eq!(route_kind("10.0.0.01"), RouteKind::OtherPrivate);
    assert_eq!(route_kind("10.0.0.256"), RouteKind::OtherPrivate);
    assert_eq!(route_kind("10.0.0"), RouteKind::OtherPrivate);
    assert_eq!(route_kind("10.0.0.1.5"), RouteKind::OtherPrivate);
    // IPv6 with an embedded IPv4 tail, and with every group written out.
    assert_eq!(route_kind("fd00::10.0.0.1"), RouteKind::LocalNetwork);
    assert_eq!(
        route_kind("fd7a:115c:a1e0:0:0:0:0:1"),
        RouteKind::Tailscale
    );
    assert_eq!(route_kind("2001:db8::1"), RouteKind::OtherPrivate);
    // Too many groups, two gaps, or a group of five digits is not an address.
    assert_eq!(route_kind("fd00:1:2:3:4:5:6:7:8"), RouteKind::OtherPrivate);
    assert_eq!(route_kind("fd00::1::2"), RouteKind::OtherPrivate);
    assert_eq!(route_kind("fd000::1"), RouteKind::OtherPrivate);
    assert_eq!(route_kind("FE80::1"), RouteKind::LocalNetwork);
}

#[test]
fn at_home_the_local_address_goes_before_tailscale_even_when_tailscale_worked_last() {
    let plan = plan_routes(
        vec![route("100.101.102.103"), route("192.168.1.20")],
        vec![],
        wifi("192.168.1.55", 24, None),
        vec![],
    );
    assert_eq!(
        order(&plan),
        vec![("192.168.1.20", 1, 0), ("100.101.102.103", 2, 250)]
    );
}

#[test]
fn the_address_that_worked_on_this_network_goes_first() {
    let plan = plan_routes(
        vec![route("192.168.1.20"), route("100.101.102.103")],
        vec![],
        wifi("10.9.0.4", 16, Some("cafe")),
        vec![
            RememberedRoute {
                fingerprint: "home".to_owned(),
                route: route("192.168.1.20"),
            },
            RememberedRoute {
                fingerprint: "cafe".to_owned(),
                route: route("100.101.102.103"),
            },
        ],
    );
    assert_eq!(
        order(&plan),
        vec![("100.101.102.103", 0, 0), ("192.168.1.20", 3, 500)]
    );
}

#[test]
fn bonjour_results_join_the_first_tier_and_new_ones_are_tried() {
    let plan = plan_routes(
        vec![route("192.168.1.20"), route("100.101.102.103")],
        vec![route("192.168.1.31")],
        wifi("192.168.1.55", 24, None),
        vec![],
    );
    assert_eq!(
        order(&plan),
        vec![
            ("192.168.1.31", 1, 0),
            ("192.168.1.20", 1, 100),
            ("100.101.102.103", 2, 250),
        ]
    );
}

#[test]
fn on_cellular_tailscale_leads_and_local_addresses_wait() {
    let plan = plan_routes(
        vec![route("192.168.1.20"), route("100.101.102.103")],
        vec![],
        PhoneNetwork {
            link: PhoneLink::Cellular,
            addresses: vec![PhoneAddress {
                address: "100.70.1.2".to_owned(),
                prefix_length: 10,
            }],
            fingerprint: None,
        },
        vec![],
    );
    assert_eq!(
        order(&plan),
        vec![("100.101.102.103", 2, 0), ("192.168.1.20", 3, 500)]
    );
}

#[test]
fn a_single_address_gets_the_whole_race() {
    let plan = plan_routes(
        vec![route("192.168.1.20")],
        vec![],
        wifi("192.168.1.55", 24, None),
        vec![],
    );
    assert_eq!(plan.attempts[0].timeout_millis, RACE_DEADLINE_MILLIS);
}

#[test]
fn duplicates_are_tried_once_and_the_plan_is_bounded() {
    let saved: Vec<RouteAddress> = (0..40)
        .map(|index| route(&format!("10.0.0.{}", index % 20)))
        .collect();
    let plan = plan_routes(saved, vec![], wifi("192.168.1.55", 24, None), vec![]);
    assert_eq!(plan.attempts.len(), MAX_ATTEMPTS);
    let unique: std::collections::HashSet<_> =
        plan.attempts.iter().map(|attempt| &attempt.route).collect();
    assert_eq!(unique.len(), MAX_ATTEMPTS);
    assert!(
        plan.attempts.iter().all(
            |attempt| attempt.start_after_millis + attempt.timeout_millis
                <= plan.deadline_millis
        )
    );
}

#[test]
fn newly_discovered_addresses_are_tried_in_address_order() {
    let plan = plan_routes(
        vec![route("192.168.1.20")],
        vec![route("192.168.1.9"), route("192.168.1.31"), route("192.168.1.9")],
        wifi("192.168.1.55", 24, None),
        vec![],
    );
    assert_eq!(
        order(&plan),
        vec![
            ("192.168.1.31", 1, 0),
            ("192.168.1.9", 1, 100),
            ("192.168.1.20", 1, 200),
        ]
    );
    assert_eq!(plan.attempts[0].timeout_millis, 3_000);
}

#[test]
fn remembering_keeps_one_entry_per_network_newest_first() {
    let mut memory = Vec::new();
    for index in 0..12 {
        memory = remember_route(memory, format!("net{index}"), route("10.0.0.1"));
    }
    memory = remember_route(memory, "net5".to_owned(), route("100.101.102.103"));
    assert_eq!(memory.len(), MAX_REMEMBERED);
    assert_eq!(memory[0].fingerprint, "net5");
    assert_eq!(memory[0].route, route("100.101.102.103"));
    assert_eq!(
        memory
            .iter()
            .filter(|entry| entry.fingerprint == "net5")
            .count(),
        1
    );
}

#[test]
fn advice_names_the_exit_node_symptom_only_when_it_fits() {
    let saved = vec![route("192.168.1.20"), route("100.101.102.103")];
    let outcome = |address: &str, result| AttemptOutcome {
        route: route(address),
        result,
    };
    let home = wifi("192.168.1.55", 24, None);
    assert_eq!(
        route_advice(
            saved.clone(),
            home.clone(),
            vec![
                outcome("192.168.1.20", AttemptResult::TimedOut),
                outcome("100.101.102.103", AttemptResult::Connected),
            ],
        ),
        RouteAdvice::LocalNetworkBlockedWhileTailscaleWorks
    );
    assert_eq!(
        route_advice(
            saved.clone(),
            home.clone(),
            vec![
                outcome("192.168.1.20", AttemptResult::Cancelled),
                outcome("100.101.102.103", AttemptResult::Connected),
            ],
        ),
        RouteAdvice::LocalNetworkBlockedWhileTailscaleWorks
    );
    assert_eq!(
        route_advice(
            saved.clone(),
            home.clone(),
            vec![
                outcome("192.168.1.20", AttemptResult::Connected),
                outcome("100.101.102.103", AttemptResult::Cancelled),
            ],
        ),
        RouteAdvice::NoAdvice
    );
    assert_eq!(
        route_advice(
            saved.clone(),
            wifi("10.9.0.4", 16, None),
            vec![
                outcome("192.168.1.20", AttemptResult::TimedOut),
                outcome("100.101.102.103", AttemptResult::Connected),
            ],
        ),
        RouteAdvice::NoAdvice
    );
}

#[test]
fn advice_after_a_failed_race_says_what_is_missing() {
    let outcome = |address: &str, result| AttemptOutcome {
        route: route(address),
        result,
    };
    assert_eq!(
        route_advice(
            vec![route("192.168.1.20")],
            wifi("192.168.1.55", 24, None),
            vec![outcome("192.168.1.20", AttemptResult::Refused)],
        ),
        RouteAdvice::RemoteAccessOff
    );
    assert_eq!(
        route_advice(
            vec![route("192.168.1.20")],
            wifi("10.9.0.4", 16, None),
            vec![outcome("192.168.1.20", AttemptResult::TimedOut)],
        ),
        RouteAdvice::NotOnComputersNetwork
    );
    assert_eq!(
        route_advice(
            vec![route("192.168.1.20")],
            PhoneNetwork {
                link: PhoneLink::Cellular,
                addresses: vec![],
                fingerprint: None,
            },
            vec![outcome("192.168.1.20", AttemptResult::Unreachable)],
        ),
        RouteAdvice::NeedsRemoteRoute
    );
    assert_eq!(
        route_advice(
            vec![route("192.168.1.20"), route("100.101.102.103")],
            wifi("192.168.1.55", 24, None),
            vec![
                outcome("192.168.1.20", AttemptResult::TimedOut),
                outcome("100.101.102.103", AttemptResult::TimedOut),
            ],
        ),
        RouteAdvice::ComputerUnreachable
    );
}

#[test]
fn a_fingerprint_depends_on_subnet_gateway_and_salt_only() {
    let address = |text: &str, prefix_length| PhoneAddress {
        address: text.to_owned(),
        prefix_length,
    };
    let home = network_fingerprint(
        vec![1; 16],
        PhoneLink::Wifi,
        vec![address("192.168.1.55", 24), address("100.70.1.2", 32)],
        Some("192.168.1.1".to_owned()),
    )
    .unwrap();
    assert_eq!(home.len(), 32);
    let same_home_new_lease = network_fingerprint(
        vec![1; 16],
        PhoneLink::Wifi,
        vec![address("192.168.1.99", 24)],
        Some("192.168.1.1".to_owned()),
    );
    assert_eq!(same_home_new_lease.as_deref(), Some(home.as_str()));
    let other_salt = network_fingerprint(
        vec![2; 16],
        PhoneLink::Wifi,
        vec![address("192.168.1.55", 24)],
        Some("192.168.1.1".to_owned()),
    );
    assert_ne!(other_salt.as_deref(), Some(home.as_str()));
    let other_gateway = network_fingerprint(
        vec![1; 16],
        PhoneLink::Wifi,
        vec![address("192.168.1.55", 24)],
        Some("192.168.1.254".to_owned()),
    );
    assert_ne!(other_gateway.as_deref(), Some(home.as_str()));
    assert_eq!(
        network_fingerprint(vec![1; 16], PhoneLink::Wifi, vec![], None),
        None
    );
    assert_eq!(
        network_fingerprint(vec![1; 16], PhoneLink::Offline, vec![], None),
        None
    );
    assert!(network_fingerprint(vec![1; 16], PhoneLink::Cellular, vec![], None).is_some());
}

#[test]
fn the_fingerprint_input_names_subnets_and_gateway_in_order() {
    let address = |text: &str, prefix_length| PhoneAddress {
        address: text.to_owned(),
        prefix_length,
    };
    let input = fingerprint_input_of(
        &vec![7, 8],
        PhoneLink::Wifi,
        &vec![
            address("192.168.1.55", 24),
            address("10.1.2.3", 8),
            address("192.168.1.77", 24),
            address("fe80::1%en0", 64),
            address("2001:db8:0:0:1::7", 64),
            address("::ffff:10.0.0.9", 120),
        ],
        &Some("192.168.1.1".to_owned()),
    )
    .unwrap();
    let mut expected = b"multiplex-route-network-v1\0".to_vec();
    expected.extend_from_slice(&2u64.to_be_bytes());
    expected.extend_from_slice(&[7, 8]);
    let mut parts = vec![
        "10.0.0.0/8",
        "192.168.1.0/24",
        "2001:db8::/64",
        "::ffff:10.0.0.0/120",
        "gateway 192.168.1.1",
    ];
    parts.sort();
    for part in parts {
        expected.extend_from_slice(&(part.len() as u64).to_be_bytes());
        expected.extend_from_slice(part.as_bytes());
    }
    assert_eq!(input, expected);
}

#[test]
fn a_fingerprint_is_sixteen_digest_bytes_in_hex() {
    let digest: Vec<u8> = (0u8..32).collect();
    assert_eq!(
        fingerprint_from_digest(&digest),
        "000102030405060708090a0b0c0d0e0f"
    );
    let input = fingerprint_input_of(&vec![], PhoneLink::Cellular, &vec![], &None).unwrap();
    let mut expected = b"multiplex-route-network-v1\0".to_vec();
    expected.extend_from_slice(&0u64.to_be_bytes());
    expected.extend_from_slice(&8u64.to_be_bytes());
    expected.extend_from_slice(b"cellular");
    assert_eq!(input, expected);
    assert_eq!(
        network_fingerprint(vec![], PhoneLink::Cellular, vec![], None).unwrap(),
        fingerprint_from_digest(&sha256_for_test(&expected))
    );
}

fn sha256_for_test(data: &[u8]) -> Vec<u8> {
    Sha256::digest(data).to_vec()
}

#[test]
fn reordered_repeated_and_ignored_addresses_keep_the_fingerprint() {
    let address = |text: &str, prefix_length| PhoneAddress {
        address: text.to_owned(),
        prefix_length,
    };
    let gateway = Some("192.168.1.1".to_owned());
    let home = network_fingerprint(
        vec![1; 16],
        PhoneLink::Wifi,
        vec![address("192.168.1.55", 24), address("10.0.0.7", 8)],
        gateway.clone(),
    );
    assert!(home.is_some());
    let shuffled = network_fingerprint(
        vec![1; 16],
        PhoneLink::Wifi,
        vec![
            address("10.0.0.7", 8),
            address("fe80::1", 64),
            address("192.168.1.55", 24),
            address("100.70.1.2", 32),
            address("10.0.0.7", 8),
            address("not an address", 24),
            address("192.168.1.56", 32),
        ],
        gateway.clone(),
    );
    assert_eq!(shuffled, home);
    let cellular = network_fingerprint(vec![1; 16], PhoneLink::Cellular, vec![], None);
    let cellular_elsewhere = network_fingerprint(
        vec![1; 16],
        PhoneLink::Cellular,
        vec![address("10.20.30.40", 8)],
        Some("10.20.30.1".to_owned()),
    );
    assert_eq!(cellular, cellular_elsewhere);
    assert_ne!(cellular, home);
}

#[test]
fn every_distinct_address_given_is_tried() {
    let saved = vec![route("192.168.1.20"), route("100.70.1.2"), route("192.168.1.20")];
    let discovered = vec![route("192.168.1.21"), route("100.70.1.2")];
    let plan = plan_routes(saved, discovered, wifi("192.168.1.55", 24, None), vec![]);
    let mut tried: Vec<String> = plan.attempts.iter().map(|a| a.route.address.clone()).collect();
    tried.sort();
    assert_eq!(tried, vec!["100.70.1.2", "192.168.1.20", "192.168.1.21"]);
    assert_eq!(plan.deadline_millis, RACE_DEADLINE_MILLIS);
}
