use convertbar::net::{parse_entry, parse_trusted, Address, Network};
use convertbar::throttle::{
    bucket_addr, client_id, is_trusted, ClientId, Failures, Gate, LoginThrottle, ThrottlePolicy,
    PRUNE_THRESHOLD,
};

const MILLI: u64 = 1_000_000;
const SECOND: u64 = 1_000_000_000;
const START: u64 = 1_000_000 * SECOND;

fn nets(entries: &[&str]) -> Vec<Network> {
    entries.iter().map(|e| parse_trusted(e).unwrap()).collect()
}

fn ip(s: &str) -> Address {
    parse_entry(s).unwrap()
}

fn xff(lines: &[&str]) -> Vec<Option<String>> {
    lines.iter().map(|l| Some(l.to_string())).collect()
}

#[test]
fn absent_peer_is_unknown() {
    assert_eq!(client_id(None, &xff(&[]), &nets(&[])), ClientId::Unknown);
}

#[test]
fn untrusted_peer_ignores_a_forged_forwarded_header() {
    assert_eq!(
        client_id(
            Some(ip("203.0.113.9")),
            &xff(&["1.2.3.4"]),
            &nets(&["172.18.0.5"])
        ),
        ClientId::Addr(ip("203.0.113.9"))
    );
}

#[test]
fn trusted_peer_takes_the_single_forwarded_entry() {
    assert_eq!(
        client_id(
            Some(ip("172.18.0.5")),
            &xff(&["203.0.113.9"]),
            &nets(&["172.18.0.5"])
        ),
        ClientId::Addr(ip("203.0.113.9"))
    );
}

#[test]
fn client_injected_prefix_is_skipped_by_the_rightmost_walk() {
    assert_eq!(
        client_id(
            Some(ip("172.18.0.5")),
            &xff(&["9.9.9.9, 203.0.113.9"]),
            &nets(&["172.18.0.5"])
        ),
        ClientId::Addr(ip("203.0.113.9"))
    );
}

#[test]
fn multiple_forwarded_header_lines_are_all_considered() {
    assert_eq!(
        client_id(
            Some(ip("172.18.0.5")),
            &xff(&["9.9.9.9", "203.0.113.9"]),
            &nets(&["172.18.0.5"])
        ),
        ClientId::Addr(ip("203.0.113.9"))
    );
}

#[test]
fn chain_of_trusted_hops_walks_through_to_the_client() {
    assert_eq!(
        client_id(
            Some(ip("172.18.0.5")),
            &xff(&["203.0.113.9, 172.18.0.7, 172.18.0.6"]),
            &nets(&["172.18.0.0/24"])
        ),
        ClientId::Addr(ip("203.0.113.9"))
    );
}

#[test]
fn all_entries_trusted_falls_back_to_the_peer() {
    assert_eq!(
        client_id(
            Some(ip("172.18.0.5")),
            &xff(&["172.18.0.7"]),
            &nets(&["172.18.0.0/24"])
        ),
        ClientId::Addr(ip("172.18.0.5"))
    );
}

#[test]
fn an_undecodable_forwarded_line_is_malformed_not_absent() {
    let h: Vec<Option<String>> = vec![None];
    assert_eq!(
        client_id(Some(ip("172.18.0.5")), &h, &nets(&["172.18.0.5"])),
        ClientId::MalformedChain
    );
}

#[test]
fn malformed_entry_gets_its_own_bucket_not_the_proxys() {
    assert_eq!(
        client_id(
            Some(ip("172.18.0.5")),
            &xff(&["!!!, 172.18.0.7"]),
            &nets(&["172.18.0.0/24"])
        ),
        ClientId::MalformedChain
    );
}

#[test]
fn missing_or_empty_header_falls_back_to_the_peer() {
    assert_eq!(
        client_id(
            Some(ip("172.18.0.5")),
            &xff(&[]),
            &nets(&["172.18.0.5"])
        ),
        ClientId::Addr(ip("172.18.0.5"))
    );
    assert_eq!(
        client_id(
            Some(ip("172.18.0.5")),
            &xff(&["   "]),
            &nets(&["172.18.0.5"])
        ),
        ClientId::Addr(ip("172.18.0.5"))
    );
}

#[test]
fn ipv4_mapped_ipv6_peer_matches_an_ipv4_trusted_entry() {
    assert_eq!(
        client_id(
            Some(ip("::ffff:172.18.0.5")),
            &xff(&["203.0.113.9"]),
            &nets(&["172.18.0.5"])
        ),
        ClientId::Addr(ip("203.0.113.9"))
    );
}

#[test]
fn ipv4_mapped_and_plain_ipv4_share_one_bucket() {
    assert_eq!(
        client_id(Some(ip("::ffff:203.0.113.9")), &xff(&[]), &nets(&[])),
        client_id(Some(ip("203.0.113.9")), &xff(&[]), &nets(&[]))
    );
}

#[test]
fn ipv6_addresses_in_one_slash64_share_a_bucket() {
    let a = client_id(Some(ip("2001:db8:1:2::1")), &xff(&[]), &nets(&[]));
    let b = client_id(
        Some(ip("2001:db8:1:2:ffff:ffff:ffff:ffff")),
        &xff(&[]),
        &nets(&[]),
    );
    assert_eq!(a, b);
    let c = client_id(Some(ip("2001:db8:1:3::1")), &xff(&[]), &nets(&[]));
    assert_ne!(a, c);
}

#[test]
fn forwarded_entries_with_ports_and_brackets_parse() {
    assert_eq!(
        client_id(
            Some(ip("172.18.0.5")),
            &xff(&["203.0.113.9:41234"]),
            &nets(&["172.18.0.5"])
        ),
        ClientId::Addr(ip("203.0.113.9"))
    );
    assert_eq!(
        client_id(
            Some(ip("172.18.0.5")),
            &xff(&["2001:db8:1:2::1"]),
            &nets(&["172.18.0.5"])
        ),
        client_id(Some(ip("2001:db8:1:2::9")), &xff(&[]), &nets(&[]))
    );
    assert_eq!(
        client_id(
            Some(ip("172.18.0.5")),
            &xff(&["[2001:db8:1:2::1]:443"]),
            &nets(&["172.18.0.5"])
        ),
        client_id(Some(ip("2001:db8:1:2::9")), &xff(&[]), &nets(&[]))
    );
}

fn policy() -> ThrottlePolicy {
    ThrottlePolicy {
        free: 3,
        base: 500 * MILLI,
        cap: 30 * SECOND,
        window: 900 * SECOND,
    }
}

fn id(s: &str) -> ClientId {
    ClientId::Addr(parse_entry(s).unwrap())
}

fn fail_n(t: &mut LoginThrottle, id: ClientId, now: u64, n: u32) {
    for i in 0..n {
        assert_eq!(t.check(id, now), Gate::Allow, "evaluation {i} was denied");
    }
}

#[test]
fn the_first_free_failures_are_not_gated() {
    let mut t = LoginThrottle::new(policy());
    let now = START;
    let a = id("10.0.0.1");
    fail_n(&mut t, a, now, 3);
    assert_eq!(t.check(a, now), Gate::Allow);
    assert_eq!(t.check(a, now), Gate::Deny);
}

#[test]
fn a_denied_check_does_not_advance_the_ramp() {
    let mut t = LoginThrottle::new(policy());
    let now = START;
    let a = id("10.0.0.1");
    fail_n(&mut t, a, now, 4);
    for _ in 0..50 {
        assert_eq!(t.check(a, now), Gate::Deny);
    }
    assert_eq!(t.check(a, now + 500 * MILLI), Gate::Allow);
}

#[test]
fn the_slot_reopens_exactly_when_the_spacing_elapses() {
    let mut t = LoginThrottle::new(policy());
    let now = START;
    let a = id("10.0.0.1");
    fail_n(&mut t, a, now, 4);
    assert_eq!(t.check(a, now + 499 * MILLI), Gate::Deny);
    assert_eq!(t.check(a, now + 500 * MILLI), Gate::Allow);
}

#[test]
fn spacing_doubles_per_failure_and_pins_at_the_cap() {
    let mut t = LoginThrottle::new(policy());
    let start = START;
    let a = id("10.0.0.1");
    fail_n(&mut t, a, start, 3);

    let expected = [
        500 * MILLI,
        1 * SECOND,
        2 * SECOND,
        4 * SECOND,
        8 * SECOND,
        16 * SECOND,
        30 * SECOND,
        30 * SECOND,
    ];
    let mut at = start;
    for (i, want) in expected.iter().enumerate() {
        assert_eq!(t.check(a, at), Gate::Allow, "step {i} denied at its slot");
        let just_before = at + *want - MILLI;
        assert_eq!(t.check(a, just_before), Gate::Deny, "step {i} opened early");
        at += *want;
    }
}

#[test]
fn a_zero_base_policy_never_gates() {
    let mut t = LoginThrottle::new(ThrottlePolicy {
        base: 0,
        ..policy()
    });
    let now = START;
    let a = id("10.0.0.1");
    for _ in 0..100 {
        assert_eq!(t.check(a, now), Gate::Allow);
    }
}

#[test]
fn a_successful_evaluation_clears_the_gate_immediately() {
    let mut t = LoginThrottle::new(policy());
    let now = START;
    let a = id("10.0.0.1");
    fail_n(&mut t, a, now, 4);
    assert_eq!(t.check(a, now), Gate::Deny);
    t.record_success(a);
    assert_eq!(t.check(a, now), Gate::Allow);
}

#[test]
fn the_window_forgets_failures_and_reopens_the_gate() {
    let mut t = LoginThrottle::new(policy());
    let start = START;
    let a = id("10.0.0.1");
    fail_n(&mut t, a, start, 4);
    assert_eq!(t.check(a, start), Gate::Deny);
    let later = start + 901 * SECOND;
    assert_eq!(t.check(a, later), Gate::Allow);
    assert_eq!(
        t.check(a, later),
        Gate::Allow,
        "free allowance did not reset"
    );
}

#[test]
fn sources_are_gated_independently() {
    let mut t = LoginThrottle::new(policy());
    let now = START;
    fail_n(&mut t, id("10.0.0.1"), now, 4);
    assert_eq!(t.check(id("10.0.0.1"), now), Gate::Deny);
    assert_eq!(t.check(id("10.0.0.2"), now), Gate::Allow);
    assert_eq!(t.check(ClientId::Unknown, now), Gate::Allow);
    assert_eq!(t.check(ClientId::MalformedChain, now), Gate::Allow);
}

#[test]
fn exactly_free_plus_one_evaluations_are_allowed_on_a_virgin_bucket_then_denied() {
    let p = policy();
    let free = p.free;
    let mut t = LoginThrottle::new(p);
    let now = START;
    let a = id("10.0.0.1");
    for i in 0..=free {
        assert_eq!(t.check(a, now), Gate::Allow, "evaluation {i} was denied");
    }
    assert_eq!(t.check(a, now), Gate::Deny);
}

#[test]
fn map_stays_bounded_under_a_live_flood_and_keeps_the_hottest_bucket() {
    let mut t = LoginThrottle::new(policy());
    let now = START;
    let hot = id("192.168.1.1");
    fail_n(&mut t, hot, now, 4);

    for i in 0..(PRUNE_THRESHOLD as u32 * 2) {
        let addr = Address::V4((10 << 24) | i);
        let cold = ClientId::Addr(addr);
        t.check(cold, now);
    }

    assert!(
        t.len() <= PRUNE_THRESHOLD,
        "map exceeded its ceiling: {}",
        t.len()
    );
    assert_eq!(
        t.check(hot, now),
        Gate::Deny,
        "the hottest bucket was evicted and its ramp reset"
    );
}

#[test]
fn one_slot_admits_one_try() {
    let mut t = LoginThrottle::new(policy());
    let a = id("10.0.0.1");
    fail_n(&mut t, a, START, 4);
    let later = START + 60 * SECOND;
    let mut allowed = 0;
    for _ in 0..32 {
        if t.check(a, later) == Gate::Allow {
            allowed += 1;
        }
    }
    assert_eq!(allowed, 1);
}

#[test]
fn waits_grow_from_the_base_to_the_cap() {
    let t = LoginThrottle::new(policy());
    assert_eq!(t.spacing_for(3), 0);
    assert_eq!(t.spacing_for(4), 500 * MILLI);
    assert_eq!(t.spacing_for(5), SECOND);
    assert_eq!(t.spacing_for(9), 16 * SECOND);
    assert_eq!(t.spacing_for(10), 30 * SECOND);
    assert_eq!(t.spacing_for(u32::MAX), 30 * SECOND);
    assert!(!t.reached_cap(9));
    assert!(t.reached_cap(10));
}

#[test]
fn the_policy_is_lenient_by_default() {
    let p = ThrottlePolicy::default();
    assert_eq!(p.free, 8);
    assert_eq!(p.base, 500 * MILLI);
    assert_eq!(p.cap, 30 * SECOND);
    assert_eq!(p.window, 900 * SECOND);
}

#[test]
fn addresses_of_a_network_are_one_source() {
    assert_eq!(
        bucket_addr(ip("2001:db8:1:2:3:4:5:6")),
        ip("2001:db8:1:2::")
    );
    assert_eq!(bucket_addr(ip("1.2.3.4")), ip("1.2.3.4"));
    assert!(is_trusted(ip("10.1.1.1"), &nets(&["10.0.0.0/8"])));
    assert!(!is_trusted(ip("10.1.1.1"), &nets(&[])));
}

#[test]
fn all_that_is_too_much_is_forgotten_at_once() {
    let mut t = LoginThrottle::new(policy());
    for i in 0..5000u32 {
        let count = if i % 2 == 0 { 3 } else { 1 };
        t.known.push((
            ClientId::Addr(Address::V4(i)),
            Failures {
                count,
                first_at: START,
                next_at: START as u128,
            },
        ));
    }
    assert_eq!(t.check(id("192.168.1.1"), START), Gate::Allow);
    assert_eq!(t.len(), PRUNE_THRESHOLD);
    let busy = t.known.iter().filter(|(_, f)| f.count == 3).count();
    assert_eq!(busy, 2500, "only the least tried are forgotten");
}

#[test]
fn the_tries_of_a_source_decide_over_its_whole_history() {
    let mut t = LoginThrottle::new(ThrottlePolicy::default());
    let a = id("10.0.0.1");
    let b = id("10.0.0.2");
    for _ in 0..8 {
        assert_eq!(t.check(a, START), Gate::Allow);
    }
    assert_eq!(t.check(a, START), Gate::Allow);
    // Nine tries: half a second.
    assert_eq!(t.check(a, START + 499 * MILLI), Gate::Deny);
    assert_eq!(t.check(b, START + 499 * MILLI), Gate::Allow);
    let tenth = START + 500 * MILLI;
    assert_eq!(t.check(a, tenth), Gate::Allow);
    // Ten tries: a second.
    assert_eq!(t.check(a, tenth + SECOND - 1), Gate::Deny);
    assert_eq!(t.check(a, tenth + SECOND), Gate::Allow);
    t.record_success(a);
    assert_eq!(t.check(a, tenth + SECOND), Gate::Allow);
    // The window is over for the other source.
    for _ in 0..8 {
        t.check(b, START + 500 * MILLI);
    }
    assert_eq!(t.check(b, START + 600 * MILLI), Gate::Deny);
    assert_eq!(
        t.check(b, START + 499 * MILLI + 900 * SECOND + 1),
        Gate::Allow
    );
}
