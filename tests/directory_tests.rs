use tor_client::directory::{
    next_archive_offset, role_for_hop, HopRole,
    DirectoryClient, DirectoryError, NetworkConsensus, OrAddress, RelayDescriptor, RelayFlag,
};

const IDENT: &str = "AAAAAAAAAAAAAAAAAAAAAAAAAAA";

fn relay(id: &str, bw: u32, flags: Vec<RelayFlag>) -> RelayDescriptor {
    RelayDescriptor {
        id: id.to_string(),
        nickname: id.to_string(),
        address: OrAddress { ip: [10, 0, 0, 1], port: 9001 },
        identity_key: vec![0; 20],
        onion_key: vec![0; 20],
        bandwidth: bw,
        flags,
    }
}

fn consensus(relays: Vec<RelayDescriptor>) -> NetworkConsensus {
    NetworkConsensus { valid_after: 0, valid_until: 3600, relays, signatures: vec![] }
}

fn client_with(relays: Vec<RelayDescriptor>) -> DirectoryClient {
    let mut d = DirectoryClient::new(vec!["source".to_string()]);
    d.install_consensus(consensus(relays), 100);
    d
}

#[test]
fn consensus_parse_literal_block() {
    let text = format!(
        "r Foo {} dddd 2024-01-15 12:00:00 10.0.0.1 9001 0\ns Guard Fast Running Valid\nw Bandwidth=5000",
        IDENT
    );
    let c = DirectoryClient::parse_consensus(&text, 50).unwrap();
    assert_eq!(c.relays.len(), 1);
    let r = &c.relays[0];
    assert_eq!(r.nickname, "Foo");
    assert_eq!(r.id, IDENT);
    assert_eq!(r.address, OrAddress { ip: [10, 0, 0, 1], port: 9001 });
    assert_eq!(r.flags, vec![RelayFlag::Guard, RelayFlag::Fast, RelayFlag::Running, RelayFlag::Valid]);
    assert_eq!(r.bandwidth, 5000);
    assert_eq!(r.identity_key, vec![0u8; 20]);
    assert_eq!(c.valid_after, 50);
    assert_eq!(c.valid_until, 3650);
}

#[test]
fn identity_uses_url_safe_alphabet_and_padding() {
    // 27 characters of URL-safe base64: twenty bytes once padded.
    let text = "r Bar __________________________8 d 2024-01-15 12:00:00 1.2.3.4 443 80\n";
    let c = DirectoryClient::parse_consensus(text, 0).unwrap();
    let r = &c.relays[0];
    assert_eq!(r.identity_key.len(), 20);
    assert_eq!(r.identity_key[0], 0xFF);
    assert_eq!(r.flags, vec![RelayFlag::Running, RelayFlag::Valid]);
    assert_eq!(r.bandwidth, 1_000_000);
    assert_eq!(r.onion_key, r.identity_key);
}

#[test]
fn malformed_records_are_skipped_and_ids_stay_unique() {
    let text = format!(
        "network-status-version 3\n\
         r Bad1 {id} d 2024-01-15 12:00:00 10.0.0.256 9001 0\n\
         r Bad2 {id} d 2024-01-15 12:00:00 10.0.0.2 70000 0\n\
         r Bad3 AAAA d 2024-01-15 12:00:00 10.0.0.3 9001 0\n\
         r Bad4 {id} d 2024-01-15 12:00:00 10.0.0.04 9001 0\n\
         r One {id} d 2024-01-15 12:00:00 10.0.0.5 9001 0\n\
         s Exit Fast Sybil\n\
         p accept 80\n\
         w Unmeasured=1 Bandwidth=77\n\
         r Two {id} d 2024-01-15 12:00:00 10.0.0.6 +9002 0\n",
        id = IDENT
    );
    let c = DirectoryClient::parse_consensus(&text, 0).unwrap();
    assert_eq!(c.relays.len(), 1);
    let r = &c.relays[0];
    assert_eq!(r.nickname, "Two");
    assert_eq!(r.address, OrAddress { ip: [10, 0, 0, 6], port: 9002 });
    for r in &c.relays {
        assert_eq!(r.identity_key.len(), 20);
    }
}

#[test]
fn later_record_replaces_earlier_with_same_id() {
    let text = format!(
        "r One {id} d 2024-01-15 12:00:00 10.0.0.5 9001 0\ns Exit Fast Sybil\nw Bandwidth=77\n\
         r Other AQEBAQEBAQEBAQEBAQEBAQEBAQE d 2024-01-15 12:00:00 10.0.0.7 9001 0\n",
        id = IDENT
    );
    let c = DirectoryClient::parse_consensus(&text, 0).unwrap();
    assert_eq!(c.relays.len(), 2);
    assert_eq!(c.relays[0].flags, vec![RelayFlag::Exit, RelayFlag::Fast, RelayFlag::Unknown("Sybil".to_string())]);
    assert_eq!(c.relays[0].bandwidth, 77);
    assert_eq!(c.relays[1].identity_key, vec![1u8; 20]);
}

#[test]
fn empty_consensus_is_refused() {
    assert!(matches!(
        DirectoryClient::parse_consensus("no relays here\n", 0),
        Err(DirectoryError::InvalidConsensus(_))
    ));
    assert!(matches!(
        DirectoryClient::accept_response(200, "", 0),
        Err(DirectoryError::RequestFailed(_))
    ));
    assert!(matches!(
        DirectoryClient::accept_response(404, "r x", 0),
        Err(DirectoryError::RequestFailed(_))
    ));
}

#[test]
fn weighted_selection_forced_draws() {
    let relays = vec![relay("A", 1, vec![]), relay("B", 2, vec![]), relay("C", 3, vec![])];
    let picks: Vec<String> =
        (0..6u128).map(|d| DirectoryClient::select_weighted_with(&relays, d).id).collect();
    assert_eq!(picks, vec!["A", "B", "B", "C", "C", "C"]);
    assert_eq!(DirectoryClient::total_bandwidth(&relays), 6);
}

#[test]
fn zero_bandwidth_selects_by_index() {
    let relays = vec![relay("A", 0, vec![]), relay("B", 0, vec![])];
    assert_eq!(DirectoryClient::select_weighted_with(&relays, 1).id, "B");
    let r = DirectoryClient::select_weighted(&relays).unwrap();
    assert!(r.id == "A" || r.id == "B");
    assert!(matches!(DirectoryClient::select_weighted(&vec![]), Err(DirectoryError::NoSuitableRelays)));
}

fn flags(f: &[RelayFlag]) -> Vec<RelayFlag> {
    f.to_vec()
}

#[test]
fn suitability_matrix() {
    let guard = relay("g", 1, flags(&[RelayFlag::Guard, RelayFlag::Fast, RelayFlag::Running, RelayFlag::Valid]));
    let exit = relay("e", 1, flags(&[RelayFlag::Exit, RelayFlag::Fast, RelayFlag::Running, RelayFlag::Valid]));
    let middle = relay("m", 1, flags(&[RelayFlag::Fast, RelayFlag::Stable, RelayFlag::Running, RelayFlag::Valid]));
    let expect = [(&guard, [true, false, false]), (&exit, [false, false, true]), (&middle, [false, true, false])];
    for (r, row) in expect.iter() {
        for hop in 0..3 {
            assert_eq!(DirectoryClient::is_relay_suitable(r, hop), row[hop], "{} hop {}", r.id, hop);
        }
    }
    let tagged_middle = relay("t", 1, flags(&[RelayFlag::Middle, RelayFlag::Fast, RelayFlag::Guard, RelayFlag::Running, RelayFlag::Valid]));
    assert!(DirectoryClient::is_relay_suitable(&tagged_middle, 1));
    let bad = relay("b", 1, flags(&[RelayFlag::Guard, RelayFlag::Fast, RelayFlag::Running, RelayFlag::Valid, RelayFlag::BadExit]));
    assert!(!DirectoryClient::is_relay_suitable(&bad, 0));
    assert!(!DirectoryClient::is_relay_suitable(&relay("f", 1, flags(&[RelayFlag::Fast, RelayFlag::Running, RelayFlag::Valid])), 3));
    assert!(DirectoryClient::is_relay_suitable(&relay("s", 1, flags(&[RelayFlag::Fast, RelayFlag::Stable, RelayFlag::Running, RelayFlag::Valid])), 3));
}

#[test]
fn single_suitable_relay_is_always_chosen() {
    let d = client_with(vec![
        relay("g", 5, flags(&[RelayFlag::Guard, RelayFlag::Fast, RelayFlag::Running, RelayFlag::Valid])),
        relay("m", 9, flags(&[RelayFlag::Fast, RelayFlag::Stable, RelayFlag::Running, RelayFlag::Valid])),
    ]);
    for _ in 0..20 {
        assert_eq!(d.select_relay(0).unwrap().id, "g");
    }
}

#[test]
fn fallback_when_nothing_suits() {
    let d = client_with(vec![
        relay("plain", 5, flags(&[RelayFlag::Running, RelayFlag::Valid])),
        relay("bad", 5, flags(&[RelayFlag::Running, RelayFlag::Valid, RelayFlag::BadExit])),
    ]);
    for _ in 0..20 {
        assert_eq!(d.select_relay(2).unwrap().id, "plain");
    }
    let none = client_with(vec![relay("down", 5, flags(&[RelayFlag::Fast, RelayFlag::Exit]))]);
    assert!(matches!(none.select_relay(2), Err(DirectoryError::NoSuitableRelays)));
    let empty = DirectoryClient::new_mock();
    assert!(matches!(empty.select_relay(0), Err(DirectoryError::NoSuitableRelays)));
}

#[test]
fn mock_directory_serves_suitable_relays() {
    let mut d = DirectoryClient::new_mock();
    let c = d.fetch_consensus(10).unwrap();
    assert_eq!(c.relays.len(), 10);
    assert_eq!(c.relays[0].id, "mock-Guard1");
    assert_eq!(c.relays[9].address, OrAddress { ip: [192, 168, 1, 10], port: 9001 });
    for hop in 0..3 {
        for _ in 0..10 {
            let r = d.select_relay(hop).unwrap();
            assert!(DirectoryClient::is_relay_suitable(&r, hop));
        }
    }
    assert!(d.is_consensus_fresh(10 + 3599));
    assert!(!d.is_consensus_fresh(10 + 3600));
}

#[test]
fn network_directory_asks_for_a_download() {
    let mut d = DirectoryClient::new(vec![]);
    assert!(d.fetch_consensus(10).is_none());
    d.install_consensus(consensus(vec![relay("a", 1, vec![])]), 10);
    assert_eq!(d.fetch_consensus(20).unwrap().relays[0].id, "a");
    assert!(d.fetch_consensus(10 + 3600).is_none());
}

#[test]
fn archive_urls_walk_back_by_hour() {
    let base = "https://collector.torproject.org/recent/relay-descriptors/consensuses/";
    let now = 1_705_320_000; // 2024-01-15 12:00:00 UTC
    assert_eq!(
        DirectoryClient::archive_url(now, 0).unwrap(),
        format!("{}2024-01-15-12-00-00-consensus", base)
    );
    assert_eq!(
        DirectoryClient::archive_url(now, 13).unwrap(),
        format!("{}2024-01-14-23-00-00-consensus", base)
    );
    assert_eq!(DirectoryClient::archive_url(0, 0).unwrap(), format!("{}1970-01-01-00-00-00-consensus", base));
}

#[test]
fn flag_equality_and_copy() {
    assert_eq!(RelayFlag::Unknown("X".to_string()), RelayFlag::Unknown("X".to_string()));
    assert_ne!(RelayFlag::Unknown("X".to_string()), RelayFlag::Unknown("Y".to_string()));
    assert_ne!(RelayFlag::Guard, RelayFlag::Exit);
    assert_eq!(RelayFlag::Guard.copy(), RelayFlag::Guard);
}

#[test]
fn reserialised_consensus_parses_to_the_same_relays() {
    let text = format!(
        "header line\n\
         r Foo {id} dddd 2024-01-15 12:00:00 10.0.0.1 9001 0\ns Guard Fast Running Valid Sybil\nw Bandwidth=5000\n\
         r Bar AQEBAQEBAQEBAQEBAQEBAQEBAQE d 2024-01-15 12:00:00 192.168.0.254 443 80\n",
        id = IDENT
    );
    let first = DirectoryClient::parse_consensus(&text, 0).unwrap();
    let canonical = String::from_utf8(first.canonical_text()).unwrap();
    let second = DirectoryClient::parse_consensus(&canonical, 0).unwrap();
    assert_eq!(first.relays.len(), 2);
    assert_eq!(second.relays.len(), first.relays.len());
    for (a, b) in first.relays.iter().zip(second.relays.iter()) {
        assert_eq!(a.id, b.id);
        assert_eq!(a.nickname, b.nickname);
        assert_eq!(a.address, b.address);
        assert_eq!(a.identity_key, b.identity_key);
        assert_eq!(a.onion_key, b.onion_key);
        assert_eq!(a.bandwidth, b.bandwidth);
        assert_eq!(a.flags, b.flags);
    }
    assert_eq!(String::from_utf8(second.canonical_text()).unwrap(), canonical);
}

#[test]
fn canonical_text_layout() {
    let text = format!("r Foo {} d 2024-01-15 12:00:00 10.0.0.1 9001 0\n", IDENT);
    let c = DirectoryClient::parse_consensus(&text, 0).unwrap();
    let out = String::from_utf8(c.canonical_text()).unwrap();
    assert_eq!(
        out,
        format!("r Foo {} 0 0 0 10.0.0.1 9001 0\ns Running Valid\nw Bandwidth=1000000\n", IDENT)
    );
}

#[test]
fn roles_follow_position_in_the_circuit() {
    assert_eq!(role_for_hop(0, 3), HopRole::Guard);
    assert_eq!(role_for_hop(1, 3), HopRole::Middle);
    assert_eq!(role_for_hop(2, 3), HopRole::Exit);
    assert_eq!(role_for_hop(1, 2), HopRole::Exit);
    assert_eq!(role_for_hop(2, 4), HopRole::Middle);
    assert_eq!(role_for_hop(3, 4), HopRole::Exit);
    assert_eq!(role_for_hop(0, 1), HopRole::Guard);
    let mut d = DirectoryClient::new_mock();
    d.fetch_consensus(0).unwrap();
    for _ in 0..10 {
        let exit = d.select_relay_for_hop(1, 2).unwrap();
        assert!(exit.flags.contains(&RelayFlag::Exit));
        let middle = d.select_relay_for_hop(2, 4).unwrap();
        assert!(DirectoryClient::is_relay_suitable(&middle, 1));
    }
}

#[test]
fn archive_walk_covers_forty_eight_hours() {
    assert_eq!(next_archive_offset(0), Some(1));
    assert_eq!(next_archive_offset(46), Some(47));
    assert_eq!(next_archive_offset(47), None);
    let mut tried = vec![0u32];
    while let Some(n) = next_archive_offset(*tried.last().unwrap()) {
        tried.push(n);
    }
    assert_eq!(tried.len(), 48);
}
