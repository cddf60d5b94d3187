//! The node table, its two channels, and the announcements.

use lanecho::announce::{
    instance_of, mdns_fullname, mdns_properties, peer_from_mdns, probe_found, resumed_from_sleep,
    AnnounceKind, Broadcast, DiscoveryError, DiscoveryService, MdnsProperties, ProbeConclusion,
    UdpPackets,
};
use lanecho::config::{PEER_PROBE_INTERVAL, PEER_TIMEOUT};
use lanecho::discovery::{
    is_link_local_v6, normalize_addrs, Address, Peer, PeerEvent, PeerSource, Registry,
};
use lanecho::paired::{PairedPeer, PairedStore};
use lanecho::protocol::PeerInfo;

fn v4(a: u8, b: u8, c: u8, d: u8) -> Address {
    Address::V4(u32::from_be_bytes([a, b, c, d]))
}

fn test_peer(fp: &str, name: &str) -> Peer {
    Peer {
        info: info(fp, name),
        addrs: vec![v4(192, 168, 1, 2)],
        port: 42524,
    }
}

fn info(fp: &str, name: &str) -> PeerInfo {
    PeerInfo {
        device_id: format!("dev-{fp}"),
        name: name.into(),
        fingerprint: fp.into(),
        platform: "macos".into(),
        os_version: None,
    }
}

fn test_registry(fp: &str) -> Registry {
    Registry::new(fp.to_string())
}

fn up_name(event: Option<PeerEvent>) -> Option<String> {
    match event {
        Some(PeerEvent::Up(p)) => Some(p.info.name),
        _ => None,
    }
}

fn up_addrs(event: Option<PeerEvent>) -> Option<Vec<Address>> {
    match event {
        Some(PeerEvent::Up(p)) => Some(p.addrs),
        _ => None,
    }
}

fn down(fp: &str) -> Option<PeerEvent> {
    Some(PeerEvent::Down(fp.to_string()))
}

/// A repeated heartbeat must not emit Up again; a change of info (a rename,
/// say) must emit it once more
#[test]
fn upsert_emits_only_on_change() {
    let mut reg = test_registry("self");
    assert_eq!(
        up_name(reg.upsert(test_peer("aaa", "old"), PeerSource::Udp, 0)).as_deref(),
        Some("old")
    );
    // heartbeat: unchanged
    assert_eq!(reg.upsert(test_peer("aaa", "old"), PeerSource::Udp, 1), None);
    // rename: changed
    assert_eq!(
        up_name(reg.upsert(test_peer("aaa", "new"), PeerSource::Udp, 2)).as_deref(),
        Some("new")
    );
}

/// Our own packets must be filtered out
#[test]
fn self_is_filtered() {
    let mut reg = test_registry("self");
    assert_eq!(reg.upsert(test_peer("self", "me"), PeerSource::Udp, 0), None);
    assert!(reg.snapshot().is_empty());
    assert_eq!(reg.own_fingerprint(), "self");
}

/// Stored addresses stand in dial order, and a sighting takes none away
#[test]
fn stored_addresses_stay_in_dial_order() {
    let mut reg = test_registry("self");
    let mut first = test_peer("aaa", "n");
    first.addrs = vec![Address::V6(1), v4(127, 0, 0, 1), Address::V6(5)];
    reg.upsert(first, PeerSource::Mdns, 0);
    let mut second = test_peer("aaa", "n");
    second.addrs = vec![v4(10, 0, 0, 2)];
    assert_eq!(
        up_addrs(reg.upsert(second, PeerSource::Udp, 1)),
        Some(vec![
            v4(10, 0, 0, 2),
            Address::V6(5),
            v4(127, 0, 0, 1),
            Address::V6(1)
        ])
    );
}

/// Address merging across channels: a new address emits one Up, a
/// single-address heartbeat no longer makes it jitter, and the order stays
/// stable
#[test]
fn upsert_merges_addrs_stably() {
    let mut reg = test_registry("self");
    let addr_a = v4(192, 168, 1, 2);
    let addr_b = v4(10, 0, 0, 2);

    // UDP reports the single address A first
    assert_eq!(
        up_addrs(reg.upsert(test_peer("aaa", "n"), PeerSource::Udp, 0)),
        Some(vec![addr_a])
    );

    // mDNS reports [B, A]: merged onto the existing order as [A, B], and the new
    // address B emits Up
    let mut peer = test_peer("aaa", "n");
    peer.addrs = vec![addr_b, addr_a];
    assert_eq!(
        up_addrs(reg.upsert(peer, PeerSource::Mdns, 1)),
        Some(vec![addr_a, addr_b])
    );

    // A UDP heartbeat reports A again: the merge result is unchanged
    assert_eq!(reg.upsert(test_peer("aaa", "n"), PeerSource::Udp, 2), None);
}

/// remove emits Down only for a node that exists
#[test]
fn remove_emits_down_once() {
    let mut reg = test_registry("self");
    reg.upsert(test_peer("bbb", "b"), PeerSource::Udp, 0);
    assert_eq!(reg.remove("bbb"), down("bbb"));
    assert_eq!(reg.remove("bbb"), None);
}

/// When only mDNS gets through a node must not be kicked by the heartbeat
/// timeout
#[test]
fn mdns_peer_survives_sweep() {
    let mut reg = test_registry("self");
    reg.upsert(test_peer("aaa", "n"), PeerSource::Mdns, 0);
    let (_, events) = reg.sweep(0, 0);
    assert!(events.is_empty());
    assert_eq!(reg.snapshot().len(), 1);
}

/// A UDP-only node is cleaned up once its heartbeat times out
#[test]
fn udp_peer_swept_after_timeout() {
    let mut reg = test_registry("self");
    reg.upsert(test_peer("aaa", "n"), PeerSource::Udp, 0);
    let (_, events) = reg.sweep(0, 1);
    assert_eq!(events, vec![PeerEvent::Down("aaa".into())]);
    assert!(reg.snapshot().is_empty());
}

/// mDNS service gone with no UDP heartbeat: the node goes offline at once
#[test]
fn mdns_removed_downs_peer_without_udp() {
    let mut reg = test_registry("self");
    reg.upsert(test_peer("aaa", "n"), PeerSource::Mdns, 0);
    assert_eq!(reg.mdns_removed("dev-aaa", PEER_TIMEOUT, 0), down("aaa"));
    assert!(reg.snapshot().is_empty());
}

/// mDNS gone but the UDP heartbeat still fresh: the node is kept, and only goes
/// offline in a sweep once UDP times out too
#[test]
fn mdns_removed_keeps_peer_with_live_udp() {
    let mut reg = test_registry("self");
    reg.upsert(test_peer("aaa", "n"), PeerSource::Mdns, 0);
    reg.upsert(test_peer("aaa", "n"), PeerSource::Udp, 0);
    // UDP heartbeat inside the timeout window: stays online
    assert_eq!(reg.mdns_removed("dev-aaa", PEER_TIMEOUT, 1), None);
    assert_eq!(reg.snapshot().len(), 1);
    // once UDP times out as well the sweep finishes it off
    let (_, events) = reg.sweep(0, 2);
    assert_eq!(events, vec![PeerEvent::Down("aaa".into())]);
}

#[test]
fn mdns_removal_of_a_stranger_is_silent() {
    let mut reg = test_registry("self");
    reg.upsert(test_peer("aaa", "n"), PeerSource::Mdns, 0);
    assert_eq!(reg.mdns_removed("dev-zzz", PEER_TIMEOUT, 0), None);
    assert_eq!(reg.snapshot().len(), 1);
}

/// Address normalization: fe80:: link-local is dropped and non-loopback IPv4
/// comes first; the result is empty when only link-local remains
#[test]
fn normalize_addrs_filters_and_sorts() {
    let v4a = v4(192, 168, 1, 2);
    let lo4 = v4(127, 0, 0, 1);
    let ll6 = Address::V6(0xfe80_0000_0000_0000_0000_0000_0000_0001);
    let lo6 = Address::V6(1);

    // link-local dropped; non-loopback IPv4 > loopback IPv4 > loopback IPv6
    assert_eq!(
        normalize_addrs(&vec![ll6, lo6, lo4, v4a]),
        vec![v4a, lo4, lo6]
    );
    // only link-local left: returns empty (the caller drops the update)
    assert_eq!(normalize_addrs(&vec![ll6]), Vec::<Address>::new());
    assert!(is_link_local_v6(&ll6));
    assert!(!is_link_local_v6(&lo6));
    assert!(lo4.is_loopback() && lo6.is_loopback() && !v4a.is_loopback());
}

#[test]
fn global_v6_comes_after_v4() {
    let v6 = Address::V6(0x2001_0db8_0000_0000_0000_0000_0000_0001);
    assert_eq!(
        normalize_addrs(&vec![v6, v4(10, 0, 0, 1)]),
        vec![v4(10, 0, 0, 1), v6]
    );
}

/// A node must not be reported when the first mDNS event carries only fe80::;
/// it is reported once an IPv4 event arrives, and fe80:: must never end up in
/// the candidate list
#[test]
fn link_local_only_peer_is_deferred() {
    let mut reg = test_registry("self");
    let ll6 = Address::V6(0xfe80_0000_0000_0000_0000_0000_0000_0001);
    let addr = v4(192, 168, 1, 2);

    // link-local address only: not registered, no event
    let mut peer = test_peer("aaa", "n");
    peer.addrs = vec![ll6];
    assert_eq!(reg.upsert(peer, PeerSource::Mdns, 0), None);
    assert!(reg.snapshot().is_empty());

    // IPv4 arrives: reported normally, the list holds only usable addresses
    let mut peer = test_peer("aaa", "n");
    peer.addrs = vec![ll6, addr];
    assert_eq!(
        up_addrs(reg.upsert(peer, PeerSource::Mdns, 1)),
        Some(vec![addr])
    );
}

/// Extract the instance (device ID) from an mDNS fullname
#[test]
fn instance_extraction() {
    assert_eq!(
        instance_of("uuid-1234._lanecho._tcp.local.").as_deref(),
        Some("uuid-1234")
    );
    assert_eq!(instance_of("._lanecho._tcp.local.").as_deref(), Some(""));
}

#[test]
fn instance_of_another_service() {
    assert_eq!(instance_of("uuid-1234._http._tcp.local."), None);
    assert_eq!(
        instance_of("uuid-1234_lanecho._tcp.local.").as_deref(),
        Some("uuid-1234")
    );
    assert_eq!(
        instance_of(&mdns_fullname("dev-1")).as_deref(),
        Some("dev-1")
    );
}

/// sweep only picks nodes that are mDNS-only alive with UDP silent and past the
/// throttle interval
#[test]
fn sweep_flags_stale_mdns_only_peers_for_probe() {
    let mut reg = test_registry("self");
    // aaa: mDNS-only, the probe target (coming online counts as just probed)
    reg.upsert(test_peer("aaa", "a"), PeerSource::Mdns, 0);
    let later = PEER_PROBE_INTERVAL + 1;
    // bbb: UDP heartbeat is fresh, not probed
    reg.upsert(test_peer("bbb", "b"), PeerSource::Udp, later);
    let (early, _) = reg.sweep(PEER_TIMEOUT, later - 1);
    assert!(early.is_empty());

    let (probes, _) = reg.sweep(PEER_TIMEOUT, later);
    assert_eq!(probes.len(), 1);
    assert_eq!(probes[0].info.fingerprint, "aaa");
    // the timestamp is stamped: the next sweep must not probe again
    let (again, _) = reg.sweep(PEER_TIMEOUT, later);
    assert!(again.is_empty());
    // the probe target is not cleaned up (still alive over mDNS)
    assert_eq!(reg.snapshot().len(), 2);
}

/// Applying a failed probe: a still-fresh UDP heartbeat is newer evidence and
/// keeps the node, while an mDNS-only node is removed
#[test]
fn probe_failed_respects_fresh_udp() {
    let mut reg = test_registry("self");
    reg.upsert(test_peer("aaa", "a"), PeerSource::Mdns, 0);
    reg.upsert(test_peer("aaa", "a"), PeerSource::Udp, 0);
    assert_eq!(reg.probe_failed("aaa", PEER_TIMEOUT, 1), None);
    assert!(reg.udp_fresh("aaa", PEER_TIMEOUT, 1));
    assert_eq!(reg.snapshot().len(), 1);

    // mDNS only: a failed probe takes it offline
    reg.upsert(test_peer("ccc", "c"), PeerSource::Mdns, 1);
    assert_eq!(reg.probe_failed("ccc", PEER_TIMEOUT, 2), down("ccc"));
    assert_eq!(reg.snapshot().len(), 1);
    assert!(reg.find("ccc").is_none());
    assert_eq!(reg.find("aaa").unwrap().info.name, "a");
}

/// A certificate of another device is not the node that was probed
#[test]
fn imposter_does_not_count_as_alive() {
    assert!(probe_found(&Some("fp".into()), "fp"));
    assert!(!probe_found(&Some("other".into()), "fp"));
    assert!(!probe_found(&None, "fp"));
}

#[test]
fn clock_gap_means_a_sleep() {
    assert!(!resumed_from_sleep(30_000, 30_000));
    assert!(resumed_from_sleep(200_000, 30_000));
}

fn packets(tag: u8) -> UdpPackets {
    UdpPackets::encode(vec![tag, 1], vec![tag, 2], vec![tag, 3], false)
}

fn service(has_udp: bool, has_mdns: bool) -> DiscoveryService {
    DiscoveryService::new(
        info("self", "me"),
        42524,
        false,
        packets(0),
        has_udp,
        has_mdns,
        Some(mdns_fullname("dev-self")),
    )
    .ok()
    .unwrap()
}

/// With no channel there is nothing to discover with
#[test]
fn all_channels_failed_is_an_error() {
    let r = DiscoveryService::new(
        info("self", "me"),
        42524,
        false,
        packets(0),
        false,
        false,
        None,
    );
    assert!(matches!(r, Err(DiscoveryError::AllChannelsFailed)));
    assert_eq!(service(true, false).tcp_port(), 42524);
    assert_eq!(service(false, true).info().name, "me");
}

/// An announcement puts the node in the table and is answered; a response is
/// not; a goodbye takes the node out
#[test]
fn packets_drive_the_table() {
    let mut s = service(true, true);
    let from = v4(10, 0, 0, 9);
    let (event, reply) = s.on_packet(AnnounceKind::Announce, info("aaa", "a"), 42524, from, 0);
    assert_eq!(up_addrs(event), Some(vec![from]));
    assert_eq!(reply, Some(vec![0, 2]));
    let (event, reply) = s.on_packet(AnnounceKind::Response, info("aaa", "a"), 42524, from, 1);
    assert_eq!(event, None);
    assert_eq!(reply, None);
    assert_eq!(s.peers().len(), 1);
    assert_eq!(s.peer_by_fingerprint("aaa").unwrap().port, 42524);
    let (event, _) = s.on_packet(AnnounceKind::Goodbye, info("aaa", "a"), 42524, from, 2);
    assert_eq!(event, down("aaa"));
}

/// A passive node neither announces itself nor answers
#[test]
fn passive_node_is_silent() {
    let mut s = service(true, true);
    assert_eq!(s.heartbeat(), Some(vec![0, 1]));
    let going = s.set_passive(true, packets(1));
    assert!(going.iter().any(|b| matches!(b, Broadcast::Send(p) if *p == vec![1, 3] || *p == vec![0, 3])));
    assert!(going.iter().any(|b| matches!(b, Broadcast::Unregister(_))));
    assert_eq!(s.heartbeat(), None);
    let (_, reply) = s.on_packet(
        AnnounceKind::Announce,
        info("aaa", "a"),
        42524,
        v4(10, 0, 0, 9),
        0,
    );
    assert_eq!(reply, None);
    let back = s.set_passive(false, packets(2));
    assert!(back.iter().any(|b| matches!(b, Broadcast::Register)));
    assert_eq!(s.heartbeat(), Some(vec![2, 1]));
}

#[test]
fn renaming_announces_the_new_name() {
    let mut s = service(true, true);
    let out = s.update_info(info("self", "renamed"), packets(5));
    assert!(out.iter().any(|b| matches!(b, Broadcast::Send(p) if *p == vec![5, 1])));
    assert_eq!(s.info().name, "renamed");
    assert_eq!(s.heartbeat(), Some(vec![5, 1]));
    let out = s.shutdown();
    assert!(out.iter().any(|b| matches!(b, Broadcast::Stop)));
    assert!(out.iter().any(|b| matches!(b, Broadcast::Send(p) if *p == vec![5, 3])));
}

/// With the daemon available a failed probe does not remove the node: the death
/// decision is left to the verification that follows
#[test]
fn failed_probe_is_left_to_the_daemon() {
    let mut s = service(true, true);
    s.on_resolved(test_peer("aaa", "a"), 0);
    assert_eq!(
        s.conclude_probe("aaa", "dev-aaa", 1),
        ProbeConclusion::Verify(mdns_fullname("dev-aaa"))
    );
    assert_eq!(s.peers().len(), 1);

    let mut udp_only = service(true, false);
    udp_only.on_resolved(test_peer("aaa", "a"), 0);
    assert_eq!(
        udp_only.conclude_probe("aaa", "dev-aaa", 1),
        ProbeConclusion::Drop
    );
    assert_eq!(udp_only.registry().remove("aaa"), down("aaa"));

    let mut fresh = service(true, true);
    fresh.on_packet(
        AnnounceKind::Announce,
        info("aaa", "a"),
        42524,
        v4(10, 0, 0, 9),
        0,
    );
    assert_eq!(
        fresh.conclude_probe("aaa", "dev-aaa", 1),
        ProbeConclusion::Keep
    );
}

/// What a node announces over mDNS is what the other side resolves
#[test]
fn announced_properties_resolve() {
    let mut me = info("fp", "name");
    me.os_version = Some("Linux 6".into());
    let addrs = vec![v4(10, 0, 0, 9)];
    let peer = peer_from_mdns(mdns_properties(&me), &addrs, 7).unwrap();
    assert_eq!(peer.info, me);
    assert_eq!(peer.addrs, addrs);
    assert_eq!(peer.port, 7);

    let without_id = MdnsProperties {
        id: None,
        name: Some("n".into()),
        fp: Some("f".into()),
        platform: Some("p".into()),
        osv: None,
    };
    assert!(peer_from_mdns(without_id, &addrs, 7).is_none());
}

/// Insert, hand the list out, reload it: the pairing survives intact, and is
/// gone after removal
#[test]
fn insert_persist_reload_remove() {
    let mut store = PairedStore::load("/data", None);
    assert!(!store.contains("aaa"));

    store.insert(&info("aaa", "A"), 5);
    assert_eq!(store.path(), "/data/paired.json");

    let store2 = PairedStore::load("/data", Some(store.list()));
    assert!(store2.contains("aaa"));
    assert_eq!(store2.list().len(), 1);
    assert_eq!(store2.list()[0].name, "A");

    let mut store3 = store2;
    assert!(store3.remove("aaa"));
    assert!(store3.list().is_empty());
    assert!(!store3.remove("aaa"));
}

/// A corrupted paired.json is treated as an empty table, without panicking
#[test]
fn corrupted_file_treated_as_empty() {
    let store = PairedStore::load("/data", None);
    assert!(store.list().is_empty());
}

/// Pairing again refreshes the name and keeps one record; the list is ordered
/// by name
#[test]
fn pairing_again_keeps_one_record() {
    let mut store = PairedStore::load("/data", None);
    store.insert(&info("bbb", "B"), 9);
    store.insert(&info("aaa", "A"), 5);
    store.insert(&info("aaa", "A2"), 7);
    let list: Vec<PairedPeer> = store.list();
    let names: Vec<&str> = list.iter().map(|p| p.name.as_str()).collect();
    assert_eq!(names, vec!["A2", "B"]);
    assert_eq!(list[0].paired_at_ms, 7);
    assert_eq!(list[1].paired_at_ms, 9);
}
