//! Two engines talking to each other: pairing, text, images and files.

use lanecho::announce::{DiscoveryService, UdpPackets};
use lanecho::clipboard::{ClipboardContent, ClipboardEvent, FilePath};
use lanecho::config::{ECHO_RECENT_CAP, ECHO_TTL};
use lanecho::discovery::{Address, Peer};
use lanecho::echo::EchoTable;
use lanecho::filenames::landing_names;
use lanecho::paired::{PairedPeer, PairedStore};
use lanecho::protocol::{
    ControlMessage, FileMeta, FilesOfferMeta, ImageOfferMeta, PeerInfo, ProtocolError,
    IDENTITY_MISMATCH,
};
use lanecho::session::{
    check_greeting, open_gate, unexpected, DialAction, DialEvent, Dialer, Errand, Gate,
    ServeAction, ServeEvent, Session,
};
use lanecho::stream::batch_dir;
use lanecho::sync::{
    retain_paths, BlobOffer, CopyOutcome, Dispatch, EngineConfig, EngineEvent, FileFact,
    OfferDecision, Outbound, PairStart, SyncEngine, SyncError, SyncMode, SyncTypes,
};

fn info(fp: &str) -> PeerInfo {
    PeerInfo {
        device_id: format!("dev-{fp}"),
        name: format!("name-{fp}"),
        fingerprint: fp.into(),
        platform: "linux".into(),
        os_version: None,
    }
}

fn all_types() -> SyncTypes {
    SyncTypes {
        text: true,
        images: true,
        files: true,
    }
}

fn start(fp: &str, paired: Option<Vec<PairedPeer>>) -> SyncEngine {
    let dir = format!("/data-{fp}");
    let config = EngineConfig {
        data_dir: dir.clone(),
        tcp_port: 0,
        discovery_port: 42617,
        passive: false,
        sync_mode: SyncMode::Both,
        sync_types: all_types(),
        max_sync_file_bytes: 32 * 1024 * 1024,
    };
    let packets = UdpPackets::encode(vec![1], vec![2], vec![3], false);
    let discovery = DiscoveryService::new(info(fp), 42524, false, packets, true, false, None)
        .ok()
        .unwrap();
    SyncEngine::start(
        &config,
        info(fp),
        42524,
        discovery,
        PairedStore::load(&dir, paired),
    )
}

fn sight(engine: &mut SyncEngine, fp: &str) {
    let peer = Peer {
        info: info(fp),
        addrs: vec![Address::V4(0x0a00_0001)],
        port: 42524,
    };
    engine.discovery().on_resolved(peer, 0);
}

/// Two engines that have found and paired each other
fn pair_of_nodes() -> (SyncEngine, SyncEngine) {
    let mut a = start("aaa", None);
    let mut b = start("bbb", None);
    sight(&mut a, "bbb");
    sight(&mut b, "aaa");
    a.add_paired(&info("bbb"), 1);
    b.add_paired(&info("aaa"), 1);
    (a, b)
}

fn text_event(text: &str, at: u64) -> ClipboardEvent {
    content_event(ClipboardContent::Text(text.into()), at)
}

fn content_event(content: ClipboardContent, at: u64) -> ClipboardEvent {
    let hash = content.hash();
    ClipboardEvent::new(content, hash, at)
}

fn sample_image() -> ClipboardContent {
    let rgba: Vec<u8> = (0..3 * 2 * 4).map(|i| (i * 37 % 251) as u8).collect();
    ClipboardContent::Image {
        width: 3,
        height: 2,
        rgba,
    }
}

/// What a copy on a node leads to
struct Outcome {
    /// The copy was swallowed as an echo
    echo: bool,
    /// How the transfer ended, where one was made
    sent: Option<Result<(), SyncError>>,
    /// What the receiver reported
    events: Vec<EngineEvent>,
}

/// The payload that goes with an offer
enum Payload {
    Text,
    Image(ImageOfferMeta, Vec<u8>),
    Files(FilesOfferMeta, Vec<FilePath>),
}

/// Runs one transfer over an unbroken connection
fn transfer(
    a: &SyncEngine,
    b: &mut SyncEngine,
    message: ControlMessage,
    payload: Payload,
    now: u64,
) -> (Result<(), SyncError>, Vec<EngineEvent>) {
    let errand = match payload {
        Payload::Text => Errand::Sync,
        _ => Errand::Blob,
    };
    let mut prepared = Some(message);
    let mut dialer = Dialer::new(errand, b.local_info().fingerprint);
    let mut session: Option<Session> = None;
    let mut events: Vec<EngineEvent> = Vec::new();
    let mut to_dialer = DialEvent::Connected;
    let mut to_server: Vec<ControlMessage> = Vec::new();
    loop {
        match dialer.step(&a.local_info(), to_dialer) {
            DialAction::Send(m) | DialAction::SendLast(m) => to_server.push(m),
            DialAction::SendPrepared => to_server.push(prepared.take().unwrap()),
            DialAction::Stream => {
                let hash = match &payload {
                    Payload::Image(_, png) => blake3::hash(png).to_hex().to_string(),
                    _ => "sum-of-the-files".to_string(),
                };
                to_dialer = DialEvent::Streamed(hash);
                continue;
            }
            DialAction::Finish { result, .. } => return (result.map(|_| ()), events),
            DialAction::Ignore => panic!("the dialer got stuck"),
        }
        let m = to_server.remove(0);
        let reply = match session.as_mut() {
            None => {
                let fp = Some(a.local_info().fingerprint);
                match open_gate(&fp, m, &b.local_info()) {
                    Gate::Admit { reply, remote } => {
                        session = Some(Session::new(remote));
                        Some(reply)
                    }
                    Gate::Refuse { answer, .. } => answer,
                }
            }
            Some(s) => serve(s, b, m, &payload, &mut events, now),
        };
        to_dialer = DialEvent::Message(reply.expect("the server must answer"));
    }
}

fn serve(
    session: &mut Session,
    b: &mut SyncEngine,
    m: ControlMessage,
    payload: &Payload,
    events: &mut Vec<EngineEvent>,
    now: u64,
) -> Option<ControlMessage> {
    let mut event = ServeEvent::Message(m);
    loop {
        let (report, action) = session.step(b, event, now);
        if let Some(e) = report {
            events.push(e);
        }
        event = match action {
            ServeAction::Reply(reply) | ServeAction::DropAndReply(reply) => return Some(reply),
            ServeAction::ParseOffer { .. } => match payload {
                Payload::Image(meta, _) => ServeEvent::OfferParsed(Some(BlobOffer::Image(*meta))),
                Payload::Files(meta, _) => {
                    let files = meta.files.clone();
                    ServeEvent::OfferParsed(Some(BlobOffer::Files(FilesOfferMeta {
                        total_bytes: meta.total_bytes,
                        files,
                    })))
                }
                Payload::Text => ServeEvent::OfferParsed(None),
            },
            ServeAction::ReceiveImage(_) => {
                // Accepting is an answer of its own; the bytes follow at once
                if let Payload::Image(_, png) = payload {
                    let (_, next) = session.step(b, ServeEvent::ImageReceived(png.clone()), now);
                    assert_eq!(next, ServeAction::Read);
                }
                return Some(ControlMessage::BlobAccept);
            }
            ServeAction::ReceiveFiles(_) => {
                let (_, next) = session.step(
                    b,
                    ServeEvent::FilesReceived("sum-of-the-files".to_string()),
                    now,
                );
                assert_eq!(next, ServeAction::Read);
                return Some(ControlMessage::BlobAccept);
            }
            ServeAction::LandFiles => match payload {
                Payload::Files(_, paths) => {
                    let landed = paths.iter().map(|p| p.duplicate()).collect();
                    ServeEvent::Landed(Some(landed))
                }
                _ => ServeEvent::Landed(None),
            },
            _ => return None,
        };
    }
}

/// A copy on `a`, with `b` on the other end
fn copy(a: &mut SyncEngine, b: &mut SyncEngine, event: ClipboardEvent, now: u64) -> Outcome {
    let at = event.timestamp_ms;
    let (outbound, echo) = match a.on_clipboard(event, now) {
        CopyOutcome::Echo => (Outbound::Nothing, true),
        CopyOutcome::Copied { outbound, .. } => (outbound, false),
    };
    let (kind, data, payload) = match outbound {
        Outbound::Nothing => {
            return Outcome {
                echo,
                sent: None,
                events: Vec::new(),
            }
        }
        Outbound::Text(text) => ("text", text, Payload::Text),
        Outbound::Image {
            width,
            height,
            rgba,
        } => {
            let (meta, png) = a.offer_image(width, height, &rgba).unwrap();
            ("image", "{}".to_string(), Payload::Image(meta, png))
        }
        Outbound::Files(paths) => {
            let facts: Vec<FileFact> = paths
                .into_iter()
                .map(|path| FileFact {
                    readable: true,
                    regular: true,
                    bytes: 64 * 1024,
                    path,
                })
                .collect();
            let meta = a.offer_files(&facts).unwrap();
            let dir = batch_dir("/data-bbb", "cafe0001-0000");
            let landed = landing_names(&meta.files)
                .into_iter()
                .map(|name| FilePath::Text(format!("{dir}/{name}")))
                .collect();
            ("files", "{}".to_string(), Payload::Files(meta, landed))
        }
    };
    let dispatch: Dispatch = a.dispatch(at, kind, data).unwrap();
    assert_eq!(dispatch.targets.len(), 1);
    let (sent, events) = transfer(a, b, dispatch.message, payload, now);
    Outcome {
        echo,
        sent: Some(sent),
        events,
    }
}

fn applied(events: &[EngineEvent]) -> Vec<&ClipboardContent> {
    events
        .iter()
        .filter_map(|e| match e {
            EngineEvent::ApplyRemote { content, .. } => Some(content),
            _ => None,
        })
        .collect()
}

/// The core path: text sync byte-for-byte, including surrounding whitespace and
/// control characters
#[test]
fn pair_and_sync_roundtrip() {
    let (mut a, mut b) = pair_of_nodes();
    let text = "  你好 lanecho\n\t🚀 尾巴  ";
    let out = copy(&mut a, &mut b, text_event(text, 1_000), 1_000);
    assert_eq!(out.sent, Some(Ok(())));
    match &out.events[..] {
        [EngineEvent::ApplyRemote {
            content,
            from,
            timestamp_ms,
            hash,
        }] => {
            assert_eq!(content, &ClipboardContent::Text(text.into()));
            assert_eq!(from.fingerprint, "aaa");
            assert_eq!(*timestamp_ms, 1_000);
            assert_eq!(hash, &content.hash());
        }
        other => panic!("unexpected: {other:?}"),
    }
    let back = copy(&mut b, &mut a, text_event("back", 2_000), 10_000);
    assert_eq!(applied(&back.events), vec![&ClipboardContent::Text("back".into())]);
}

fn ask_to_pair(a: &SyncEngine, b: &mut SyncEngine, accept: bool) -> Result<(), SyncError> {
    let mut dialer = Dialer::new(Errand::Pair, "bbb".into());
    let hello = match dialer.step(&a.local_info(), DialEvent::Connected) {
        DialAction::Send(m) => m,
        other => panic!("unexpected: {other:?}"),
    };
    let (reply, remote) = match open_gate(&Some("aaa".into()), hello, &b.local_info()) {
        Gate::Admit { reply, remote } => (reply, remote),
        other => panic!("unexpected: {other:?}"),
    };
    let mut session = Session::new(remote);
    let request = match dialer.step(&a.local_info(), DialEvent::Message(reply)) {
        DialAction::Send(m) => m,
        other => panic!("unexpected: {other:?}"),
    };
    assert_eq!(request, ControlMessage::PairRequest);
    let (_, action) = session.step(b, ServeEvent::Message(request), 5);
    assert_eq!(action, ServeAction::DecidePair);
    let remote = session.remote();
    if let PairStart::Waiting {
        generation, notice, ..
    } = b.request_pair(&remote)
    {
        assert_eq!(notice, Some(EngineEvent::PairRequested { peer: info("aaa") }));
        assert_eq!(b.respond_pair("aaa"), Some(generation));
        b.settle_pair(&remote, generation, accept, 6);
    }
    let (_, action) = session.step(b, ServeEvent::PairDecided(accept), 6);
    let answer = match action {
        ServeAction::Reply(m) => m,
        other => panic!("unexpected: {other:?}"),
    };
    match dialer.step(&a.local_info(), DialEvent::Message(answer)) {
        DialAction::Finish { result, .. } => result.map(|_| ()),
        other => panic!("unexpected: {other:?}"),
    }
}

/// The peer rejects pairing: the initiator gets PairRejected and neither side
/// records a pairing
#[test]
fn pair_rejection_propagates() {
    let a = start("aaa", None);
    let mut b = start("bbb", None);
    let result = ask_to_pair(&a, &mut b, false);
    assert!(matches!(result, Err(SyncError::PairRejected)));
    assert!(a.paired_list().is_empty());
    assert!(b.paired_list().is_empty());
}

#[test]
fn accepted_pairing_is_recorded() {
    let a = start("aaa", None);
    let mut b = start("bbb", None);
    assert_eq!(ask_to_pair(&a, &mut b, true), Ok(()));
    assert!(b.is_paired("aaa"));
    assert!(b.pending_pair_requests().is_empty());
}

/// A request from a device that is paired already is accepted at once
#[test]
fn known_device_pairs_silently() {
    let (_, mut b) = pair_of_nodes();
    assert_eq!(b.request_pair(&info("aaa")), PairStart::Accepted);
}

/// Receiver-side checks: a peer with sync paused rejects the transfer and
/// returns a structured reason
#[test]
fn disabled_receiver_rejects_with_reason() {
    let (mut a, mut b) = pair_of_nodes();
    b.set_sync_mode(SyncMode::Off);
    let out = copy(&mut a, &mut b, text_event("should be rejected", 1_000), 1_000);
    assert_eq!(out.sent, Some(Err(SyncError::Rejected("disabled".into()))));
    assert!(out.events.is_empty());
}

/// A send-only node refuses inbound sync but still broadcasts its own copies
#[test]
fn send_only_mode_rejects_inbound_but_broadcasts() {
    let (mut a, mut b) = pair_of_nodes();
    b.set_sync_mode(SyncMode::Send);
    let out = copy(&mut a, &mut b, text_event("b should reject this", 1_000), 1_000);
    assert_eq!(out.sent, Some(Err(SyncError::Rejected("disabled".into()))));
    assert!(out.events.is_empty());
    let out = copy(&mut b, &mut a, text_event("a should apply this", 2_000), 2_000);
    assert_eq!(
        applied(&out.events),
        vec![&ClipboardContent::Text("a should apply this".into())]
    );
}

/// A receive-only node never broadcasts its own copies but still accepts
/// inbound sync
#[test]
fn receive_only_mode_applies_inbound_but_stays_silent() {
    let (mut a, mut b) = pair_of_nodes();
    a.set_sync_mode(SyncMode::Receive);
    match a.on_clipboard(text_event("must stay on a", 1_000), 1_000) {
        CopyOutcome::Copied { report, outbound } => {
            assert!(matches!(report, EngineEvent::LocalCopied { .. }));
            assert_eq!(outbound, Outbound::Nothing);
        }
        CopyOutcome::Echo => panic!("a genuine copy"),
    }
    let out = copy(&mut b, &mut a, text_event("delivered to a", 2_000), 2_000);
    assert_eq!(
        applied(&out.events),
        vec![&ClipboardContent::Text("delivered to a".into())]
    );
}

/// Once sync is paused locally a copy must not go out
#[test]
fn disabled_sender_does_not_broadcast() {
    let (mut a, mut b) = pair_of_nodes();
    a.set_sync_mode(SyncMode::Off);
    let out = copy(&mut a, &mut b, text_event("must stay local", 1_000), 1_000);
    assert!(!out.echo);
    assert!(out.sent.is_none());
    a.set_sync_enabled(true);
    let out = copy(&mut a, &mut b, text_event("goes out", 2_000), 2_000);
    assert_eq!(out.sent, Some(Ok(())));
}

/// Once a remote write loops back through the local clipboard it must not be
/// broadcast again
#[test]
fn echo_is_suppressed() {
    let (mut a, mut b) = pair_of_nodes();
    copy(&mut a, &mut b, text_event("echo-test", 1_000), 1_000);
    let out = copy(&mut b, &mut a, text_event("echo-test", 1_100), 1_100);
    assert!(out.echo);
    assert!(out.sent.is_none());
}

/// When the remote timestamp is no newer than the latest local copy, accept the
/// frame but leave the clipboard alone
#[test]
fn lww_ignores_stale_remote() {
    let (mut a, mut b) = pair_of_nodes();
    let base = 100_000;
    copy(&mut b, &mut a, text_event("b-fresh", base), base);
    let out = copy(&mut a, &mut b, text_event("a-stale", base - 10_000), base + 1);
    assert_eq!(out.sent, Some(Ok(())));
    assert!(out.events.is_empty());
    // A tie is stale too
    let out = copy(&mut a, &mut b, text_event("a-tie", base), base + 2);
    assert_eq!(out.sent, Some(Ok(())));
    assert!(out.events.is_empty());
}

/// Unpairing: removed locally at once, and removed on the peer through the
/// notification
#[test]
fn unpair_propagates_to_peer() {
    let (mut a, mut b) = pair_of_nodes();
    let (event, peer) = a.unpair("bbb");
    assert_eq!(
        event,
        Some(EngineEvent::Unpaired {
            fingerprint: "bbb".into()
        })
    );
    assert_eq!(peer.unwrap().info.fingerprint, "bbb");
    assert!(a.paired_list().is_empty());
    let mut session = Session::new(info("aaa"));
    let (event, _) = session.step(&mut b, ServeEvent::Message(ControlMessage::Unpair), 5);
    assert_eq!(
        event,
        Some(EngineEvent::Unpaired {
            fingerprint: "aaa".into()
        })
    );
    assert!(b.paired_list().is_empty());
}

/// Restarting the engine with the saved list keeps the pairing
#[test]
fn paired_survives_restart() {
    let (a, _) = pair_of_nodes();
    let again = start("aaa", Some(a.paired_list()));
    assert!(again.paired_list().iter().any(|p| p.fingerprint == "bbb"));
    assert_eq!(again.paired_path(), "/data-aaa/paired.json");
}

/// After a one-sided unpair, sync from the peer is rejected with a structured
/// reason
#[test]
fn unpaired_source_is_rejected() {
    let (mut a, mut b) = pair_of_nodes();
    assert!(b.remove_paired("aaa").is_some());
    let out = copy(
        &mut a,
        &mut b,
        text_event("should be rejected by gate", 1_000),
        1_000,
    );
    assert_eq!(out.sent, Some(Err(SyncError::Rejected("not_paired".into()))));
    assert!(out.events.is_empty());
}

/// The later request supersedes the earlier, and the earlier one's exit must
/// not delete the later one's decision
#[test]
fn concurrent_pair_requests_resolve() {
    let mut b = start("bbb", None);
    let first = match b.request_pair(&info("aaa")) {
        PairStart::Waiting {
            generation,
            displaced,
            notice,
        } => {
            assert_eq!(displaced, None);
            assert!(notice.is_some());
            generation
        }
        PairStart::Accepted => panic!("not paired yet"),
    };
    let second = match b.request_pair(&info("aaa")) {
        PairStart::Waiting {
            generation,
            displaced,
            notice,
        } => {
            assert_eq!(displaced, Some(first));
            // While a request of the same peer is pending there is no new notice
            assert_eq!(notice, None);
            generation
        }
        PairStart::Accepted => panic!("not paired yet"),
    };
    assert_ne!(first, second);
    assert_eq!(b.settle_pair(&info("aaa"), first, false, 1), None);
    assert_eq!(b.pending_pair_requests().len(), 1);
    assert_eq!(b.respond_pair("aaa"), Some(second));
    assert_eq!(
        b.settle_pair(&info("aaa"), second, true, 2),
        Some(EngineEvent::Paired { peer: info("aaa") })
    );
    assert!(b.paired_list().iter().any(|p| p.fingerprint == "aaa"));
}

/// Several remotes sync the same text one after the other and only one echo is
/// registered
#[test]
fn duplicate_echo_does_not_swallow_real_copy() {
    let (mut a, mut b) = pair_of_nodes();
    let base = 10_000;
    copy(&mut a, &mut b, text_event("dup", base), base);
    copy(&mut a, &mut b, text_event("dup", base + 10), base + 10);
    assert!(copy(&mut b, &mut a, text_event("dup", base + 20), base + 20).echo);
    let out = copy(&mut b, &mut a, text_event("other", base + 30), base + 30);
    assert_eq!(applied(&out.events), vec![&ClipboardContent::Text("other".into())]);
    let out = copy(&mut b, &mut a, text_event("dup", base + 40), base + 40);
    assert!(!out.echo);
    assert_eq!(applied(&out.events), vec![&ClipboardContent::Text("dup".into())]);
}

/// Echo table semantics: one-shot consumption and eviction at capacity
#[test]
fn echo_semantics() {
    let filled = || {
        let mut echo = EchoTable::new();
        for i in 0..(ECHO_RECENT_CAP + 2) {
            echo.push_echo(format!("h{i}"), 100);
        }
        echo
    };
    let held = (0..(ECHO_RECENT_CAP + 2))
        .filter(|i| filled().take_echo(&format!("h{i}"), 100))
        .count();
    assert_eq!(held, ECHO_RECENT_CAP);
    assert!(!filled().take_echo("h0", 100));
    assert!(!filled().take_echo("h1", 100));
    let mut echo = filled();
    let target = "h5".to_string();
    let hit = echo.take_echo(&target, 100);
    assert!(hit);
    assert!(!echo.take_echo(&target, 100));
}

/// A registration stands while fewer others than the table holds land after it,
/// whatever else happens to them
#[test]
fn echo_outlives_other_writes() {
    let mut echo = EchoTable::new();
    echo.push_echo("mine".into(), 100);
    for i in 1..ECHO_RECENT_CAP {
        echo.push_echo(format!("h{i}"), 100 + i as u64);
        echo.push_echo("mine".into(), 100 + i as u64);
    }
    assert!(echo.take_echo("h3", 150));
    assert!(echo.take_echo("mine", 100 + ECHO_TTL));

    let mut full = EchoTable::new();
    full.push_echo("mine".into(), 100);
    for i in 0..ECHO_RECENT_CAP {
        full.push_echo(format!("h{i}"), 100);
    }
    assert!(!full.take_echo("mine", 100));
}

/// Several syncs land before the clipboard reports the first of them: each is
/// swallowed
#[test]
fn queued_syncs_are_all_swallowed() {
    let (mut a, mut b) = pair_of_nodes();
    let base = 10_000;
    for i in 0..ECHO_RECENT_CAP as u64 {
        copy(&mut a, &mut b, text_event(&format!("t{i}"), base + i), base + i);
    }
    for i in 0..ECHO_RECENT_CAP as u64 {
        let at = base + 100 + i;
        let out = copy(&mut b, &mut a, text_event(&format!("t{i}"), at), at);
        assert!(out.echo);
        assert!(out.sent.is_none());
    }
}

/// An echo registration nobody consumes must expire, or it swallows a real
/// local copy
#[test]
fn orphan_echo_expires_instead_of_swallowing_real_copy() {
    let (mut a, mut b) = pair_of_nodes();
    let base = 10_000;
    copy(&mut a, &mut b, text_event("same", base), base);
    let later = base + ECHO_TTL + 300;
    let out = copy(&mut b, &mut a, text_event("same", base + 1_000), later);
    assert!(!out.echo);
    assert_eq!(applied(&out.events), vec![&ClipboardContent::Text("same".into())]);
}

/// A failed clipboard write takes its registration back
#[test]
fn cancelled_echo_does_not_swallow_a_copy() {
    let (mut a, mut b) = pair_of_nodes();
    copy(&mut a, &mut b, text_event("x", 1_000), 1_000);
    let hash = ClipboardContent::Text("x".into()).hash();
    assert!(b.cancel_echo(&hash, 1_001));
    assert!(!b.cancel_echo(&hash, 1_001));
    assert!(!copy(&mut b, &mut a, text_event("x", 2_000), 1_002).echo);
}

/// An image lands on the other clipboard with the RGBA byte-for-byte identical,
/// and its loop-back is not broadcast
#[test]
fn image_syncs_end_to_end_with_echo_suppression() {
    let (mut a, mut b) = pair_of_nodes();
    let sent_hash = sample_image().hash();
    let out = copy(&mut a, &mut b, content_event(sample_image(), 1_000), 1_000);
    assert_eq!(out.sent, Some(Ok(())));
    match &out.events[..] {
        [EngineEvent::ApplyRemote { content, hash, .. }] => {
            assert_eq!(content, &sample_image());
            assert_eq!(hash, &sent_hash);
        }
        other => panic!("unexpected: {other:?}"),
    }
    assert!(copy(&mut b, &mut a, content_event(sample_image(), 1_100), 1_100).echo);
}

/// Files land under the receiver's sync-files by their sanitized names, and
/// duplicate names within one batch get a counter suffix
#[test]
fn files_sync_lands_sanitized() {
    let (mut a, mut b) = pair_of_nodes();
    let files = ClipboardContent::Files(vec![
        FilePath::Text("/src/report.txt".into()),
        FilePath::Text("/src/sub/report.txt".into()),
    ]);
    let out = copy(&mut a, &mut b, content_event(files, 1_000), 1_000);
    assert_eq!(out.sent, Some(Ok(())));
    assert_eq!(
        applied(&out.events),
        vec![&ClipboardContent::Files(vec![
            FilePath::Text("/data-bbb/sync-files/cafe0001/report.txt".into()),
            FilePath::Text("/data-bbb/sync-files/cafe0001/report (1).txt".into()),
        ])]
    );
}

/// With images off the offer is rejected with unsupported_type
#[test]
fn image_offer_rejected_when_type_disabled() {
    let (mut a, mut b) = pair_of_nodes();
    b.set_sync_types(SyncTypes {
        text: true,
        images: false,
        files: true,
    });
    let out = copy(&mut a, &mut b, content_event(sample_image(), 1_000), 1_000);
    assert_eq!(
        out.sent,
        Some(Err(SyncError::Rejected("unsupported_type".into())))
    );
    assert!(out.events.is_empty());
}

/// When the total file size exceeds the receiver's cap the offer stage rejects
/// with too_large
#[test]
fn oversized_files_rejected_before_stream() {
    let (mut a, mut b) = pair_of_nodes();
    b.set_max_sync_file_bytes(1024);
    let files = ClipboardContent::Files(vec![FilePath::Text("/src/big.bin".into())]);
    let out = copy(&mut a, &mut b, content_event(files, 1_000), 1_000);
    assert_eq!(out.sent, Some(Err(SyncError::Rejected("too_large".into()))));
    assert!(out.events.is_empty());
}

/// When the receiver's local copy is newer, an offer gets an Ack and no
/// transfer follows
#[test]
fn stale_blob_offer_acked_without_transfer() {
    let (mut a, mut b) = pair_of_nodes();
    let base = 100_000;
    copy(&mut b, &mut a, text_event("newer local", base + 5000), base);
    let out = copy(&mut a, &mut b, content_event(sample_image(), base + 1000), base);
    assert_eq!(out.sent, Some(Ok(())));
    assert!(out.events.is_empty());
    assert_eq!(
        b.decide_blob_offer(
            &info("aaa"),
            base + 1000,
            &BlobOffer::Image(ImageOfferMeta {
                total_bytes: 10,
                width: 3,
                height: 2
            })
        ),
        OfferDecision::Stale
    );
}

/// A refusal during the handshake must reach the caller as that refusal
#[test]
fn handshake_surfaces_a_refusal_from_the_peer() {
    let mut dialer = Dialer::new(Errand::Sync, "whatever".into());
    dialer.step(&info("aaa"), DialEvent::Connected);
    let refusal = ControlMessage::SyncRejected {
        reason_code: IDENTITY_MISMATCH.to_string(),
    };
    match dialer.step(&info("aaa"), DialEvent::Message(refusal)) {
        DialAction::Finish { result, .. } => {
            assert_eq!(result, Err(SyncError::Rejected(IDENTITY_MISMATCH.into())))
        }
        other => panic!("expected the peer's reason, got: {other:?}"),
    }
}

/// The dialer ends on a wrong greeting, a wrong identity, a timeout and a lost
/// connection, each with its own error
#[test]
fn dial_errors() {
    let local = info("aaa");
    let dial = |event: DialEvent| {
        let mut dialer = Dialer::new(Errand::Sync, "bbb".into());
        dialer.step(&local, DialEvent::Connected);
        match dialer.step(&local, event) {
            DialAction::Finish { result, .. } => result,
            other => panic!("unexpected: {other:?}"),
        }
    };
    let ack = |version: &str, fp: &str| {
        DialEvent::Message(ControlMessage::HelloAck {
            version: version.into(),
            info: info(fp),
        })
    };
    assert_eq!(dial(ack("1.0", "ccc")), Err(SyncError::FingerprintMismatch));
    assert!(matches!(
        dial(ack("2.0", "bbb")),
        Err(SyncError::Protocol(ProtocolError::VersionMismatch { .. }))
    ));
    assert!(matches!(
        dial(DialEvent::Message(ControlMessage::SyncAck)),
        Err(SyncError::Protocol(ProtocolError::Unexpected { .. }))
    ));
    assert!(matches!(dial(DialEvent::TimedOut), Err(SyncError::Timeout(_))));
    assert_eq!(
        dial(DialEvent::Failed(SyncError::PeerUnreachable)),
        Err(SyncError::PeerUnreachable)
    );
    assert!(check_greeting(
        ControlMessage::HelloAck {
            version: "1.0".into(),
            info: info("bbb")
        },
        "bbb"
    )
    .is_ok());
    match unexpected("hello_ack", &ControlMessage::Bye) {
        SyncError::Protocol(ProtocolError::Unexpected { expected, got }) => {
            assert_eq!((expected.as_str(), got.as_str()), ("hello_ack", "bye"))
        }
        other => panic!("unexpected: {other:?}"),
    }
}

/// The entry check turns away a certificate that does not match, an incompatible
/// version, and anything but a greeting
#[test]
fn gate_refusals() {
    let local = info("bbb");
    let hello = |version: &str| ControlMessage::Hello {
        version: version.into(),
        info: info("aaa"),
    };
    match open_gate(&Some("zzz".into()), hello("1.1"), &local) {
        Gate::Refuse { answer, .. } => assert_eq!(
            answer,
            Some(ControlMessage::SyncRejected {
                reason_code: "identity_mismatch".into()
            })
        ),
        other => panic!("unexpected: {other:?}"),
    }
    assert!(matches!(
        open_gate(&None, hello("1.1"), &local),
        Gate::Refuse { .. }
    ));
    match open_gate(&Some("aaa".into()), hello("2.0"), &local) {
        Gate::Refuse { answer, .. } => assert_eq!(
            answer,
            Some(ControlMessage::SyncRejected {
                reason_code: "unsupported_version".into()
            })
        ),
        other => panic!("unexpected: {other:?}"),
    }
    assert!(matches!(
        open_gate(&Some("aaa".into()), ControlMessage::Bye, &local),
        Gate::Refuse { .. }
    ));
}

fn offered_image(b: &mut SyncEngine, png: &[u8]) -> Session {
    let mut session = Session::new(info("aaa"));
    let offer = ControlMessage::ClipboardSync {
        seq: 1,
        timestamp_ms: 50_000,
        content_type: "image".into(),
        data: "{}".into(),
    };
    session.step(b, ServeEvent::Message(offer), 1);
    let meta = ImageOfferMeta {
        total_bytes: png.len() as u64,
        width: 3,
        height: 2,
    };
    let (_, action) = session.step(
        b,
        ServeEvent::OfferParsed(Some(BlobOffer::Image(meta))),
        1,
    );
    assert_eq!(action, ServeAction::ReceiveImage(png.len() as u64));
    session.step(b, ServeEvent::ImageReceived(png.to_vec()), 1);
    session
}

/// A stream whose checksum does not match is dropped with its reason
#[test]
fn checksum_mismatch_is_refused() {
    let (a, mut b) = pair_of_nodes();
    let (rgba, w, h) = match sample_image() {
        ClipboardContent::Image {
            width,
            height,
            rgba,
        } => (rgba, width, height),
        _ => unreachable!(),
    };
    let (_, png) = a.offer_image(w, h, &rgba).unwrap();
    let mut session = offered_image(&mut b, &png);
    let footer = ControlMessage::BlobFooter {
        hash: "wrong".into(),
    };
    let (event, action) = session.step(&mut b, ServeEvent::Message(footer), 1);
    assert_eq!(event, None);
    assert_eq!(
        action,
        ServeAction::Reply(ControlMessage::SyncRejected {
            reason_code: "checksum_mismatch".into()
        })
    );
}

/// Bytes that are no image are refused though the checksum matches
#[test]
fn undecodable_image_is_refused() {
    let (_, mut b) = pair_of_nodes();
    let junk = b"not a png".to_vec();
    let mut session = offered_image(&mut b, &junk);
    let footer = ControlMessage::BlobFooter {
        hash: blake3::hash(&junk).to_hex().to_string(),
    };
    let (event, action) = session.step(&mut b, ServeEvent::Message(footer), 1);
    assert_eq!(event, None);
    assert_eq!(
        action,
        ServeAction::Reply(ControlMessage::SyncRejected {
            reason_code: "unsupported_type".into()
        })
    );
}

/// A batch whose connection breaks is dropped, and the session is over
#[test]
fn lost_batch_is_dropped() {
    let (_, mut b) = pair_of_nodes();
    let mut session = Session::new(info("aaa"));
    let offer = ControlMessage::ClipboardSync {
        seq: 1,
        timestamp_ms: 50_000,
        content_type: "files".into(),
        data: "{}".into(),
    };
    let (_, action) = session.step(&mut b, ServeEvent::Message(offer), 1);
    assert_eq!(
        action,
        ServeAction::ParseOffer {
            image: false,
            data: "{}".into()
        }
    );
    let meta = FilesOfferMeta {
        total_bytes: 3,
        files: vec![FileMeta {
            name: "a".into(),
            bytes: 3,
        }],
    };
    let (_, action) = session.step(
        &mut b,
        ServeEvent::OfferParsed(Some(BlobOffer::Files(meta))),
        1,
    );
    assert_eq!(
        action,
        ServeAction::ReceiveFiles(vec![FileMeta {
            name: "a".into(),
            bytes: 3
        }])
    );
    let (event, action) = session.step(&mut b, ServeEvent::Lost, 1);
    assert_eq!(event, None);
    assert_eq!(action, ServeAction::DropAndClose);
    let (event, action) = session.step(&mut b, ServeEvent::Message(ControlMessage::Unpair), 1);
    assert_eq!(event, None);
    assert_eq!(action, ServeAction::Ignore);
    assert!(b.is_paired("aaa"));
}

/// An offer that cannot be parsed ends the session; a type from a newer version
/// is refused with its reason
#[test]
fn unreadable_offer_ends_the_session() {
    let (_, mut b) = pair_of_nodes();
    let mut session = Session::new(info("aaa"));
    let offer = ControlMessage::ClipboardSync {
        seq: 1,
        timestamp_ms: 50_000,
        content_type: "image".into(),
        data: "garbage".into(),
    };
    session.step(&mut b, ServeEvent::Message(offer), 1);
    let (_, action) = session.step(&mut b, ServeEvent::OfferParsed(None), 1);
    assert_eq!(action, ServeAction::Close);
    let mut session = Session::new(info("aaa"));
    let unknown = ControlMessage::ClipboardSync {
        seq: 2,
        timestamp_ms: 50_000,
        content_type: "image/png".into(),
        data: "x".into(),
    };
    let (_, action) = session.step(&mut b, ServeEvent::Message(unknown), 1);
    assert_eq!(
        action,
        ServeAction::Reply(ControlMessage::SyncRejected {
            reason_code: "unsupported_type".into()
        })
    );
}

/// Text over the limit is refused by the receiver and not sent by the sender
#[test]
fn oversized_text_stays() {
    let (mut a, mut b) = pair_of_nodes();
    let long = "x".repeat(512 * 1024 + 1);
    assert_eq!(
        b.accept_sync(&info("aaa"), 1_000, "text", long.clone(), 1),
        Err("too_large")
    );
    let fits = "x".repeat(512 * 1024);
    assert!(matches!(
        b.accept_sync(&info("aaa"), 1_000, "text", fits, 1),
        Ok(Some(_))
    ));
    match a.on_clipboard(text_event(&long, 1_000), 1_000) {
        CopyOutcome::Copied { outbound, .. } => assert_eq!(outbound, Outbound::Nothing),
        CopyOutcome::Echo => panic!("a genuine copy"),
    }
}

/// Files that are excluded from the broadcast stay behind; directories and
/// unreadable files are left out of an offer
#[test]
fn excluded_and_irregular_files_stay() {
    let (mut a, _) = pair_of_nodes();
    let keep = FilePath::Text("/tmp/a.yaml".into());
    let drop = FilePath::Text("/tmp/b.key".into());
    let mut event = content_event(
        ClipboardContent::Files(vec![keep.duplicate(), drop.duplicate()]),
        1_000,
    );
    event.broadcast_files_excluded = vec![drop.duplicate()];
    match a.on_clipboard(event, 1_000) {
        CopyOutcome::Copied { outbound, .. } => {
            assert_eq!(outbound, Outbound::Files(vec![keep.duplicate()]))
        }
        CopyOutcome::Echo => panic!("a genuine copy"),
    }
    assert_eq!(
        retain_paths(&vec![keep.duplicate(), drop.duplicate()], &vec![drop]),
        vec![keep]
    );
    let fact = |regular: bool, bytes: u64, path: &str| FileFact {
        readable: true,
        regular,
        bytes,
        path: FilePath::Text(path.into()),
    };
    assert_eq!(a.offer_files(&vec![fact(false, 3, "/tmp/dir")]), None);
    assert_eq!(
        a.offer_files(&vec![fact(true, 33 * 1024 * 1024, "/tmp/big")]),
        None
    );
    assert_eq!(
        a.offer_files(&vec![fact(true, 3, "/tmp/x"), fact(true, 4, "/tmp/y")]),
        Some(FilesOfferMeta {
            total_bytes: 7,
            files: vec![
                FileMeta {
                    name: "x".into(),
                    bytes: 3
                },
                FileMeta {
                    name: "y".into(),
                    bytes: 4
                }
            ]
        })
    );
    assert_eq!(a.offer_files(&Vec::new()), None);
}

/// Nobody to send to, nothing to send
#[test]
fn no_target_no_message() {
    let mut lonely = start("aaa", None);
    assert!(lonely.targets().is_empty());
    assert!(lonely.dispatch(1, "text", "x".into()).is_none());
    let (mut a, _) = pair_of_nodes();
    let first = a.dispatch(1, "text", "x".into()).unwrap();
    let second = a.dispatch(2, "text", "y".into()).unwrap();
    match (first.message, second.message) {
        (
            ControlMessage::ClipboardSync { seq: s1, .. },
            ControlMessage::ClipboardSync { seq: s2, .. },
        ) => assert_eq!(s1 + 1, s2),
        other => panic!("unexpected: {other:?}"),
    }
}

#[test]
fn sync_errors_read_well() {
    assert_eq!(SyncError::PeerUnreachable.message(), "对端不可达");
    assert_eq!(SyncError::Timeout("x".into()).message(), "等待 x 超时");
    assert_eq!(
        SyncError::Rejected("disabled".into()).message(),
        "对端拒绝同步: disabled"
    );
    assert_eq!(
        SyncError::Protocol(ProtocolError::Codec("bad".into())).message(),
        "协议错误: 消息编解码失败: bad"
    );
    assert_eq!(SyncError::Tls("t".into()).message(), "TLS 错误: t");
    assert_eq!(SyncError::Identity("i".into()).message(), "设备身份错误: i");
    assert_eq!(SyncError::Discovery("d".into()).message(), "发现服务错误: d");
    assert_eq!(SyncError::Io("o".into()).message(), "IO 错误: o");
    assert_eq!(
        SyncError::FingerprintMismatch.message(),
        "对端指纹与声明不一致"
    );
    assert_eq!(SyncError::PairRejected.message(), "对端拒绝配对");
}

#[test]
fn sync_modes_have_names() {
    for mode in [
        SyncMode::Off,
        SyncMode::Both,
        SyncMode::Send,
        SyncMode::Receive,
    ] {
        assert_eq!(SyncMode::parse(mode.as_str()), Some(mode));
    }
    assert_eq!(SyncMode::parse("sideways"), None);
    assert!(SyncMode::Both.sends() && SyncMode::Both.receives());
    assert!(SyncMode::Send.sends() && !SyncMode::Send.receives());
    assert!(!SyncMode::Off.sends() && !SyncMode::Off.receives());
}
