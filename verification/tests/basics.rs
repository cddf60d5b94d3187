//! Content hashes, the watcher, the identity, the command line and the text
//! helpers.

use lanecho::cli::{
    conclude_write, find_target, fp8, image_fits, parse_dims, parse_line, pattern_image, preview,
    react, seek, watch_line, LineCommand, Seek, Style,
};
use lanecho::clipboard::{
    hash_text, now_ms, with_hash, ClipboardContent, ClipboardEvent, FilePath,
};
use lanecho::discovery::{Address, Peer};
use lanecho::identity::{
    check_pin, default_display_name, fingerprint_of, is_complete, os_version, peer_fingerprint,
    persist_display_name, DeviceIdentity, IdentityError, IdentityMeta,
};
use lanecho::ids::new_id;
use lanecho::order::is_text_less;
use lanecho::paths::{components_of, file_name, is_absolute, is_under, join, parent, render};
use lanecho::protocol::PeerInfo;
use lanecho::sync::EngineEvent;
use lanecho::table::Table;
use lanecho::text::{
    contains, decimal, head_of, separate, space, strip_suffix, trim,
};
use lanecho::watcher::{WatchAction, WatchEvent, Watcher};

fn path(p: &str) -> FilePath {
    FilePath::Text(p.to_string())
}

/// The hash must distinguish content types: text and a file list with the same
/// literal value must not collide
#[test]
fn hash_distinguishes_kinds() {
    let text = ClipboardContent::Text("a.txt".into());
    let files = ClipboardContent::Files(vec![path("a.txt")]);
    assert_ne!(text.hash(), files.hash());
}

/// Identical content hashes identically, and any difference changes the hash
/// (including whitespace-only differences)
#[test]
fn hash_is_stable_and_sensitive() {
    let a = ClipboardContent::Text("hello".into());
    let b = ClipboardContent::Text("hello".into());
    let c = ClipboardContent::Text("hello ".into());
    assert_eq!(a.hash(), b.hash());
    assert_ne!(a.hash(), c.hash());
}

/// The image hash mixes in the dimensions: the same bytes at a different width
/// and height must not hash the same
#[test]
fn image_hash_includes_dimensions() {
    let rgba = vec![0u8; 16];
    let a = ClipboardContent::Image {
        width: 2,
        height: 2,
        rgba: rgba.clone(),
    };
    let b = ClipboardContent::Image {
        width: 4,
        height: 1,
        rgba,
    };
    assert_ne!(a.hash(), b.hash());
}

/// The sentinel hash of a skipped-read event must not collide with any real
/// content
#[test]
fn image_unread_hash_is_distinct() {
    let unread = ClipboardContent::ImageUnread.hash();
    let empty_image = ClipboardContent::Image {
        width: 0,
        height: 0,
        rgba: Vec::new(),
    };
    assert_ne!(unread, empty_image.hash());
    assert_ne!(unread, ClipboardContent::Text(String::new()).hash());
    assert_ne!(unread, ClipboardContent::Files(Vec::new()).hash());
}

/// The file list hash is order-sensitive (a path list is ordered by definition)
#[test]
fn files_hash_is_order_sensitive() {
    let a = ClipboardContent::Files(vec![path("a"), path("b")]);
    let b = ClipboardContent::Files(vec![path("b"), path("a")]);
    assert_ne!(a.hash(), b.hash());
}

/// The exact bytes that are hashed: a kind tag, then the content
#[test]
fn hashed_bytes() {
    let mut expected = b"t:".to_vec();
    expected.extend_from_slice("hello".as_bytes());
    assert_eq!(
        hash_text("hello"),
        blake3::hash(&expected).to_hex().to_string()
    );
    assert_eq!(
        ClipboardContent::Text("hello".into()).hash(),
        hash_text("hello")
    );
    let (content, hash) = with_hash(ClipboardContent::Text("x".into()));
    assert_eq!(hash, content.hash());
    assert_eq!(content.kind(), "text");
    assert_eq!(ClipboardContent::ImageUnread.kind(), "image");
    // A path that is no text hashes its raw bytes
    let raw = ClipboardContent::Files(vec![FilePath::Raw {
        bytes: vec![b'a', 0xff],
        lossy: "a\u{fffd}".into(),
        name_is_text: false,
    }]);
    assert_ne!(
        raw.hash(),
        ClipboardContent::Files(vec![path("a\u{fffd}")]).hash()
    );
    assert!(now_ms() > 1_600_000_000_000);
}

fn watch(w: &mut Watcher, stamp: i64, text: &str, reset: bool) -> WatchAction {
    match w.step(WatchEvent::Tick { reset }) {
        WatchAction::ReadStamp => {}
        other => return other,
    }
    match w.step(WatchEvent::Stamp(Some(stamp))) {
        WatchAction::CheckConcealed => {}
        other => return other,
    }
    look(w, text)
}

fn look(w: &mut Watcher, text: &str) -> WatchAction {
    match w.step(WatchEvent::Concealed {
        concealed: false,
        read_images: true,
    }) {
        WatchAction::ReadContent | WatchAction::ReadText => {}
        other => return other,
    }
    w.step(WatchEvent::Content {
        read: Some(with_hash(ClipboardContent::Text(text.into()))),
        types: Vec::new(),
        now_ms: 7,
    })
}

/// What is there at startup is not a copy; a new stamp with new content is; the
/// same content again is not, unless the baseline was reset
#[test]
fn watcher_reports_changes_only() {
    let (mut w, first) = Watcher::new(true, Some(1));
    assert_eq!(first, WatchAction::CheckConcealed);
    assert_eq!(look(&mut w, "there already"), WatchAction::Wait);
    assert_eq!(watch(&mut w, 1, "unseen", false), WatchAction::Wait);
    match watch(&mut w, 2, "new", false) {
        WatchAction::Emit(ClipboardEvent {
            content,
            timestamp_ms,
            ..
        }) => {
            assert_eq!(content, ClipboardContent::Text("new".into()));
            assert_eq!(timestamp_ms, 7);
        }
        other => panic!("unexpected: {other:?}"),
    }
    assert_eq!(watch(&mut w, 3, "new", false), WatchAction::Wait);
    assert!(matches!(watch(&mut w, 4, "new", true), WatchAction::Emit(_)));
    // A reset on an old stamp waits for the next new one
    assert_eq!(watch(&mut w, 4, "new", true), WatchAction::Wait);
    assert_eq!(watch(&mut w, 4, "new", false), WatchAction::Wait);
    assert!(matches!(watch(&mut w, 5, "new", false), WatchAction::Emit(_)));
}

/// Concealed content is never read
#[test]
fn concealed_content_is_not_read() {
    let (mut w, _) = Watcher::new(false, None);
    look(&mut w, "base");
    assert_eq!(
        w.step(WatchEvent::Tick { reset: false }),
        WatchAction::CheckConcealed
    );
    assert_eq!(
        w.step(WatchEvent::Concealed {
            concealed: true,
            read_images: true
        }),
        WatchAction::Wait
    );
}

/// An image that is not read is reported as such
#[test]
fn unread_image_is_reported() {
    let (mut w, _) = Watcher::new(true, Some(1));
    look(&mut w, "base");
    w.step(WatchEvent::Tick { reset: false });
    w.step(WatchEvent::Stamp(Some(2)));
    assert_eq!(
        w.step(WatchEvent::Concealed {
            concealed: false,
            read_images: false
        }),
        WatchAction::ProbeImage
    );
    match w.step(WatchEvent::Probe {
        has_image: true,
        now_ms: 9,
    }) {
        WatchAction::Emit(e) => assert_eq!(e.content, ClipboardContent::ImageUnread),
        other => panic!("unexpected: {other:?}"),
    }
}

/// What was created loads as the same identity
#[test]
fn create_then_load_is_stable() {
    let host = Some("box".to_string());
    let (a, meta) = DeviceIdentity::create(&host).ok().unwrap();
    let (b, rewritten) = DeviceIdentity::load(Some(meta), &host, a.cert_der.clone(), a.key_der());
    assert!(!a.cert_der.is_empty());
    assert!(!a.key_der().is_empty());
    assert_eq!(a.device_id, b.device_id);
    assert_eq!(a.fingerprint, b.fingerprint);
    assert_eq!(rewritten, None);
    assert_eq!(b.display_name, "box");
}

/// The fingerprint must be BLAKE3 as 64 lowercase hex digits
#[test]
fn fingerprint_is_hex64() {
    let (id, _) = DeviceIdentity::create(&None).ok().unwrap();
    assert_eq!(id.fingerprint.len(), 64);
    assert!(id
        .fingerprint
        .chars()
        .all(|c| c.is_ascii_hexdigit() && !c.is_ascii_uppercase()));
    assert_eq!(
        id.fingerprint,
        blake3::hash(&id.cert_der).to_hex().to_string()
    );
}

/// Two identities must have different fingerprints
#[test]
fn identities_are_unique() {
    let (a, _) = DeviceIdentity::create(&None).ok().unwrap();
    let (b, _) = DeviceIdentity::create(&None).ok().unwrap();
    assert_ne!(a.fingerprint, b.fingerprint);
    assert_ne!(a.device_id, b.device_id);
}

/// OS version detection must produce a non-empty description
#[test]
fn os_version_is_detected() {
    let info = os_info::get();
    let v = os_version(&info.os_type().to_string(), &info.version().to_string());
    println!("detected os version: {v}");
    assert!(!v.trim().is_empty());
}

#[test]
fn identity_parts() {
    assert_eq!(os_version("Ubuntu", "24.04"), "Ubuntu 24.04");
    assert!(is_complete(true, true, true));
    assert!(!is_complete(true, false, true));
    assert_eq!(default_display_name(&None), "lanecho");
    assert_eq!(default_display_name(&Some("box".into())), "box");
    assert_eq!(fingerprint_of(b"x"), blake3::hash(b"x").to_hex().to_string());
    let meta = IdentityMeta {
        device_id: "d".into(),
        display_name: None,
    };
    let named = persist_display_name(meta, Some("Mac".into()));
    assert_eq!(named.display_name.as_deref(), Some("Mac"));
    let id = DeviceIdentity::from_parts(&named, &Some("box".into()), vec![1], vec![2]);
    assert_eq!(id.display_name, "Mac");
    let info = id.peer_info("linux", "Ubuntu 24.04");
    assert_eq!(info.device_id, "d");
    assert_eq!(info.fingerprint, fingerprint_of(&[1]));
    assert_eq!(info.os_version.as_deref(), Some("Ubuntu 24.04"));
    // The pair is the certificate, then the key
    let (made, meta) = DeviceIdentity::from_pair((vec![7, 8], vec![9]), &Some("box".into()));
    assert_eq!(made.cert_der, vec![7, 8]);
    assert_eq!(made.key_der(), vec![9]);
    assert_eq!(made.fingerprint, fingerprint_of(&[7, 8]));
    assert_eq!(made.device_id, meta.device_id);
    assert_eq!(made.display_name, "box");
    // Lost metadata is made anew and handed back for saving
    let (fresh, saved) = DeviceIdentity::load(None, &None, vec![1], vec![2]);
    assert_eq!(saved.unwrap().device_id, fresh.device_id);
    assert!(IdentityError::CertGen("bad".into()).message().contains("bad"));
}

/// A pinned certificate must be the expected one
#[test]
fn pin_is_checked() {
    let fp = fingerprint_of(b"cert");
    assert!(check_pin(&Some(fp.clone()), b"cert").is_ok());
    assert!(check_pin(&Some(fp), b"other").is_err());
    assert!(check_pin(&None, b"other").is_ok());
    assert_eq!(peer_fingerprint(&Vec::new()), None);
    assert_eq!(
        peer_fingerprint(&vec![b"a".to_vec(), b"b".to_vec()]),
        Some(fingerprint_of(b"a"))
    );
}

#[test]
fn ids_are_uuids() {
    let id = new_id();
    assert_eq!(id.len(), 36);
    assert!(uuid::Uuid::parse_str(&id).is_ok());
    assert_ne!(id, new_id());
}

#[test]
fn command_lines() {
    assert_eq!(parse_line("  hi "), LineCommand::Text("  hi ".into()));
    assert_eq!(parse_line("/quit"), LineCommand::Quit);
    assert_eq!(parse_line("/peers"), LineCommand::Peers);
    assert_eq!(parse_line("/paired"), LineCommand::Paired);
    assert_eq!(parse_line("/pair mac"), LineCommand::Pair("mac".into()));
    assert_eq!(
        parse_line("/image 4x3"),
        LineCommand::Image {
            width: 4,
            height: 3
        }
    );
    assert_eq!(
        parse_line("/file /a /b"),
        LineCommand::Files(vec!["/a".into(), "/b".into()])
    );
    assert_eq!(parse_line("/y"), LineCommand::Answer(true));
    assert_eq!(parse_line("/n"), LineCommand::Answer(false));
    assert_eq!(parse_line("   "), LineCommand::Nothing);
    assert_eq!(parse_line("/nonsense"), LineCommand::Unknown);
    assert_eq!(parse_dims("64x48"), Some((64, 48)));
    assert_eq!(parse_dims("64"), None);
    assert_eq!(parse_dims("ax3"), None);
    assert_eq!(fp8("0123456789"), "01234567");
    assert_eq!(fp8("0123"), "0123");
    assert_eq!(preview("short"), "short");
}

#[test]
fn test_image_has_its_size() {
    assert!(image_fits(640, 480));
    assert!(!image_fits(usize::MAX, 2));
    match pattern_image(4, 3) {
        ClipboardContent::Image {
            width,
            height,
            rgba,
        } => {
            assert_eq!((width, height), (4, 3));
            assert_eq!(rgba.len(), 48);
        }
        other => panic!("unexpected: {other:?}"),
    }
}

fn info(fp: &str, name: &str) -> PeerInfo {
    PeerInfo {
        device_id: format!("dev-{fp}"),
        name: name.into(),
        fingerprint: fp.into(),
        platform: "linux".into(),
        os_version: None,
    }
}

#[test]
fn targets_are_found_by_fingerprint_or_name() {
    let peers = vec![
        Peer {
            info: info("abcd", "Mac"),
            addrs: vec![Address::V4(1)],
            port: 1,
        },
        Peer {
            info: info("ef01", "Box"),
            addrs: vec![Address::V4(2)],
            port: 2,
        },
    ];
    assert_eq!(find_target(&peers, "ef").unwrap().port, 2);
    assert_eq!(find_target(&peers, "Mac").unwrap().port, 1);
    assert!(find_target(&peers, "nobody").is_none());

    match seek(&peers, "Box", 100, 100) {
        Seek::Pair(peer) => assert_eq!(peer.port, 2),
        other => panic!("unexpected: {other:?}"),
    }
    assert_eq!(seek(&peers, "nobody", 99, 100), Seek::Wait);
    assert_eq!(seek(&peers, "nobody", 100, 100), Seek::GiveUp);
}

/// A failed write takes its registration back and is reported
#[test]
fn failed_write_is_concluded() {
    let end = conclude_write("h".into(), Some("busy".into()));
    assert_eq!(end.cancel.as_deref(), Some("h"));
    let line = end.line.unwrap();
    assert_eq!(line.style, Style::Warn);
    assert_eq!(line.text, "写入系统剪贴板失败: busy");
    let end = conclude_write("h".into(), None);
    assert_eq!(end.cancel, None);
    assert_eq!(end.line, None);
}

#[test]
fn events_become_lines() {
    let mut pending: Option<String> = None;
    let asked = EngineEvent::PairRequested {
        peer: info("abcd", "Mac"),
    };
    let r = react(asked, false, false, "", &mut pending);
    assert_eq!(pending.as_deref(), Some("abcd"));
    assert_eq!(r.accept, None);
    let asked = EngineEvent::PairRequested {
        peer: info("abcd", "Mac"),
    };
    let r = react(asked, true, false, "", &mut pending);
    assert_eq!(r.accept.as_deref(), Some("abcd"));
    let apply = || EngineEvent::ApplyRemote {
        content: ClipboardContent::Text("hi".into()),
        from: info("abcd", "Mac"),
        timestamp_ms: 1,
        hash: hash_text("hi"),
    };
    assert!(react(apply(), false, false, "", &mut pending).write.is_none());
    let (content, hash) = react(apply(), false, true, "", &mut pending).write.unwrap();
    assert_eq!(content, ClipboardContent::Text("hi".into()));
    assert_eq!(hash, hash_text("hi"));
    let sent = EngineEvent::SyncSent {
        to: info("abcd", "Mac"),
        result: Err("对端拒绝同步: disabled".into()),
    };
    let r = react(sent, false, false, "", &mut pending);
    assert_eq!(r.line.style, Style::Warn);
    assert!(r.line.text.contains("disabled"));
    let line = watch_line(&ClipboardContent::Text("hi".into()), &hash_text("hi"), "");
    assert!(line.contains("hi"));
}

#[test]
fn text_helpers() {
    assert_eq!(decimal(0), "0");
    assert_eq!(decimal(18_446_744_073_709_551_615), "18446744073709551615");
    assert_eq!(trim(" \t a b \n"), "a b");
    assert!(contains("hello", "ell"));
    assert!(contains("hello", ""));
    assert!(!contains("hello", "lle"));
    assert_eq!(separate(&vec!["a".into(), "b".into()], ", "), "a, b");
    assert_eq!(strip_suffix("a.txt", ".txt").as_deref(), Some("a"));
    assert_eq!(strip_suffix("a.txt", ".md"), None);
    assert_eq!(head_of(&['a', 'b', 'c'], 2), "ab");
    assert!(is_text_less("a", "b"));
    assert!(is_text_less("a", "ab"));
    assert!(!is_text_less("b", "a"));
}

/// White space is Unicode's, character for character
#[test]
fn white_space_is_unicode() {
    for n in 0..=0x10ffffu32 {
        if let Some(c) = char::from_u32(n) {
            assert_eq!(space(c), c.is_whitespace(), "{n:x}");
        }
    }
}

#[test]
fn path_helpers() {
    assert_eq!(components_of("/a//b/./c"), vec!["a", "b", "c"]);
    assert!(is_absolute("/a") && !is_absolute("a"));
    assert_eq!(file_name("/a/b.txt").as_deref(), Some("b.txt"));
    assert_eq!(file_name("/a/.."), None);
    assert_eq!(parent("/a/b").as_deref(), Some("/a"));
    assert_eq!(join("/a", "b"), "/a/b");
    assert_eq!(join("/a/", "b"), "/a/b");
    assert!(is_under("/a/b/c", "/a/b"));
    assert!(!is_under("/a/bc", "/a/b"));
    assert_eq!(render(true, &vec!["a".into(), "b".into()]), "/a/b");
}

#[test]
fn table_keeps_one_row_per_key() {
    let mut t: Table<u32> = Table::new();
    assert_eq!(t.insert("a".into(), 1), None);
    assert_eq!(t.insert("a".into(), 2), Some(1));
    assert_eq!(t.len(), 1);
    assert_eq!(t.get("a"), Some(&2));
    assert!(t.contains("a") && !t.contains("b"));
    assert_eq!(t.row(0).key, "a");
    assert_eq!(t.remove("a"), Some(2));
    assert_eq!(t.remove("a"), None);
}
