//! The clipboard history.

use lanecho::clipboard::{ClipboardContent, FilePath};
use lanecho::history::{
    oversize, preview_files, preview_image, preview_text, BlobFile, Copied, HistoryConfig,
    HistoryEntry, HistoryStore, ImageEnd, RecordOutcome, RecordStep, KIND_IMAGE,
};
use lanecho::images::{decode_png_rgba, png_dimensions};
use lanecho::paths::is_under;

fn cfg(max: usize) -> HistoryConfig {
    HistoryConfig {
        max_entries: max,
        record_text: true,
        record_images: true,
        record_files: true,
    }
}

fn empty() -> HistoryStore {
    HistoryStore::load("/data", None, &Vec::new()).0
}

fn text(s: &str) -> (ClipboardContent, String) {
    let c = ClipboardContent::Text(s.to_string());
    let h = c.hash();
    (c, h)
}

fn image(width: usize, height: usize, rgba: Vec<u8>) -> (ClipboardContent, String) {
    let c = ClipboardContent::Image {
        width,
        height,
        rgba,
    };
    let h = c.hash();
    (c, h)
}

fn copied(hash: &str, at: u64) -> Copied {
    Copied {
        content_hash: hash.to_string(),
        at,
        origin: None,
        source_app: None,
    }
}

/// Records a content; the bytes of an image are written when it gets that far
fn record(
    store: &mut HistoryStore,
    content: ClipboardContent,
    copy: Copied,
    cfg: HistoryConfig,
) -> (RecordOutcome, Option<Vec<u8>>) {
    match store.record(content, copy, cfg) {
        RecordStep::Encode(job) => {
            let png = job.encode().unwrap();
            match store.finish_image(job, png.len() as u64, Some(true)) {
                ImageEnd::Added(_) => (RecordOutcome::Added, Some(png)),
                _ => (RecordOutcome::Skipped, None),
            }
        }
        step => (step.outcome().unwrap(), None),
    }
}

fn record_text(store: &mut HistoryStore, s: &str, at: u64, max: usize) -> String {
    let (c, h) = text(s);
    record(store, c, copied(&h, at), cfg(max));
    h
}

/// A skipped-read event never enters the history
#[test]
fn image_unread_is_never_recorded() {
    let mut store = empty();
    let content = ClipboardContent::ImageUnread;
    let hash = content.hash();
    assert_eq!(
        record(&mut store, content, copied(&hash, 100), cfg(10)).0,
        RecordOutcome::Skipped
    );
    assert!(store.list("recent").is_empty());
}

/// Recording the same content again only bumps the count and refreshes the
/// timestamp; origin and source_app follow the most recent copy
#[test]
fn dedup_bumps_count() {
    let mut store = empty();
    let (c, h) = text("hello");
    let first = Copied {
        source_app: Some("Chrome".into()),
        ..copied(&h, 100)
    };
    assert_eq!(
        record(&mut store, c.duplicate(), first, cfg(10)).0,
        RecordOutcome::Added
    );
    let second = Copied {
        origin: Some("peer".into()),
        ..copied(&h, 200)
    };
    assert_eq!(record(&mut store, c, second, cfg(10)).0, RecordOutcome::Bumped);
    let list = store.list("recent");
    assert_eq!(list.len(), 1);
    assert_eq!(list[0].copy_count, 2);
    assert_eq!(list[0].last_copied_at, 200);
    assert_eq!(list[0].origin.as_deref(), Some("peer"));
    // The most recent write came from a remote, so the local source application
    // is cleared rather than left behind
    assert_eq!(list[0].source_app, None);
}

/// A repeat local copy with no source application captured keeps the old value
#[test]
fn bump_keeps_source_app_when_unknown() {
    let mut store = empty();
    let (c, h) = text("hello");
    let from = |app: &str, at: u64| Copied {
        source_app: Some(app.into()),
        ..copied(&h, at)
    };
    record(&mut store, c.duplicate(), from("Chrome", 100), cfg(10));
    assert_eq!(
        record(&mut store, c.duplicate(), copied(&h, 200), cfg(10)).0,
        RecordOutcome::Bumped
    );
    let list = store.list("recent");
    assert_eq!(list[0].source_app.as_deref(), Some("Chrome"));
    assert_eq!(list[0].origin, None);
    // A newly captured source overwrites as usual
    record(&mut store, c, from("Safari", 300), cfg(10));
    assert_eq!(
        store.list("recent")[0].source_app.as_deref(),
        Some("Safari")
    );
}

/// Over the cap the oldest unpinned entry goes; pinned entries are never evicted
#[test]
fn eviction_respects_pins() {
    let mut store = empty();
    let ha = record_text(&mut store, "a", 1, 2);
    let hb = record_text(&mut store, "b", 2, 2);
    // Pin a, the oldest one
    let id_a = store.list("recent").last().unwrap().id.clone();
    assert!(store.set_pinned(&id_a, true));
    // Inserting c triggers eviction: b, the oldest unpinned entry, is removed
    let hc = record_text(&mut store, "c", 3, 2);
    let hashes: Vec<String> = store
        .list("recent")
        .iter()
        .map(|e| e.content_hash.clone())
        .collect();
    assert_eq!(hashes.len(), 2);
    assert!(hashes.contains(&ha));
    assert!(hashes.contains(&hc));
    assert!(!hashes.contains(&hb));
    assert!(!store.set_pinned("missing", true));
}

/// The stored image decodes byte-for-byte, and deleting the entry names its
/// blob for removal
#[test]
fn image_blob_roundtrip_and_cleanup() {
    let mut store = empty();
    let rgba: Vec<u8> = (0..2 * 2 * 4).map(|i| (i * 7) as u8).collect();
    let (content, hash) = image(2, 2, rgba.clone());
    let (outcome, png) = record(&mut store, content, copied(&hash, 1), cfg(10));
    assert_eq!(outcome, RecordOutcome::Added);

    let entry = &store.list("recent")[0];
    assert_eq!(entry.kind, KIND_IMAGE);
    assert_eq!(entry.preview, "2×2");
    assert_eq!(entry.blob_hash.as_deref(), Some(hash.as_str()));
    let (w, h, back) = decode_png_rgba(&png.unwrap()).unwrap();
    assert_eq!((w, h), (2, 2));
    assert_eq!(back, rgba, "PNG round trip must restore bytes exactly");

    let id = entry.id.clone();
    let cleanup = store.delete(&id).unwrap();
    assert_eq!(cleanup.blob_hash.as_deref(), Some(hash.as_str()));
    assert!(cleanup.batch_dirs.is_empty());
    assert_eq!(store.delete(&id), None);
    assert_eq!(store.blob_path(&hash), format!("/data/history/blobs/{hash}.png"));
}

/// Pinned always comes first; frequent orders by count
#[test]
fn sorting_modes() {
    let mut store = empty();
    let ha = record_text(&mut store, "a", 1, 10);
    let hb = record_text(&mut store, "b", 2, 10);
    record_text(&mut store, "a", 3, 10); // a: count 2, most recent

    // recent: a (3) comes first
    assert_eq!(store.list("recent")[0].content_hash, ha);
    // frequent: a (count 2) comes first
    assert_eq!(store.list("frequent")[0].content_hash, ha);
    // Copied equally often: the latest comes first
    let hc = record_text(&mut store, "c", 4, 10);
    let order: Vec<String> = store
        .list("frequent")
        .into_iter()
        .map(|e| e.content_hash)
        .collect();
    assert_eq!(order, vec![ha, hc, hb.clone()]);
    // Once b is pinned it always comes first
    let id_b = store
        .list("recent")
        .iter()
        .find(|e| e.content_hash == hb)
        .unwrap()
        .id
        .clone();
    store.set_pinned(&id_b, true);
    assert_eq!(store.list("recent")[0].content_hash, hb);
    assert_eq!(store.list("frequent")[0].content_hash, hb);
}

/// A disabled type is skipped outright
#[test]
fn type_switch_filters() {
    let mut store = empty();
    let (c, h) = text("x");
    let off = HistoryConfig {
        record_text: false,
        ..cfg(10)
    };
    assert_eq!(
        record(&mut store, c, copied(&h, 1), off).0,
        RecordOutcome::Skipped
    );
    assert!(store.list("recent").is_empty());
}

/// After a save, reloading returns the entry intact
#[test]
fn persistence_roundtrip() {
    let mut store = empty();
    record_text(&mut store, "keep", 1, 10);
    let saved = store.save_sync();
    let (reloaded, orphans) = HistoryStore::load("/data", Some(saved), &Vec::new());
    assert!(orphans.is_empty());
    assert_eq!(reloaded.list("recent").len(), 1);
    assert_eq!(reloaded.list("recent")[0].text.as_deref(), Some("keep"));
}

/// The list projection carries the length of the text, in the order of the full
/// list
#[test]
fn list_meta_follows_the_list() {
    let mut store = empty();
    record_text(&mut store, "First entry", 1, 10);
    record_text(&mut store, "second", 2, 10);
    let metas = store.list_meta("recent");
    let full = store.list("recent");
    assert_eq!(metas.len(), 2);
    for (meta, entry) in metas.iter().zip(full.iter()) {
        assert_eq!(meta.id, entry.id);
        assert_eq!(meta.text_len, entry.text.as_deref().map_or(0, str::len));
    }
    assert_eq!(metas[0].text_len, 6);
}

/// The slot lookup matches the list, and out of range returns None
#[test]
fn entry_id_at_matches_list_order() {
    let mut store = empty();
    record_text(&mut store, "a", 1, 10);
    record_text(&mut store, "b", 2, 10);
    let list = store.list("recent");
    assert_eq!(
        store.entry_id_at("recent", 0).as_deref(),
        Some(&*list[0].id)
    );
    assert_eq!(
        store.entry_id_at("recent", 1).as_deref(),
        Some(&*list[1].id)
    );
    assert_eq!(store.entry_id_at("recent", 2), None);
}

/// Search matches on preview and on full text, case-insensitively, and an empty
/// query returns everything
#[test]
fn search_matches_preview_and_fulltext() {
    let mut store = empty();
    record_text(
        &mut store,
        "Hello World\nHidden content on the second line",
        1,
        10,
    );
    record_text(&mut store, "Other", 2, 10);
    // Case-insensitive hit on the preview
    assert_eq!(store.search("hello").len(), 1);
    // Hit on the second line: the preview only holds the first line
    assert_eq!(store.search("hidden").len(), 1);
    assert_eq!(store.search("missing phrase").len(), 0);
    assert_eq!(store.search("").len(), 2);
    assert_eq!(store.search("OTHER").len(), 1);
}

/// Truncation lands on a character boundary and the total character count comes
/// back
#[test]
fn entry_text_truncates_on_char_boundary() {
    let mut store = empty();
    record_text(&mut store, "échoabc", 1, 10);
    let id = store.list("recent")[0].id.clone();
    let (sliced, total) = store.entry_text(&id, 4).unwrap();
    assert_eq!(sliced, "écho");
    assert_eq!(total, 7);
    // Returned verbatim when no truncation is needed
    let (full, total) = store.entry_text(&id, 100).unwrap();
    assert_eq!(full, "échoabc");
    assert_eq!(total, 7);
    assert!(store.entry_text("missing", 100).is_none());
    assert!(store.entry("missing").is_none());
    assert_eq!(store.entry(&id).unwrap().text.as_deref(), Some("échoabc"));
}

/// An oversized long edge is scaled down, a small image passes through
/// untouched, and the cache is hit
#[test]
fn preview_png_downscales_large_images() {
    let mut store = empty();
    // A 1200×900 gradient, long edge over 800
    let (w, h) = (1200usize, 900usize);
    let rgba: Vec<u8> = (0..w * h * 4).map(|i| (i % 251) as u8).collect();
    let (content, hash) = image(w, h, rgba);
    let png = record(&mut store, content, copied(&hash, 1), cfg(10)).1.unwrap();
    assert_eq!(oversize(&png), Some((1200, 900)));

    assert_eq!(store.cached_preview(&hash), None);
    let scaled = store.preview_png(&hash, png.clone(), 800, 600);
    assert_eq!(
        png_dimensions(&scaled),
        Some((800, 600)),
        "Long edge must hit the cap with proportional scaling"
    );
    assert!(
        scaled.len() < png.len(),
        "Downsampling must reduce the byte count"
    );
    // The second call hits the cache and returns the same result
    assert_eq!(store.cached_preview(&hash), Some(scaled));

    // One that is not RGBA is handed out as it is
    let mut rgb = Vec::new();
    {
        let mut encoder = png::Encoder::new(&mut rgb, 900, 1);
        encoder.set_color(png::ColorType::Rgb);
        encoder.set_depth(png::BitDepth::Eight);
        let mut writer = encoder.write_header().unwrap();
        writer.write_image_data(&vec![9u8; 2700]).unwrap();
    }
    assert_eq!(oversize(&rgb), Some((900, 1)));
    assert_eq!(store.preview_png("rgb", rgb.clone(), 800, 1), rgb);
    assert_eq!(store.cached_preview("rgb"), None);

    // A small image passes through untouched and takes no cache slot
    let (small, small_hash) = image(2, 2, vec![7u8; 16]);
    let small_png = record(&mut store, small, copied(&small_hash, 2), cfg(10))
        .1
        .unwrap();
    assert_eq!(oversize(&small_png), None);
    let passthrough = store.preview_png(&small_hash, small_png.clone(), 2, 2);
    assert_eq!(passthrough, small_png);
    assert_eq!(store.cached_preview(&small_hash), None);
}

/// The footprint counter: recording adds, deleting reclaims, clearing zeroes
#[test]
fn disk_usage_counter_tracks_blobs() {
    let mut store = empty();
    let (content, hash) = image(4, 4, (0..64).collect());
    let png = record(&mut store, content, copied(&hash, 1), cfg(10)).1.unwrap();
    let blob_len = png.len() as u64;
    assert_eq!(store.disk_usage(0, &Vec::new()), blob_len);
    // Load as if after a restart: the rebuilt value matches the counter
    let blobs = vec![
        BlobFile {
            name: Some(format!("{hash}.png")),
            bytes: blob_len,
        },
        BlobFile {
            name: Some("stray.png".into()),
            bytes: 9,
        },
    ];
    let (reloaded, orphans) = HistoryStore::load("/data", Some(store.save_sync()), &blobs);
    assert_eq!(reloaded.disk_usage(0, &Vec::new()), blob_len);
    assert_eq!(orphans, vec!["stray.png"]);
    // Deleting reclaims
    let id = store.list("recent")[0].id.clone();
    store.delete(&id);
    store.reclaim(blob_len);
    assert_eq!(store.disk_usage(0, &Vec::new()), 0);
    // Clearing zeroes it
    let (img2, h2) = image(2, 2, vec![9u8; 16]);
    record(&mut store, img2, copied(&h2, 3), cfg(10));
    store.clear();
    assert_eq!(store.disk_usage(0, &Vec::new()), 0);
    assert_eq!(store.disk_usage(11, &vec![5, 6]), 22);
}

/// Clear: entries and blobs all go, and the application icons stay
#[test]
fn clear_removes_blobs() {
    let mut store = HistoryStore::load("/data", None, &Vec::new()).0;
    let (content, hash) = image(1, 1, vec![1, 2, 3, 4]);
    record(&mut store, content, copied(&hash, 1), cfg(10));
    assert_eq!(store.list("recent").len(), 1);
    let icon = store.app_icon_path("Chrome");
    let gone = store.clear();
    assert!(store.list("recent").is_empty());
    assert_eq!(gone, vec!["/data/history/blobs", "/data/sync-files"]);
    assert!(is_under(&store.blob_path(&hash), &gone[0]));
    assert_eq!(store.app_icon_path("Chrome"), icon);
    assert!(gone.iter().all(|dir| !is_under(&icon, dir)));
}

/// Clearing the history while an image is being encoded: nothing may survive
/// the clear
#[test]
fn clear_during_image_encode_leaves_nothing() {
    let mut store = empty();
    let (width, height) = (2400usize, 1600usize);
    let (content, hash) = image(width, height, vec![0x7fu8; width * height * 4]);
    let job = match store.record(content, copied(&hash, 100), cfg(100)) {
        RecordStep::Encode(job) => job,
        other => panic!("unexpected: {:?}", other.outcome()),
    };
    store.clear();
    let png = job.encode().unwrap();
    let end = store.finish_image(job, png.len() as u64, Some(true));
    assert_eq!(end, ImageEnd::Discarded { remove_blob: true });
    assert!(
        store.list("recent").is_empty(),
        "Clearing must leave no entries behind"
    );
    assert_eq!(
        store.disk_usage(0, &Vec::new()),
        0,
        "Discarded records must not inflate the usage counter"
    );
}

/// A blob that could not be written adds no entry
#[test]
fn failed_write_adds_nothing() {
    let mut store = empty();
    let (content, hash) = image(1, 1, vec![1, 2, 3, 4]);
    let job = match store.record(content, copied(&hash, 1), cfg(10)) {
        RecordStep::Encode(job) => job,
        other => panic!("unexpected: {:?}", other.outcome()),
    };
    assert_eq!(store.finish_image(job, 10, None), ImageEnd::Skipped);
    assert!(store.list("recent").is_empty());
}

/// The landing root is the engine's: a deleted entry names its batch directory,
/// an unreferenced batch is swept
#[test]
fn sync_files_cleanup_uses_engine_landing_root() {
    let mut store = empty();
    assert_eq!(store.dir(), "/data/history");
    assert_eq!(store.sync_root(), "/data/sync-files");
    let landed = FilePath::Text("/data/sync-files/cafe0001/a.txt".into());
    let content = ClipboardContent::Files(vec![landed]);
    let hash = content.hash();
    let from_peer = Copied {
        origin: Some("peer".into()),
        ..copied(&hash, 1)
    };
    record(&mut store, content, from_peer, cfg(10));
    assert_eq!(
        store.disk_usage(0, &vec!["remote-bytes".len() as u64]),
        "remote-bytes".len() as u64
    );
    let dirs = vec![
        "/data/sync-files/cafe0001".to_string(),
        "/data/sync-files/beef0002".to_string(),
    ];
    assert_eq!(
        store.sweep_orphan_sync_files(&dirs),
        vec!["/data/sync-files/beef0002"]
    );
    let id = store.list("recent")[0].id.clone();
    let cleanup = store.delete(&id).unwrap();
    assert_eq!(cleanup.batch_dirs, vec!["/data/sync-files/cafe0001"]);
    assert_eq!(store.sweep_orphan_sync_files(&dirs).len(), 2);
}

/// Files of the user, outside the landing root, are never removed
#[test]
fn own_files_are_left_alone() {
    let mut store = empty();
    let content = ClipboardContent::Files(vec![
        FilePath::Text("/home/me/a.txt".into()),
        FilePath::Text("/data/sync-files/a.txt".into()),
    ]);
    let hash = content.hash();
    record(&mut store, content, copied(&hash, 1), cfg(10));
    let id = store.list("recent")[0].id.clone();
    assert!(store.delete(&id).unwrap().batch_dirs.is_empty());
}

/// A change waits for a save, once
#[test]
fn changes_reach_the_disk() {
    let mut store = empty();
    assert!(!store.take_due_save());
    record_text(&mut store, "x", 1, 10);
    assert!(store.take_due_save());
    assert!(!store.take_due_save());
    record_text(&mut store, "y", 2, 10);
    assert_eq!(store.snapshot().len(), 2);
    assert!(!store.take_due_save());
    record_text(&mut store, "z", 3, 10);
    assert!(store.take_due_save());
}

#[test]
fn previews() {
    assert_eq!(preview_text("one"), "one");
    assert_eq!(preview_text("one\ntwo"), "one…");
    let long = "x".repeat(100);
    assert_eq!(preview_text(&long), format!("{}…", "x".repeat(80)));
    assert_eq!(preview_image(640, 480), "640×480");
    assert_eq!(
        preview_files(&vec!["/a/b.txt".to_string(), "/c/d.txt".to_string()]),
        "b.txt, d.txt"
    );
}

#[test]
fn icons_are_kept_by_application() {
    let store = empty();
    let path = store.app_icon_path("Chrome");
    assert!(path.starts_with("/data/history/appicons/"));
    assert!(path.ends_with(".png"));
    let name = path.rsplit('/').next().unwrap().to_string();
    assert!(store.has_app_icon("Chrome", &vec![name]));
    assert!(!store.has_app_icon("Chrome", &Vec::new()));
    assert_ne!(path, store.app_icon_path("Safari"));
}

#[test]
fn default_entry_is_blank() {
    let e = HistoryEntry::default();
    assert_eq!(e.id, "");
    assert_eq!(e.copy_count, 1);
    assert_eq!(e.kind, "text");
    assert!(!e.pinned);
    assert_eq!(e.duplicate(), e);
}

/// Text over the limit is not recorded
#[test]
fn huge_text_is_skipped() {
    let mut store = empty();
    let (c, h) = text(&"x".repeat(5 * 1024 * 1024 + 1));
    assert_eq!(
        record(&mut store, c, copied(&h, 1), cfg(10)).0,
        RecordOutcome::Skipped
    );
    assert!(store.list("recent").is_empty());
}

/// Recording with a given identifier keeps it
#[test]
fn given_identifier_is_kept() {
    let mut store = empty();
    let (c, h) = text("x");
    let step = store.record_as(c, copied(&h, 1), cfg(10), "id-1".into());
    assert_eq!(step.outcome(), Some(RecordOutcome::Added));
    assert_eq!(store.entry("id-1").unwrap().content_hash, h);
}
