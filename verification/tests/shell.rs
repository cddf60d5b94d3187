//! The desktop shell: settings, ignore rules, layout, texts, commands, events.

use lanecho::bridge::{
    copy_job, files_preview, ingest, tray_tooltip, wants_app, PeerDto, Pump, PumpStep, Written,
};
use lanecho::clipboard::{ClipboardContent, ClipboardEvent, FilePath};
use lanecho::commands::{
    check_files, chosen_name, conclude_save, entry_text_dto, image_hash, list_devices, plan_save,
    restore_entry, slot_failures, slot_hotkey, theme_backdrop, ErrDto, Restore, SaveEnd,
    SelfInfoDto,
};
use lanecho::discovery::{Address, Peer};
use lanecho::glob::glob_match;
use lanecho::history::{HistoryConfig, HistoryEntry};
use lanecho::ignore::{parse_patterns, IgnoreRules, IgnoreVerdict};
use lanecho::layout::{
    fit_height, panel_trigger, place_panel_at_cursor, place_panel_at_tray, place_panel_beside,
    place_preview, IconRect, MonitorRect, PanelStep, PreviewLayout,
};
use lanecho::locale::{texts, Lang};
use lanecho::paired::PairedPeer;
use lanecho::platform::{
    frontmost_app_icon_png, frontmost_app_id, frontmost_app_name, has_image, icon_size_is_sane,
    is_concealed, is_permitted, is_supported, pick_icon, read, request_permission, send_paste,
    supported, AutoPasteStatus, FrontApp, Key, KeyEvent, Platform,
};
use lanecho::protocol::PeerInfo;
use lanecho::settings::{
    history_config, max_sync_file_bytes_of, record_resumed, sync_mode_of, sync_resumed,
    sync_types_of, IgnoreSettings, IgnoredApp, Settings,
};
use lanecho::sync::{EngineEvent, SyncError, SyncMode};

fn text(s: &str) -> ClipboardContent {
    ClipboardContent::Text(s.to_string())
}

fn path(p: &str) -> FilePath {
    FilePath::Text(p.to_string())
}

fn files(paths: &[&str]) -> ClipboardContent {
    ClipboardContent::Files(paths.iter().map(|p| path(p)).collect())
}

fn app(id: &str, name: &str) -> IgnoredApp {
    IgnoredApp {
        id: id.into(),
        name: name.into(),
    }
}

fn rules(patch: impl FnOnce(&mut IgnoreSettings)) -> IgnoreRules {
    let mut settings = IgnoreSettings::default();
    patch(&mut settings);
    IgnoreRules::new(&settings)
}

fn judge(rules: &IgnoreRules, content: &ClipboardContent, app: Option<&str>) -> IgnoreVerdict {
    rules.evaluate(content, &Vec::new(), &app.map(str::to_string))
}

/// Application rule: id hit on text only; None exempts (restore writes)
#[test]
fn app_rule_matches_text_by_id() {
    let rules = rules(|s| {
        s.apps = vec![app("com.google.Chrome", "Chrome")];
        s.apps_record = true;
    });
    let hit = judge(&rules, &text("hello"), Some("com.google.Chrome"));
    assert!(hit.suppress_sync && hit.suppress_record);
    assert_eq!(
        judge(&rules, &text("hello"), Some("com.apple.Safari")),
        IgnoreVerdict::default()
    );
    assert_eq!(
        judge(&rules, &text("hello"), None),
        IgnoreVerdict::default(),
        "None source (a restore write) must exempt the app rule"
    );
    let image = ClipboardContent::Image {
        width: 1,
        height: 1,
        rgba: vec![0, 0, 0, 255],
    };
    assert_eq!(
        judge(&rules, &image, Some("com.google.Chrome")),
        IgnoreVerdict::default(),
        "The app rule acts on text only"
    );
}

/// Type rule: any overlap with the snapshot counts, whatever the kind
#[test]
fn type_rule_matches_snapshot_overlap() {
    let rules = rules(|_| {});
    let hit = rules.evaluate(
        &text("secret"),
        &vec!["public.utf8-plain-text".into(), "net.antelle.keeweb".into()],
        &None,
    );
    assert!(hit.suppress_sync && !hit.suppress_record);
    assert_eq!(
        rules.evaluate(&text("plain"), &vec!["public.utf8-plain-text".into()], &None),
        IgnoreVerdict::default()
    );
}

/// Regex rule: search semantics as written, user anchors bind, an uncompilable
/// pattern degrades to a literal substring check
#[test]
fn regex_rule_matches_by_search() {
    let rules = rules(|s| {
        s.regexes = vec!["[0-9]{6}".into(), "^secret$".into(), "([invalid".into()];
    });
    assert!(judge(&rules, &text("834721"), None).suppress_sync);
    assert!(
        judge(&rules, &text("验证码 834721"), None).suppress_sync,
        "Search semantics: a match anywhere counts"
    );
    assert!(judge(&rules, &text("secret"), None).suppress_sync);
    assert_eq!(
        judge(&rules, &text("my secret!"), None),
        IgnoreVerdict::default(),
        "User-written anchors bind as written"
    );
    assert!(
        judge(&rules, &text("see ([invalid here"), None).suppress_sync,
        "An uncompilable pattern degrades to a literal substring check"
    );
}

/// File rule: name vs full-path globs, comments, filtering semantics (hits are
/// excluded, the rest of the batch goes through), case-insensitive
#[test]
fn file_rule_filters_matched_paths() {
    let filtering = rules(|s| {
        s.file_patterns = "# keys never leave\n*.key\n\n/Users/*/secrets/*".into();
        s.files_record = true;
    });
    let partial = judge(&filtering, &files(&["/tmp/a.yaml", "/tmp/b.KEY"]), None);
    assert_eq!(
        partial.broadcast_files_excluded,
        vec![path("/tmp/b.KEY")],
        "Only the hits are excluded (case-insensitive); the rest still syncs"
    );
    assert_eq!(
        partial.record_files_excluded,
        vec![path("/tmp/b.KEY")],
        "The record toggle arms the record leg with the same hits"
    );
    assert!(
        !partial.suppress_sync && !partial.suppress_record,
        "File rules filter; they never suppress the whole event"
    );
    assert!(
        !judge(&filtering, &files(&["/Users/zero/secrets/token.txt"]), None)
            .broadcast_files_excluded
            .is_empty(),
        "A pattern containing / matches the full path"
    );
    assert_eq!(
        judge(&filtering, &files(&["/tmp/notes.txt"]), None),
        IgnoreVerdict::default()
    );
    assert_eq!(
        judge(&filtering, &text("*.key"), None),
        IgnoreVerdict::default(),
        "The file rule leaves text alone"
    );

    // The sync toggle off leaves the broadcast leg unarmed
    let record_only = rules(|s| {
        s.file_patterns = "*.key".into();
        s.files_sync = false;
        s.files_record = true;
    });
    let verdict = judge(&record_only, &files(&["/tmp/b.key"]), None);
    assert!(verdict.broadcast_files_excluded.is_empty());
    assert_eq!(verdict.record_files_excluded.len(), 1);
}

/// Toggle merging across kinds; a kind with both toggles off is inert
#[test]
fn verdict_merges_across_rule_kinds() {
    let merged = rules(|s| {
        s.apps = vec![app("com.example.app", "Example")];
        s.apps_sync = false;
        s.apps_record = true;
        s.regexes = vec!["^token$".into()];
    });
    let both = judge(&merged, &text("token"), Some("com.example.app"));
    assert!(both.suppress_sync && both.suppress_record);

    let disabled = rules(|s| {
        s.types = vec!["custom.type".into()];
        s.types_sync = false;
        s.types_record = false;
    });
    assert_eq!(
        disabled.evaluate(&text("x"), &vec!["custom.type".into()], &None),
        IgnoreVerdict::default(),
        "Both toggles off means the rule kind is inert"
    );
}

/// wants_source_app: only with a non-empty list and a live toggle
#[test]
fn wants_source_app_reflects_configuration() {
    assert!(!rules(|_| {}).wants_source_app());
    assert!(rules(|s| s.apps = vec![app("a.b", "X")]).wants_source_app());
    assert!(!rules(|s| {
        s.apps = vec![app("a.b", "X")];
        s.apps_sync = false;
    })
    .wants_source_app());
}

/// The glob engine itself: star spans, ?, classes with ranges and negation,
/// star backtracking, trailing stars
#[test]
fn glob_engine_covers_the_fnmatch_subset() {
    assert!(glob_match("*.key", "server.key"));
    assert!(glob_match("*.KEY", "server.key"), "Case-insensitive");
    assert!(!glob_match("*.key", "server.keys"));
    assert!(glob_match("id_rsa*", "id_rsa.pub"));
    assert!(glob_match("a?c", "abc"));
    assert!(!glob_match("a?c", "ac"));
    assert!(
        glob_match("*/secrets/*", "/Users/zero/secrets/x"),
        "* crosses /"
    );
    assert!(glob_match("report-[0-9].txt", "report-7.txt"));
    assert!(!glob_match("report-[0-9].txt", "report-x.txt"));
    assert!(glob_match("[!a]bc", "xbc"));
    assert!(!glob_match("[!a]bc", "abc"));
    assert!(glob_match("a*b*c", "a-x-b-y-c"), "Star backtracking");
    assert!(glob_match("abc*", "abc"), "Trailing star matches empty");
    assert!(glob_match("*", "anything"));
    assert!(
        !glob_match("[unclosed", "u"),
        "An unclosed class never matches"
    );
}

#[test]
fn glob_edges() {
    assert!(glob_match("", ""));
    assert!(!glob_match("", "x"));
    assert!(glob_match("***", ""));
    assert!(glob_match("É*", "élan"));
    assert!(glob_match("a**b", "axxb"));
    assert!(!glob_match("?", ""));
    assert_eq!(
        parse_patterns("# c\n  *.key  \n\n a "),
        vec!["*.key".to_string(), "a".to_string()]
    );
}

/// Migration: without a mode the old toggle decides
#[test]
fn legacy_sync_enabled_false_migrates_to_off() {
    let parsed = Settings {
        sync_enabled: false,
        ..Default::default()
    };
    let settings = Settings::load_from(Some(parsed), br#"{"syncEnabled":false}"#);
    assert_eq!(settings.sync_mode, "off");
    assert!(!settings.sync_enabled);
}

/// A user on the old shape with sync on migrates to both
#[test]
fn legacy_sync_enabled_true_migrates_to_both() {
    let parsed = Settings {
        sync_enabled: true,
        ..Default::default()
    };
    let settings = Settings::load_from(Some(parsed), br#"{"syncEnabled":true}"#);
    assert_eq!(settings.sync_mode, "both");
    assert!(settings.sync_enabled);
}

/// Where the two fields disagree, the mode is the source of truth
#[test]
fn sync_mode_wins_over_stale_sync_enabled() {
    let parsed = Settings {
        sync_enabled: false,
        sync_mode: "send".into(),
        ..Default::default()
    };
    let settings =
        Settings::load_from(Some(parsed), br#"{"syncEnabled":false,"syncMode":"send"}"#);
    assert_eq!(settings.sync_mode, "send");
    assert!(
        settings.sync_enabled,
        "Double-write rule: mode != off implies enabled"
    );
}

/// An unknown mode falls back to both; the file cap is clamped to 1~512
#[test]
fn normalize_clamps_and_falls_back() {
    let parsed = Settings {
        sync_mode: "sideways".into(),
        max_sync_file_mb: 9999,
        ..Default::default()
    };
    let settings = Settings::load_from(
        Some(parsed),
        br#"{"syncMode":"sideways","maxSyncFileMb":9999}"#,
    );
    assert_eq!(settings.sync_mode, "both");
    assert_eq!(settings.max_sync_file_mb, 512);
    let parsed = Settings {
        max_sync_file_mb: 0,
        ..Default::default()
    };
    let settings = Settings::load_from(Some(parsed), br#"{"maxSyncFileMb":0}"#);
    assert_eq!(settings.max_sync_file_mb, 1);
    assert_eq!(max_sync_file_bytes_of(&settings), 1024 * 1024);
}

/// Only a text under the key, at the top level, counts as a direction
#[test]
fn only_a_named_direction_stops_the_migration() {
    let loaded = |bytes: &[u8]| {
        let parsed = Settings {
            sync_enabled: false,
            ..Default::default()
        };
        Settings::load_from(Some(parsed), bytes).sync_mode
    };
    assert_eq!(loaded(br#"{"syncMode":"both"}"#), "both");
    assert_eq!(loaded(br#" { "a" : [1], "syncMode" : "both" } "#), "both");
    assert_eq!(loaded(br#"{"syncMode":null}"#), "off");
    assert_eq!(loaded(br#"{"syncMode":7}"#), "off");
    assert_eq!(loaded(br#"{"syncmode":"both"}"#), "off");
    assert_eq!(loaded(br#"{"ignore":{"syncMode":"both"}}"#), "off");
    assert_eq!(loaded(br#"["syncMode"]"#), "off");
    assert_eq!(loaded(b"syncMode"), "off");
    assert_eq!(loaded(b""), "off");
    // The flag decides when it is given
    let parsed = Settings {
        sync_enabled: false,
        ..Default::default()
    };
    assert_eq!(Settings::load(Some(parsed), true).sync_mode, "both");
}

#[test]
fn unreadable_settings_are_the_defaults() {
    let settings = Settings::load_from(None, br#"{"syncMode":"off""#);
    assert_eq!(settings, Settings::default());
    let mut again = settings.duplicate();
    again.normalize();
    assert_eq!(again, settings);
}

/// Default values used when the newer fields are absent
#[test]
fn defaults_match_plan() {
    let settings = Settings::default();
    assert_eq!(settings.sync_mode, "both");
    assert!(settings.sync_text);
    assert!(settings.sync_images);
    assert!(!settings.sync_files);
    assert_eq!(settings.max_sync_file_mb, 32);
}

/// Record-resumed decision: true when any type goes off→on; false when a type is
/// turned off and when nothing changed
#[test]
fn record_resumed_detects_reenabling() {
    let new = Settings::default();
    assert!(!record_resumed(&new, &new), "No change must not trigger");

    let text_off = Settings {
        history_record_text: false,
        ..Default::default()
    };
    assert!(
        record_resumed(&text_off, &new),
        "Re-enabling text must trigger"
    );
    assert!(
        !record_resumed(&new, &text_off),
        "Disabling a direction must not trigger"
    );

    let files_off = Settings {
        history_record_files: false,
        ..Default::default()
    };
    assert!(
        record_resumed(&files_off, &new),
        "Re-enabling files must trigger"
    );
}

/// Sync-resumed decision: true when a type goes off→on or the direction gains
/// send capability; false when turning off, when nothing changed, and when
/// switching between modes that never send
#[test]
fn sync_resumed_detects_pipeline_reopening() {
    let new = Settings::default();
    assert!(!sync_resumed(&new, &new), "No change must not trigger");

    let text_off = Settings {
        sync_text: false,
        ..Default::default()
    };
    assert!(
        sync_resumed(&text_off, &new),
        "Re-enabling text sync must trigger"
    );
    assert!(
        !sync_resumed(&new, &text_off),
        "Disabling a direction must not trigger"
    );

    let mode_off = Settings {
        sync_mode: "off".to_string(),
        ..Default::default()
    };
    assert!(
        sync_resumed(&mode_off, &new),
        "off -> both gains send capability and must trigger"
    );

    let recv = Settings {
        sync_mode: "receive".to_string(),
        ..Default::default()
    };
    let send = Settings {
        sync_mode: "send".to_string(),
        ..Default::default()
    };
    assert!(
        sync_resumed(&recv, &send),
        "receive -> send gains send capability and must trigger"
    );
    assert!(
        !sync_resumed(&send, &new),
        "send -> both does not change send capability"
    );
    assert!(
        !sync_resumed(&mode_off, &recv),
        "off -> receive still cannot send and must not trigger"
    );
}

#[test]
fn settings_feed_the_engine_and_the_history() {
    let settings = Settings {
        sync_mode: "send".into(),
        history_max_entries: 7,
        history_record_images: false,
        ..Default::default()
    };
    assert_eq!(sync_mode_of(&settings), SyncMode::Send);
    assert!(sync_types_of(&settings).text && !sync_types_of(&settings).files);
    assert_eq!(
        history_config(&settings),
        HistoryConfig {
            max_entries: 7,
            record_text: settings.history_record_text,
            record_images: false,
            record_files: settings.history_record_files,
        }
    );
    assert!(settings.needs_pixels());
    let toggled = settings.toggle_sync();
    assert_eq!(toggled.sync_mode, "off");
    assert!(!toggled.sync_enabled);
}

/// Panel size used throughout (380×480, as configured)
const PANEL: (i32, i32) = (380, 480);

fn taskbar_bottom() -> MonitorRect {
    MonitorRect {
        left: 0,
        top: 0,
        right: 1920,
        bottom: 1040,
    }
}

/// A tray icon rectangle, 24×24, at the given top-left
fn icon(x: i32, y: i32) -> IconRect {
    IconRect {
        left: x,
        top: y,
        right: x + 24,
        bottom: y + 24,
    }
}

/// Windows, tray at the bottom right: the panel sits above the icon with their
/// right edges lined up
#[test]
fn opens_above_a_bottom_right_tray_icon() {
    let area = taskbar_bottom();
    let (x, y) = place_panel_at_tray(icon(1850, 1048), PANEL, area);
    assert_eq!(x + PANEL.0, 1874, "right edges line up with the icon");
    assert_eq!(y + PANEL.1, area.bottom, "bottom sits on the taskbar");
    assert!(y >= area.top, "and the top is still on screen");
}

/// The half of the area that a fractional icon is in is told by its sums
#[test]
fn fractional_icon_is_placed_by_its_middle() {
    let area = MonitorRect {
        left: 0,
        top: 0,
        right: 1001,
        bottom: 1001,
    };
    // From 500.2 to 500.9 across: the sides add up to 1001.1, not to 1000
    let icon = IconRect {
        left: 500,
        top: 0,
        right: 500,
        bottom: 20,
    };
    assert_eq!(place_panel_beside(icon, (1001, 20), (100, 100), area), (400, 20));
    assert_eq!(place_panel_beside(icon, (1000, 20), (100, 100), area), (500, 20));
    assert_eq!(place_panel_at_tray(icon, (100, 100), area), (500, 20));
}

/// An icon sitting a few slots in from the edge opens against the icon rather
/// than against the screen edge
#[test]
fn follows_an_icon_that_is_not_in_the_very_corner() {
    let area = taskbar_bottom();
    let (x, y) = place_panel_at_tray(icon(1700, 1048), PANEL, area);
    assert_eq!(
        x + PANEL.0,
        1724,
        "right edge tracks the icon, not the screen"
    );
    assert_eq!(y + PANEL.1, area.bottom);
    assert!(
        x + PANEL.0 < area.right,
        "leaves the icons to its right uncovered"
    );
}

/// macOS, menu bar icon at the top right: the panel drops below the icon
#[test]
fn drops_below_a_top_right_menu_bar_icon() {
    let area = MonitorRect {
        left: 0,
        top: 25,
        right: 1512,
        bottom: 982,
    };
    let (x, y) = place_panel_at_tray(icon(1450, 0), PANEL, area);
    assert_eq!(y, 25, "below the menu bar, clamped to the work area top");
    assert_eq!(x, 1474 - 380);
}

/// A taskbar moved to the left edge puts the tray at the bottom left
#[test]
fn opens_from_a_bottom_left_tray() {
    let area = MonitorRect {
        left: 60,
        top: 0,
        right: 1920,
        bottom: 1080,
    };
    let (x, y) = place_panel_at_tray(icon(70, 1050), PANEL, area);
    assert_eq!(x, 70, "left edges line up");
    assert_eq!(y + PANEL.1, 1050, "bottom sits on the icon");
}

/// A screen shorter than the panel cannot fit it: the clamp still yields a point
/// inside the work area
#[test]
fn survives_a_work_area_smaller_than_the_panel() {
    let tiny = MonitorRect {
        left: 0,
        top: 0,
        right: 300,
        bottom: 300,
    };
    let (x, y) = place_panel_at_tray(icon(280, 280), PANEL, tiny);
    assert_eq!((x, y), (0, 0));
}

/// A 1440×900 logical screen (origin 0,0)
fn screen() -> MonitorRect {
    MonitorRect {
        left: 0,
        top: 0,
        right: 1440,
        bottom: 900,
    }
}

/// Panel spans [left, left+380], card is 400×300
fn layout(panel_left: i32, desired_y: i32) -> PreviewLayout {
    PreviewLayout {
        panel_left,
        panel_right: panel_left + 380,
        card_w: 400,
        card_h: 300,
        gap: 8,
        desired_y,
    }
}

/// Panel on the left: plenty of room on the right, the card hugs its right edge
#[test]
fn prefers_right_side_when_it_fits() {
    let (x, _) = place_preview(layout(0, 100), screen());
    assert_eq!(x, 388);
}

/// Panel on the right: 400 wide does not fit there, so it flips to the left of
/// the panel and stays fully on screen
#[test]
fn flips_left_when_right_is_too_narrow() {
    // Panel right edge at 1240, only 192 < 400 left on the right
    let (x, _) = place_preview(layout(860, 100), screen());
    assert_eq!(
        x, 452,
        "Should land to the left of the panel: 860 - 8 - 400"
    );
    assert!(x >= 0 && x + 400 <= 1440);
}

/// Very narrow screen: with neither side fitting the card must still be fully on
/// screen
#[test]
fn never_overflows_on_narrow_screen() {
    let narrow = MonitorRect {
        left: 0,
        top: 0,
        right: 600,
        bottom: 900,
    };
    let (x, _) = place_preview(layout(100, 100), narrow);
    assert!(x >= 0, "Must not cross the left boundary");
    assert!(x + 400 <= 600, "Must not cross the right boundary");
}

/// Secondary monitor (negative origin): the bounds come from that monitor
#[test]
fn respects_secondary_monitor_origin() {
    let left_monitor = MonitorRect {
        left: -1920,
        top: 0,
        right: 0,
        bottom: 1080,
    };
    let (x, _) = place_preview(layout(-400, 100), left_monitor);
    assert!(x >= -1920 && x + 400 <= 0);
}

/// Highlighted row near the bottom of the screen: the card moves up until it is
/// fully visible
#[test]
fn clamps_bottom_edge() {
    let (_, y) = place_preview(layout(0, 880), screen());
    assert_eq!(y, 600, "900 - 300");
}

#[test]
fn panel_opens_at_the_cursor() {
    assert_eq!(place_panel_at_cursor(500, 400, PANEL, screen()), (500, 400));
    assert_eq!(
        place_panel_at_cursor(1400, 880, PANEL, screen()),
        (1440 - 380, 900 - 480)
    );
}

/// The same gesture that hid the panel does not open it again
#[test]
fn panel_trigger_steps() {
    assert_eq!(panel_trigger(true, true, 10_000, 0), PanelStep::Hide);
    assert_eq!(panel_trigger(false, false, 10_000, 9_900), PanelStep::Stay);
    assert_eq!(panel_trigger(false, false, 10_000, 9_000), PanelStep::Show);
}

#[test]
fn window_height_follows_its_content() {
    assert_eq!(fit_height(500, 30, 200, None, 400), Some(530));
    assert_eq!(fit_height(500, 30, 200, Some(450), 400), Some(450));
    assert_eq!(fit_height(500, 30, 200, None, 530), None);
    assert_eq!(fit_height(100, 30, 200, None, 400), Some(230));
}

/// The queries must not panic, and answer nothing where the platform has none
#[test]
fn query_does_not_panic() {
    let name = frontmost_app_name(Platform::Linux, &None);
    println!("frontmost_app_name() = {name:?}");
    assert_eq!(name, None);
    let icon = frontmost_app_icon_png(Platform::Linux, false, None);
    println!(
        "frontmost_app_icon_png() = {:?} bytes",
        icon.map(|b| b.len())
    );
}

#[test]
fn platform_answers() {
    assert!(supported(Platform::MacOs) && supported(Platform::Windows));
    assert!(!supported(Platform::Linux));
    assert_eq!(read(Platform::MacOs, 7), Some(7));
    assert_eq!(read(Platform::Linux, 7), None);
    let concealed = vec!["org.nspasteboard.ConcealedType".to_string()];
    assert!(is_concealed(Platform::MacOs, &concealed));
    assert!(!is_concealed(Platform::Linux, &concealed));
    assert!(!is_concealed(Platform::MacOs, &vec!["public.text".to_string()]));
    assert!(has_image(Platform::MacOs, true));
    assert!(!has_image(Platform::Linux, true));
    assert!(!is_supported(Platform::Linux));
    assert!(is_permitted(Platform::Windows, false));
    assert!(!is_permitted(Platform::MacOs, false));
    assert!(!request_permission(Platform::MacOs, false));
    assert!(icon_size_is_sane(32, 32));
    assert!(!icon_size_is_sane(0, 32));
    assert_eq!(pick_icon(&Vec::new()), None);
    assert!(!AutoPasteStatus::current(Platform::MacOs, false).pastes());
    assert!(AutoPasteStatus::current(Platform::MacOs, true).pastes());
}

#[test]
fn frontmost_application() {
    let chrome = Some(FrontApp {
        own: false,
        name: Some("Chrome".into()),
        bundle_id: Some("com.google.Chrome".into()),
        exe_path: None,
    });
    assert_eq!(
        frontmost_app_name(Platform::MacOs, &chrome).as_deref(),
        Some("Chrome")
    );
    assert_eq!(
        frontmost_app_id(Platform::MacOs, &chrome).as_deref(),
        Some("com.google.Chrome")
    );
    let own = Some(FrontApp {
        own: true,
        name: Some("lanecho".into()),
        bundle_id: None,
        exe_path: None,
    });
    assert_eq!(frontmost_app_name(Platform::MacOs, &own), None);
}

/// The executable's name on Windows is the last component behind the prefix
#[test]
fn executable_names() {
    let names = |path: &str| {
        let app = Some(FrontApp {
            own: false,
            name: None,
            bundle_id: None,
            exe_path: Some(path.into()),
        });
        (
            frontmost_app_name(Platform::Windows, &app),
            frontmost_app_id(Platform::Windows, &app),
        )
    };
    let both = |name: &str, id: &str| (Some(name.to_string()), Some(id.to_string()));
    let chrome = both("Chrome", "chrome.exe");
    assert_eq!(names(r"C:\Program Files\Chrome.exe"), chrome);
    assert_eq!(names("C:/Program Files/Chrome.exe"), chrome);
    assert_eq!(names(r"C:Chrome.exe"), chrome);
    assert_eq!(names("Chrome.exe"), chrome);
    assert_eq!(names(r"C:\apps\Chrome.exe\"), chrome);
    assert_eq!(names(r"C:\apps\Chrome.exe\.\"), chrome);
    assert_eq!(names(r"\\server\share\Chrome.exe"), chrome);
    assert_eq!(names(r"\\?\C:\apps\Chrome.exe"), chrome);
    assert_eq!(names(r"\\?\UNC\server\share\Chrome.exe"), chrome);
    assert_eq!(names(r"\\server"), both("server", "server"));
    for none in [
        "",
        r"C:",
        r"C:\",
        r"C:\apps\..",
        r"\\server\share",
        r"\\server\share\",
        r"\\.\COM1",
        r"\\?\C:",
        r"\\?\UNC\server\share",
        r"\\?\C:\apps\.",
        ".",
        "..",
    ] {
        assert_eq!(names(none), (None, None), "{none}");
    }
}

/// Every key that goes down comes up again
#[test]
fn paste_releases_its_keys() {
    for platform in [Platform::MacOs, Platform::Windows, Platform::Linux] {
        let keys: Vec<KeyEvent> = send_paste(platform);
        for key in [Key::CommandV, Key::V, Key::Control] {
            let downs = keys.iter().filter(|k| k.key == key && k.down).count();
            let ups = keys.iter().filter(|k| k.key == key && !k.down).count();
            assert_eq!(downs, ups);
        }
    }
    assert!(!send_paste(Platform::MacOs).is_empty());
    assert!(send_paste(Platform::Linux).is_empty());
}

#[test]
fn languages_and_texts() {
    assert_eq!(Lang::from_settings("zh", "en-US"), Lang::Zh);
    assert_eq!(Lang::from_settings("en", "zh-CN"), Lang::En);
    assert_eq!(Lang::from_settings("auto", "zh-CN"), Lang::Zh);
    assert_eq!(Lang::from_settings("auto", "fr-FR"), Lang::En);
    let en = texts(Lang::En);
    assert!(en.pair_request("Mac").contains("Mac"));
    assert!(!en.pair_request("Mac").contains("{name}"));
    assert!(en.synced_from("Mac").contains("Mac"));
    assert!(en.tray_pending(3).contains('3'));
    assert_ne!(texts(Lang::Zh).tray_quit, en.tray_quit);
    assert_eq!(tray_tooltip(0, Lang::En), "Lanecho");
    assert_eq!(tray_tooltip(2, Lang::En), en.tray_pending(2));
}

fn info(fp: &str, name: &str) -> PeerInfo {
    PeerInfo {
        device_id: format!("dev-{fp}"),
        name: name.into(),
        fingerprint: fp.into(),
        platform: "macos".into(),
        os_version: Some("15".into()),
    }
}

fn peer(fp: &str, name: &str) -> Peer {
    Peer {
        info: info(fp, name),
        addrs: vec![Address::V4(1)],
        port: 1,
    }
}

fn paired(fp: &str, name: &str) -> PairedPeer {
    PairedPeer {
        fingerprint: fp.into(),
        device_id: format!("dev-{fp}"),
        name: name.into(),
        paired_at_ms: 0,
    }
}

/// Online and paired-but-offline devices appear once each
#[test]
fn device_list_merges_both_sources() {
    let peers = vec![peer("aaa", "Zed"), peer("bbb", "Abe")];
    let known = vec![paired("bbb", "Abe"), paired("ccc", "Old")];
    let list = list_devices(&peers, &known);
    assert_eq!(list.len(), 3);
    let find = |fp: &str| list.iter().find(|d| d.fingerprint == fp).unwrap();
    assert!(find("aaa").online && !find("aaa").paired);
    assert!(find("bbb").online && find("bbb").paired);
    assert!(!find("ccc").online && find("ccc").paired);
    assert_eq!(find("ccc").platform, None);
    assert_eq!(find("bbb").os_version.as_deref(), Some("15"));
    // Online devices come first, each group by name
    let order: Vec<&str> = list.iter().map(|d| d.name.as_str()).collect();
    assert_eq!(order, vec!["Abe", "Zed", "Old"]);
}

#[test]
fn command_errors() {
    assert_eq!(ErrDto::new("code").message(), "code");
    assert_eq!(ErrDto::with("code", "why").detail.as_deref(), Some("why"));
    assert_eq!(ErrDto::of(&SyncError::PairRejected).code, "pair_rejected");
    assert_eq!(ErrDto::of(&SyncError::PeerUnreachable).code, "peer_unreachable");
    assert_eq!(chosen_name(Some(" Mac ".into())).as_deref(), Some(" Mac "));
    assert_eq!(chosen_name(Some("   ".into())), None);
    assert_eq!(chosen_name(None), None);
    assert!(check_files(true).is_ok());
    assert!(check_files(false).is_err());
    let me = SelfInfoDto::of(info("fp", "n"), 7);
    assert_eq!((me.name.as_str(), me.port), ("n", 7));
}

#[test]
fn entry_commands() {
    assert!(entry_text_dto(None).is_err());
    let short = entry_text_dto(Some(("abc".into(), 3))).unwrap();
    assert!(!short.truncated);
    let long = entry_text_dto(Some(("abc".into(), 30_000))).unwrap();
    assert!(long.truncated);
    assert_eq!(long.total_chars, 30_000);

    assert!(restore_entry(None).is_err());
    let text_entry = HistoryEntry {
        text: Some("hi".into()),
        ..HistoryEntry::default()
    };
    assert_eq!(
        restore_entry(Some(text_entry.duplicate())).ok(),
        Some(Restore::Text("hi".into()))
    );
    assert!(image_hash(Some(text_entry)).is_err());
    let image_entry = HistoryEntry {
        kind: "image".into(),
        blob_hash: Some("h".into()),
        ..HistoryEntry::default()
    };
    assert_eq!(image_hash(Some(image_entry.duplicate())).ok().as_deref(), Some("h"));
    assert_eq!(
        restore_entry(Some(image_entry)).ok(),
        Some(Restore::Image("h".into()))
    );
    let files_entry = HistoryEntry {
        kind: "files".into(),
        files: Some(vec!["/a".into()]),
        ..HistoryEntry::default()
    };
    assert_eq!(
        restore_entry(Some(files_entry)).ok(),
        Some(Restore::Files(vec!["/a".into()]))
    );
}

#[test]
fn saving_settings() {
    let current = Settings::default();
    let mut same = Settings::default();
    let plan = plan_save(&current, &mut same);
    assert!(!plan.hotkeys_changed && !plan.sync_changed && !plan.ignore_changed);
    assert!(!plan.reset_dedupe);
    assert_eq!(plan.autostart, None);

    let mut next = Settings {
        panel_hotkey: "Alt+X".into(),
        sync_mode: "off".into(),
        autostart: !current.autostart,
        ..Default::default()
    };
    next.ignore.regexes = vec!["x".into()];
    let plan = plan_save(&current, &mut next);
    assert!(plan.hotkeys_changed && plan.sync_changed && plan.ignore_changed);
    assert_eq!(plan.autostart, Some(!current.autostart));
    assert!(!next.sync_enabled);

    assert_eq!(conclude_save(&plan, None, None), SaveEnd::Apply);
    match conclude_save(&plan, Some("taken".into()), None) {
        SaveEnd::Fail { error, .. } => assert_eq!(error.detail.as_deref(), Some("taken")),
        SaveEnd::Apply => panic!("a taken hotkey fails the save"),
    }
    match conclude_save(&plan, None, Some("disk".into())) {
        SaveEnd::Fail {
            restore_hotkeys, ..
        } => assert!(restore_hotkeys),
        SaveEnd::Apply => panic!("a failed write fails the save"),
    }
}

#[test]
fn slots_and_backdrop() {
    assert_eq!(slot_hotkey("Alt", 1), "Alt+1");
    assert_eq!(slot_failures(&vec![true, false, true, false]), vec![2, 4]);
    assert_ne!(theme_backdrop(true), theme_backdrop(false));
}

fn event(content: ClipboardContent) -> ClipboardEvent {
    let hash = content.hash();
    ClipboardEvent::new(content, hash, 5)
}

fn local_copy(content: ClipboardContent) -> EngineEvent {
    let hash = content.hash();
    EngineEvent::LocalCopied {
        content,
        hash,
        timestamp_ms: 5,
        suppress_record: false,
        record_files_excluded: Vec::new(),
    }
}

#[test]
fn ignored_copies_are_marked() {
    let r = rules(|s| {
        s.apps = vec![app("com.x", "X")];
        s.apps_record = true;
    });
    assert!(wants_app(&event(text("a")), &r, &None));
    let marked = ingest(event(text("a")), &r, &None, Some("com.x".into()));
    assert!(marked.suppress_broadcast && marked.suppress_record);
    // A restore write is exempt
    let hash = text("a").hash();
    assert!(!wants_app(&event(text("a")), &r, &Some(hash.clone())));
    let restored = ingest(event(text("a")), &r, &Some(hash), None);
    assert!(!restored.suppress_broadcast && !restored.suppress_record);
}

#[test]
fn incognito_records_nothing() {
    let mut pump = Pump::new();
    assert!(!pump.incognito());
    pump.set_incognito(true);
    assert!(pump.incognito());
    assert_eq!(
        pump.on_event(local_copy(text("a")), Lang::En),
        PumpStep::Nothing
    );
    pump.set_incognito(false);
    assert!(matches!(
        pump.on_event(local_copy(text("a")), Lang::En),
        PumpStep::Record { capture: true, .. }
    ));
}

#[test]
fn restored_copy_captures_no_application() {
    let mut pump = Pump::new();
    pump.register_restore(text("a").hash());
    assert_eq!(pump.restore_hash(), Some(text("a").hash()));
    assert!(matches!(
        pump.on_event(local_copy(text("a")), Lang::En),
        PumpStep::Record { capture: false, .. }
    ));
}

/// Files that are excluded from the record are left out, under their own hash
#[test]
fn excluded_files_are_not_recorded() {
    let mut pump = Pump::new();
    let content = files(&["/tmp/a", "/tmp/b.key"]);
    let hash = content.hash();
    let step = pump.on_event(
        EngineEvent::LocalCopied {
            content,
            hash,
            timestamp_ms: 5,
            suppress_record: false,
            record_files_excluded: vec![path("/tmp/b.key")],
        },
        Lang::En,
    );
    match step {
        PumpStep::Record { content, hash, .. } => {
            assert_eq!(content, files(&["/tmp/a"]));
            assert_eq!(hash, files(&["/tmp/a"]).hash());
        }
        other => panic!("unexpected: {other:?}"),
    }
}

#[test]
fn pump_turns_events_into_steps() {
    let mut pump = Pump::new();
    assert_eq!(
        pump.on_event(EngineEvent::PeerUp(peer("aaa", "A")), Lang::En),
        PumpStep::PeerUp(PeerDto::of(&info("aaa", "A")))
    );
    assert_eq!(
        pump.on_event(EngineEvent::PeerDown("aaa".into()), Lang::En),
        PumpStep::PeerDown("aaa".into())
    );
    assert!(matches!(
        pump.on_event(
            EngineEvent::PairRequested {
                peer: info("aaa", "A")
            },
            Lang::En
        ),
        PumpStep::AskPair { .. }
    ));
    let write = pump.on_event(
        EngineEvent::ApplyRemote {
            content: text("hi"),
            from: info("aaa", "A"),
            timestamp_ms: 1,
            hash: text("hi").hash(),
        },
        Lang::En,
    );
    match write {
        PumpStep::Write {
            content,
            hash,
            from_name,
            preview,
        } => {
            assert_eq!(preview, "hi");
            let failed = pump.written(
                true,
                content.duplicate(),
                hash.clone(),
                from_name.clone(),
                preview.clone(),
                9,
                true,
                Lang::En,
            );
            assert_eq!(failed, Written::CancelEcho(text("hi").hash()));
            let there = pump.written(
                false, content, hash, from_name, preview, 9, true, Lang::En,
            );
            let Written::Landed(landed) = there else {
                panic!("unexpected: {there:?}");
            };
            assert_eq!(landed.synced.from_name, "A");
            assert_eq!(landed.synced.at, 9);
            assert_eq!(landed.job.unwrap().origin.as_deref(), Some("A"));
            assert!(landed.notice.is_some());
        }
        other => panic!("unexpected: {other:?}"),
    }
    let job = copy_job(text("x"), "h".into(), 3, Some("App".into()), None);
    assert_eq!(job.origin, None);
    assert_eq!(job.source_app.as_deref(), Some("App"));
    assert!(!files_preview(&vec![path("/tmp/a.txt")]).is_empty());
}

#[test]
fn icons_are_asked_for_once() {
    let mut pump = Pump::new();
    assert!(!pump.wants_icon(&None, false));
    assert!(pump.wants_icon(&Some("Chrome".into()), false));
    assert!(!pump.wants_icon(&Some("Safari".into()), true));
}
