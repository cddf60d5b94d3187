//! Application settings and what a change of them entails.

use vstd::prelude::*;
use crate::config::DEFAULT_TCP_PORT;
use crate::history::HistoryConfig;
use crate::sync::{SyncMode, SyncTypes};
use crate::text::{self, views};

verus! {

/// Settings file name.
pub const SETTINGS_FILE: &'static str = "settings.json";

/// The key of the sync direction in the settings file.
pub const SYNC_MODE_KEY: &'static str = "syncMode";

/// The largest file sync cap, in MB.
pub const MAX_SYNC_FILE_MB: u32 = 512;

/// Whether the bytes are JSON whose top level is an object that has a text
/// under the key.
pub uninterp spec fn json_names_text(bytes: Seq<u8>, key: Seq<char>) -> bool;

/// `serde_json::from_slice` into a `serde_json::Value`, and
/// `serde_json::Value::get`: whether a text stands under the key. Bytes that
/// are no JSON have none. The answer is a function of the bytes and the key.
#[verifier::external_body]
fn names_text(bytes: &[u8], key: &str) -> (r: bool)
    ensures
        r == json_names_text(bytes@, key@),
{
    match serde_json::from_slice::<serde_json::Value>(bytes) {
        Ok(value) => matches!(value.get(key), Some(serde_json::Value::String(_))),
        Err(_) => false,
    }
}

/// An application whose text is ignored.
#[derive(Debug, PartialEq, Eq)]
pub struct IgnoredApp {
    /// Stable identifier
    pub id: String,
    /// Display name
    pub name: String,
}

/// What an [`IgnoredApp`] stands for.
#[verifier::ext_equal]
pub struct IgnoredAppView {
    pub id: Seq<char>,
    pub name: Seq<char>,
}

impl View for IgnoredApp {
    type V = IgnoredAppView;

    open spec fn view(&self) -> IgnoredAppView {
        IgnoredAppView { id: self.id@, name: self.name@ }
    }
}

/// The ignore rules as the user wrote them. Every kind of rule has a toggle
/// for the sync and one for the history.
#[derive(Debug, PartialEq, Eq)]
pub struct IgnoreSettings {
    /// Ignored applications
    pub apps: Vec<IgnoredApp>,
    /// Applications: keep out of the sync
    pub apps_sync: bool,
    /// Applications: keep out of the history
    pub apps_record: bool,
    /// Ignored pasteboard types
    pub types: Vec<String>,
    /// Types: keep out of the sync
    pub types_sync: bool,
    /// Types: keep out of the history
    pub types_record: bool,
    /// Regular expressions
    pub regexes: Vec<String>,
    /// Expressions: keep out of the sync
    pub regex_sync: bool,
    /// Expressions: keep out of the history
    pub regex_record: bool,
    /// File patterns, one per line
    pub file_patterns: String,
    /// Files: keep out of the sync
    pub files_sync: bool,
    /// Files: keep out of the history
    pub files_record: bool,
}

/// What an [`IgnoreSettings`] stands for.
#[verifier::ext_equal]
pub struct IgnoreView {
    pub apps: Seq<IgnoredAppView>,
    pub apps_sync: bool,
    pub apps_record: bool,
    pub types: Seq<Seq<char>>,
    pub types_sync: bool,
    pub types_record: bool,
    pub regexes: Seq<Seq<char>>,
    pub regex_sync: bool,
    pub regex_record: bool,
    pub file_patterns: Seq<char>,
    pub files_sync: bool,
    pub files_record: bool,
}

impl View for IgnoreSettings {
    type V = IgnoreView;

    open spec fn view(&self) -> IgnoreView {
        IgnoreView {
            apps: views(self.apps@),
            apps_sync: self.apps_sync,
            apps_record: self.apps_record,
            types: views(self.types@),
            types_sync: self.types_sync,
            types_record: self.types_record,
            regexes: views(self.regexes@),
            regex_sync: self.regex_sync,
            regex_record: self.regex_record,
            file_patterns: self.file_patterns@,
            files_sync: self.files_sync,
            files_record: self.files_record,
        }
    }
}

/// The ignore rules of a fresh installation: one password manager's type, kept
/// out of the sync.
pub open spec fn default_ignore() -> IgnoreView {
    IgnoreView {
        apps: Seq::empty(),
        apps_sync: true,
        apps_record: false,
        types: seq!["net.antelle.keeweb"@],
        types_sync: true,
        types_record: false,
        regexes: Seq::empty(),
        regex_sync: true,
        regex_record: false,
        file_patterns: Seq::empty(),
        files_sync: true,
        files_record: false,
    }
}

impl Default for IgnoreSettings {
    fn default() -> (r: Self)
        ensures
            r@ == default_ignore(),
    {
        let mut types: Vec<String> = Vec::new();
        types.push("net.antelle.keeweb".to_owned());
        let r = IgnoreSettings {
            apps: Vec::new(),
            apps_sync: true,
            apps_record: false,
            types,
            types_sync: true,
            types_record: false,
            regexes: Vec::new(),
            regex_sync: true,
            regex_record: false,
            file_patterns: String::new(),
            files_sync: true,
            files_record: false,
        };
        proof {
            assert(r@ =~= default_ignore());
        }
        r
    }
}

fn same_texts(a: &Vec<String>, b: &Vec<String>) -> (r: bool)
    ensures
        r == (views(a@) == views(b@)),
{
    if a.len() != b.len() {
        proof {
            assert(views(a@).len() != views(b@).len());
        }
        return false;
    }
    let mut i: usize = 0;
    while i < a.len()
        invariant
            i <= a.len(),
            a.len() == b.len(),
            forall|j: int| 0 <= j < i ==> a@[j]@ == b@[j]@,
        decreases a.len() - i,
    {
        if !text::same(a[i].as_str(), b[i].as_str()) {
            proof {
                assert(views(a@)[i as int] != views(b@)[i as int]);
            }
            return false;
        }
        i += 1;
    }
    proof {
        assert(views(a@) =~= views(b@));
    }
    true
}

fn same_apps(a: &Vec<IgnoredApp>, b: &Vec<IgnoredApp>) -> (r: bool)
    ensures
        r == (views(a@) == views(b@)),
{
    if a.len() != b.len() {
        proof {
            assert(views(a@).len() != views(b@).len());
        }
        return false;
    }
    let mut i: usize = 0;
    while i < a.len()
        invariant
            i <= a.len(),
            a.len() == b.len(),
            forall|j: int| 0 <= j < i ==> a@[j]@ == b@[j]@,
        decreases a.len() - i,
    {
        if !(text::same(a[i].id.as_str(), b[i].id.as_str()) && text::same(
            a[i].name.as_str(),
            b[i].name.as_str(),
        )) {
            proof {
                assert(views(a@)[i as int] == a@[i as int]@);
                assert(views(b@)[i as int] == b@[i as int]@);
            }
            return false;
        }
        i += 1;
    }
    proof {
        assert(views(a@) =~= views(b@));
    }
    true
}

impl IgnoreSettings {
    /// Whether two sets of rules are the same.
    pub fn same(&self, other: &IgnoreSettings) -> (r: bool)
        ensures
            r == (self@ == other@),
    {
        same_apps(&self.apps, &other.apps) && self.apps_sync == other.apps_sync && self.apps_record
            == other.apps_record && same_texts(&self.types, &other.types) && self.types_sync
            == other.types_sync && self.types_record == other.types_record && same_texts(
            &self.regexes,
            &other.regexes,
        ) && self.regex_sync == other.regex_sync && self.regex_record == other.regex_record && text::same(
            self.file_patterns.as_str(),
            other.file_patterns.as_str(),
        ) && self.files_sync == other.files_sync && self.files_record == other.files_record
    }

    /// A copy of the rules.
    pub fn duplicate(&self) -> (r: IgnoreSettings)
        ensures
            r@ == self@,
    {
        let mut apps: Vec<IgnoredApp> = Vec::new();
        let mut i: usize = 0;
        while i < self.apps.len()
            invariant
                i <= self.apps.len(),
                apps.len() == i,
                forall|j: int| 0 <= j < i ==> (#[trigger] apps@[j])@ == self.apps@[j]@,
            decreases self.apps.len() - i,
        {
            apps.push(
                IgnoredApp { id: self.apps[i].id.clone(), name: self.apps[i].name.clone() },
            );
            i += 1;
        }
        proof {
            assert(views(apps@) =~= views(self.apps@));
        }
        IgnoreSettings {
            apps,
            apps_sync: self.apps_sync,
            apps_record: self.apps_record,
            types: text::clone_all(&self.types),
            types_sync: self.types_sync,
            types_record: self.types_record,
            regexes: text::clone_all(&self.regexes),
            regex_sync: self.regex_sync,
            regex_record: self.regex_record,
            file_patterns: self.file_patterns.clone(),
            files_sync: self.files_sync,
            files_record: self.files_record,
        }
    }
}

/// User settings.
#[derive(Debug, PartialEq, Eq)]
pub struct Settings {
    /// TCP listen port (0 means random; takes effect after a restart)
    pub tcp_port: u16,
    /// Launch at login
    pub autostart: bool,
    /// Always `sync_mode != "off"`
    pub sync_enabled: bool,
    /// Sync direction: "off", "both", "send" or "receive"
    pub sync_mode: String,
    /// Sync text
    pub sync_text: bool,
    /// Sync images
    pub sync_images: bool,
    /// Sync files
    pub sync_files: bool,
    /// File sync cap in MB, 1 to 512
    pub max_sync_file_mb: u32,
    /// Notify when a remote device overwrites the clipboard
    pub notify_on_sync: bool,
    /// Language of the interface: "zh", "en", or nothing yet
    pub language: String,
    /// Cap on the history entries
    pub history_max_entries: usize,
    /// Record text
    pub history_record_text: bool,
    /// Record images
    pub history_record_images: bool,
    /// Record file references
    pub history_record_files: bool,
    /// History sort: "recent" or "frequent"
    pub history_sort: String,
    /// Hotkey that opens the history panel; empty switches it off
    pub panel_hotkey: String,
    /// Whether the numbered slots have hotkeys
    pub slot_hotkeys: bool,
    /// Modifier of the slot hotkeys
    pub slot_modifier: String,
    /// Preview card delay in milliseconds
    pub preview_delay_ms: u32,
    /// Paste an entry right after it was chosen
    pub auto_paste: bool,
    /// Ignore rules
    pub ignore: IgnoreSettings,
}

/// What a [`Settings`] stands for.
#[verifier::ext_equal]
pub struct SettingsView {
    pub tcp_port: u16,
    pub autostart: bool,
    pub sync_enabled: bool,
    pub sync_mode: Seq<char>,
    pub sync_text: bool,
    pub sync_images: bool,
    pub sync_files: bool,
    pub max_sync_file_mb: u32,
    pub notify_on_sync: bool,
    pub language: Seq<char>,
    pub history_max_entries: usize,
    pub history_record_text: bool,
    pub history_record_images: bool,
    pub history_record_files: bool,
    pub history_sort: Seq<char>,
    pub panel_hotkey: Seq<char>,
    pub slot_hotkeys: bool,
    pub slot_modifier: Seq<char>,
    pub preview_delay_ms: u32,
    pub auto_paste: bool,
    pub ignore: IgnoreView,
}

impl View for Settings {
    type V = SettingsView;

    open spec fn view(&self) -> SettingsView {
        SettingsView {
            tcp_port: self.tcp_port,
            autostart: self.autostart,
            sync_enabled: self.sync_enabled,
            sync_mode: self.sync_mode@,
            sync_text: self.sync_text,
            sync_images: self.sync_images,
            sync_files: self.sync_files,
            max_sync_file_mb: self.max_sync_file_mb,
            notify_on_sync: self.notify_on_sync,
            language: self.language@,
            history_max_entries: self.history_max_entries,
            history_record_text: self.history_record_text,
            history_record_images: self.history_record_images,
            history_record_files: self.history_record_files,
            history_sort: self.history_sort@,
            panel_hotkey: self.panel_hotkey@,
            slot_hotkeys: self.slot_hotkeys,
            slot_modifier: self.slot_modifier@,
            preview_delay_ms: self.preview_delay_ms,
            auto_paste: self.auto_paste,
            ignore: self.ignore@,
        }
    }
}

/// The settings of a fresh installation.
pub open spec fn default_settings() -> SettingsView {
    SettingsView {
        tcp_port: DEFAULT_TCP_PORT,
        autostart: false,
        sync_enabled: true,
        sync_mode: "both"@,
        sync_text: true,
        sync_images: true,
        sync_files: false,
        max_sync_file_mb: 32,
        notify_on_sync: true,
        language: Seq::empty(),
        history_max_entries: 200,
        history_record_text: true,
        history_record_images: true,
        history_record_files: true,
        history_sort: "recent"@,
        panel_hotkey: "CmdOrCtrl+Shift+V"@,
        slot_hotkeys: true,
        slot_modifier: "Alt"@,
        preview_delay_ms: 150,
        auto_paste: false,
        ignore: default_ignore(),
    }
}

impl Default for Settings {
    fn default() -> (r: Self)
        ensures
            r@ == default_settings(),
    {
        Settings {
            tcp_port: DEFAULT_TCP_PORT,
            autostart: false,
            sync_enabled: true,
            sync_mode: "both".to_owned(),
            sync_text: true,
            sync_images: true,
            sync_files: false,
            max_sync_file_mb: 32,
            notify_on_sync: true,
            language: String::new(),
            history_max_entries: 200,
            history_record_text: true,
            history_record_images: true,
            history_record_files: true,
            history_sort: "recent".to_owned(),
            panel_hotkey: "CmdOrCtrl+Shift+V".to_owned(),
            slot_hotkeys: true,
            slot_modifier: "Alt".to_owned(),
            preview_delay_ms: 150,
            auto_paste: false,
            ignore: IgnoreSettings::default(),
        }
    }
}

/// Whether the text names a sync direction.
pub open spec fn is_mode(name: Seq<char>) -> bool {
    exists|m: SyncMode| #[trigger] m.name() == name
}

/// The canonical name of a sync direction: an unknown one reads as "both".
pub open spec fn mode_name(name: Seq<char>) -> Seq<char> {
    if is_mode(name) {
        name
    } else {
        "both"@
    }
}

fn canonical_mode(name: &str) -> (r: String)
    ensures
        r@ == mode_name(name@),
{
    match SyncMode::parse(name) {
        Some(m) => {
            assert(m.name() == name@);
            name.to_owned()
        },
        None => "both".to_owned(),
    }
}

/// The file sync cap within its bounds.
pub open spec fn cap_within(mb: u32) -> u32 {
    if mb < 1 {
        1
    } else if mb > MAX_SYNC_FILE_MB {
        MAX_SYNC_FILE_MB
    } else {
        mb
    }
}

fn canonical_cap(mb: u32) -> (r: u32)
    ensures
        r == cap_within(mb),
{
    if mb < 1 {
        1
    } else if mb > MAX_SYNC_FILE_MB {
        MAX_SYNC_FILE_MB
    } else {
        mb
    }
}

impl SettingsView {
    /// The canonical form: an unknown direction reads as "both", the coarse
    /// toggle follows the direction, and the file cap lies within its bounds.
    pub open spec fn normalized(self) -> SettingsView {
        SettingsView {
            sync_mode: mode_name(self.sync_mode),
            sync_enabled: mode_name(self.sync_mode) != "off"@,
            max_sync_file_mb: cap_within(self.max_sync_file_mb),
            ..self
        }
    }

    /// Settings from a file that knew the coarse toggle only take the
    /// direction from it.
    pub open spec fn migrated(self, has_mode: bool) -> SettingsView {
        if has_mode {
            self
        } else {
            SettingsView {
                sync_mode: if self.sync_enabled {
                    "both"@
                } else {
                    "off"@
                },
                ..self
            }
        }
    }

    /// Whether the settings let content out.
    pub open spec fn sends(self) -> bool {
        self.sync_mode == "both"@ || self.sync_mode == "send"@
    }

    /// Whether the pixels of an image are needed.
    pub open spec fn needs_pixels(self) -> bool {
        self.history_record_images || self.sync_images
    }

    /// The settings after the tray toggle: off and both, whatever the
    /// direction was.
    pub open spec fn toggled(self) -> SettingsView {
        SettingsView {
            sync_mode: if self.sync_mode == "off"@ {
                "both"@
            } else {
                "off"@
            },
            ..self
        }.normalized()
    }
}

impl Settings {
    /// The settings that a file holds; the defaults when it is missing or
    /// corrupt. `has_mode` tells whether the file names a sync direction.
    pub fn load(parsed: Option<Settings>, has_mode: bool) -> (r: Settings)
        ensures
            r@ == (match parsed {
                Some(s) => s@.migrated(has_mode).normalized(),
                None => default_settings(),
            }),
    {
        match parsed {
            None => Settings::default(),
            Some(s) => {
                let mut settings = s;
                if !has_mode {
                    settings.sync_mode = if settings.sync_enabled {
                        "both".to_owned()
                    } else {
                        "off".to_owned()
                    };
                }
                settings.normalize();
                settings
            },
        }
    }

    /// The settings that a file with these bytes holds. `parsed` is what the
    /// bytes give field by field, with the defaults for what they leave out;
    /// only the bytes tell whether a direction was left out.
    pub fn load_from(parsed: Option<Settings>, bytes: &[u8]) -> (r: Settings)
        ensures
            r@ == (match parsed {
                Some(s) => s@.migrated(json_names_text(bytes@, SYNC_MODE_KEY@)).normalized(),
                None => default_settings(),
            }),
    {
        Settings::load(parsed, names_text(bytes, SYNC_MODE_KEY))
    }

    /// Puts the settings into canonical form.
    pub fn normalize(&mut self)
        ensures
            final(self)@ == old(self)@.normalized(),
    {
        let mode = canonical_mode(self.sync_mode.as_str());
        let on = !text::same(mode.as_str(), "off");
        let cap: u32 = canonical_cap(self.max_sync_file_mb);
        self.sync_mode = mode;
        self.sync_enabled = on;
        self.max_sync_file_mb = cap;
    }

    /// A copy of the settings.
    pub fn duplicate(&self) -> (r: Settings)
        ensures
            r@ == self@,
    {
        Settings {
            tcp_port: self.tcp_port,
            autostart: self.autostart,
            sync_enabled: self.sync_enabled,
            sync_mode: self.sync_mode.clone(),
            sync_text: self.sync_text,
            sync_images: self.sync_images,
            sync_files: self.sync_files,
            max_sync_file_mb: self.max_sync_file_mb,
            notify_on_sync: self.notify_on_sync,
            language: self.language.clone(),
            history_max_entries: self.history_max_entries,
            history_record_text: self.history_record_text,
            history_record_images: self.history_record_images,
            history_record_files: self.history_record_files,
            history_sort: self.history_sort.clone(),
            panel_hotkey: self.panel_hotkey.clone(),
            slot_hotkeys: self.slot_hotkeys,
            slot_modifier: self.slot_modifier.clone(),
            preview_delay_ms: self.preview_delay_ms,
            auto_paste: self.auto_paste,
            ignore: self.ignore.duplicate(),
        }
    }

    /// The settings after the tray toggle.
    pub fn toggle_sync(&self) -> (r: Settings)
        ensures
            r@ == self@.toggled(),
    {
        let mut next = self.duplicate();
        next.sync_mode = if text::same(self.sync_mode.as_str(), "off") {
            "both".to_owned()
        } else {
            "off".to_owned()
        };
        next.normalize();
        next
    }

    fn sends(&self) -> (r: bool)
        ensures
            r == self@.sends(),
    {
        text::same(self.sync_mode.as_str(), "both") || text::same(self.sync_mode.as_str(), "send")
    }

    /// Whether the watcher has to read the pixels of an image.
    pub fn needs_pixels(&self) -> (r: bool)
        ensures
            r == self@.needs_pixels(),
    {
        self.history_record_images || self.sync_images
    }
}

/// Whether some type of content is recorded again.
pub open spec fn record_reopened(old: SettingsView, new: SettingsView) -> bool {
    ||| !old.history_record_text && new.history_record_text
    ||| !old.history_record_images && new.history_record_images
    ||| !old.history_record_files && new.history_record_files
}

/// Whether some type of content goes out again, or content at all.
pub open spec fn sync_reopened(old: SettingsView, new: SettingsView) -> bool {
    ||| !old.sends() && new.sends()
    ||| !old.sync_text && new.sync_text
    ||| !old.sync_images && new.sync_images
    ||| !old.sync_files && new.sync_files
}

/// Whether some type of content is recorded again.
pub fn record_resumed(old: &Settings, new: &Settings) -> (r: bool)
    ensures
        r == record_reopened(old@, new@),
{
    (!old.history_record_text && new.history_record_text) || (!old.history_record_images
        && new.history_record_images) || (!old.history_record_files && new.history_record_files)
}

/// Whether some type of content goes out again, or content at all.
pub fn sync_resumed(old: &Settings, new: &Settings) -> (r: bool)
    ensures
        r == sync_reopened(old@, new@),
{
    (!old.sends() && new.sends()) || (!old.sync_text && new.sync_text) || (!old.sync_images
        && new.sync_images) || (!old.sync_files && new.sync_files)
}

/// The sync direction of the settings; an unknown one reads as both.
pub fn sync_mode_of(settings: &Settings) -> (r: SyncMode)
    ensures
        is_mode(settings@.sync_mode) ==> r.name() == settings@.sync_mode,
        !is_mode(settings@.sync_mode) ==> r == SyncMode::Both,
{
    match SyncMode::parse(settings.sync_mode.as_str()) {
        Some(mode) => mode,
        None => SyncMode::Both,
    }
}

/// The type toggles of the settings.
pub fn sync_types_of(settings: &Settings) -> (r: SyncTypes)
    ensures
        r == (SyncTypes {
            text: settings@.sync_text,
            images: settings@.sync_images,
            files: settings@.sync_files,
        }),
{
    SyncTypes {
        text: settings.sync_text,
        images: settings.sync_images,
        files: settings.sync_files,
    }
}

/// The file sync cap of the settings, in bytes.
pub fn max_sync_file_bytes_of(settings: &Settings) -> (r: u64)
    ensures
        r == settings@.max_sync_file_mb * 1_048_576,
{
    settings.max_sync_file_mb as u64 * 1_048_576
}

/// What of the settings governs recording.
pub fn history_config(settings: &Settings) -> (r: HistoryConfig)
    ensures
        r == (HistoryConfig {
            max_entries: settings@.history_max_entries,
            record_text: settings@.history_record_text,
            record_images: settings@.history_record_images,
            record_files: settings@.history_record_files,
        }),
{
    HistoryConfig {
        max_entries: settings.history_max_entries,
        record_text: settings.history_record_text,
        record_images: settings.history_record_images,
        record_files: settings.history_record_files,
    }
}

/// Normalizing twice is normalizing once, and the coarse toggle always says
/// what the direction says.
pub proof fn law_normalized_is_canonical(s: SettingsView)
    ensures
        s.normalized().normalized() == s.normalized(),
        s.normalized().sync_enabled == (s.normalized().sync_mode != "off"@),
        1 <= s.normalized().max_sync_file_mb <= MAX_SYNC_FILE_MB,
        is_mode(s.normalized().sync_mode),
{
    assert(SyncMode::Both.name() == "both"@);
    assert(is_mode("both"@));
}

/// An older file keeps sync on or off as it was.
pub proof fn law_migration_keeps_the_toggle(s: SettingsView)
    ensures
        s.migrated(false).normalized().sync_enabled == s.sync_enabled,
{
    assert(SyncMode::Both.name() == "both"@);
    assert(SyncMode::Off.name() == "off"@);
    assert(is_mode("both"@) && is_mode("off"@));
    reveal_strlit("both");
    reveal_strlit("off");
    assert("both"@.len() != "off"@.len());
}

/// A file that names a direction wins over a stale coarse toggle.
pub proof fn law_direction_wins(s: SettingsView)
    requires
        is_mode(s.sync_mode),
    ensures
        s.migrated(true).normalized().sync_mode == s.sync_mode,
        s.migrated(true).normalized().sync_enabled == (s.sync_mode != "off"@),
{
}

/// Nothing reopens when nothing changes.
pub proof fn law_no_change_reopens_nothing(s: SettingsView)
    ensures
        !record_reopened(s, s),
        !sync_reopened(s, s),
{
}

/// The names of the directions, told apart.
proof fn lemma_modes(name: Seq<char>)
    ensures
        is_mode(name) <==> name == "both"@ || name == "send"@ || name == "receive"@ || name == "off"@,
        "both"@ != "off"@,
        "send"@ != "off"@,
        "receive"@ != "off"@,
        "both"@ != "receive"@,
        "send"@ != "receive"@,
        "both"@ != "send"@,
{
    reveal_strlit("both");
    reveal_strlit("send");
    reveal_strlit("receive");
    reveal_strlit("off");
    assert("both"@.len() == 4 && "both"@[0] == 'b');
    assert("send"@.len() == 4 && "send"@[0] == 's');
    assert("receive"@.len() == 7);
    assert("off"@.len() == 3);
    assert(SyncMode::Both.name() == "both"@);
    assert(SyncMode::Send.name() == "send"@);
    assert(SyncMode::Receive.name() == "receive"@);
    assert(SyncMode::Off.name() == "off"@);
}

/// Settings that are within bounds are left as they are; the rest is brought
/// within: an unknown direction is both, the switch follows the direction, and
/// the file cap is between one megabyte and the upper bound. No other setting
/// changes.
pub proof fn law_normalizing_mends_three_settings(s: SettingsView)
    ensures
        ({
            let n = s.normalized();
            let known = s.sync_mode == "both"@ || s.sync_mode == "send"@ || s.sync_mode
                == "receive"@ || s.sync_mode == "off"@;
            &&& known ==> n.sync_mode == s.sync_mode
            &&& !known ==> n.sync_mode == "both"@
            &&& known && s.sync_mode != "off"@ ==> n.sync_enabled
            &&& s.sync_mode == "off"@ ==> !n.sync_enabled
            &&& !known ==> n.sync_enabled
            &&& s.max_sync_file_mb == 0 ==> n.max_sync_file_mb == 1
            &&& 1 <= s.max_sync_file_mb <= 512 ==> n.max_sync_file_mb == s.max_sync_file_mb
            &&& s.max_sync_file_mb > 512 ==> n.max_sync_file_mb == 512
            &&& (SettingsView {
                sync_mode: s.sync_mode,
                sync_enabled: s.sync_enabled,
                max_sync_file_mb: s.max_sync_file_mb,
                ..n
            }) == s
        }),
{
    lemma_modes(s.sync_mode);
}

/// Settings from before there was a direction take it from the switch; all else
/// is kept. Settings that name a direction are taken as they are.
pub proof fn law_migration_turns_the_switch_into_a_direction(s: SettingsView)
    ensures
        s.migrated(true) == s,
        s.sync_enabled ==> s.migrated(false).sync_mode == "both"@,
        !s.sync_enabled ==> s.migrated(false).sync_mode == "off"@,
        (SettingsView { sync_mode: s.sync_mode, ..s.migrated(false) }) == s,
{
}

/// The master switch turns the sync off in every direction, and back on in both.
/// Nothing but the direction and the switch changes, and the settings stay within
/// bounds.
pub proof fn law_master_switch(s: SettingsView)
    ensures
        s.sync_mode == "off"@ ==> s.toggled().sync_mode == "both"@ && s.toggled().sync_enabled,
        s.sync_mode != "off"@ ==> s.toggled().sync_mode == "off"@ && !s.toggled().sync_enabled,
        s.toggled().toggled().sync_mode == (if s.sync_mode == "off"@ {
            "off"@
        } else {
            "both"@
        }),
        1 <= s.max_sync_file_mb <= 512 ==> (SettingsView {
            sync_mode: s.sync_mode,
            sync_enabled: s.sync_enabled,
            ..s.toggled()
        }) == s,
{
    lemma_modes("both"@);
    lemma_modes("off"@);
}

/// Recording resumes exactly when a type that was not recorded is now; sending
/// resumes exactly when a type that was not sent is now, or the direction opens.
/// The toggles of the one say nothing of the other, and what is switched off
/// reopens nothing.
pub proof fn law_reopening(a: SettingsView, b: SettingsView)
    ensures
        !a.history_record_text && b.history_record_text ==> record_reopened(a, b),
        !a.history_record_images && b.history_record_images ==> record_reopened(a, b),
        !a.history_record_files && b.history_record_files ==> record_reopened(a, b),
        (b.history_record_text ==> a.history_record_text) && (b.history_record_images
            ==> a.history_record_images) && (b.history_record_files ==> a.history_record_files)
            ==> !record_reopened(a, b),
        !a.sync_text && b.sync_text ==> sync_reopened(a, b),
        !a.sync_images && b.sync_images ==> sync_reopened(a, b),
        !a.sync_files && b.sync_files ==> sync_reopened(a, b),
        (a.sync_mode == "off"@ || a.sync_mode == "receive"@) && (b.sync_mode == "both"@
            || b.sync_mode == "send"@) ==> sync_reopened(a, b),
        (b.sync_text ==> a.sync_text) && (b.sync_images ==> a.sync_images) && (b.sync_files
            ==> a.sync_files) && (a.sync_mode == b.sync_mode || b.sync_mode == "off"@ || b.sync_mode
            == "receive"@ || a.sync_mode == "both"@ || a.sync_mode == "send"@) ==> !sync_reopened(
            a,
            b,
        ),
{
    lemma_modes(a.sync_mode);
}

/// Pixels are read for the sake of the history or of the sync, and for nothing
/// else.
pub proof fn law_pixels_are_read_when_used(s: SettingsView)
    ensures
        s.history_record_images ==> s.needs_pixels(),
        s.sync_images ==> s.needs_pixels(),
        !s.history_record_images && !s.sync_images ==> !s.needs_pixels(),
{
}

/// The defaults are within bounds, sync in both directions and record everything;
/// files are not sent unasked, and the ignore rules act on the sync alone.
pub proof fn law_defaults(s: SettingsView)
    requires
        s == default_settings(),
    ensures
        s.normalized() == s,
        s.sync_enabled && s.sends() && s.sync_text && s.sync_images && !s.sync_files,
        s.history_record_text && s.history_record_images && s.history_record_files,
        s.max_sync_file_mb == 32,
        s.history_max_entries == 200,
        s.preview_delay_ms == 150,
        s.history_sort == "recent"@,
        s.panel_hotkey == "CmdOrCtrl+Shift+V"@,
        s.slot_hotkeys && s.slot_modifier == "Alt"@,
        !s.autostart && !s.auto_paste && s.notify_on_sync,
        s.language.len() == 0,
        s.ignore.apps.len() == 0 && s.ignore.regexes.len() == 0 && s.ignore.file_patterns.len() == 0,
        s.ignore.types == seq!["net.antelle.keeweb"@],
        s.ignore.apps_sync && s.ignore.types_sync && s.ignore.regex_sync && s.ignore.files_sync,
        !s.ignore.apps_record && !s.ignore.types_record && !s.ignore.regex_record
            && !s.ignore.files_record,
{
    lemma_modes("both"@);
}

} // verus!
