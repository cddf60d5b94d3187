//! Between engine and desktop: the ignore rules on the way in, and what the
//! events of the engine lead to on the way out.

use vstd::prelude::*;
use crate::clipboard::{ClipboardContent, ClipboardEvent, ContentView, EventView, FilePath, FilePathView};
use crate::history::{self, image_preview, text_preview};
use crate::ignore::IgnoreRules;
use crate::locale::{self, filled, texts_in, Lang};
use crate::paths::{self, name_part};
use crate::protocol::{PeerInfo, PeerInfoView};
use crate::settings::IgnoreView;
use crate::sync::{self, remaining_paths, EngineEvent, EngineEventView};
use crate::text::{self, decimal_text, opt_view, views};

verus! {

/// Event: a peer came online or changed.
pub const PEER_UP: &'static str = "peer-up";

/// Event: a peer went offline.
pub const PEER_DOWN: &'static str = "peer-down";

/// Event: a pairing request came in.
pub const PAIR_REQUESTED: &'static str = "pair-requested";

/// Event: a pairing was made.
pub const PAIRED: &'static str = "paired";

/// Event: a pairing was removed.
pub const UNPAIRED: &'static str = "unpaired";

/// Event: remote content was written to the clipboard.
pub const CLIPBOARD_SYNCED: &'static str = "clipboard-synced";

/// Event: the sync direction changed.
pub const SYNC_STATE: &'static str = "sync-state-changed";

/// Event: the history changed.
pub const HISTORY_CHANGED: &'static str = "history-changed";

/// Event: recording was paused or resumed.
pub const INCOGNITO_STATE: &'static str = "incognito-changed";

/// A peer, for display.
#[derive(Debug, PartialEq, Eq)]
pub struct PeerDto {
    /// Device ID
    pub device_id: String,
    /// Display name
    pub name: String,
    /// Certificate fingerprint
    pub fingerprint: String,
    /// Platform tag
    pub platform: String,
    /// OS version
    pub os_version: Option<String>,
}

impl View for PeerDto {
    type V = PeerInfoView;

    open spec fn view(&self) -> PeerInfoView {
        PeerInfoView {
            device_id: self.device_id@,
            name: self.name@,
            fingerprint: self.fingerprint@,
            platform: self.platform@,
            os_version: opt_view(self.os_version),
        }
    }
}

impl PeerDto {
    /// The peer, for display.
    pub fn of(info: &PeerInfo) -> (r: PeerDto)
        ensures
            r@ == info@,
    {
        PeerDto {
            device_id: info.device_id.clone(),
            name: info.name.clone(),
            fingerprint: info.fingerprint.clone(),
            platform: info.platform.clone(),
            os_version: text::clone_opt(&info.os_version),
        }
    }
}

/// Remote content was written, for display.
#[derive(Debug, PartialEq, Eq)]
pub struct SyncedDto {
    /// Name of the source device
    pub from_name: String,
    /// Preview of the content
    pub preview: String,
    /// When it was written (Unix milliseconds)
    pub at: u64,
}

/// What a [`SyncedDto`] stands for.
#[verifier::ext_equal]
pub struct SyncedView {
    pub from_name: Seq<char>,
    pub preview: Seq<char>,
    pub at: u64,
}

impl View for SyncedDto {
    type V = SyncedView;

    open spec fn view(&self) -> SyncedView {
        SyncedView { from_name: self.from_name@, preview: self.preview@, at: self.at }
    }
}

/// Content on its way into the history.
#[derive(Debug, PartialEq, Eq)]
pub struct HistoryJob {
    /// The content
    pub content: ClipboardContent,
    /// Content hash
    pub hash: String,
    /// When it was copied (Unix milliseconds)
    pub at: u64,
    /// The device that sent it
    pub origin: Option<String>,
    /// The application that it came from
    pub source_app: Option<String>,
    /// Icon of that application
    pub source_app_icon: Option<Vec<u8>>,
}

/// What a [`HistoryJob`] stands for.
#[verifier::ext_equal]
pub struct HistoryJobView {
    pub content: ContentView,
    pub hash: Seq<char>,
    pub at: u64,
    pub origin: Option<Seq<char>>,
    pub source_app: Option<Seq<char>>,
    pub source_app_icon: Option<Seq<u8>>,
}

impl View for HistoryJob {
    type V = HistoryJobView;

    open spec fn view(&self) -> HistoryJobView {
        HistoryJobView {
            content: self.content@,
            hash: self.hash@,
            at: self.at,
            origin: opt_view(self.origin),
            source_app: opt_view(self.source_app),
            source_app_icon: opt_view(self.source_app_icon),
        }
    }
}

/// Whether the change is the write of a restore.
pub open spec fn is_restore(registered: Option<Seq<char>>, hash: Seq<char>) -> bool {
    registered == Some(hash)
}

/// A change after the ignore rules: an image that was not read has nothing to
/// judge, and a restore does not come from the application in front.
pub open spec fn judged(
    event: EventView,
    rules: IgnoreView,
    registered: Option<Seq<char>>,
    app: Option<Seq<char>>,
) -> EventView {
    if event.content is ImageUnread {
        event
    } else {
        let source = if is_restore(registered, event.hash) {
            None
        } else {
            app
        };
        let verdict = rules.verdict(event.content, event.pasteboard_types, source);
        EventView {
            suppress_broadcast: verdict.suppress_sync,
            suppress_record: verdict.suppress_record,
            broadcast_files_excluded: verdict.broadcast_files_excluded,
            record_files_excluded: verdict.record_files_excluded,
            ..event
        }
    }
}

fn restored(registered: &Option<String>, hash: &str) -> (r: bool)
    ensures
        r == is_restore(opt_view(*registered), hash@),
{
    match registered {
        Some(h) => text::same(h.as_str(), hash),
        None => false,
    }
}

fn unread(content: &ClipboardContent) -> (r: bool)
    ensures
        r == (content@ is ImageUnread),
{
    match content {
        ClipboardContent::ImageUnread => true,
        _ => false,
    }
}

/// Whether the application in front has to be asked for before a change is
/// judged.
pub fn wants_app(event: &ClipboardEvent, rules: &IgnoreRules, registered: &Option<String>) -> (r: bool)
    ensures
        r == (!(event@.content is ImageUnread) && !is_restore(opt_view(*registered), event@.hash)
            && rules@.apps.len() > 0 && (rules@.apps_sync || rules@.apps_record)),
{
    !unread(&event.content) && !restored(registered, event.hash.as_str()) && rules.wants_source_app()
}

/// Judges a change by the ignore rules.
pub fn ingest(event: ClipboardEvent, rules: &IgnoreRules, registered: &Option<String>, app: Option<String>) -> (r: ClipboardEvent)
    ensures
        r@ == judged(event@, rules@, opt_view(*registered), opt_view(app)),
{
    if unread(&event.content) {
        return event;
    }
    let source = if restored(registered, event.hash.as_str()) {
        None
    } else {
        app
    };
    let verdict = rules.evaluate(&event.content, &event.pasteboard_types, &source);
    let mut out = event;
    out.suppress_broadcast = verdict.suppress_sync;
    out.suppress_record = verdict.suppress_record;
    out.broadcast_files_excluded = verdict.broadcast_files_excluded;
    out.record_files_excluded = verdict.record_files_excluded;
    out
}

/// The notification preview of a batch: the first file name, and how many
/// more.
pub open spec fn batch_preview(paths: Seq<FilePathView>) -> Seq<char> {
    let first = if paths.len() == 0 {
        Seq::empty()
    } else {
        match name_part(paths[0].lossy()) {
            Some(name) => name,
            None => Seq::empty(),
        }
    };
    if paths.len() > 1 {
        first + " +"@ + decimal_text((paths.len() - 1) as nat)
    } else {
        first
    }
}

/// The notification preview of a batch.
pub fn files_preview(list: &Vec<FilePath>) -> (r: String)
    ensures
        r@ == batch_preview(views(list@)),
{
    let first = if list.len() == 0 {
        String::new()
    } else {
        proof {
            assert(views(list@)[0] == list@[0]@);
        }
        match paths::file_name(list[0].lossy()) {
            Some(name) => name,
            None => String::new(),
        }
    };
    if list.len() > 1 {
        let head = text::join(first.as_str(), " +");
        let more = text::decimal((list.len() - 1) as u64);
        text::join(head.as_str(), more.as_str())
    } else {
        first
    }
}

/// The notification preview of remote content.
pub open spec fn remote_preview(content: ContentView, lang: Lang) -> Seq<char> {
    match content {
        ContentView::Text(t) => text_preview(t),
        ContentView::Image { width, height, .. } => "["@ + texts_in(lang).image_word@ + " "@
            + image_preview(width, height) + "]"@,
        ContentView::Files(paths) => batch_preview(paths),
        ContentView::ImageUnread => content.kind(),
    }
}

fn preview_of(content: &ClipboardContent, lang: Lang) -> (r: String)
    ensures
        r@ == remote_preview(content@, lang),
{
    match content {
        ClipboardContent::Text(t) => history::preview_text(t.as_str()),
        ClipboardContent::Image { width, height, .. } => {
            let words = locale::texts(lang);
            let mut out = text::join("[", words.image_word);
            out.append(" ");
            let size = history::preview_image(*width, *height);
            out.append(size.as_str());
            out.append("]");
            out
        },
        ClipboardContent::Files(list) => files_preview(list),
        ClipboardContent::ImageUnread => content.kind().to_owned(),
    }
}

/// What of a local copy goes into the history: the paths that are not
/// excluded. Nothing when all of them are.
pub open spec fn record_leg(content: ContentView, hash: Seq<char>, excluded: Seq<FilePathView>) -> Option<
    (ContentView, Seq<char>),
> {
    match content {
        ContentView::Files(paths) => if excluded.len() == 0 {
            Some((content, hash))
        } else {
            let rest = ContentView::Files(remaining_paths(paths, excluded));
            if remaining_paths(paths, excluded).len() == 0 {
                None
            } else {
                Some((rest, rest.hash()))
            }
        },
        _ => Some((content, hash)),
    }
}

/// What an event of the engine leads to.
#[derive(Debug, PartialEq, Eq)]
pub enum PumpStep {
    /// Tell the windows that a peer is up
    PeerUp(PeerDto),
    /// Tell the windows that a peer is down
    PeerDown(String),
    /// Notify of a pairing request and tell the windows
    AskPair { title: String, body: String, peer: PeerDto },
    /// Tell the windows of a pairing
    Paired(PeerDto),
    /// Tell the windows that a pairing is gone
    Unpaired(String),
    /// Record a local copy; `capture` asks for the application in front
    Record { content: ClipboardContent, hash: String, at: u64, capture: bool },
    /// Write remote content to the clipboard
    Write { content: ClipboardContent, hash: String, from_name: String, preview: String },
    /// Content that cannot be written: take its echo registration back
    CancelEcho(String),
    /// Nothing
    Nothing,
}

/// What a [`PumpStep`] stands for.
#[verifier::ext_equal]
pub enum StepView {
    PeerUp(PeerInfoView),
    PeerDown(Seq<char>),
    AskPair { title: Seq<char>, body: Seq<char>, peer: PeerInfoView },
    Paired(PeerInfoView),
    Unpaired(Seq<char>),
    Record { content: ContentView, hash: Seq<char>, at: u64, capture: bool },
    Write { content: ContentView, hash: Seq<char>, from_name: Seq<char>, preview: Seq<char> },
    CancelEcho(Seq<char>),
    Nothing,
}

impl View for PumpStep {
    type V = StepView;

    open spec fn view(&self) -> StepView {
        match *self {
            PumpStep::PeerUp(p) => StepView::PeerUp(p@),
            PumpStep::PeerDown(f) => StepView::PeerDown(f@),
            PumpStep::AskPair { title, body, peer } => StepView::AskPair {
                title: title@,
                body: body@,
                peer: peer@,
            },
            PumpStep::Paired(p) => StepView::Paired(p@),
            PumpStep::Unpaired(f) => StepView::Unpaired(f@),
            PumpStep::Record { content, hash, at, capture } => StepView::Record {
                content: content@,
                hash: hash@,
                at,
                capture,
            },
            PumpStep::Write { content, hash, from_name, preview } => StepView::Write {
                content: content@,
                hash: hash@,
                from_name: from_name@,
                preview: preview@,
            },
            PumpStep::CancelEcho(h) => StepView::CancelEcho(h@),
            PumpStep::Nothing => StepView::Nothing,
        }
    }
}

/// The state between engine and desktop.
pub struct Pump {
    incognito: bool,
    restore_hash: Option<String>,
    known_icons: Vec<String>,
}

/// What a [`Pump`] stands for.
#[verifier::ext_equal]
pub struct PumpView {
    /// Recording is paused
    pub incognito: bool,
    /// Hash of the latest restore
    pub restore_hash: Option<Seq<char>>,
    /// Applications whose icon was looked at in this session
    pub known_icons: Seq<Seq<char>>,
}

impl View for Pump {
    type V = PumpView;

    closed spec fn view(&self) -> PumpView {
        PumpView {
            incognito: self.incognito,
            restore_hash: opt_view(self.restore_hash),
            known_icons: views(self.known_icons@),
        }
    }
}

impl PumpView {
    /// The step for a local copy, and the state after it. A restore
    /// registration is used up by the next copy, whether it matches or not.
    pub open spec fn copied(
        self,
        content: ContentView,
        hash: Seq<char>,
        at: u64,
        suppress_record: bool,
        excluded: Seq<FilePathView>,
    ) -> (PumpView, StepView) {
        if self.incognito || content is ImageUnread {
            (self, StepView::Nothing)
        } else {
            let after = PumpView { restore_hash: None, ..self };
            if suppress_record {
                (after, StepView::Nothing)
            } else {
                match record_leg(content, hash, excluded) {
                    None => (after, StepView::Nothing),
                    Some(kept) => (
                        after,
                        StepView::Record {
                            content: kept.0,
                            hash: kept.1,
                            at,
                            capture: !is_restore(self.restore_hash, hash),
                        },
                    ),
                }
            }
        }
    }

    /// The step for an event, and the state after it.
    pub open spec fn step(self, event: EngineEventView, lang: Lang) -> (PumpView, StepView) {
        match event {
            EngineEventView::PeerUp(peer) => (self, StepView::PeerUp(peer.info)),
            EngineEventView::PeerDown(fingerprint) => (self, StepView::PeerDown(fingerprint)),
            EngineEventView::PairRequested { peer } => (
                self,
                StepView::AskPair {
                    title: filled(texts_in(lang).pair_request_title@, "{name}"@, peer.name),
                    body: texts_in(lang).pair_request_body@,
                    peer,
                },
            ),
            EngineEventView::Paired { peer } => (self, StepView::Paired(peer)),
            EngineEventView::Unpaired { fingerprint } => (self, StepView::Unpaired(fingerprint)),
            EngineEventView::LocalCopied {
                content,
                hash,
                timestamp_ms,
                suppress_record,
                record_files_excluded,
            } => self.copied(content, hash, timestamp_ms, suppress_record, record_files_excluded),
            EngineEventView::ApplyRemote { content, from, timestamp_ms, hash } => (
                self,
                if content is ImageUnread {
                    StepView::CancelEcho(hash)
                } else {
                    StepView::Write {
                        content,
                        hash,
                        from_name: from.name,
                        preview: remote_preview(content, lang),
                    }
                },
            ),
            EngineEventView::SyncSent { .. } => (self, StepView::Nothing),
        }
    }

    /// What follows a write: the history job, the notification and the event.
    pub open spec fn landed(
        self,
        content: ContentView,
        hash: Seq<char>,
        from_name: Seq<char>,
        preview: Seq<char>,
        now: u64,
        notify: bool,
        lang: Lang,
    ) -> LandedView {
        LandedView {
            job: if self.incognito {
                None
            } else {
                Some(
                    HistoryJobView {
                        content,
                        hash,
                        at: now,
                        origin: Some(from_name),
                        source_app: None,
                        source_app_icon: None,
                    },
                )
            },
            notice: if notify {
                Some((filled(texts_in(lang).synced_from_title@, "{name}"@, from_name), preview))
            } else {
                None
            },
            synced: SyncedView { from_name, preview, at: now },
        }
    }
}

/// What follows when remote content is on the clipboard.
#[derive(Debug, PartialEq, Eq)]
pub struct Landed {
    /// What goes into the history
    pub job: Option<HistoryJob>,
    /// Title and body of the notification
    pub notice: Option<(String, String)>,
    /// What the windows are told
    pub synced: SyncedDto,
}

/// What a [`Landed`] stands for.
#[verifier::ext_equal]
pub struct LandedView {
    pub job: Option<HistoryJobView>,
    pub notice: Option<(Seq<char>, Seq<char>)>,
    pub synced: SyncedView,
}

impl View for Landed {
    type V = LandedView;

    open spec fn view(&self) -> LandedView {
        LandedView {
            job: opt_view(self.job),
            notice: match self.notice {
                Some(n) => Some((n.0@, n.1@)),
                None => None,
            },
            synced: self.synced@,
        }
    }
}

/// What follows the write of remote content to the clipboard.
#[derive(Debug, PartialEq, Eq)]
pub enum Written {
    /// It failed: take its echo registration back
    CancelEcho(String),
    /// It is there
    Landed(Landed),
}

/// What a [`Written`] stands for.
#[verifier::ext_equal]
pub enum WrittenView {
    CancelEcho(Seq<char>),
    Landed(LandedView),
}

impl View for Written {
    type V = WrittenView;

    open spec fn view(&self) -> WrittenView {
        match *self {
            Written::CancelEcho(hash) => WrittenView::CancelEcho(hash@),
            Written::Landed(landed) => WrittenView::Landed(landed@),
        }
    }
}

impl Pump {
    /// A fresh session: recording is on.
    pub fn new() -> (r: Pump)
        ensures
            r@ == (PumpView { incognito: false, restore_hash: None, known_icons: Seq::empty() }),
    {
        let r = Pump { incognito: false, restore_hash: None, known_icons: Vec::new() };
        proof {
            assert(r@.known_icons =~= Seq::<Seq<char>>::empty());
        }
        r
    }

    /// Whether recording is paused.
    pub fn incognito(&self) -> (r: bool)
        ensures
            r == self@.incognito,
    {
        self.incognito
    }

    /// Pauses or resumes recording. True when the watcher has to forget what it
    /// saw last: content copied during the pause is recorded on the next copy.
    pub fn set_incognito(&mut self, on: bool) -> (r: bool)
        ensures
            final(self)@ == (PumpView { incognito: on, ..old(self)@ }),
            r == !on,
    {
        self.incognito = on;
        !on
    }

    /// Registers a restore: the copy that follows keeps its source.
    pub fn register_restore(&mut self, hash: String)
        ensures
            final(self)@ == (PumpView { restore_hash: Some(hash@), ..old(self)@ }),
    {
        self.restore_hash = Some(hash);
    }

    /// The hash of the latest restore.
    pub fn restore_hash(&self) -> (r: Option<String>)
        ensures
            opt_view(r) == self@.restore_hash,
    {
        text::clone_opt(&self.restore_hash)
    }

    fn on_copy(
        &mut self,
        content: ClipboardContent,
        hash: String,
        at: u64,
        suppress_record: bool,
        excluded: Vec<FilePath>,
    ) -> (r: PumpStep)
        ensures
            (final(self)@, r@) == old(self)@.copied(
                content@,
                hash@,
                at,
                suppress_record,
                views(excluded@),
            ),
    {
        if self.incognito || unread(&content) {
            return PumpStep::Nothing;
        }
        let capture = !restored(&self.restore_hash, hash.as_str());
        self.restore_hash = None;
        if suppress_record {
            return PumpStep::Nothing;
        }
        match content {
            ClipboardContent::Files(list) => {
                if excluded.len() == 0 {
                    return PumpStep::Record {
                        content: ClipboardContent::Files(list),
                        hash,
                        at,
                        capture,
                    };
                }
                let rest = sync::retain_paths(&list, &excluded);
                if rest.len() == 0 {
                    return PumpStep::Nothing;
                }
                let content = ClipboardContent::Files(rest);
                let hash = content.hash();
                PumpStep::Record { content, hash, at, capture }
            },
            other => PumpStep::Record { content: other, hash, at, capture },
        }
    }

    /// What an event of the engine leads to.
    pub fn on_event(&mut self, event: EngineEvent, lang: Lang) -> (r: PumpStep)
        ensures
            (final(self)@, r@) == old(self)@.step(event@, lang),
    {
        match event {
            EngineEvent::PeerUp(peer) => PumpStep::PeerUp(PeerDto::of(&peer.info)),
            EngineEvent::PeerDown(fingerprint) => PumpStep::PeerDown(fingerprint),
            EngineEvent::PairRequested { peer } => {
                let words = locale::texts(lang);
                PumpStep::AskPair {
                    title: words.pair_request(peer.name.as_str()),
                    body: words.pair_request_body.to_owned(),
                    peer: PeerDto::of(&peer),
                }
            },
            EngineEvent::Paired { peer } => PumpStep::Paired(PeerDto::of(&peer)),
            EngineEvent::Unpaired { fingerprint } => PumpStep::Unpaired(fingerprint),
            EngineEvent::LocalCopied {
                content,
                hash,
                timestamp_ms,
                suppress_record,
                record_files_excluded,
            } => self.on_copy(content, hash, timestamp_ms, suppress_record, record_files_excluded),
            EngineEvent::ApplyRemote { content, from, timestamp_ms: _, hash } => {
                if unread(&content) {
                    return PumpStep::CancelEcho(hash);
                }
                let preview = preview_of(&content, lang);
                PumpStep::Write { content, hash, from_name: from.name, preview }
            },
            EngineEvent::SyncSent { to: _, result: _ } => PumpStep::Nothing,
        }
    }

    /// Whether the icon of the application has to be captured: once per
    /// application and session, and only when it is not on disk.
    pub fn wants_icon(&mut self, source_app: &Option<String>, on_disk: bool) -> (r: bool)
        ensures
            match opt_view(*source_app) {
                Some(name) => if old(self)@.known_icons.contains(name) {
                    !r && final(self)@ == old(self)@
                } else {
                    r == !on_disk && final(self)@ == (PumpView {
                        known_icons: old(self)@.known_icons.push(name),
                        ..old(self)@
                    })
                },
                None => !r && final(self)@ == old(self)@,
            },
    {
        match source_app {
            None => false,
            Some(name) => {
                if self.knows(name.as_str()) {
                    return false;
                }
                let ghost before = self@;
                self.known_icons.push(name.clone());
                proof {
                    assert(self@.known_icons =~= before.known_icons.push(name@));
                }
                !on_disk
            },
        }
    }

    fn knows(&self, name: &str) -> (r: bool)
        ensures
            r == self@.known_icons.contains(name@),
    {
        let ghost all = self@.known_icons;
        let mut i: usize = 0;
        while i < self.known_icons.len()
            invariant
                i <= self.known_icons.len(),
                all == views(self.known_icons@),
                forall|j: int| 0 <= j < i ==> all[j] != name@,
            decreases self.known_icons.len() - i,
        {
            proof {
                assert(all[i as int] == self.known_icons@[i as int]@);
            }
            if text::same(self.known_icons[i].as_str(), name) {
                return true;
            }
            i += 1;
        }
        false
    }

    /// What follows when remote content is on the clipboard.
    pub fn land(
        &self,
        content: ClipboardContent,
        hash: String,
        from_name: String,
        preview: String,
        now: u64,
        notify: bool,
        lang: Lang,
    ) -> (r: Landed)
        ensures
            r@ == self@.landed(content@, hash@, from_name@, preview@, now, notify, lang),
    {
        let job = if self.incognito {
            None
        } else {
            Some(
                HistoryJob {
                    content,
                    hash,
                    at: now,
                    origin: Some(from_name.clone()),
                    source_app: None,
                    source_app_icon: None,
                },
            )
        };
        let notice = if notify {
            let words = locale::texts(lang);
            Some((words.synced_from(from_name.as_str()), preview.clone()))
        } else {
            None
        };
        Landed { job, notice, synced: SyncedDto { from_name, preview, at: now } }
    }

    /// What follows the write of remote content: a failed one takes its echo
    /// registration back, and nothing is recorded, notified or told of it.
    pub fn written(
        &self,
        failed: bool,
        content: ClipboardContent,
        hash: String,
        from_name: String,
        preview: String,
        now: u64,
        notify: bool,
        lang: Lang,
    ) -> (r: Written)
        ensures
            r@ == (if failed {
                WrittenView::CancelEcho(hash@)
            } else {
                WrittenView::Landed(
                    self@.landed(content@, hash@, from_name@, preview@, now, notify, lang),
                )
            }),
    {
        if failed {
            Written::CancelEcho(hash)
        } else {
            Written::Landed(self.land(content, hash, from_name, preview, now, notify, lang))
        }
    }
}

/// The history job of a local copy.
pub fn copy_job(
    content: ClipboardContent,
    hash: String,
    at: u64,
    source_app: Option<String>,
    source_app_icon: Option<Vec<u8>>,
) -> (r: HistoryJob)
    ensures
        r@ == (HistoryJobView {
            content: content@,
            hash: hash@,
            at,
            origin: None,
            source_app: opt_view(source_app),
            source_app_icon: opt_view(source_app_icon),
        }),
{
    HistoryJob { content, hash, at, origin: None, source_app, source_app_icon }
}

/// The tooltip of the tray: the pending pairing requests, if there are any.
pub fn tray_tooltip(pending: usize, lang: Lang) -> (r: String)
    ensures
        r@ == (if pending > 0 {
            filled(texts_in(lang).tray_pending_tooltip@, "{n}"@, decimal_text(pending as nat))
        } else {
            "Lanecho"@
        }),
{
    if pending > 0 {
        let words = locale::texts(lang);
        words.tray_pending(pending)
    } else {
        "Lanecho".to_owned()
    }
}

/// Nothing is recorded while recording is paused.
pub proof fn law_incognito_records_nothing(
    p: PumpView,
    event: EngineEventView,
    lang: Lang,
    content: ContentView,
    hash: Seq<char>,
    from_name: Seq<char>,
    preview: Seq<char>,
    now: u64,
    notify: bool,
)
    requires
        p.incognito,
    ensures
        !(p.step(event, lang).1 is Record),
        p.landed(content, hash, from_name, preview, now, notify, lang).job is None,
{
}

/// A restore is used up by the next copy and keeps the application in front
/// out of its record.
pub proof fn law_restore_keeps_its_source(
    p: PumpView,
    content: ContentView,
    hash: Seq<char>,
    at: u64,
)
    requires
        !p.incognito,
        !(content is ImageUnread),
        p.restore_hash == Some(hash),
    ensures
        ({
            let (after, step) = p.copied(content, hash, at, false, Seq::empty());
            &&& after.restore_hash is None
            &&& step == (StepView::Record { content, hash, at, capture: false })
        }),
{
}

/// What the ignore rules keep out of the history is not recorded, and the
/// restore registration is used up all the same.
pub proof fn law_ignored_copy_is_not_recorded(
    p: PumpView,
    content: ContentView,
    hash: Seq<char>,
    at: u64,
    excluded: Seq<FilePathView>,
)
    requires
        !p.incognito,
        !(content is ImageUnread),
    ensures
        p.copied(content, hash, at, true, excluded) == (
            PumpView { restore_hash: None, ..p },
            StepView::Nothing,
        ),
{
}

/// An image that was not read passes the ignore rules untouched.
pub proof fn law_unread_image_passes(
    event: EventView,
    rules: IgnoreView,
    registered: Option<Seq<char>>,
    app: Option<Seq<char>>,
)
    requires
        event.content is ImageUnread,
    ensures
        judged(event, rules, registered, app) == event,
{
}

/// The application rule does not apply to a restore.
pub proof fn law_restore_is_exempt_from_applications(
    event: EventView,
    rules: IgnoreView,
    app: Option<Seq<char>>,
)
    ensures
        judged(event, rules, Some(event.hash), app) == judged(event, rules, Some(event.hash), None),
{
}

/// The ignore rules decide what is held back of a change, leg by leg, and change
/// nothing else of it.
pub proof fn law_rules_hold_back_leg_by_leg(
    event: EventView,
    rules: IgnoreView,
    registered: Option<Seq<char>>,
    app: Option<Seq<char>>,
)
    ensures
        ({
            let after = judged(event, rules, registered, app);
            &&& after.content == event.content
            &&& after.hash == event.hash
            &&& after.timestamp_ms == event.timestamp_ms
            &&& after.pasteboard_types == event.pasteboard_types
            &&& !(event.content is ImageUnread) ==> {
                let source = if registered == Some(event.hash) {
                    None
                } else {
                    app
                };
                let v = rules.verdict(event.content, event.pasteboard_types, source);
                &&& after.suppress_broadcast == v.suppress_sync
                &&& after.suppress_record == v.suppress_record
                &&& after.broadcast_files_excluded == v.broadcast_files_excluded
                &&& after.record_files_excluded == v.record_files_excluded
            }
        }),
{
}

/// Text out of an ignored application is held back when it was copied there, and
/// not when it was restored from the history.
pub proof fn law_application_rule_spares_restores(
    event: EventView,
    rules: IgnoreView,
    registered: Option<Seq<char>>,
    i: int,
)
    requires
        event.content is Text,
        0 <= i < rules.apps.len(),
    ensures
        registered != Some(event.hash) && rules.apps_sync ==> judged(
            event,
            rules,
            registered,
            Some(rules.apps[i].id),
        ).suppress_broadcast,
        registered != Some(event.hash) && rules.apps_record ==> judged(
            event,
            rules,
            registered,
            Some(rules.apps[i].id),
        ).suppress_record,
        registered == Some(event.hash) && !rules.types_record && !rules.regex_record ==> !judged(
            event,
            rules,
            registered,
            Some(rules.apps[i].id),
        ).suppress_record,
        registered == Some(event.hash) && !rules.types_sync && !rules.regex_sync ==> !judged(
            event,
            rules,
            registered,
            Some(rules.apps[i].id),
        ).suppress_broadcast,
{
    crate::ignore::law_ignored_application_suppresses(
        rules,
        event.content->Text_0,
        event.pasteboard_types,
        i,
    );
}

/// A local copy that nothing holds back is recorded as it is, with its time;
/// the application in front is asked for unless the copy is a restore. The
/// registration of a restore lasts until the next copy.
pub proof fn law_local_copy_is_recorded(
    p: PumpView,
    content: ContentView,
    hash: Seq<char>,
    at: u64,
    lang: Lang,
)
    requires
        !p.incognito,
        !(content is ImageUnread),
    ensures
        ({
            let (after, step) = p.step(
                EngineEventView::LocalCopied {
                    content,
                    hash,
                    timestamp_ms: at,
                    suppress_record: false,
                    record_files_excluded: Seq::empty(),
                },
                lang,
            );
            &&& step == (StepView::Record { content, hash, at, capture: p.restore_hash != Some(hash) })
            &&& after.restore_hash is None
            &&& after.incognito == p.incognito && after.known_icons == p.known_icons
        }),
{
}

/// While recording is paused, and for an image that was not read, a local copy
/// leads to nothing and leaves the registration of a restore alone.
pub proof fn law_paused_copy_leaves_no_trace(
    p: PumpView,
    content: ContentView,
    hash: Seq<char>,
    at: u64,
    suppress_record: bool,
    excluded: Seq<FilePathView>,
)
    requires
        p.incognito || content is ImageUnread,
    ensures
        p.copied(content, hash, at, suppress_record, excluded) == (p, StepView::Nothing),
{
}

/// Files that are kept out of the history are left out of the record, and the
/// rest is recorded under the hash of the rest. When nothing is left, nothing is
/// recorded. Content that is no file list is never thinned.
pub proof fn law_excluded_files_are_not_recorded(
    p: PumpView,
    paths: Seq<FilePathView>,
    other: ContentView,
    hash: Seq<char>,
    at: u64,
    excluded: Seq<FilePathView>,
    path: FilePathView,
)
    requires
        !p.incognito,
        excluded.len() > 0,
    ensures
        ({
            let step = p.copied(ContentView::Files(paths), hash, at, false, excluded).1;
            &&& step is Record || step is Nothing
            &&& step is Record ==> {
                &&& step->Record_content is Files
                &&& step->Record_content->Files_0.len() > 0
                &&& step->Record_content->Files_0.contains(path) <==> paths.contains(path)
                    && !excluded.contains(path)
                &&& step->Record_hash == step->Record_content.hash()
                &&& step->at == at
                &&& step->capture == (p.restore_hash != Some(hash))
            }
            &&& step is Nothing ==> !(paths.contains(path) && !excluded.contains(path))
        }),
        !(other is Files) && !(other is ImageUnread) ==> p.copied(other, hash, at, false, excluded).1
            == (StepView::Record { content: other, hash, at, capture: p.restore_hash != Some(hash) }),
{
    let keep = |p: FilePathView| !excluded.contains(p);
    let rest = remaining_paths(paths, excluded);
    if paths.contains(path) && keep(path) {
        let i = choose|i: int| 0 <= i < paths.len() && paths[i] == path;
        paths.lemma_filter_contains(keep, i);
    }
    if rest.contains(path) {
        let j = choose|j: int| 0 <= j < rest.len() && rest[j] == path;
        paths.lemma_filter_pred(keep, j);
        paths.lemma_filter_contains_rev(keep, path);
    }
}

/// The events of the engine reach the windows as they are, and change nothing in
/// between.
pub proof fn law_events_are_passed_on(
    p: PumpView,
    event: EngineEventView,
    lang: Lang,
)
    requires
        !(event is LocalCopied),
    ensures
        p.step(event, lang).0 == p,
        event matches EngineEventView::PeerUp(peer) ==> p.step(event, lang).1 == StepView::PeerUp(
            peer.info,
        ),
        event matches EngineEventView::PeerDown(f) ==> p.step(event, lang).1 == StepView::PeerDown(f),
        event matches EngineEventView::PairRequested { peer } ==> p.step(event, lang).1 is AskPair
            && p.step(event, lang).1->peer == peer,
        event matches EngineEventView::Paired { peer } ==> p.step(event, lang).1 == StepView::Paired(
            peer,
        ),
        event matches EngineEventView::Unpaired { fingerprint } ==> p.step(event, lang).1
            == StepView::Unpaired(fingerprint),
        event is SyncSent ==> p.step(event, lang).1 == StepView::Nothing,
{
}

/// Remote content is written as it came, under its hash and the name of its
/// sender; content that cannot be written has its echo registration taken back.
pub proof fn law_remote_content_is_written(
    p: PumpView,
    content: ContentView,
    from: PeerInfoView,
    timestamp_ms: u64,
    hash: Seq<char>,
    lang: Lang,
)
    ensures
        ({
            let step = p.step(
                EngineEventView::ApplyRemote { content, from, timestamp_ms, hash },
                lang,
            ).1;
            &&& content is ImageUnread ==> step == StepView::CancelEcho(hash)
            &&& !(content is ImageUnread) ==> step is Write && step->Write_content == content
                && step->Write_hash == hash && step->from_name == from.name
            &&& content matches ContentView::Text(t) ==> step->preview == text_preview(t)
        }),
{
}

/// Content that was written is recorded as that of its sender, at the time of
/// the write and without an application, unless recording is paused. A
/// notification shows the preview, and only when it is asked for; the windows are
/// told in any case.
pub proof fn law_written_content_is_recorded(
    p: PumpView,
    content: ContentView,
    hash: Seq<char>,
    from_name: Seq<char>,
    preview: Seq<char>,
    now: u64,
    notify: bool,
    lang: Lang,
)
    ensures
        ({
            let l = p.landed(content, hash, from_name, preview, now, notify, lang);
            &&& p.incognito ==> l.job is None
            &&& !p.incognito ==> l.job == Some(
                HistoryJobView {
                    content,
                    hash,
                    at: now,
                    origin: Some(from_name),
                    source_app: None,
                    source_app_icon: None,
                },
            )
            &&& notify ==> l.notice is Some && (l.notice->0).1 == preview
            &&& !notify ==> l.notice is None
            &&& l.synced.from_name == from_name && l.synced.preview == preview && l.synced.at == now
        }),
{
}

/// The preview of a batch is the name of its first file, and how many more there
/// are when there is more than one.
pub proof fn law_preview_of_a_batch(paths: Seq<FilePathView>, name: Seq<char>)
    requires
        paths.len() > 0,
        name_part(paths[0].lossy()) == Some(name),
    ensures
        paths.len() == 1 ==> batch_preview(paths) == name,
        1 < paths.len() <= 10 ==> batch_preview(paths) == name + " +"@ + seq![
            ('0' as int + paths.len() - 1) as char,
        ],
        paths.len() > 1 ==> batch_preview(paths) == name + " +"@ + decimal_text(
            (paths.len() - 1) as nat,
        ),
{
}

/// The preview of remote content: that of the history for text, the size in
/// brackets for an image, the first name for files.
pub proof fn law_preview_of_remote_content(content: ContentView, lang: Lang)
    ensures
        content matches ContentView::Text(t) ==> remote_preview(content, lang) == text_preview(t),
        content matches ContentView::Image { width, height, .. } ==> remote_preview(content, lang)
            == "["@ + texts_in(lang).image_word@ + " "@ + decimal_text(width as nat) + "×"@
            + decimal_text(height as nat) + "]"@,
        content matches ContentView::Files(paths) ==> remote_preview(content, lang) == batch_preview(
            paths,
        ),
{
    match content {
        ContentView::Image { width, height, .. } => {
            assert(remote_preview(content, lang) =~= "["@ + texts_in(lang).image_word@ + " "@
                + decimal_text(width as nat) + "×"@ + decimal_text(height as nat) + "]"@);
        },
        _ => {},
    }
}

} // verus!
