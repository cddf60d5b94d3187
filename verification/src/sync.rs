//! The sync engine: pairing, broadcasts, last-write-wins and echo suppression.
//!
//! The engine holds state and decides; the callers do the network and the
//! clipboard.

use vstd::prelude::*;
use vstd::utf8::encode_utf8;
use crate::announce::{Broadcast, DiscoveryService, ServiceView, UdpPackets};
use crate::clipboard::{
    self, ClipboardContent, ClipboardEvent, ContentView, EventView, FilePath, FilePathView,
};
use crate::config::{MAX_SYNC_FILE_COUNT, MAX_SYNC_IMAGE_BYTES, MAX_SYNC_TEXT_BYTES};
use crate::discovery::{Peer, PeerEvent, PeerEventView, PeerView};
use crate::echo::{self, EchoStep, EchoTable, EchoView};
use crate::images;
use crate::paired::{pairing_of, PairedPeer, PairedPeerView, PairedStore};
use crate::protocol::{
    ControlMessage, FileMeta, FileMetaView, FilesOfferMeta, ImageOfferMeta, MessageView, PeerInfo,
    PeerInfoView, ProtocolError, ProtocolErrorView, CONTENT_TEXT, DISABLED, NOT_PAIRED, TOO_LARGE,
    UNSUPPORTED_TYPE,
};
use crate::table::Table;
use crate::text::{self, opt_view, views};

verus! {

/// Landing directory of received files, under the data directory.
pub const SYNC_FILES_DIR: &'static str = "sync-files";

/// Sync errors.
#[derive(Debug, PartialEq, Eq)]
pub enum SyncError {
    /// Discovery failed
    Discovery(String),
    /// The device identity failed
    Identity(String),
    /// The TLS configuration failed
    Tls(String),
    /// The protocol was violated
    Protocol(ProtocolError),
    /// The transport failed
    Io(String),
    /// The peer is offline, or no address could be reached
    PeerUnreachable,
    /// The declared fingerprint is not that of the certificate
    FingerprintMismatch,
    /// The remote user declined the pairing
    PairRejected,
    /// The peer refused the sync, with its reason code
    Rejected(String),
    /// The wait for a step timed out
    Timeout(String),
}

/// What a [`SyncError`] stands for.
#[verifier::ext_equal]
pub enum SyncErrorView {
    Discovery(Seq<char>),
    Identity(Seq<char>),
    Tls(Seq<char>),
    Protocol(ProtocolErrorView),
    Io(Seq<char>),
    PeerUnreachable,
    FingerprintMismatch,
    PairRejected,
    Rejected(Seq<char>),
    Timeout(Seq<char>),
}

impl View for SyncError {
    type V = SyncErrorView;

    open spec fn view(&self) -> SyncErrorView {
        match *self {
            SyncError::Discovery(s) => SyncErrorView::Discovery(s@),
            SyncError::Identity(s) => SyncErrorView::Identity(s@),
            SyncError::Tls(s) => SyncErrorView::Tls(s@),
            SyncError::Protocol(e) => SyncErrorView::Protocol(e@),
            SyncError::Io(s) => SyncErrorView::Io(s@),
            SyncError::PeerUnreachable => SyncErrorView::PeerUnreachable,
            SyncError::FingerprintMismatch => SyncErrorView::FingerprintMismatch,
            SyncError::PairRejected => SyncErrorView::PairRejected,
            SyncError::Rejected(s) => SyncErrorView::Rejected(s@),
            SyncError::Timeout(s) => SyncErrorView::Timeout(s@),
        }
    }
}

impl SyncErrorView {
    /// The text shown for the error.
    pub open spec fn message(self) -> Seq<char> {
        match self {
            SyncErrorView::Discovery(s) => "发现服务错误: "@ + s,
            SyncErrorView::Identity(s) => "设备身份错误: "@ + s,
            SyncErrorView::Tls(s) => "TLS 错误: "@ + s,
            SyncErrorView::Protocol(e) => "协议错误: "@ + e.message(),
            SyncErrorView::Io(s) => "IO 错误: "@ + s,
            SyncErrorView::PeerUnreachable => "对端不可达"@,
            SyncErrorView::FingerprintMismatch => "对端指纹与声明不一致"@,
            SyncErrorView::PairRejected => "对端拒绝配对"@,
            SyncErrorView::Rejected(s) => "对端拒绝同步: "@ + s,
            SyncErrorView::Timeout(s) => "等待 "@ + s + " 超时"@,
        }
    }
}

impl SyncError {
    /// The text shown for the error.
    pub fn message(&self) -> (r: String)
        ensures
            r@ == self@.message(),
    {
        match self {
            SyncError::Discovery(s) => text::join("发现服务错误: ", s.as_str()),
            SyncError::Identity(s) => text::join("设备身份错误: ", s.as_str()),
            SyncError::Tls(s) => text::join("TLS 错误: ", s.as_str()),
            SyncError::Protocol(e) => text::join("协议错误: ", e.message().as_str()),
            SyncError::Io(s) => text::join("IO 错误: ", s.as_str()),
            SyncError::PeerUnreachable => "对端不可达".to_owned(),
            SyncError::FingerprintMismatch => "对端指纹与声明不一致".to_owned(),
            SyncError::PairRejected => "对端拒绝配对".to_owned(),
            SyncError::Rejected(s) => text::join("对端拒绝同步: ", s.as_str()),
            SyncError::Timeout(s) => {
                let head = text::join("等待 ", s.as_str());
                text::join(head.as_str(), " 超时")
            },
        }
    }
}

/// Sync direction policy: sending and receiving are gated independently.
#[derive(PartialEq, Eq, Structural, Clone, Copy, Debug)]
pub enum SyncMode {
    /// Local history only
    Off,
    /// Both ways
    Both,
    /// Broadcast local copies, refuse inbound syncs
    Send,
    /// Never broadcast, accept inbound syncs
    Receive,
}

impl SyncMode {
    /// The settings text of a mode.
    pub open spec fn name(self) -> Seq<char> {
        match self {
            SyncMode::Off => "off"@,
            SyncMode::Both => "both"@,
            SyncMode::Send => "send"@,
            SyncMode::Receive => "receive"@,
        }
    }

    /// Whether local copies are broadcast.
    pub open spec fn sending(self) -> bool {
        self == SyncMode::Both || self == SyncMode::Send
    }

    /// Whether inbound syncs are accepted.
    pub open spec fn receiving(self) -> bool {
        self == SyncMode::Both || self == SyncMode::Receive
    }

    /// The mode of a settings text; an unknown text has none.
    pub fn parse(value: &str) -> (r: Option<SyncMode>)
        ensures
            match r {
                Some(m) => value@ == m.name(),
                None => forall|m: SyncMode| value@ != #[trigger] m.name(),
            },
    {
        if text::same(value, "off") {
            Some(SyncMode::Off)
        } else if text::same(value, "both") {
            Some(SyncMode::Both)
        } else if text::same(value, "send") {
            Some(SyncMode::Send)
        } else if text::same(value, "receive") {
            Some(SyncMode::Receive)
        } else {
            None
        }
    }

    /// The settings text of the mode.
    pub fn as_str(&self) -> (r: &'static str)
        ensures
            r@ == self.name(),
    {
        match self {
            SyncMode::Off => "off",
            SyncMode::Both => "both",
            SyncMode::Send => "send",
            SyncMode::Receive => "receive",
        }
    }

    /// Whether local copies are broadcast.
    pub fn sends(&self) -> (r: bool)
        ensures
            r == self.sending(),
    {
        *self == SyncMode::Both || *self == SyncMode::Send
    }

    /// Whether inbound syncs are accepted.
    pub fn receives(&self) -> (r: bool)
        ensures
            r == self.receiving(),
    {
        *self == SyncMode::Both || *self == SyncMode::Receive
    }
}

/// Different modes have different settings texts, so a text names one mode.
pub proof fn law_mode_names_differ(a: SyncMode, b: SyncMode)
    requires
        a.name() == b.name(),
    ensures
        a == b,
{
    reveal_strlit("off");
    reveal_strlit("both");
    reveal_strlit("send");
    reveal_strlit("receive");
    let x = a.name();
    let y = b.name();
    assert(x.len() == y.len());
    assert(x[0] == y[0]);
}

/// Sync type toggles.
#[derive(PartialEq, Eq, Structural, Clone, Copy, Debug)]
pub struct SyncTypes {
    /// Text
    pub text: bool,
    /// Images
    pub images: bool,
    /// Files
    pub files: bool,
}

impl Default for SyncTypes {
    /// Files are off: they are written to disk.
    fn default() -> (r: Self)
        ensures
            r == (SyncTypes { text: true, images: true, files: false }),
    {
        SyncTypes { text: true, images: true, files: false }
    }
}

/// Engine configuration.
#[derive(Debug, PartialEq, Eq)]
pub struct EngineConfig {
    /// Engine data directory
    pub data_dir: String,
    /// TCP listen port (0 picks a free one)
    pub tcp_port: u16,
    /// UDP multicast discovery port
    pub discovery_port: u16,
    /// Listen only, never announce
    pub passive: bool,
    /// Sync direction policy
    pub sync_mode: SyncMode,
    /// Sync type toggles
    pub sync_types: SyncTypes,
    /// Most bytes of a file sync
    pub max_sync_file_bytes: u64,
}

/// Engine events.
#[derive(Debug, PartialEq, Eq)]
pub enum EngineEvent {
    /// A peer came online, or its info changed
    PeerUp(Peer),
    /// The peer of that fingerprint went offline
    PeerDown(String),
    /// A pairing request waits for the user
    PairRequested { peer: PeerInfo },
    /// A pairing was made
    Paired { peer: PeerInfo },
    /// A pairing was removed
    Unpaired { fingerprint: String },
    /// The local user copied something
    LocalCopied {
        content: ClipboardContent,
        hash: String,
        timestamp_ms: u64,
        suppress_record: bool,
        record_files_excluded: Vec<FilePath>,
    },
    /// A remote sync is to be written to the clipboard; its echo is already
    /// registered under the hash
    ApplyRemote { content: ClipboardContent, from: PeerInfo, timestamp_ms: u64, hash: String },
    /// Outcome of an outbound sync
    SyncSent { to: PeerInfo, result: Result<(), String> },
}

/// What an [`EngineEvent`] stands for.
#[verifier::ext_equal]
pub enum EngineEventView {
    PeerUp(PeerView),
    PeerDown(Seq<char>),
    PairRequested { peer: PeerInfoView },
    Paired { peer: PeerInfoView },
    Unpaired { fingerprint: Seq<char> },
    LocalCopied {
        content: ContentView,
        hash: Seq<char>,
        timestamp_ms: u64,
        suppress_record: bool,
        record_files_excluded: Seq<FilePathView>,
    },
    ApplyRemote { content: ContentView, from: PeerInfoView, timestamp_ms: u64, hash: Seq<char> },
    SyncSent { to: PeerInfoView, failure: Option<Seq<char>> },
}

impl View for EngineEvent {
    type V = EngineEventView;

    open spec fn view(&self) -> EngineEventView {
        match *self {
            EngineEvent::PeerUp(p) => EngineEventView::PeerUp(p@),
            EngineEvent::PeerDown(f) => EngineEventView::PeerDown(f@),
            EngineEvent::PairRequested { peer } => EngineEventView::PairRequested { peer: peer@ },
            EngineEvent::Paired { peer } => EngineEventView::Paired { peer: peer@ },
            EngineEvent::Unpaired { fingerprint } => EngineEventView::Unpaired {
                fingerprint: fingerprint@,
            },
            EngineEvent::LocalCopied {
                content,
                hash,
                timestamp_ms,
                suppress_record,
                record_files_excluded,
            } => EngineEventView::LocalCopied {
                content: content@,
                hash: hash@,
                timestamp_ms,
                suppress_record,
                record_files_excluded: views(record_files_excluded@),
            },
            EngineEvent::ApplyRemote { content, from, timestamp_ms, hash } => EngineEventView::ApplyRemote {
                content: content@,
                from: from@,
                timestamp_ms,
                hash: hash@,
            },
            EngineEvent::SyncSent { to, result } => EngineEventView::SyncSent {
                to: to@,
                failure: match result {
                    Ok(_) => None,
                    Err(e) => Some(e@),
                },
            },
        }
    }
}

/// The engine event of a discovery event.
pub fn discovery_event(event: PeerEvent) -> (r: EngineEvent)
    ensures
        r@ == match event@ {
            PeerEventView::Up(p) => EngineEventView::PeerUp(p),
            PeerEventView::Down(f) => EngineEventView::PeerDown(f),
        },
{
    match event {
        PeerEvent::Up(p) => EngineEvent::PeerUp(p),
        PeerEvent::Down(f) => EngineEvent::PeerDown(f),
    }
}

/// An offer of a byte stream.
#[derive(Debug, PartialEq, Eq)]
pub enum BlobOffer {
    /// A PNG file
    Image(ImageOfferMeta),
    /// A batch of files
    Files(FilesOfferMeta),
}

/// What a [`BlobOffer`] stands for.
#[verifier::ext_equal]
pub enum OfferView {
    Image { total_bytes: u64 },
    Files { total_bytes: u64, files: Seq<FileMetaView> },
}

impl View for BlobOffer {
    type V = OfferView;

    open spec fn view(&self) -> OfferView {
        match *self {
            BlobOffer::Image(m) => OfferView::Image { total_bytes: m.total_bytes },
            BlobOffer::Files(m) => OfferView::Files {
                total_bytes: m.total_bytes,
                files: views(m.files@),
            },
        }
    }
}

/// The verdict on an offer.
#[derive(Debug, PartialEq, Eq)]
pub enum OfferDecision {
    /// Wanted
    Accept,
    /// The local copy is newer: acknowledged without a transfer
    Stale,
    /// Refused, with the reason code
    Reject(&'static str),
}

/// What a verdict stands for.
#[verifier::ext_equal]
pub enum VerdictView {
    Accept,
    Stale,
    Reject(Seq<char>),
}

impl View for OfferDecision {
    type V = VerdictView;

    open spec fn view(&self) -> VerdictView {
        match *self {
            OfferDecision::Accept => VerdictView::Accept,
            OfferDecision::Stale => VerdictView::Stale,
            OfferDecision::Reject(code) => VerdictView::Reject(code@),
        }
    }
}

/// The bytes that a manifest declares.
pub open spec fn declared(files: Seq<FileMetaView>) -> int
    decreases files.len(),
{
    if files.len() == 0 {
        0
    } else {
        declared(files.drop_last()) + files.last().bytes
    }
}

/// A request that waits for the user.
pub struct PendingPair {
    /// Tells requests of one peer apart
    pub generation: u64,
    /// The requester
    pub peer: PeerInfo,
}

/// What a [`PendingPair`] stands for.
#[verifier::ext_equal]
pub struct PendingView {
    pub generation: u64,
    pub peer: PeerInfoView,
}

impl View for PendingPair {
    type V = PendingView;

    open spec fn view(&self) -> PendingView {
        PendingView { generation: self.generation, peer: self.peer@ }
    }
}

/// What follows a pairing request.
#[derive(Debug, PartialEq, Eq)]
pub enum PairStart {
    /// The peer is paired already
    Accepted,
    /// The user has to decide; `displaced` is the request that this one
    /// replaces, whose waiter gives up
    Waiting { generation: u64, displaced: Option<u64>, notice: Option<EngineEvent> },
}

/// What a clipboard change sends out.
#[derive(Debug, PartialEq, Eq)]
pub enum Outbound {
    /// Nothing
    Nothing,
    /// Text
    Text(String),
    /// An image
    Image { width: usize, height: usize, rgba: Vec<u8> },
    /// Files
    Files(Vec<FilePath>),
}

/// What an [`Outbound`] stands for.
#[verifier::ext_equal]
pub enum OutboundView {
    Nothing,
    Text(Seq<char>),
    Image { width: usize, height: usize, rgba: Seq<u8> },
    Files(Seq<FilePathView>),
}

impl View for Outbound {
    type V = OutboundView;

    open spec fn view(&self) -> OutboundView {
        match *self {
            Outbound::Nothing => OutboundView::Nothing,
            Outbound::Text(t) => OutboundView::Text(t@),
            Outbound::Image { width, height, rgba } => OutboundView::Image {
                width,
                height,
                rgba: rgba@,
            },
            Outbound::Files(paths) => OutboundView::Files(views(paths@)),
        }
    }
}

/// What a clipboard change leads to.
#[derive(Debug, PartialEq, Eq)]
pub enum CopyOutcome {
    /// The echo of a remote write: swallowed
    Echo,
    /// A local copy: reported, and possibly sent out
    Copied { report: EngineEvent, outbound: Outbound },
}

/// The paths of a list that are not excluded.
pub open spec fn remaining_paths(paths: Seq<FilePathView>, excluded: Seq<FilePathView>) -> Seq<FilePathView> {
    paths.filter(|p: FilePathView| !excluded.contains(p))
}

fn is_excluded(path: &FilePath, excluded: &Vec<FilePath>) -> (r: bool)
    ensures
        r == views(excluded@).contains(path@),
{
    let mut i: usize = 0;
    while i < excluded.len()
        invariant
            i <= excluded.len(),
            forall|j: int| 0 <= j < i ==> views(excluded@)[j] != path@,
        decreases excluded.len() - i,
    {
        if excluded[i].same(path) {
            proof {
                assert(views(excluded@)[i as int] == path@);
            }
            return true;
        }
        proof {
            assert(views(excluded@)[i as int] == excluded@[i as int]@);
        }
        i += 1;
    }
    false
}

/// Drops the excluded paths of a list.
pub fn retain_paths(paths: &Vec<FilePath>, excluded: &Vec<FilePath>) -> (r: Vec<FilePath>)
    ensures
        views(r@) == remaining_paths(views(paths@), views(excluded@)),
{
    let ghost all = views(paths@);
    let ghost p = |x: FilePathView| !views(excluded@).contains(x);
    let mut out: Vec<FilePath> = Vec::new();
    let mut i: usize = 0;
    proof {
        reveal(Seq::filter);
        assert(views(out@) =~= all.take(0).filter(p));
    }
    while i < paths.len()
        invariant
            i <= paths.len(),
            all == views(paths@),
            p == (|x: FilePathView| !views(excluded@).contains(x)),
            views(out@) == all.take(i as int).filter(p),
        decreases paths.len() - i,
    {
        proof {
            reveal(Seq::filter);
            assert(all.take(i + 1).drop_last() =~= all.take(i as int));
            assert(all.take(i + 1).last() == paths@[i as int]@);
        }
        if !is_excluded(&paths[i], excluded) {
            let ghost before = out@;
            out.push(paths[i].duplicate());
            proof {
                assert(views(out@) =~= views(before).push(paths@[i as int]@));
            }
        }
        i += 1;
    }
    proof {
        assert(all.take(i as int) =~= all);
    }
    out
}

/// The sync engine.
pub struct SyncEngine {
    local: PeerInfo,
    data_dir: String,
    port: u16,
    discovery: DiscoveryService,
    paired: PairedStore,
    seq: u64,
    last_local_copy_ms: u64,
    echo: EchoTable,
    send_enabled: bool,
    recv_enabled: bool,
    types: SyncTypes,
    max_sync_file_bytes: u64,
    pending: Table<PendingPair>,
    pending_seq: u64,
}

/// What a [`SyncEngine`] stands for.
#[verifier::ext_equal]
pub struct EngineView {
    pub local: PeerInfoView,
    pub data_dir: Seq<char>,
    pub port: u16,
    pub discovery: ServiceView,
    pub paired: Map<Seq<char>, PairedPeerView>,
    pub paired_file: Seq<char>,
    pub seq: u64,
    pub last_local_copy_ms: u64,
    pub echo: Seq<EchoView>,
    pub send_enabled: bool,
    pub recv_enabled: bool,
    pub types: SyncTypes,
    pub max_sync_file_bytes: u64,
    pub pending: Map<Seq<char>, PendingView>,
    pub pending_seq: u64,
}

impl View for SyncEngine {
    type V = EngineView;

    closed spec fn view(&self) -> EngineView {
        EngineView {
            local: self.local@,
            data_dir: self.data_dir@,
            port: self.port,
            discovery: self.discovery@,
            paired: self.paired@,
            paired_file: self.paired.file(),
            seq: self.seq,
            last_local_copy_ms: self.last_local_copy_ms,
            echo: self.echo@,
            send_enabled: self.send_enabled,
            recv_enabled: self.recv_enabled,
            types: self.types,
            max_sync_file_bytes: self.max_sync_file_bytes,
            pending: self.pending@.map_values(|p: PendingPair| p@),
            pending_seq: self.pending_seq,
        }
    }
}

/// What moves the echo registrations of an engine.
#[verifier::ext_equal]
pub enum EchoTurn {
    /// Content of a peer is ordered to be written
    Write { hash: Seq<char>, at: u64 },
    /// The clipboard changes
    Change { event: EventView, at: u64 },
    /// A write failed
    Cancel { hash: Seq<char>, at: u64 },
}

impl EchoTurn {
    /// What the turn does to the registrations.
    pub open spec fn step(self) -> EchoStep {
        match self {
            EchoTurn::Write { hash, at } => EchoStep::Registered { hash, at },
            EchoTurn::Change { event, at } => EchoStep::Taken { hash: event.hash, at },
            EchoTurn::Cancel { hash, at } => EchoStep::Taken { hash, at },
        }
    }
}

/// What the turns do to the registrations.
pub open spec fn steps_of(turns: Seq<EchoTurn>) -> Seq<EchoStep> {
    turns.map_values(|t: EchoTurn| t.step())
}

impl EngineView {
    /// The verdict on an inbound text, decided by the first test that fails:
    /// the switch, the pairing, the type, the size, and last the age.
    pub open spec fn text_verdict(
        self,
        fingerprint: Seq<char>,
        timestamp_ms: u64,
        kind: Seq<char>,
        data: Seq<char>,
    ) -> VerdictView {
        if !self.recv_enabled {
            VerdictView::Reject(DISABLED@)
        } else if !self.paired.dom().contains(fingerprint) {
            VerdictView::Reject(NOT_PAIRED@)
        } else if kind != CONTENT_TEXT@ || !self.types.text {
            VerdictView::Reject(UNSUPPORTED_TYPE@)
        } else if encode_utf8(data).len() > MAX_SYNC_TEXT_BYTES {
            VerdictView::Reject(TOO_LARGE@)
        } else if timestamp_ms <= self.last_local_copy_ms {
            VerdictView::Stale
        } else {
            VerdictView::Accept
        }
    }

    /// Whether an offer is of a type that is switched on.
    pub open spec fn offer_type_on(self, offer: OfferView) -> bool {
        match offer {
            OfferView::Image { .. } => self.types.images,
            OfferView::Files { .. } => self.types.files,
        }
    }

    /// Whether an offer keeps to the limits and its manifest adds up.
    pub open spec fn offer_fits(self, offer: OfferView) -> bool {
        match offer {
            OfferView::Image { total_bytes } => 0 < total_bytes <= MAX_SYNC_IMAGE_BYTES,
            OfferView::Files { total_bytes, files } => 0 < files.len() <= MAX_SYNC_FILE_COUNT && 0
                < total_bytes <= self.max_sync_file_bytes && declared(files) == total_bytes,
        }
    }

    /// The verdict on an offer, before any of its bytes is read: the switch, the
    /// pairing, the type, the size, and last the age.
    pub open spec fn offer_verdict(
        self,
        fingerprint: Seq<char>,
        timestamp_ms: u64,
        offer: OfferView,
    ) -> VerdictView {
        if !self.recv_enabled {
            VerdictView::Reject(DISABLED@)
        } else if !self.paired.dom().contains(fingerprint) {
            VerdictView::Reject(NOT_PAIRED@)
        } else if !self.offer_type_on(offer) {
            VerdictView::Reject(UNSUPPORTED_TYPE@)
        } else if !self.offer_fits(offer) {
            VerdictView::Reject(TOO_LARGE@)
        } else if timestamp_ms <= self.last_local_copy_ms {
            VerdictView::Stale
        } else {
            VerdictView::Accept
        }
    }

    /// The engine after the echo of a remote write was registered.
    pub open spec fn registering(self, hash: Seq<char>, now: u64) -> EngineView {
        EngineView { echo: echo::pushed(self.echo, hash, now), ..self }
    }

    /// The engine after the registration of a failed write was taken back.
    pub open spec fn cancelling(self, hash: Seq<char>, now: u64) -> EngineView {
        EngineView { echo: echo::taken(self.echo, hash, now), ..self }
    }

    /// The engine after some writes, changes and cancellations.
    pub open spec fn turned(self, turns: Seq<EchoTurn>) -> EngineView
        decreases turns.len(),
    {
        if turns.len() == 0 {
            self
        } else {
            let before = self.turned(turns.drop_last());
            match turns.last() {
                EchoTurn::Write { hash, at } => before.registering(hash, at),
                EchoTurn::Change { event, at } => before.after_change(event, at),
                EchoTurn::Cancel { hash, at } => before.cancelling(hash, at),
            }
        }
    }

    /// The order to write content that a peer sent.
    pub open spec fn apply_event(
        self,
        content: ContentView,
        from: PeerInfoView,
        timestamp_ms: u64,
    ) -> EngineEventView {
        EngineEventView::ApplyRemote { content, from, timestamp_ms, hash: content.hash() }
    }

    /// The engine after a clipboard change.
    pub open spec fn after_change(self, event: EventView, now: u64) -> EngineView {
        let echo = echo::taken(self.echo, event.hash, now);
        if echo::is_echo(self.echo, event.hash, now) {
            EngineView { echo, ..self }
        } else {
            EngineView {
                echo,
                last_local_copy_ms: if event.timestamp_ms > self.last_local_copy_ms {
                    event.timestamp_ms
                } else {
                    self.last_local_copy_ms
                },
                ..self
            }
        }
    }

    /// What a local copy sends out.
    pub open spec fn outbound(self, event: EventView) -> OutboundView {
        if !self.send_enabled || event.suppress_broadcast {
            OutboundView::Nothing
        } else {
            match event.content {
                ContentView::Text(t) => if self.types.text && encode_utf8(t).len()
                    <= MAX_SYNC_TEXT_BYTES {
                    OutboundView::Text(t)
                } else {
                    OutboundView::Nothing
                },
                ContentView::Image { width, height, rgba } => if self.types.images {
                    OutboundView::Image { width, height, rgba }
                } else {
                    OutboundView::Nothing
                },
                ContentView::Files(paths) => {
                    let rest = remaining_paths(paths, event.broadcast_files_excluded);
                    if self.types.files && rest.len() > 0 {
                        OutboundView::Files(rest)
                    } else {
                        OutboundView::Nothing
                    }
                },
                ContentView::ImageUnread => OutboundView::Nothing,
            }
        }
    }

    /// The report of a local copy.
    pub open spec fn copy_report(self, event: EventView) -> EngineEventView {
        EngineEventView::LocalCopied {
            content: event.content,
            hash: event.hash,
            timestamp_ms: event.timestamp_ms,
            suppress_record: event.suppress_record,
            record_files_excluded: event.record_files_excluded,
        }
    }

    /// The engine after a pairing request of a peer that is not paired.
    pub open spec fn requested(self, remote: PeerInfoView) -> EngineView {
        EngineView {
            pending: self.pending.insert(
                remote.fingerprint,
                PendingView { generation: self.pending_seq, peer: remote },
            ),
            pending_seq: self.pending_seq.wrapping_add(1),
            ..self
        }
    }

    /// The engine after the request of that generation was settled: only its
    /// own entry is cleaned up, and an accepted one is recorded.
    pub open spec fn settled(
        self,
        remote: PeerInfoView,
        generation: u64,
        accepted: bool,
        now: u64,
    ) -> EngineView {
        let fp = remote.fingerprint;
        EngineView {
            pending: if self.pending.dom().contains(fp) && self.pending[fp].generation == generation {
                self.pending.remove(fp)
            } else {
                self.pending
            },
            paired: if accepted {
                self.paired.insert(fp, pairing_of(remote, now))
            } else {
                self.paired
            },
            ..self
        }
    }

    /// The engine without a pairing.
    pub open spec fn unpaired(self, fingerprint: Seq<char>) -> EngineView {
        EngineView { paired: self.paired.remove(fingerprint), ..self }
    }

    /// Whether a broadcast goes to the node: it is online and paired.
    pub open spec fn is_target(self, fingerprint: Seq<char>) -> bool {
        self.paired.dom().contains(fingerprint) && self.discovery.nodes.dom().contains(fingerprint)
    }

    /// Whether a broadcast goes to anyone.
    pub open spec fn has_target(self) -> bool {
        exists|k: Seq<char>| #[trigger] self.is_target(k)
    }
}

/// `list` holds every node that a broadcast goes to once.
pub open spec fn targets_of(e: EngineView, list: Seq<PeerView>) -> bool {
    &&& crate::discovery::names_exactly(
        crate::discovery::fingerprints(list),
        |k: Seq<char>| e.is_target(k),
    )
    &&& forall|i: int|
        0 <= i < list.len() ==> (#[trigger] list[i]) == e.discovery.nodes[list[i].info.fingerprint].peer
}

/// A frame that goes to every target.
#[derive(Debug, PartialEq, Eq)]
pub struct Dispatch {
    /// The message
    pub message: ControlMessage,
    /// The targets
    pub targets: Vec<Peer>,
}

/// What is known of a file that is to be sent.
#[derive(Debug, PartialEq, Eq)]
pub struct FileFact {
    /// The file could be examined
    pub readable: bool,
    /// It is a regular file
    pub regular: bool,
    /// Its size
    pub bytes: u64,
    /// Its path
    pub path: FilePath,
}

/// What a [`FileFact`] stands for.
#[verifier::ext_equal]
pub struct FileFactView {
    pub readable: bool,
    pub regular: bool,
    pub bytes: u64,
    pub path: FilePathView,
}

impl View for FileFact {
    type V = FileFactView;

    open spec fn view(&self) -> FileFactView {
        FileFactView {
            readable: self.readable,
            regular: self.regular,
            bytes: self.bytes,
            path: self.path@,
        }
    }
}

/// The name that a file is offered under: its file name where that is text.
pub open spec fn offered_name(path: FilePathView) -> Seq<char> {
    let name = crate::paths::name_part(path.lossy());
    match path {
        FilePathView::Text(_) => match name {
            Some(n) => n,
            None => "file"@,
        },
        FilePathView::Raw { name_is_text, .. } => match name {
            Some(n) => if name_is_text {
                n
            } else {
                "file"@
            },
            None => "file"@,
        },
    }
}

/// The manifest of files that are to be sent.
pub open spec fn manifest(facts: Seq<FileFactView>) -> Seq<FileMetaView> {
    facts.map_values(|f: FileFactView| FileMetaView { name: offered_name(f.path), bytes: f.bytes })
}

/// Whether files are sent: all of them or none. Each is a readable regular
/// file, there are not too many, and together they are neither empty nor too
/// large.
pub open spec fn sendable(facts: Seq<FileFactView>, limit: u64) -> bool {
    &&& 0 < facts.len() <= MAX_SYNC_FILE_COUNT
    &&& forall|i: int| 0 <= i < facts.len() ==> (#[trigger] facts[i]).readable && facts[i].regular
    &&& 0 < declared(manifest(facts)) <= limit
}

/// The bytes of a longer manifest are not fewer.
pub proof fn lemma_declared_monotone(files: Seq<FileMetaView>, i: int)
    requires
        0 <= i <= files.len(),
    ensures
        0 <= declared(files.take(i)) <= declared(files),
    decreases files.len(),
{
    if i == files.len() {
        assert(files.take(i) =~= files);
        if files.len() > 0 {
            lemma_declared_monotone(files.drop_last(), 0);
            assert(files.drop_last().take(0) =~= Seq::<FileMetaView>::empty());
        }
    } else {
        lemma_declared_monotone(files.drop_last(), i);
        assert(files.drop_last().take(i) =~= files.take(i));
    }
}

impl SyncEngine {
    /// The parts are well formed.
    pub closed spec fn wf(self) -> bool {
        &&& self.discovery.wf()
        &&& self.paired.wf()
        &&& self.echo.wf()
        &&& self.pending.wf()
        &&& forall|k: Seq<char>| #[trigger]
            self.pending@.dom().contains(k) ==> self.pending@[k].peer.fingerprint@ == k
    }

    /// Echo registrations are unique and bounded.
    pub proof fn law_echoes_are_bounded(self)
        requires
            self.wf(),
        ensures
            echo::hashes_unique(self@.echo),
            self@.echo.len() <= crate::config::ECHO_RECENT_CAP,
    {
        self.echo.lemma_wf();
    }

    /// The engine at startup: nothing copied, nothing pending, no echoes.
    pub fn start(
        config: &EngineConfig,
        local: PeerInfo,
        port: u16,
        discovery: DiscoveryService,
        paired: PairedStore,
    ) -> (r: SyncEngine)
        requires
            discovery.wf(),
            paired.wf(),
        ensures
            r.wf(),
            r@ == (EngineView {
                local: local@,
                data_dir: config.data_dir@,
                port,
                discovery: discovery@,
                paired: paired@,
                paired_file: paired.file(),
                seq: 0,
                last_local_copy_ms: 0,
                echo: Seq::empty(),
                send_enabled: config.sync_mode.sending(),
                recv_enabled: config.sync_mode.receiving(),
                types: config.sync_types,
                max_sync_file_bytes: config.max_sync_file_bytes,
                pending: Map::empty(),
                pending_seq: 0,
            }),
    {
        let r = SyncEngine {
            local,
            data_dir: config.data_dir.clone(),
            port,
            discovery,
            paired,
            seq: 0,
            last_local_copy_ms: 0,
            echo: EchoTable::new(),
            send_enabled: config.sync_mode.sends(),
            recv_enabled: config.sync_mode.receives(),
            types: config.sync_types,
            max_sync_file_bytes: config.max_sync_file_bytes,
            pending: Table::new(),
            pending_seq: 0,
        };
        proof {
            assert(r@.pending =~= Map::empty());
        }
        r
    }

    /// Local device info.
    pub fn local_info(&self) -> (r: PeerInfo)
        ensures
            r@ == self@.local,
    {
        self.local.clone()
    }

    /// The port that is listened on.
    pub fn port(&self) -> (r: u16)
        ensures
            r == self@.port,
    {
        self.port
    }

    /// The data directory.
    pub fn data_dir(&self) -> (r: String)
        ensures
            r@ == self@.data_dir,
    {
        self.data_dir.clone()
    }

    /// The discovery service.
    pub fn discovery(&mut self) -> (r: &mut DiscoveryService)
        requires
            old(self).wf(),
        ensures
            r.wf(),
            r@ == old(self)@.discovery,
            final(r).wf() ==> final(self).wf() && final(self)@ == (EngineView {
                discovery: final(r)@,
                ..old(self)@
            }),
    {
        &mut self.discovery
    }

    /// Takes a new display name over: the identity stays, and the new name is
    /// announced at once.
    pub fn set_display_name(&mut self, name: String, packets: UdpPackets) -> (r: Vec<Broadcast>)
        requires
            old(self).wf(),
        ensures
            final(self).wf(),
            ({
                let info = PeerInfoView { name: name@, ..old(self)@.local };
                let d = old(self)@.discovery;
                &&& final(self)@ == (EngineView {
                    local: info,
                    discovery: ServiceView {
                        info,
                        packets: if d.passive {
                            crate::announce::silence()
                        } else {
                            packets@
                        },
                        ..d
                    },
                    ..old(self)@
                })
                &&& views(r@) == (if d.passive {
                    Seq::empty()
                } else {
                    crate::announce::sends(d.has_udp, packets@.announce, 1)
                        + crate::announce::registrations(d)
                })
            }),
    {
        self.local.name = name;
        let info = self.local.clone();
        self.discovery.update_info(info, packets)
    }

    /// Whether the fingerprint is paired.
    pub fn is_paired(&self, fingerprint: &str) -> (r: bool)
        requires
            self.wf(),
        ensures
            r == self@.paired.dom().contains(fingerprint@),
    {
        self.paired.contains(fingerprint)
    }

    /// Records a pairing.
    pub fn add_paired(&mut self, info: &PeerInfo, now: u64) -> (r: EngineEvent)
        requires
            old(self).wf(),
        ensures
            final(self).wf(),
            final(self)@ == (EngineView {
                paired: old(self)@.paired.insert(info@.fingerprint, pairing_of(info@, now)),
                ..old(self)@
            }),
            r@ == (EngineEventView::Paired { peer: info@ }),
    {
        self.paired.insert(info, now);
        EngineEvent::Paired { peer: info.clone() }
    }

    /// Removes a pairing; nothing happens when it was not there.
    pub fn remove_paired(&mut self, fingerprint: &str) -> (r: Option<EngineEvent>)
        requires
            old(self).wf(),
        ensures
            final(self).wf(),
            final(self)@ == old(self)@.unpaired(fingerprint@),
            opt_view(r) == (if old(self)@.paired.dom().contains(fingerprint@) {
                Some(EngineEventView::Unpaired { fingerprint: fingerprint@ })
            } else {
                None
            }),
    {
        if self.paired.remove(fingerprint) {
            Some(EngineEvent::Unpaired { fingerprint: fingerprint.to_owned() })
        } else {
            None
        }
    }

    /// Unpairs: the pairing goes at once, and the peer is told when it is
    /// online.
    pub fn unpair(&mut self, fingerprint: &str) -> (r: (Option<EngineEvent>, Option<Peer>))
        requires
            old(self).wf(),
        ensures
            final(self).wf(),
            final(self)@ == old(self)@.unpaired(fingerprint@),
            opt_view(r.0) == (if old(self)@.paired.dom().contains(fingerprint@) {
                Some(EngineEventView::Unpaired { fingerprint: fingerprint@ })
            } else {
                None
            }),
            opt_view(r.1) == (if old(self)@.discovery.nodes.dom().contains(fingerprint@) {
                Some(old(self)@.discovery.nodes[fingerprint@].peer)
            } else {
                None
            }),
    {
        let peer = self.discovery.peer_by_fingerprint(fingerprint);
        (self.remove_paired(fingerprint), peer)
    }

    /// A pairing request came in. A paired peer is accepted at once; otherwise
    /// the request waits for the user, and a request that the same peer has
    /// waiting already is displaced without another notice.
    pub fn request_pair(&mut self, remote: &PeerInfo) -> (r: PairStart)
        requires
            old(self).wf(),
        ensures
            final(self).wf(),
            ({
                let e = old(self)@;
                let fp = remote@.fingerprint;
                match r {
                    PairStart::Accepted => e.paired.dom().contains(fp) && final(self)@ == e,
                    PairStart::Waiting { generation, displaced, notice } => {
                        &&& !e.paired.dom().contains(fp)
                        &&& generation == e.pending_seq
                        &&& displaced == (if e.pending.dom().contains(fp) {
                            Some(e.pending[fp].generation)
                        } else {
                            None
                        })
                        &&& opt_view(notice) == (if e.pending.dom().contains(fp) {
                            None
                        } else {
                            Some(EngineEventView::PairRequested { peer: remote@ })
                        })
                        &&& final(self)@ == e.requested(remote@)
                    },
                }
            }),
    {
        if self.paired.contains(remote.fingerprint.as_str()) {
            return PairStart::Accepted;
        }
        let ghost e = self@;
        let generation: u64 = self.pending_seq;
        self.pending_seq = self.pending_seq.wrapping_add(1);
        let ghost before = self.pending@;
        let entry = PendingPair { generation, peer: remote.clone() };
        let displaced = self.pending.insert(remote.fingerprint.clone(), entry);
        proof {
            assert(self@.pending =~= e.pending.insert(remote@.fingerprint, entry@));
        }
        match displaced {
            Some(p) => PairStart::Waiting { generation, displaced: Some(p.generation), notice: None },
            None => PairStart::Waiting {
                generation,
                displaced: None,
                notice: Some(EngineEvent::PairRequested { peer: remote.clone() }),
            },
        }
    }

    /// A request was decided, timed out or was displaced. Only the request of
    /// that generation is cleaned up; an accepted one is recorded.
    pub fn settle_pair(&mut self, remote: &PeerInfo, generation: u64, accepted: bool, now: u64) -> (r: Option<
        EngineEvent,
    >)
        requires
            old(self).wf(),
        ensures
            final(self).wf(),
            final(self)@ == old(self)@.settled(remote@, generation, accepted, now),
            opt_view(r) == (if accepted {
                Some(EngineEventView::Paired { peer: remote@ })
            } else {
                None
            }),
    {
        let ghost e = self@;
        let own = match self.pending.get(remote.fingerprint.as_str()) {
            Some(p) => p.generation == generation,
            None => false,
        };
        if own {
            self.pending.remove(remote.fingerprint.as_str());
            proof {
                assert(self@.pending =~= e.pending.remove(remote@.fingerprint));
            }
        }
        if accepted {
            Some(self.add_paired(remote, now))
        } else {
            None
        }
    }

    /// The user decided: the request leaves the list, and its waiter is the one
    /// of the returned generation.
    pub fn respond_pair(&mut self, fingerprint: &str) -> (r: Option<u64>)
        requires
            old(self).wf(),
        ensures
            final(self).wf(),
            final(self)@ == (EngineView {
                pending: old(self)@.pending.remove(fingerprint@),
                ..old(self)@
            }),
            r == (if old(self)@.pending.dom().contains(fingerprint@) {
                Some(old(self)@.pending[fingerprint@].generation)
            } else {
                None
            }),
    {
        let ghost e = self@;
        let gone = self.pending.remove(fingerprint);
        proof {
            assert(self@.pending =~= e.pending.remove(fingerprint@));
        }
        match gone {
            Some(p) => Some(p.generation),
            None => None,
        }
    }

    /// The requests that wait for the user, each once.
    pub fn pending_pair_requests(&self) -> (r: Vec<PeerInfo>)
        requires
            self.wf(),
        ensures
            crate::discovery::names_exactly(
                views(r@).map_values(|p: PeerInfoView| p.fingerprint),
                |k: Seq<char>| self@.pending.dom().contains(k),
            ),
            forall|i: int|
                0 <= i < r@.len() ==> (#[trigger] r@[i])@ == self@.pending[r@[i]@.fingerprint].peer,
    {
        let mut out: Vec<PeerInfo> = Vec::new();
        let mut i: usize = 0;
        let ghost rows = self.pending.rows();
        while i < self.pending.len()
            invariant
                rows == self.pending.rows(),
                i <= rows.len(),
                out@.len() == i,
                forall|j: int| 0 <= j < i ==> #[trigger] out@[j] == rows[j].value.peer,
            decreases rows.len() - i,
        {
            out.push(self.pending.row(i).value.peer.clone());
            i += 1;
        }
        proof {
            self.pending.lemma_rows();
            let f = views(out@).map_values(|p: PeerInfoView| p.fingerprint);
            let p = |k: Seq<char>| self@.pending.dom().contains(k);
            assert forall|j: int| 0 <= j < rows.len() implies f[j] == (#[trigger] rows[j]).key@
                && self@.pending.dom().contains(rows[j].key@) && self@.pending[rows[j].key@]
                == rows[j].value@ by {
                assert(self.pending@.dom().contains(rows[j].key@));
                assert(out@[j] == rows[j].value.peer);
            }
            assert forall|k: Seq<char>| p(k) <==> #[trigger] f.contains(k) by {
                if p(k) {
                    assert(self.pending@.dom().contains(k));
                    let j = crate::table::place(rows, k);
                    assert(rows[j].key@ == k);
                    assert(f[j] == k);
                }
                if f.contains(k) {
                    let a = choose|a: int| 0 <= a < f.len() && f[a] == k;
                    assert(rows[a].key@ == k);
                }
            }
            assert forall|a: int, b: int| 0 <= a < f.len() && 0 <= b < f.len() && a != b implies f[a] != f[b] by {
                if f[a] == f[b] {
                    assert(rows[a].key@ == rows[b].key@);
                }
            }
            assert forall|j: int| 0 <= j < out@.len() implies (#[trigger] out@[j])@
                == self@.pending[out@[j]@.fingerprint].peer by {
                assert(f[j] == rows[j].key@);
            }
        }
        out
    }

    /// Switches the direction policy.
    pub fn set_sync_mode(&mut self, mode: SyncMode)
        requires
            old(self).wf(),
        ensures
            final(self).wf(),
            final(self)@ == (EngineView {
                send_enabled: mode.sending(),
                recv_enabled: mode.receiving(),
                ..old(self)@
            }),
    {
        self.send_enabled = mode.sends();
        self.recv_enabled = mode.receives();
    }

    /// Switches both directions at once.
    pub fn set_sync_enabled(&mut self, enabled: bool)
        requires
            old(self).wf(),
        ensures
            final(self).wf(),
            final(self)@ == (EngineView {
                send_enabled: enabled,
                recv_enabled: enabled,
                ..old(self)@
            }),
    {
        self.send_enabled = enabled;
        self.recv_enabled = enabled;
    }

    /// Switches the type toggles, for sending and receiving alike.
    pub fn set_sync_types(&mut self, types: SyncTypes)
        requires
            old(self).wf(),
        ensures
            final(self).wf(),
            final(self)@ == (EngineView { types, ..old(self)@ }),
    {
        self.types = types;
    }

    /// Changes the limit of file syncs.
    pub fn set_max_sync_file_bytes(&mut self, bytes: u64)
        requires
            old(self).wf(),
        ensures
            final(self).wf(),
            final(self)@ == (EngineView { max_sync_file_bytes: bytes, ..old(self)@ }),
    {
        self.max_sync_file_bytes = bytes;
    }

    /// Takes an echo registration back because the write failed; says whether
    /// there was one.
    pub fn cancel_echo(&mut self, hash: &str, now: u64) -> (r: bool)
        requires
            old(self).wf(),
        ensures
            final(self).wf(),
            final(self)@ == old(self)@.cancelling(hash@, now),
            r == echo::is_echo(old(self)@.echo, hash@, now),
    {
        self.echo.take_echo(hash, now)
    }

    /// The peers that are online.
    pub fn peers(&self) -> (r: Vec<Peer>)
        requires
            self.wf(),
        ensures
            crate::discovery::names_exactly(
                crate::discovery::fingerprints(views(r@)),
                |k: Seq<char>| self@.discovery.nodes.dom().contains(k),
            ),
            forall|i: int|
                0 <= i < r@.len() ==> (#[trigger] r@[i])@ == self@.discovery.nodes[r@[i]@.info.fingerprint].peer,
    {
        let list: Vec<Peer> = self.discovery.peers();
        proof {
            let f = crate::discovery::fingerprints(views(list@));
            let p = |k: Seq<char>| self@.discovery.nodes.dom().contains(k);
            let q = |k: Seq<char>| self.discovery@.nodes.dom().contains(k);
            assert forall|k: Seq<char>| p(k) <==> #[trigger] f.contains(k) by {
                assert(q(k) <==> f.contains(k));
            }
        }
        list
    }

    /// The peer of a fingerprint, when it is online.
    pub fn peer_by_fingerprint(&self, fingerprint: &str) -> (r: Option<Peer>)
        requires
            self.wf(),
        ensures
            opt_view(r) == (if self@.discovery.nodes.dom().contains(fingerprint@) {
                Some(self@.discovery.nodes[fingerprint@].peer)
            } else {
                None
            }),
    {
        self.discovery.peer_by_fingerprint(fingerprint)
    }

    /// The pairings, by name and then by fingerprint.
    pub fn paired_list(&self) -> (r: Vec<PairedPeer>)
        requires
            self.wf(),
        ensures
            crate::paired::listing_of(self@.paired, views(r@)),
    {
        self.paired.list()
    }

    /// Where the pairings are kept.
    pub fn paired_path(&self) -> (r: String)
        ensures
            r@ == self@.paired_file,
    {
        self.paired.path()
    }

    /// An inbound text: refused with a reason code, ignored because the local
    /// copy is newer, or ordered to be written. The echo is registered before
    /// the order is given.
    pub fn accept_sync(
        &mut self,
        remote: &PeerInfo,
        timestamp_ms: u64,
        kind: &str,
        data: String,
        now: u64,
    ) -> (r: Result<Option<EngineEvent>, &'static str>)
        requires
            old(self).wf(),
        ensures
            final(self).wf(),
            ({
                let e = old(self)@;
                let content = ContentView::Text(data@);
                match e.text_verdict(remote@.fingerprint, timestamp_ms, kind@, data@) {
                    VerdictView::Reject(code) => final(self)@ == e && r is Err && r->Err_0@ == code,
                    VerdictView::Stale => final(self)@ == e && r is Ok && r->Ok_0 is None,
                    VerdictView::Accept => final(self)@ == e.registering(content.hash(), now) && r is Ok
                        && opt_view(r->Ok_0) == Some(e.apply_event(content, remote@, timestamp_ms)),
                }
            }),
    {
        if !self.recv_enabled {
            return Err(DISABLED);
        }
        if !self.paired.contains(remote.fingerprint.as_str()) {
            return Err(NOT_PAIRED);
        }
        if !text::same(kind, CONTENT_TEXT) || !self.types.text {
            return Err(UNSUPPORTED_TYPE);
        }
        if data.as_str().as_bytes().len() > MAX_SYNC_TEXT_BYTES {
            return Err(TOO_LARGE);
        }
        if timestamp_ms <= self.last_local_copy_ms {
            return Ok(None);
        }
        let hash = clipboard::hash_text(data.as_str());
        self.echo.push_echo(hash.clone(), now);
        Ok(
            Some(
                EngineEvent::ApplyRemote {
                    content: ClipboardContent::Text(data),
                    from: remote.clone(),
                    timestamp_ms,
                    hash,
                },
            ),
        )
    }

    fn manifest_fits(&self, meta: &FilesOfferMeta) -> (r: bool)
        ensures
            r == self@.offer_fits(
                OfferView::Files { total_bytes: meta.total_bytes, files: views(meta.files@) },
            ),
    {
        let ghost all = views(meta.files@);
        let mut sum: u64 = 0;
        let mut i: usize = 0;
        proof {
            assert(all.take(0) =~= Seq::<FileMetaView>::empty());
        }
        while i < meta.files.len()
            invariant
                i <= meta.files.len(),
                all == views(meta.files@),
                sum == declared(all.take(i as int)),
            decreases meta.files.len() - i,
        {
            proof {
                assert(all.take(i + 1).drop_last() =~= all.take(i as int));
                assert(all.take(i + 1).last() == meta.files@[i as int]@);
                lemma_declared_monotone(all, i + 1);
            }
            match sum.checked_add(meta.files[i].bytes) {
                Some(n) => {
                    sum = n;
                },
                None => {
                    return false;
                },
            }
            i += 1;
        }
        proof {
            assert(all.take(i as int) =~= all);
        }
        meta.files.len() > 0 && meta.files.len() <= MAX_SYNC_FILE_COUNT && meta.total_bytes > 0
            && meta.total_bytes <= self.max_sync_file_bytes && sum == meta.total_bytes
    }

    /// The verdict on an offer, before any of its bytes is read.
    pub fn decide_blob_offer(&self, remote: &PeerInfo, timestamp_ms: u64, offer: &BlobOffer) -> (r: OfferDecision)
        requires
            self.wf(),
        ensures
            r@ == self@.offer_verdict(remote@.fingerprint, timestamp_ms, offer@),
    {
        if !self.recv_enabled {
            return OfferDecision::Reject(DISABLED);
        }
        if !self.paired.contains(remote.fingerprint.as_str()) {
            return OfferDecision::Reject(NOT_PAIRED);
        }
        match offer {
            BlobOffer::Image(meta) => {
                if !self.types.images {
                    return OfferDecision::Reject(UNSUPPORTED_TYPE);
                }
                if meta.total_bytes == 0 || meta.total_bytes > MAX_SYNC_IMAGE_BYTES {
                    return OfferDecision::Reject(TOO_LARGE);
                }
            },
            BlobOffer::Files(meta) => {
                if !self.types.files {
                    return OfferDecision::Reject(UNSUPPORTED_TYPE);
                }
                if !self.manifest_fits(meta) {
                    return OfferDecision::Reject(TOO_LARGE);
                }
            },
        }
        if timestamp_ms <= self.last_local_copy_ms {
            OfferDecision::Stale
        } else {
            OfferDecision::Accept
        }
    }

    fn order_write(
        &mut self,
        content: ClipboardContent,
        remote: &PeerInfo,
        timestamp_ms: u64,
        now: u64,
    ) -> (r: EngineEvent)
        requires
            old(self).wf(),
        ensures
            final(self).wf(),
            final(self)@ == old(self)@.registering(content@.hash(), now),
            r@ == old(self)@.apply_event(content@, remote@, timestamp_ms),
    {
        let hash = content.hash();
        self.echo.push_echo(hash.clone(), now);
        EngineEvent::ApplyRemote { content, from: remote.clone(), timestamp_ms, hash }
    }

    /// A received image: decoded and ordered to be written, or refused.
    pub fn finish_blob_image(
        &mut self,
        remote: &PeerInfo,
        timestamp_ms: u64,
        png: &Vec<u8>,
        now: u64,
    ) -> (r: Result<EngineEvent, &'static str>)
        requires
            old(self).wf(),
        ensures
            final(self).wf(),
            match images::decoded(png@) {
                Some(image) => ({
                    let content = ContentView::Image {
                        width: image.0 as usize,
                        height: image.1 as usize,
                        rgba: image.2,
                    };
                    final(self)@ == old(self)@.registering(content.hash(), now) && r is Ok && r->Ok_0@
                        == old(self)@.apply_event(content, remote@, timestamp_ms)
                }),
                None => final(self)@ == old(self)@ && r is Err && r->Err_0@ == UNSUPPORTED_TYPE@,
            },
    {
        match images::decode_png_rgba(png.as_slice()) {
            Ok(image) => {
                let (width, height, rgba) = image;
                let content = ClipboardContent::Image { width, height, rgba };
                Ok(self.order_write(content, remote, timestamp_ms, now))
            },
            Err(_) => Err(UNSUPPORTED_TYPE),
        }
    }

    /// Received files under their final paths: ordered to be put on the
    /// clipboard. The echo hash is that of the local paths.
    pub fn finish_blob_files(
        &mut self,
        remote: &PeerInfo,
        timestamp_ms: u64,
        paths: Vec<FilePath>,
        now: u64,
    ) -> (r: EngineEvent)
        requires
            old(self).wf(),
        ensures
            final(self).wf(),
            ({
                let content = ContentView::Files(views(paths@));
                final(self)@ == old(self)@.registering(content.hash(), now) && r@
                    == old(self)@.apply_event(content, remote@, timestamp_ms)
            }),
    {
        self.order_write(ClipboardContent::Files(paths), remote, timestamp_ms, now)
    }

    /// A clipboard change: an echo is swallowed; a local copy advances the
    /// clock, is reported, and is sent out as far as the gates let it.
    pub fn on_clipboard(&mut self, event: ClipboardEvent, now: u64) -> (r: CopyOutcome)
        requires
            old(self).wf(),
        ensures
            final(self).wf(),
            final(self)@ == old(self)@.after_change(event@, now),
            match r {
                CopyOutcome::Echo => echo::is_echo(old(self)@.echo, event@.hash, now),
                CopyOutcome::Copied { report, outbound } => !echo::is_echo(
                    old(self)@.echo,
                    event@.hash,
                    now,
                ) && report@ == old(self)@.copy_report(event@) && outbound@ == old(self)@.outbound(event@),
            },
    {
        if self.echo.take_echo(event.hash.as_str(), now) {
            return CopyOutcome::Echo;
        }
        if event.timestamp_ms > self.last_local_copy_ms {
            self.last_local_copy_ms = event.timestamp_ms;
        }
        let send = self.send_enabled && !event.suppress_broadcast;
        let outbound = match &event.content {
            ClipboardContent::Text(t) => {
                if send && self.types.text && t.as_str().as_bytes().len() <= MAX_SYNC_TEXT_BYTES {
                    Outbound::Text(t.clone())
                } else {
                    Outbound::Nothing
                }
            },
            ClipboardContent::Image { width, height, rgba } => {
                if send && self.types.images {
                    let copy: Vec<u8> = rgba.clone();
                    proof {
                        assert(copy@ =~= rgba@);
                    }
                    Outbound::Image { width: *width, height: *height, rgba: copy }
                } else {
                    Outbound::Nothing
                }
            },
            ClipboardContent::Files(paths) => {
                if send && self.types.files {
                    let rest: Vec<FilePath> = retain_paths(paths, &event.broadcast_files_excluded);
                    proof {
                        assert(views(rest@).len() == rest@.len());
                    }
                    if rest.len() > 0 {
                        Outbound::Files(rest)
                    } else {
                        Outbound::Nothing
                    }
                } else {
                    Outbound::Nothing
                }
            },
            ClipboardContent::ImageUnread => Outbound::Nothing,
        };
        let report = EngineEvent::LocalCopied {
            content: event.content,
            hash: event.hash,
            timestamp_ms: event.timestamp_ms,
            suppress_record: event.suppress_record,
            record_files_excluded: event.record_files_excluded,
        };
        CopyOutcome::Copied { report, outbound }
    }

    /// The nodes that a broadcast goes to: online and paired.
    pub fn targets(&self) -> (r: Vec<Peer>)
        requires
            self.wf(),
        ensures
            targets_of(self@, views(r@)),
    {
        let online: Vec<Peer> = self.discovery.peers();
        let ghost f = crate::discovery::fingerprints(views(online@));
        let ghost nodes = self.discovery@.nodes;
        let mut out: Vec<Peer> = Vec::new();
        let ghost mut at: Seq<int> = Seq::empty();
        let mut i: usize = 0;
        while i < online.len()
            invariant
                self.wf(),
                i <= online.len(),
                at.len() == out@.len(),
                forall|a: int|
                    0 <= a < at.len() ==> 0 <= #[trigger] at[a] < i && out@[a]@ == online@[at[a]]@
                        && self.paired@.dom().contains(online@[at[a]]@.info.fingerprint),
                forall|a: int, b: int| 0 <= a < b < at.len() ==> #[trigger] at[a] < #[trigger] at[b],
                forall|j: int|
                    0 <= j < i && self.paired@.dom().contains((#[trigger] online@[j])@.info.fingerprint)
                        ==> at.contains(j),
            decreases online.len() - i,
        {
            let ghost at0 = at;
            if self.paired.contains(online[i].info.fingerprint.as_str()) {
                out.push(online[i].duplicate());
                proof {
                    at = at.push(i as int);
                    assert(at[at0.len() as int] == i);
                }
            }
            proof {
                assert forall|j: int|
                    0 <= j < i + 1 && self.paired@.dom().contains((#[trigger] online@[j])@.info.fingerprint) implies at.contains(
                    j,
                ) by {
                    if j < i {
                        assert(at0.contains(j));
                        let a = choose|a: int| 0 <= a < at0.len() && at0[a] == j;
                        assert(at[a] == j);
                    }
                }
            }
            i += 1;
        }
        proof {
            let q = |k: Seq<char>| self.discovery@.nodes.dom().contains(k);
            let g = crate::discovery::fingerprints(views(out@));
            let p = |k: Seq<char>| self@.is_target(k);
            assert forall|a: int| 0 <= a < g.len() implies g[a] == f[#[trigger] at[a]] by {
                assert(out@[a]@ == online@[at[a]]@);
            }
            assert forall|k: Seq<char>| p(k) <==> #[trigger] g.contains(k) by {
                if p(k) {
                    assert(q(k));
                    assert(f.contains(k));
                    let j = choose|j: int| 0 <= j < f.len() && f[j] == k;
                    assert(online@[j]@.info.fingerprint == k);
                    assert(at.contains(j));
                    let a = choose|a: int| 0 <= a < at.len() && at[a] == j;
                    assert(g[a] == f[at[a]]);
                }
                if g.contains(k) {
                    let a = choose|a: int| 0 <= a < g.len() && g[a] == k;
                    assert(g[a] == f[at[a]]);
                    assert(f.contains(k));
                    assert(q(k));
                }
            }
            assert forall|a: int, b: int| 0 <= a < g.len() && 0 <= b < g.len() && a != b implies g[a] != g[b] by {
                assert(g[a] == f[at[a]]);
                assert(g[b] == f[at[b]]);
                assert(at[a] != at[b]);
            }
            assert forall|a: int| 0 <= a < views(out@).len() implies (#[trigger] views(out@)[a])
                == self@.discovery.nodes[views(out@)[a].info.fingerprint].peer by {
                assert(views(out@)[a] == out@[a]@);
                assert(out@[a]@ == online@[at[a]]@);
            }
        }
        out
    }

    /// One broadcast of a text or of an offer: nothing without a target, else
    /// the frame with the next sequence number.
    pub fn dispatch(&mut self, timestamp_ms: u64, content_type: &str, data: String) -> (r: Option<Dispatch>)
        requires
            old(self).wf(),
        ensures
            final(self).wf(),
            match r {
                None => !old(self)@.has_target() && final(self)@ == old(self)@,
                Some(d) => old(self)@.has_target() && targets_of(old(self)@, views(d.targets@))
                    && d.message@ == (MessageView::ClipboardSync {
                    seq: old(self)@.seq,
                    timestamp_ms,
                    content_type: content_type@,
                    data: data@,
                }) && final(self)@ == (EngineView {
                    seq: old(self)@.seq.wrapping_add(1),
                    ..old(self)@
                }),
            },
    {
        let targets: Vec<Peer> = self.targets();
        let ghost f = crate::discovery::fingerprints(views(targets@));
        let ghost p = |k: Seq<char>| self@.is_target(k);
        if targets.len() == 0 {
            proof {
                assert forall|k: Seq<char>| !#[trigger] self@.is_target(k) by {
                    assert(p(k) <==> f.contains(k));
                }
            }
            return None;
        }
        proof {
            assert(f[0] == targets@[0]@.info.fingerprint);
            assert(f.contains(f[0]));
            assert(p(f[0]));
            assert(self@.is_target(f[0]));
        }
        let seq: u64 = self.seq;
        self.seq = self.seq.wrapping_add(1);
        Some(
            Dispatch {
                message: ControlMessage::ClipboardSync {
                    seq,
                    timestamp_ms,
                    content_type: content_type.to_owned(),
                    data,
                },
                targets,
            },
        )
    }

    /// The manifest of files that are to be sent, or nothing when they are
    /// not: all of them go or none.
    pub fn offer_files(&self, facts: &Vec<FileFact>) -> (r: Option<FilesOfferMeta>)
        ensures
            match r {
                Some(meta) => sendable(views(facts@), self@.max_sync_file_bytes) && views(meta.files@)
                    == manifest(views(facts@)) && meta.total_bytes == declared(manifest(views(facts@))),
                None => !sendable(views(facts@), self@.max_sync_file_bytes),
            },
    {
        if facts.len() == 0 || facts.len() > MAX_SYNC_FILE_COUNT {
            proof {
                assert(views(facts@).len() == facts@.len());
            }
            return None;
        }
        let ghost all = manifest(views(facts@));
        let mut files: Vec<FileMeta> = Vec::new();
        let mut total: u64 = 0;
        let mut i: usize = 0;
        proof {
            assert(all.take(0) =~= Seq::<FileMetaView>::empty());
            assert(views(files@) =~= all.take(0));
        }
        while i < facts.len()
            invariant
                i <= facts.len(),
                0 < facts.len() <= MAX_SYNC_FILE_COUNT,
                all == manifest(views(facts@)),
                views(files@) == all.take(i as int),
                total == declared(all.take(i as int)),
                forall|j: int| 0 <= j < i ==> (#[trigger] facts@[j]).readable && facts@[j].regular,
            decreases facts.len() - i,
        {
            proof {
                assert(all.take(i + 1).drop_last() =~= all.take(i as int));
                assert(views(facts@)[i as int] == facts@[i as int]@);
                assert(all.take(i + 1).last() == all[i as int]);
                lemma_declared_monotone(all, i + 1);
            }
            if !facts[i].readable || !facts[i].regular {
                proof {
                    assert(!views(facts@)[i as int].readable || !views(facts@)[i as int].regular);
                }
                return None;
            }
            let bytes: u64 = facts[i].bytes;
            let name: String = name_to_offer(&facts[i].path);
            files.push(FileMeta { name, bytes });
            proof {
                assert(views(files@) =~= all.take(i + 1));
            }
            match total.checked_add(bytes) {
                Some(n) => {
                    total = n;
                },
                None => {
                    return None;
                },
            }
            i += 1;
        }
        proof {
            assert(all.take(i as int) =~= all);
            assert forall|j: int| 0 <= j < views(facts@).len() implies (#[trigger] views(facts@)[j]).readable
                && views(facts@)[j].regular by {
                assert(views(facts@)[j] == facts@[j]@);
            }
        }
        if total == 0 || total > self.max_sync_file_bytes {
            return None;
        }
        Some(FilesOfferMeta { total_bytes: total, files })
    }

    /// An image that is to be sent: encoded, and offered when it is not too
    /// large.
    pub fn offer_image(&self, width: usize, height: usize, rgba: &Vec<u8>) -> (r: Option<(ImageOfferMeta, Vec<u8>)>)
        ensures
            match r {
                Some(offer) => ({
                    &&& images::is_bitmap(width as u32, height as u32, rgba@)
                    &&& offer.1@ == images::png_encoded(width as u32, height as u32, rgba@)
                    &&& offer.1@.len() <= MAX_SYNC_IMAGE_BYTES
                    &&& offer.0 == (ImageOfferMeta {
                        total_bytes: offer.1@.len() as u64,
                        width,
                        height,
                    })
                    &&& images::rows_fit(width as u32) ==> images::decoded(offer.1@) == Some(
                        (width as u32, height as u32, rgba@),
                    )
                }),
                None => !images::is_bitmap(width as u32, height as u32, rgba@) || images::png_encoded(
                    width as u32,
                    height as u32,
                    rgba@,
                ).len() > MAX_SYNC_IMAGE_BYTES,
            },
    {
        match images::encode_png_rgba(width, height, rgba.as_slice()) {
            Err(_) => None,
            Ok(png) => {
                let n: u64 = png.len() as u64;
                if n > MAX_SYNC_IMAGE_BYTES {
                    return None;
                }
                Some((ImageOfferMeta { total_bytes: n, width, height }, png))
            },
        }
    }
}

fn name_to_offer(path: &FilePath) -> (r: String)
    ensures
        r@ == offered_name(path@),
{
    let named = match path {
        FilePath::Text(_) => true,
        FilePath::Raw { name_is_text, .. } => *name_is_text,
    };
    match crate::paths::file_name(path.lossy()) {
        Some(n) => {
            if named {
                n
            } else {
                "file".to_owned()
            }
        },
        None => "file".to_owned(),
    }
}

/// A device that is not paired gets nothing applied: its text and its offers
/// are refused, as not paired or because receiving is off.
pub proof fn law_unpaired_source_is_refused(
    e: EngineView,
    fingerprint: Seq<char>,
    timestamp_ms: u64,
    kind: Seq<char>,
    data: Seq<char>,
    offer: OfferView,
)
    requires
        !e.paired.dom().contains(fingerprint),
    ensures
        e.text_verdict(fingerprint, timestamp_ms, kind, data) == VerdictView::Reject(
            if e.recv_enabled {
                NOT_PAIRED@
            } else {
                DISABLED@
            },
        ),
        e.offer_verdict(fingerprint, timestamp_ms, offer) == VerdictView::Reject(
            if e.recv_enabled {
                NOT_PAIRED@
            } else {
                DISABLED@
            },
        ),
{
}

/// Unpairing takes effect at once: what the device sends afterwards is refused.
pub proof fn law_unpairing_shuts_the_device_out(
    e: EngineView,
    fingerprint: Seq<char>,
    timestamp_ms: u64,
    kind: Seq<char>,
    data: Seq<char>,
    offer: OfferView,
)
    ensures
        e.unpaired(fingerprint).text_verdict(fingerprint, timestamp_ms, kind, data) is Reject,
        e.unpaired(fingerprint).offer_verdict(fingerprint, timestamp_ms, offer) is Reject,
{
}

/// Content that is not newer than the last local copy is never applied.
pub proof fn law_stale_content_is_not_applied(
    e: EngineView,
    fingerprint: Seq<char>,
    timestamp_ms: u64,
    kind: Seq<char>,
    data: Seq<char>,
    offer: OfferView,
)
    requires
        timestamp_ms <= e.last_local_copy_ms,
    ensures
        e.text_verdict(fingerprint, timestamp_ms, kind, data) !is Accept,
        e.offer_verdict(fingerprint, timestamp_ms, offer) !is Accept,
{
}

/// The clock of local copies never goes back, whatever the system clock does,
/// and a local copy moves it at least to its own time.
pub proof fn law_copy_clock_is_monotone(e: EngineView, event: EventView, now: u64)
    ensures
        e.after_change(event, now).last_local_copy_ms >= e.last_local_copy_ms,
        !echo::is_echo(e.echo, event.hash, now) ==> e.after_change(event, now).last_local_copy_ms
            >= event.timestamp_ms,
{
}

proof fn lemma_turned_clock(e: EngineView, turns: Seq<EchoTurn>)
    ensures
        e.turned(turns).last_local_copy_ms >= e.last_local_copy_ms,
    decreases turns.len(),
{
    if turns.len() > 0 {
        lemma_turned_clock(e, turns.drop_last());
    }
}

/// What was copied locally is never overwritten by something older from a
/// peer, whatever is written, copied or taken back in between.
pub proof fn law_last_writer_wins(
    e: EngineView,
    event: EventView,
    now: u64,
    turns: Seq<EchoTurn>,
    fingerprint: Seq<char>,
    timestamp_ms: u64,
    kind: Seq<char>,
    data: Seq<char>,
    offer: OfferView,
)
    requires
        !echo::is_echo(e.echo, event.hash, now),
        timestamp_ms <= event.timestamp_ms,
    ensures
        e.after_change(event, now).turned(turns).text_verdict(fingerprint, timestamp_ms, kind, data)
            !is Accept,
        e.after_change(event, now).turned(turns).offer_verdict(fingerprint, timestamp_ms, offer)
            !is Accept,
{
    lemma_turned_clock(e.after_change(event, now), turns);
}

/// Content that a peer had written here is recognised when the clipboard
/// reports it: it is swallowed, so it is neither sent back nor taken for a
/// local copy.
pub proof fn law_remote_write_is_swallowed(
    e: EngineView,
    content: ContentView,
    now: u64,
    event: EventView,
    later: u64,
)
    requires
        echo::hashes_unique(e.echo),
        !echo::is_echo(e.echo, content.hash(), now),
        event.hash == content.hash(),
        !echo::expired(now, later),
    ensures
        echo::is_echo(e.registering(content.hash(), now).echo, event.hash, later),
        e.registering(content.hash(), now).after_change(event, later).last_local_copy_ms
            == e.last_local_copy_ms,
{
    echo::law_registered_write_is_echo(e.echo, content.hash(), now, later);
}

proof fn lemma_turned_echo(e: EngineView, turns: Seq<EchoTurn>)
    ensures
        e.turned(turns).echo == echo::stepped(e.echo, steps_of(turns)),
    decreases turns.len(),
{
    if turns.len() > 0 {
        lemma_turned_echo(e, turns.drop_last());
        assert(steps_of(turns).drop_last() =~= steps_of(turns.drop_last()));
        assert(steps_of(turns).last() == turns.last().step());
    }
}

/// Content that a peer had written here is never taken for a local copy, nor
/// sent on, whatever lands before the clipboard reports it: other remote
/// writes, fewer than are remembered, the same content from other peers, local
/// copies, and writes that fail.
pub proof fn law_remote_write_among_others_is_swallowed(
    e: EngineView,
    content: ContentView,
    now: u64,
    turns: Seq<EchoTurn>,
    event: EventView,
    later: u64,
)
    requires
        !echo::is_echo(e.echo, content.hash(), now),
        echo::others(steps_of(turns), content.hash()) < crate::config::ECHO_RECENT_CAP,
        forall|i: int|
            0 <= i < turns.len() ==> !echo::expired(now, (#[trigger] turns[i]).step().at()) && (
            turns[i] !is Write ==> turns[i].step().hash() != content.hash()),
        event.hash == content.hash(),
        !echo::expired(now, later),
    ensures
        ({
            let last = e.registering(content.hash(), now).turned(turns);
            &&& echo::is_echo(last.echo, event.hash, later)
            &&& last.after_change(event, later).last_local_copy_ms == last.last_local_copy_ms
        }),
{
    let first = e.registering(content.hash(), now);
    let steps = steps_of(turns);
    assert forall|i: int| 0 <= i < steps.len() implies !echo::expired(now, (#[trigger] steps[i]).at()) && (
    steps[i] is Taken ==> steps[i].hash() != content.hash()) by {
        assert(steps[i] == turns[i].step());
    }
    lemma_turned_echo(first, turns);
    echo::law_write_among_others_is_echo(e.echo, content.hash(), now, steps, later);
}

/// After the echo was swallowed, copying the same content is a local copy
/// again, until a peer has it written once more.
pub proof fn law_copy_after_echo_is_genuine(
    e: EngineView,
    event: EventView,
    now: u64,
    turns: Seq<EchoTurn>,
    later: u64,
)
    requires
        forall|i: int|
            0 <= i < turns.len() && (#[trigger] turns[i]) is Write ==> turns[i].step().hash() != event.hash,
    ensures
        !echo::is_echo(e.after_change(event, now).turned(turns).echo, event.hash, later),
{
    let steps = steps_of(turns);
    assert forall|i: int| 0 <= i < steps.len() && (#[trigger] steps[i]) is Registered implies steps[i].hash()
        != event.hash by {
        assert(steps[i] == turns[i].step());
    }
    lemma_turned_echo(e.after_change(event, now), turns);
    echo::law_echo_is_consumed_once(e.echo, event.hash, now, steps, later);
}

/// A write that failed leaves no registration behind once it is taken back, as
/// long as the registration had not pushed another one out.
pub proof fn law_failed_write_leaves_nothing(e: EngineView, hash: Seq<char>, now: u64)
    requires
        echo::hashes_unique(e.echo),
        !echo::is_echo(e.echo, hash, now),
        echo::pruned(e.echo, now).len() < crate::config::ECHO_RECENT_CAP,
    ensures
        echo::taken(e.registering(hash, now).echo, hash, now) == echo::pruned(e.echo, now),
{
    echo::law_cancel_undoes_registration(e.echo, hash, now);
}

/// With sending off nothing goes out, and with receiving off everything is
/// refused as disabled.
pub proof fn law_gates_close(
    e: EngineView,
    event: EventView,
    fingerprint: Seq<char>,
    timestamp_ms: u64,
    kind: Seq<char>,
    data: Seq<char>,
    offer: OfferView,
)
    ensures
        !e.send_enabled ==> e.outbound(event) == OutboundView::Nothing,
        !e.recv_enabled ==> e.text_verdict(fingerprint, timestamp_ms, kind, data)
            == VerdictView::Reject(DISABLED@),
        !e.recv_enabled ==> e.offer_verdict(fingerprint, timestamp_ms, offer)
            == VerdictView::Reject(DISABLED@),
{
}

/// A copy that is held back from the broadcast still counts as a local copy:
/// the clock advances and the report is the same.
pub proof fn law_held_back_copy_still_counts(e: EngineView, event: EventView, now: u64)
    ensures
        ({
            let held = EventView { suppress_broadcast: true, ..event };
            &&& e.outbound(held) == OutboundView::Nothing
            &&& e.after_change(held, now) == e.after_change(event, now)
            &&& e.copy_report(held) == e.copy_report(event)
        }),
{
}

/// An image that was not read never goes out.
pub proof fn law_unread_image_stays(e: EngineView, event: EventView)
    requires
        event.content == ContentView::ImageUnread,
    ensures
        e.outbound(event) == OutboundView::Nothing,
{
}

/// A text that one device sends is not refused by another that is paired with
/// it and takes text, and what is written there is that text, character by
/// character.
pub proof fn law_sent_text_arrives(
    sender: EngineView,
    event: EventView,
    content: Seq<char>,
    receiver: EngineView,
    from: PeerInfoView,
)
    requires
        sender.outbound(event) == OutboundView::Text(content),
        receiver.recv_enabled,
        receiver.types.text,
        receiver.paired.dom().contains(from.fingerprint),
        event.timestamp_ms > receiver.last_local_copy_ms,
    ensures
        event.content == ContentView::Text(content),
        receiver.text_verdict(from.fingerprint, event.timestamp_ms, CONTENT_TEXT@, content)
            == VerdictView::Accept,
        receiver.apply_event(ContentView::Text(content), from, event.timestamp_ms)
            == (EngineEventView::ApplyRemote {
            content: event.content,
            from,
            timestamp_ms: event.timestamp_ms,
            hash: event.content.hash(),
        }),
{
}

/// Files that one device sends fit the limits of another with the same limit.
pub proof fn law_sent_files_fit(e: EngineView, facts: Seq<FileFactView>, limit: u64, total: u64)
    requires
        sendable(facts, limit),
        limit <= e.max_sync_file_bytes,
        total == declared(manifest(facts)),
    ensures
        e.offer_fits(OfferView::Files { total_bytes: total, files: manifest(facts) }),
{
}

/// A request that another one of the same peer displaced cleans up nothing but
/// itself: the newer request stays.
pub proof fn law_displaced_request_spares_the_newer(
    e: EngineView,
    first: PeerInfoView,
    second: PeerInfoView,
    now: u64,
)
    requires
        first.fingerprint == second.fingerprint,
    ensures
        ({
            let once = e.requested(first);
            let twice = once.requested(second);
            let after = twice.settled(first, e.pending_seq, false, now);
            &&& after.pending == twice.pending
            &&& after.paired == e.paired
            &&& after.pending[first.fingerprint].generation == once.pending_seq
        }),
{
    assert(e.pending_seq.wrapping_add(1) != e.pending_seq);
}

/// A request that is settled no longer waits, and an accepted one makes the
/// peer paired.
pub proof fn law_settled_request_is_gone(e: EngineView, remote: PeerInfoView, accepted: bool, now: u64)
    ensures
        ({
            let after = e.requested(remote).settled(remote, e.pending_seq, accepted, now);
            &&& !after.pending.dom().contains(remote.fingerprint)
            &&& accepted ==> after.paired.dom().contains(remote.fingerprint)
            &&& !accepted ==> after.paired == e.paired
        }),
{
}

/// The engine with other type toggles.
pub open spec fn with_types(e: EngineView, text: bool, images: bool, files: bool) -> EngineView {
    EngineView { types: SyncTypes { text, images, files }, ..e }
}

/// A text is taken exactly when receiving is on, the device is paired, text is
/// switched on, the text is not too long and nothing newer was copied here; a
/// device that may send learns which of these failed. The toggles of images and
/// files have no say.
pub proof fn law_inbound_text(
    e: EngineView,
    fingerprint: Seq<char>,
    timestamp_ms: u64,
    kind: Seq<char>,
    data: Seq<char>,
    images: bool,
    files: bool,
)
    ensures
        ({
            let v = e.text_verdict(fingerprint, timestamp_ms, kind, data);
            let lets_in = e.recv_enabled && e.paired.dom().contains(fingerprint);
            let bytes = encode_utf8(data).len();
            &&& v is Accept <==> lets_in && kind == "text"@ && e.types.text && bytes <= 524_288 && timestamp_ms
                > e.last_local_copy_ms
            &&& lets_in && (kind != "text"@ || !e.types.text) ==> v == VerdictView::Reject("unsupported_type"@)
            &&& lets_in && kind == "text"@ && e.types.text && bytes > 524_288 ==> v == VerdictView::Reject(
                "too_large"@,
            )
            &&& lets_in && kind == "text"@ && e.types.text && bytes <= 524_288 && timestamp_ms
                <= e.last_local_copy_ms ==> v is Stale
            &&& with_types(e, e.types.text, images, files).text_verdict(
                fingerprint,
                timestamp_ms,
                kind,
                data,
            ) == v
        }),
{
}

/// An image is received exactly when receiving is on, the device is paired,
/// images are switched on, the picture is neither empty nor too large and
/// nothing newer was copied here. The toggles of text and files have no say.
pub proof fn law_inbound_image(
    e: EngineView,
    fingerprint: Seq<char>,
    timestamp_ms: u64,
    total_bytes: u64,
    text: bool,
    files: bool,
)
    ensures
        ({
            let offer = OfferView::Image { total_bytes };
            let v = e.offer_verdict(fingerprint, timestamp_ms, offer);
            let lets_in = e.recv_enabled && e.paired.dom().contains(fingerprint);
            let fits = 1 <= total_bytes <= 16_777_216;
            &&& v is Accept <==> lets_in && e.types.images && fits && timestamp_ms > e.last_local_copy_ms
            &&& !e.types.images ==> v !is Accept
            &&& lets_in && !e.types.images ==> v == VerdictView::Reject("unsupported_type"@)
            &&& lets_in && e.types.images && !fits ==> v == VerdictView::Reject("too_large"@)
            &&& lets_in && e.types.images && fits && timestamp_ms <= e.last_local_copy_ms ==> v is Stale
            &&& with_types(e, text, e.types.images, files).offer_verdict(fingerprint, timestamp_ms, offer) == v
        }),
{
}

/// Files are received exactly when receiving is on, the device is paired, files
/// are switched on, there are not too many, their sizes add up to what is
/// announced, that is neither empty nor over the limit, and nothing newer was
/// copied here. The toggles of text and images have no say.
pub proof fn law_inbound_files(
    e: EngineView,
    fingerprint: Seq<char>,
    timestamp_ms: u64,
    total_bytes: u64,
    files: Seq<FileMetaView>,
    text: bool,
    images: bool,
)
    ensures
        ({
            let offer = OfferView::Files { total_bytes, files };
            let v = e.offer_verdict(fingerprint, timestamp_ms, offer);
            let lets_in = e.recv_enabled && e.paired.dom().contains(fingerprint);
            let fits = 1 <= files.len() <= 64 && 1 <= total_bytes <= e.max_sync_file_bytes && declared(files)
                == total_bytes;
            &&& v is Accept <==> lets_in && e.types.files && fits && timestamp_ms > e.last_local_copy_ms
            &&& !e.types.files ==> v !is Accept
            &&& lets_in && !e.types.files ==> v == VerdictView::Reject("unsupported_type"@)
            &&& lets_in && e.types.files && !fits ==> v == VerdictView::Reject("too_large"@)
            &&& lets_in && e.types.files && fits && timestamp_ms <= e.last_local_copy_ms ==> v is Stale
            &&& with_types(e, text, images, e.types.files).offer_verdict(fingerprint, timestamp_ms, offer) == v
        }),
{
}

/// Receiving off or a device that is not paired, in this order, is told before
/// anything else.
pub proof fn law_refusals_come_in_order(
    e: EngineView,
    fingerprint: Seq<char>,
    timestamp_ms: u64,
    kind: Seq<char>,
    data: Seq<char>,
    offer: OfferView,
)
    ensures
        ({
            let text = e.text_verdict(fingerprint, timestamp_ms, kind, data);
            let blob = e.offer_verdict(fingerprint, timestamp_ms, offer);
            &&& !e.recv_enabled <==> text == VerdictView::Reject("disabled"@)
            &&& !e.recv_enabled <==> blob == VerdictView::Reject("disabled"@)
            &&& e.recv_enabled && !e.paired.dom().contains(fingerprint) <==> text == VerdictView::Reject(
                "not_paired"@,
            )
            &&& e.recv_enabled && !e.paired.dom().contains(fingerprint) <==> blob == VerdictView::Reject(
                "not_paired"@,
            )
        }),
{
    reveal_strlit("disabled");
    reveal_strlit("not_paired");
    reveal_strlit("unsupported_type");
    reveal_strlit("too_large");
    assert("disabled"@.len() == 8);
    assert("not_paired"@.len() == 10);
    assert("unsupported_type"@.len() == 16);
    assert("too_large"@.len() == 9);
}

/// The declared bytes of two manifests together are those of either added up,
/// and one file declares its own.
pub proof fn law_declared_bytes_add_up(a: Seq<FileMetaView>, b: Seq<FileMetaView>, f: FileMetaView)
    ensures
        declared(Seq::<FileMetaView>::empty()) == 0,
        declared(seq![f]) == f.bytes,
        declared(a + b) == declared(a) + declared(b),
    decreases b.len(),
{
    assert(seq![f].drop_last() =~= Seq::<FileMetaView>::empty());
    if b.len() == 0 {
        assert(a + b =~= a);
    } else {
        law_declared_bytes_add_up(a, b.drop_last(), f);
        assert((a + b).drop_last() =~= a + b.drop_last());
        assert((a + b).last() == b.last());
    }
}

/// With sending on, a text that is not held back goes out as it is exactly when
/// text is switched on and it is not too long, whatever the other toggles are.
pub proof fn law_outbound_text(e: EngineView, event: EventView, t: Seq<char>, images: bool, files: bool)
    requires
        e.send_enabled,
        !event.suppress_broadcast,
        event.content == ContentView::Text(t),
    ensures
        e.types.text && encode_utf8(t).len() <= 524_288 ==> e.outbound(event) == OutboundView::Text(t),
        !(e.types.text && encode_utf8(t).len() <= 524_288) ==> e.outbound(event) is Nothing,
        with_types(e, e.types.text, images, files).outbound(event) == e.outbound(event),
{
}

/// With sending on, an image that is not held back goes out with its own size
/// and pixels exactly when images are switched on, whatever the other toggles
/// are.
pub proof fn law_outbound_image(
    e: EngineView,
    event: EventView,
    width: usize,
    height: usize,
    rgba: Seq<u8>,
    text: bool,
    files: bool,
)
    requires
        e.send_enabled,
        !event.suppress_broadcast,
        event.content == (ContentView::Image { width, height, rgba }),
    ensures
        e.types.images ==> e.outbound(event) == (OutboundView::Image { width, height, rgba }),
        !e.types.images ==> e.outbound(event) is Nothing,
        with_types(e, text, e.types.images, files).outbound(event) == e.outbound(event),
{
}

/// With sending on, files that are not held back go out exactly when files are
/// switched on and one of them is not excluded: those that are not excluded
/// go, and no others, whatever the other toggles are.
pub proof fn law_outbound_files(
    e: EngineView,
    event: EventView,
    paths: Seq<FilePathView>,
    p: FilePathView,
    text: bool,
    images: bool,
)
    requires
        e.send_enabled,
        !event.suppress_broadcast,
        event.content == ContentView::Files(paths),
    ensures
        ({
            let out = e.outbound(event);
            let goes = paths.contains(p) && !event.broadcast_files_excluded.contains(p);
            &&& !e.types.files ==> out is Nothing
            &&& e.types.files && goes ==> out is Files && out->Files_0.contains(p)
            &&& out is Files && out->Files_0.contains(p) ==> goes
            &&& out is Files || out is Nothing
            &&& out is Files ==> out->Files_0.len() > 0
            &&& e.types.files && paths.len() > 0 && event.broadcast_files_excluded.len() == 0 ==> out
                == OutboundView::Files(paths)
            &&& with_types(e, text, images, e.types.files).outbound(event) == out
        }),
{
    let excluded = event.broadcast_files_excluded;
    let keeps = |x: FilePathView| !excluded.contains(x);
    let rest = remaining_paths(paths, excluded);
    if paths.contains(p) && !excluded.contains(p) {
        let k = choose|k: int| 0 <= k < paths.len() && paths[k] == p;
        paths.lemma_filter_contains(keeps, k);
        assert(rest.contains(p));
    }
    if rest.contains(p) {
        let k = choose|k: int| 0 <= k < rest.len() && rest[k] == p;
        paths.lemma_filter_pred(keeps, k);
        paths.lemma_filter_contains_rev(keeps, p);
    }
    if excluded.len() == 0 {
        lemma_nothing_excluded(paths, excluded);
    }
}

proof fn lemma_nothing_excluded(paths: Seq<FilePathView>, excluded: Seq<FilePathView>)
    requires
        excluded.len() == 0,
    ensures
        remaining_paths(paths, excluded) == paths,
    decreases paths.len(),
{
    reveal(Seq::filter);
    if paths.len() > 0 {
        lemma_nothing_excluded(paths.drop_last(), excluded);
        assert(!excluded.contains(paths.last()));
        assert(paths.drop_last().push(paths.last()) =~= paths);
    } else {
        assert(remaining_paths(paths, excluded) =~= paths);
    }
}

/// An image that one device sends is not refused by another that is paired
/// with it, takes images and has nothing newer, as long as the picture fits.
pub proof fn law_sent_image_arrives(
    sender: EngineView,
    event: EventView,
    width: usize,
    height: usize,
    rgba: Seq<u8>,
    receiver: EngineView,
    from: PeerInfoView,
    total_bytes: u64,
)
    requires
        sender.send_enabled,
        sender.types.images,
        !event.suppress_broadcast,
        event.content == (ContentView::Image { width, height, rgba }),
        receiver.recv_enabled,
        receiver.types.images,
        receiver.paired.dom().contains(from.fingerprint),
        receiver.last_local_copy_ms < event.timestamp_ms,
        1 <= total_bytes <= 16_777_216,
    ensures
        sender.outbound(event) == (OutboundView::Image { width, height, rgba }),
        receiver.offer_verdict(from.fingerprint, event.timestamp_ms, OfferView::Image { total_bytes }) is Accept,
        receiver.apply_event(event.content, from, event.timestamp_ms) == (EngineEventView::ApplyRemote {
            content: ContentView::Image { width, height, rgba },
            from,
            timestamp_ms: event.timestamp_ms,
            hash: event.content.hash(),
        }),
{
}

/// Files that one device sends are not refused by another that is paired with
/// it, takes files, allows as many bytes and has nothing newer.
pub proof fn law_sent_files_arrive(
    facts: Seq<FileFactView>,
    limit: u64,
    receiver: EngineView,
    from: PeerInfoView,
    timestamp_ms: u64,
    total: u64,
)
    requires
        sendable(facts, limit),
        total == declared(manifest(facts)),
        receiver.recv_enabled,
        receiver.types.files,
        receiver.paired.dom().contains(from.fingerprint),
        limit <= receiver.max_sync_file_bytes,
        receiver.last_local_copy_ms < timestamp_ms,
    ensures
        receiver.offer_verdict(
            from.fingerprint,
            timestamp_ms,
            OfferView::Files { total_bytes: total, files: manifest(facts) },
        ) is Accept,
{
}

/// Files go out all or none: some, not too many, each a readable regular file,
/// together neither empty nor over the limit. The manifest lists each of them
/// with its size.
pub proof fn law_files_are_sent_whole(facts: Seq<FileFactView>, limit: u64, i: int)
    requires
        0 <= i < facts.len(),
    ensures
        manifest(facts).len() == facts.len(),
        manifest(facts)[i].bytes == facts[i].bytes,
        manifest(facts)[i].name == offered_name(facts[i].path),
        sendable(facts, limit) ==> facts[i].readable && facts[i].regular && facts.len() <= 64,
        sendable(facts, limit) ==> 1 <= declared(manifest(facts)) <= limit,
        (forall|j: int| 0 <= j < facts.len() ==> (#[trigger] facts[j]).readable && facts[j].regular)
            && facts.len() <= 64 && 1 <= declared(manifest(facts)) <= limit ==> sendable(facts, limit),
        !sendable(Seq::<FileFactView>::empty(), limit),
{
}

/// A file is offered by its name alone: whatever directory it lies in, the
/// peer learns nothing of it.
pub proof fn law_offered_name_tells_no_directory(dir: Seq<char>, name: Seq<char>)
    requires
        crate::filenames::plain(name),
    ensures
        offered_name(FilePathView::Text(crate::paths::joined_path(dir, name))) == name,
{
    crate::filenames::law_landing_stays_below(dir, name);
}

/// A clipboard change moves the clock of local copies, to its own time where
/// that is later, unless it is an echo; and it touches nothing else but the
/// registrations.
pub proof fn law_change_moves_the_clock_only(e: EngineView, event: EventView, now: u64)
    ensures
        ({
            let after = e.after_change(event, now);
            let echo = echo::is_echo(e.echo, event.hash, now);
            &&& echo ==> after.last_local_copy_ms == e.last_local_copy_ms
            &&& !echo && event.timestamp_ms > e.last_local_copy_ms ==> after.last_local_copy_ms
                == event.timestamp_ms
            &&& !echo && event.timestamp_ms <= e.last_local_copy_ms ==> after.last_local_copy_ms
                == e.last_local_copy_ms
            &&& !echo::is_echo(after.echo, event.hash, now)
            &&& EngineView { echo: e.echo, last_local_copy_ms: e.last_local_copy_ms, ..after } == e
        }),
{
    echo::law_echo_is_consumed_once(e.echo, event.hash, now, Seq::empty(), now);
}

/// The report of a copy and the order of a write carry what they are about
/// unchanged; the order's hash is that of the content to be written.
pub proof fn law_reports_are_faithful(
    e: EngineView,
    event: EventView,
    content: ContentView,
    from: PeerInfoView,
    timestamp_ms: u64,
)
    ensures
        ({
            let report = e.copy_report(event);
            let order = e.apply_event(content, from, timestamp_ms);
            &&& report is LocalCopied
            &&& report->LocalCopied_content == event.content
            &&& report->LocalCopied_hash == event.hash
            &&& report->LocalCopied_timestamp_ms == event.timestamp_ms
            &&& report->suppress_record == event.suppress_record
            &&& report->record_files_excluded == event.record_files_excluded
            &&& order is ApplyRemote
            &&& order->ApplyRemote_content == content
            &&& order->from == from
            &&& order->ApplyRemote_timestamp_ms == timestamp_ms
            &&& order->ApplyRemote_hash == content.hash()
        }),
{
}

/// Registering a write and taking it back touch nothing but the registrations.
pub proof fn law_echo_turns_touch_nothing_else(e: EngineView, hash: Seq<char>, now: u64)
    ensures
        (EngineView { echo: e.echo, ..e.registering(hash, now) }) == e,
        (EngineView { echo: e.echo, ..e.cancelling(hash, now) }) == e,
        !echo::is_echo(e.cancelling(hash, now).echo, hash, now),
{
    echo::law_echo_is_consumed_once(e.echo, hash, now, Seq::empty(), now);
}

/// A pairing request waits under its own fingerprint, with what the peer said
/// of itself and a number of its own; no other request, no pairing and no
/// switch changes.
pub proof fn law_request_waits(e: EngineView, remote: PeerInfoView, other: Seq<char>)
    requires
        other != remote.fingerprint,
    ensures
        ({
            let after = e.requested(remote);
            &&& after.pending.dom().contains(remote.fingerprint)
            &&& after.pending[remote.fingerprint].peer == remote
            &&& after.pending[remote.fingerprint].generation == e.pending_seq
            &&& after.pending_seq != e.pending_seq
            &&& after.pending.dom().contains(other) <==> e.pending.dom().contains(other)
            &&& e.pending.dom().contains(other) ==> after.pending[other] == e.pending[other]
            &&& EngineView { pending: e.pending, pending_seq: e.pending_seq, ..after } == e
        }),
{
    assert(e.pending_seq.wrapping_add(1) != e.pending_seq);
}

/// Settling a request pairs the device exactly when it was accepted, with its
/// ID, name and the time; a request of another generation keeps waiting, and
/// no other device's pairing or request changes.
pub proof fn law_settling_pairs_when_accepted(
    e: EngineView,
    remote: PeerInfoView,
    generation: u64,
    accepted: bool,
    now: u64,
    other: Seq<char>,
)
    requires
        other != remote.fingerprint,
    ensures
        ({
            let f = remote.fingerprint;
            let after = e.settled(remote, generation, accepted, now);
            &&& accepted ==> after.paired.dom().contains(f) && after.paired[f].fingerprint == f
                && after.paired[f].device_id == remote.device_id && after.paired[f].name == remote.name
                && after.paired[f].paired_at_ms == now
            &&& !accepted ==> after.paired == e.paired
            &&& after.paired.dom().contains(other) <==> e.paired.dom().contains(other)
            &&& e.paired.dom().contains(other) ==> after.paired[other] == e.paired[other]
            &&& after.pending.dom().contains(f) <==> e.pending.dom().contains(f) && e.pending[f].generation
                != generation
            &&& after.pending.dom().contains(f) ==> after.pending[f] == e.pending[f]
            &&& after.pending.dom().contains(other) <==> e.pending.dom().contains(other)
            &&& e.pending.dom().contains(other) ==> after.pending[other] == e.pending[other]
            &&& EngineView { pending: e.pending, paired: e.paired, ..after } == e
        }),
{
}

/// Unpairing takes that pairing away and no other, and changes nothing else.
pub proof fn law_unpairing_is_exact(e: EngineView, fingerprint: Seq<char>, other: Seq<char>)
    requires
        other != fingerprint,
    ensures
        ({
            let after = e.unpaired(fingerprint);
            &&& !after.paired.dom().contains(fingerprint)
            &&& !after.is_target(fingerprint)
            &&& after.paired.dom().contains(other) <==> e.paired.dom().contains(other)
            &&& e.paired.dom().contains(other) ==> after.paired[other] == e.paired[other]
            &&& EngineView { paired: e.paired, ..after } == e
        }),
{
}

/// A broadcast goes to every device that is paired and online, to each once,
/// and to no other; where there is none it goes nowhere.
pub proof fn law_broadcast_reaches_paired_and_online(e: EngineView, list: Seq<PeerView>, k: Seq<char>)
    requires
        targets_of(e, list),
    ensures
        ({
            let goes = e.paired.dom().contains(k) && e.discovery.nodes.dom().contains(k);
            &&& goes <==> exists|i: int| 0 <= i < list.len() && (#[trigger] list[i]).info.fingerprint == k
            &&& goes ==> e.has_target()
            &&& forall|i: int, j: int|
                0 <= i < j < list.len() ==> (#[trigger] list[i]).info.fingerprint != (
                #[trigger] list[j]).info.fingerprint
            &&& e.has_target() ==> list.len() > 0
        }),
{
    let f = crate::discovery::fingerprints(list);
    let p = |x: Seq<char>| e.is_target(x);
    assert(p(k) <==> f.contains(k));
    if f.contains(k) {
        let i = choose|i: int| 0 <= i < f.len() && f[i] == k;
        assert(list[i].info.fingerprint == k);
    }
    if exists|i: int| 0 <= i < list.len() && (#[trigger] list[i]).info.fingerprint == k {
        let i = choose|i: int| 0 <= i < list.len() && (#[trigger] list[i]).info.fingerprint == k;
        assert(f[i] == k);
    }
    if e.paired.dom().contains(k) && e.discovery.nodes.dom().contains(k) {
        assert(e.is_target(k));
    }
    assert forall|i: int, j: int| 0 <= i < j < list.len() implies (#[trigger] list[i]).info.fingerprint != (
    #[trigger] list[j]).info.fingerprint by {
        assert(f[i] != f[j]);
    }
    if e.has_target() {
        let x = choose|x: Seq<char>| #[trigger] e.is_target(x);
        assert(p(x));
        assert(f.contains(x));
    }
}

/// The four directions: off is neither way, and the names are the settings'.
pub proof fn law_directions(m: SyncMode)
    ensures
        m == SyncMode::Off ==> !m.sending() && !m.receiving() && m.name() == "off"@,
        m == SyncMode::Both ==> m.sending() && m.receiving() && m.name() == "both"@,
        m == SyncMode::Send ==> m.sending() && !m.receiving() && m.name() == "send"@,
        m == SyncMode::Receive ==> !m.sending() && m.receiving() && m.name() == "receive"@,
{
}

/// The text of an error tells its detail, where it has one.
pub proof fn law_error_texts_tell_the_detail(detail: Seq<char>, inner: ProtocolErrorView)
    ensures
        text::has_suffix(SyncErrorView::Discovery(detail).message(), detail),
        text::has_suffix(SyncErrorView::Identity(detail).message(), detail),
        text::has_suffix(SyncErrorView::Tls(detail).message(), detail),
        text::has_suffix(SyncErrorView::Io(detail).message(), detail),
        text::has_suffix(SyncErrorView::Rejected(detail).message(), detail),
        text::has_suffix(SyncErrorView::Protocol(inner).message(), inner.message()),
        text::occurs(detail, SyncErrorView::Timeout(detail).message()),
        text::has_suffix((ProtocolErrorView::Codec(detail)).message(), detail),
        text::has_suffix((ProtocolErrorView::Io(detail)).message(), detail),
{
    let none = Seq::<char>::empty();
    text::law_occurrence(detail, "发现服务错误: "@, none, none);
    text::law_occurrence(detail, "设备身份错误: "@, none, none);
    text::law_occurrence(detail, "TLS 错误: "@, none, none);
    text::law_occurrence(detail, "IO 错误: "@, none, none);
    text::law_occurrence(detail, "对端拒绝同步: "@, none, none);
    text::law_occurrence(detail, "消息编解码失败: "@, none, none);
    text::law_occurrence(inner.message(), "协议错误: "@, none, none);
    text::law_occurrence(detail, "等待 "@, " 超时"@, none);
}

} // verus!
