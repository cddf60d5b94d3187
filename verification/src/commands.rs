//! What the commands of the desktop shell decide: errors, device lists,
//! settings changes and restores.

use vstd::prelude::*;
use crate::discovery::{Peer, PeerView};
use crate::history::{EntryView, HistoryEntry, KIND_FILES, KIND_IMAGE, KIND_TEXT};
use crate::order::{self, text_less, Ranked};
use crate::paired::{PairedPeer, PairedPeerView};
use crate::protocol::{
    PeerInfo, CHECKSUM_MISMATCH, DISABLED, IDENTITY_MISMATCH, NOT_PAIRED, TOO_LARGE,
    UNSUPPORTED_TYPE, UNSUPPORTED_VERSION,
};
use crate::settings::{
    self, record_reopened, sync_reopened, Settings, SettingsView,
};
use crate::sync::{SyncError, SyncErrorView};
use crate::text::{self, decimal_text, head, opt_view, trimmed, views};

verus! {

/// A structured error: a stable code and an untranslated detail.
#[derive(Debug, PartialEq, Eq)]
pub struct ErrDto {
    /// Stable error code
    pub code: &'static str,
    /// Raw detail
    pub detail: Option<String>,
}

/// What an [`ErrDto`] stands for.
#[verifier::ext_equal]
pub struct ErrView {
    pub code: Seq<char>,
    pub detail: Option<Seq<char>>,
}

impl View for ErrDto {
    type V = ErrView;

    open spec fn view(&self) -> ErrView {
        ErrView { code: self.code@, detail: opt_view(self.detail) }
    }
}

/// An error without a detail.
pub open spec fn plain(code: Seq<char>) -> ErrView {
    ErrView { code, detail: None }
}

/// An error with a detail.
pub open spec fn detailed(code: Seq<char>, detail: Seq<char>) -> ErrView {
    ErrView { code, detail: Some(detail) }
}

/// The error shown for a refusal: the codes of the protocol pass through.
pub open spec fn refusal_error(code: Seq<char>) -> ErrView {
    if code == NOT_PAIRED@ || code == TOO_LARGE@ || code == DISABLED@ || code == UNSUPPORTED_TYPE@ || code
        == CHECKSUM_MISMATCH@ || code == IDENTITY_MISMATCH@ || code == UNSUPPORTED_VERSION@ {
        plain(code)
    } else {
        detailed("rejected"@, code)
    }
}

/// The error shown for a sync error.
pub open spec fn shown_error(e: SyncErrorView) -> ErrView {
    match e {
        SyncErrorView::PeerUnreachable => plain("peer_unreachable"@),
        SyncErrorView::PairRejected => plain("pair_rejected"@),
        SyncErrorView::FingerprintMismatch => plain("fingerprint_mismatch"@),
        SyncErrorView::Timeout(step) => detailed("timeout"@, step),
        SyncErrorView::Rejected(code) => refusal_error(code),
        other => detailed("engine"@, other.message()),
    }
}

impl ErrDto {
    /// Code only.
    pub fn new(code: &'static str) -> (r: ErrDto)
        ensures
            r@ == plain(code@),
    {
        ErrDto { code, detail: None }
    }

    /// Code and detail.
    pub fn with(code: &'static str, detail: &str) -> (r: ErrDto)
        ensures
            r@ == detailed(code@, detail@),
    {
        ErrDto { code, detail: Some(detail.to_owned()) }
    }

    /// The text of the error.
    pub fn message(&self) -> (r: String)
        ensures
            r@ == (match self@.detail {
                Some(detail) => self@.code + ": "@ + detail,
                None => self@.code,
            }),
    {
        match &self.detail {
            Some(detail) => {
                let head = text::join(self.code, ": ");
                text::join(head.as_str(), detail.as_str())
            },
            None => self.code.to_owned(),
        }
    }

    fn of_refusal(code: &str) -> (r: ErrDto)
        ensures
            r@ == refusal_error(code@),
    {
        if text::same(code, NOT_PAIRED) {
            ErrDto::new(NOT_PAIRED)
        } else if text::same(code, TOO_LARGE) {
            ErrDto::new(TOO_LARGE)
        } else if text::same(code, DISABLED) {
            ErrDto::new(DISABLED)
        } else if text::same(code, UNSUPPORTED_TYPE) {
            ErrDto::new(UNSUPPORTED_TYPE)
        } else if text::same(code, CHECKSUM_MISMATCH) {
            ErrDto::new(CHECKSUM_MISMATCH)
        } else if text::same(code, IDENTITY_MISMATCH) {
            ErrDto::new(IDENTITY_MISMATCH)
        } else if text::same(code, UNSUPPORTED_VERSION) {
            ErrDto::new(UNSUPPORTED_VERSION)
        } else {
            ErrDto::with("rejected", code)
        }
    }

    /// The error shown for a sync error.
    pub fn of(err: &SyncError) -> (r: ErrDto)
        ensures
            r@ == shown_error(err@),
    {
        match err {
            SyncError::PeerUnreachable => ErrDto::new("peer_unreachable"),
            SyncError::PairRejected => ErrDto::new("pair_rejected"),
            SyncError::FingerprintMismatch => ErrDto::new("fingerprint_mismatch"),
            SyncError::Timeout(step) => ErrDto::with("timeout", step.as_str()),
            SyncError::Rejected(code) => ErrDto::of_refusal(code.as_str()),
            other => {
                let message = other.message();
                ErrDto::with("engine", message.as_str())
            },
        }
    }
}

/// The local device.
#[derive(Debug, PartialEq, Eq)]
pub struct SelfInfoDto {
    /// Display name
    pub name: String,
    /// Device ID
    pub device_id: String,
    /// Certificate fingerprint
    pub fingerprint: String,
    /// Platform tag
    pub platform: String,
    /// Port listened on
    pub port: u16,
}

impl SelfInfoDto {
    /// The local device as the engine knows it.
    pub fn of(info: PeerInfo, port: u16) -> (r: SelfInfoDto)
        ensures
            r.name@ == info@.name,
            r.device_id@ == info@.device_id,
            r.fingerprint@ == info@.fingerprint,
            r.platform@ == info@.platform,
            r.port == port,
    {
        SelfInfoDto {
            name: info.name,
            device_id: info.device_id,
            fingerprint: info.fingerprint,
            platform: info.platform,
            port,
        }
    }
}

/// A device of the list: online, paired, or both.
#[derive(Debug, PartialEq, Eq)]
pub struct DeviceDto {
    /// Display name
    pub name: String,
    /// Certificate fingerprint: the key
    pub fingerprint: String,
    /// Platform tag, known while online
    pub platform: Option<String>,
    /// OS version, known while online
    pub os_version: Option<String>,
    /// Whether it is online
    pub online: bool,
    /// Whether it is paired
    pub paired: bool,
}

/// What a [`DeviceDto`] stands for.
#[verifier::ext_equal]
pub struct DeviceView {
    pub name: Seq<char>,
    pub fingerprint: Seq<char>,
    pub platform: Option<Seq<char>>,
    pub os_version: Option<Seq<char>>,
    pub online: bool,
    pub paired: bool,
}

impl View for DeviceDto {
    type V = DeviceView;

    open spec fn view(&self) -> DeviceView {
        DeviceView {
            name: self.name@,
            fingerprint: self.fingerprint@,
            platform: opt_view(self.platform),
            os_version: opt_view(self.os_version),
            online: self.online,
            paired: self.paired,
        }
    }
}

impl DeviceView {
    /// List order: online devices first, then by name.
    pub open spec fn listed_before(self, other: DeviceView) -> bool {
        if self.online != other.online {
            self.online
        } else {
            text_less(self.name, other.name)
        }
    }
}

impl Ranked for DeviceDto {
    open spec fn rank_less(&self, other: &Self) -> bool {
        self@.listed_before(other@)
    }

    proof fn lemma_rank(a: &Self, b: &Self, c: &Self) {
        order::lemma_text_order(a.name@, b.name@, c.name@);
    }

    fn is_less(&self, other: &Self) -> (r: bool) {
        if self.online != other.online {
            self.online
        } else {
            order::is_text_less(self.name.as_str(), other.name.as_str())
        }
    }
}

/// Whether the fingerprint is among the pairings.
pub open spec fn is_paired_with(paired: Seq<PairedPeerView>, fingerprint: Seq<char>) -> bool {
    exists|i: int| 0 <= i < paired.len() && (#[trigger] paired[i]).fingerprint == fingerprint
}

/// Whether the fingerprint is among the devices.
pub open spec fn is_listed(devices: Seq<DeviceView>, fingerprint: Seq<char>) -> bool {
    exists|i: int| 0 <= i < devices.len() && (#[trigger] devices[i]).fingerprint == fingerprint
}

/// An online device.
pub open spec fn online_device(peer: PeerView, paired: Seq<PairedPeerView>) -> DeviceView {
    DeviceView {
        name: peer.info.name,
        fingerprint: peer.info.fingerprint,
        platform: Some(peer.info.platform),
        os_version: peer.info.os_version,
        online: true,
        paired: is_paired_with(paired, peer.info.fingerprint),
    }
}

/// A paired device that is offline: the name is that at pairing time.
pub open spec fn offline_device(record: PairedPeerView) -> DeviceView {
    DeviceView {
        name: record.name,
        fingerprint: record.fingerprint,
        platform: None,
        os_version: None,
        online: false,
        paired: true,
    }
}

/// The devices with the pairings that are not among them yet.
pub open spec fn with_offline(devices: Seq<DeviceView>, paired: Seq<PairedPeerView>) -> Seq<DeviceView>
    decreases paired.len(),
{
    if paired.len() == 0 {
        devices
    } else {
        let before = with_offline(devices, paired.drop_last());
        if is_listed(before, paired.last().fingerprint) {
            before
        } else {
            before.push(offline_device(paired.last()))
        }
    }
}

/// All devices, in no particular order.
pub open spec fn all_devices(peers: Seq<PeerView>, paired: Seq<PairedPeerView>) -> Seq<DeviceView> {
    with_offline(peers.map_values(|p: PeerView| online_device(p, paired)), paired)
}

/// Whether place `a` of the devices goes before place `b`.
pub open spec fn device_precedes(all: Seq<DeviceView>, a: int, b: int) -> bool {
    all[a].listed_before(all[b]) || (!all[b].listed_before(all[a]) && a < b)
}

/// `list` holds the devices in list order, equals as they came.
pub open spec fn is_device_list(all: Seq<DeviceView>, list: Seq<DeviceView>) -> bool {
    exists|p: Seq<usize>| #[trigger] lists_by(all, list, p)
}

/// `list` holds the devices at the places `p`, which is every place once, in
/// list order.
pub open spec fn lists_by(all: Seq<DeviceView>, list: Seq<DeviceView>, p: Seq<usize>) -> bool {
    &&& p.len() == all.len()
    &&& list.len() == all.len()
    &&& forall|i: int| 0 <= i < p.len() ==> 0 <= #[trigger] p[i] < all.len() && list[i] == all[p[i] as int]
    &&& forall|k: usize| 0 <= k < all.len() ==> #[trigger] p.contains(k)
    &&& forall|i: int, j: int|
        0 <= i < j < p.len() ==> device_precedes(all, #[trigger] p[i] as int, #[trigger] p[j] as int)
}

fn paired_with(paired: &Vec<PairedPeer>, fingerprint: &str) -> (r: bool)
    ensures
        r == is_paired_with(views(paired@), fingerprint@),
{
    let ghost all = views(paired@);
    let mut i: usize = 0;
    while i < paired.len()
        invariant
            i <= paired.len(),
            all == views(paired@),
            forall|j: int| 0 <= j < i ==> (#[trigger] all[j]).fingerprint != fingerprint@,
        decreases paired.len() - i,
    {
        proof {
            assert(all[i as int] == paired@[i as int]@);
        }
        if text::same(paired[i].fingerprint.as_str(), fingerprint) {
            proof {
                assert(all[i as int].fingerprint == fingerprint@);
            }
            return true;
        }
        i += 1;
    }
    false
}

fn listed(devices: &Vec<DeviceDto>, fingerprint: &str) -> (r: bool)
    ensures
        r == is_listed(views(devices@), fingerprint@),
{
    let ghost all = views(devices@);
    let mut i: usize = 0;
    while i < devices.len()
        invariant
            i <= devices.len(),
            all == views(devices@),
            forall|j: int| 0 <= j < i ==> (#[trigger] all[j]).fingerprint != fingerprint@,
        decreases devices.len() - i,
    {
        proof {
            assert(all[i as int] == devices@[i as int]@);
        }
        if text::same(devices[i].fingerprint.as_str(), fingerprint) {
            proof {
                assert(all[i as int].fingerprint == fingerprint@);
            }
            return true;
        }
        i += 1;
    }
    false
}

fn duplicate_device(d: &DeviceDto) -> (r: DeviceDto)
    ensures
        r@ == d@,
{
    DeviceDto {
        name: d.name.clone(),
        fingerprint: d.fingerprint.clone(),
        platform: text::clone_opt(&d.platform),
        os_version: text::clone_opt(&d.os_version),
        online: d.online,
        paired: d.paired,
    }
}

fn gather(peers: &Vec<Peer>, paired: &Vec<PairedPeer>) -> (r: Vec<DeviceDto>)
    ensures
        views(r@) == all_devices(views(peers@), views(paired@)),
{
    let ghost known = views(paired@);
    let ghost online = views(peers@).map_values(|p: PeerView| online_device(p, known));
    let mut devices: Vec<DeviceDto> = Vec::new();
    let mut i: usize = 0;
    while i < peers.len()
        invariant
            i <= peers.len(),
            known == views(paired@),
            devices.len() == i,
            forall|j: int|
                0 <= j < i ==> (#[trigger] devices@[j])@ == online_device(peers@[j]@, known),
        decreases peers.len() - i,
    {
        let info = &peers[i].info;
        devices.push(
            DeviceDto {
                name: info.name.clone(),
                fingerprint: info.fingerprint.clone(),
                platform: Some(info.platform.clone()),
                os_version: text::clone_opt(&info.os_version),
                online: true,
                paired: paired_with(paired, info.fingerprint.as_str()),
            },
        );
        i += 1;
    }
    proof {
        assert(views(devices@) =~= online);
        assert(known.take(0) =~= Seq::<PairedPeerView>::empty());
    }
    let mut k: usize = 0;
    while k < paired.len()
        invariant
            k <= paired.len(),
            known == views(paired@),
            views(devices@) == with_offline(online, known.take(k as int)),
        decreases paired.len() - k,
    {
        let ghost before = devices@;
        proof {
            assert(known.take(k + 1).drop_last() =~= known.take(k as int));
            assert(known[k as int] == paired@[k as int]@);
        }
        if !listed(&devices, paired[k].fingerprint.as_str()) {
            devices.push(
                DeviceDto {
                    name: paired[k].name.clone(),
                    fingerprint: paired[k].fingerprint.clone(),
                    platform: None,
                    os_version: None,
                    online: false,
                    paired: true,
                },
            );
            proof {
                assert(views(devices@) =~= views(before).push(offline_device(known[k as int])));
            }
        }
        k += 1;
    }
    proof {
        assert(known.take(paired.len() as int) =~= known);
    }
    devices
}

/// The device list: online peers and paired devices, online ones first, each
/// group by name.
pub fn list_devices(peers: &Vec<Peer>, paired: &Vec<PairedPeer>) -> (r: Vec<DeviceDto>)
    ensures
        is_device_list(all_devices(views(peers@), views(paired@)), views(r@)),
{
    let devices = gather(peers, paired);
    let ghost all = views(devices@);
    let p = order::sorted_places(&devices);
    let mut out: Vec<DeviceDto> = Vec::new();
    let mut i: usize = 0;
    while i < p.len()
        invariant
            i <= p.len(),
            order::stable_order(devices@, p@),
            out.len() == i,
            forall|j: int| 0 <= j < i ==> (#[trigger] out@[j])@ == devices@[p@[j] as int]@,
        decreases p.len() - i,
    {
        let k: usize = p[i];
        out.push(duplicate_device(&devices[k]));
        i += 1;
    }
    proof {
        let list = views(out@);
        assert forall|i: int| 0 <= i < p@.len() implies 0 <= #[trigger] p@[i] < all.len() && list[i]
            == all[p@[i] as int] by {
            assert(out@[i]@ == devices@[p@[i] as int]@);
        }
        assert forall|i: int, j: int| 0 <= i < j < p@.len() implies device_precedes(
            all,
            #[trigger] p@[i] as int,
            #[trigger] p@[j] as int,
        ) by {
            assert(order::precedes(devices@, p@[i] as int, p@[j] as int));
        }
        assert(lists_by(all, list, p@));
    }
    out
}

/// Online devices come first, and a device list has every device.
pub proof fn law_device_list_order(all: Seq<DeviceView>, list: Seq<DeviceView>, i: int, j: int)
    requires
        is_device_list(all, list),
        0 <= i < j < list.len(),
    ensures
        list.len() == all.len(),
        list[j].online ==> list[i].online,
        list[i].online == list[j].online ==> !text_less(list[j].name, list[i].name),
{
    let p = choose|p: Seq<usize>| #[trigger] lists_by(all, list, p);
    assert(device_precedes(all, p[i] as int, p[j] as int));
    order::lemma_text_order(list[i].name, list[j].name, list[i].name);
}

/// Every pairing is in the device list.
pub proof fn law_paired_devices_are_listed(peers: Seq<PeerView>, paired: Seq<PairedPeerView>, k: int)
    requires
        0 <= k < paired.len(),
    ensures
        is_listed(all_devices(peers, paired), paired[k].fingerprint),
{
    let online = peers.map_values(|p: PeerView| online_device(p, paired));
    lemma_pairing_listed(online, paired, k);
}

proof fn lemma_pairing_listed(devices: Seq<DeviceView>, paired: Seq<PairedPeerView>, k: int)
    requires
        0 <= k < paired.len(),
    ensures
        is_listed(with_offline(devices, paired), paired[k].fingerprint),
    decreases paired.len(),
{
    let before = with_offline(devices, paired.drop_last());
    let now = with_offline(devices, paired);
    if k < paired.len() - 1 {
        lemma_pairing_listed(devices, paired.drop_last(), k);
        let i = choose|i: int|
            0 <= i < before.len() && (#[trigger] before[i]).fingerprint == paired[k].fingerprint;
        assert(now[i] == before[i]);
    } else if !is_listed(before, paired.last().fingerprint) {
        assert(now[before.len() as int] == offline_device(paired.last()));
    }
}

/// The display name that a request asks for; a blank one reverts to the host
/// name.
pub fn chosen_name(name: Option<String>) -> (r: Option<String>)
    ensures
        opt_view(r) == (match opt_view(name) {
            Some(n) => if trimmed(n).len() == 0 {
                None
            } else {
                Some(n)
            },
            None => None,
        }),
{
    match name {
        None => None,
        Some(n) => {
            let t = text::trim(n.as_str());
            let chars: Vec<char> = text::chars_of(t.as_str());
            if chars.len() == 0 {
                None
            } else {
                Some(n)
            }
        },
    }
}

/// Render cap of a text preview, in characters.
pub const PREVIEW_TEXT_MAX_CHARS: usize = 20_000;

/// A text for the preview card.
#[derive(Debug, PartialEq, Eq)]
pub struct EntryTextDto {
    /// The text, cut to the render cap
    pub text: String,
    /// Length of the whole text in characters
    pub total_chars: usize,
    /// Whether it was cut
    pub truncated: bool,
}

/// The text for the preview card, given what the history holds.
pub fn entry_text_dto(found: Option<(String, usize)>) -> (r: Result<EntryTextDto, ErrDto>)
    ensures
        match (found, r) {
            (Some(shown), Ok(dto)) => dto.text@ == shown.0@ && dto.total_chars == shown.1
                && dto.truncated == (shown.1 > PREVIEW_TEXT_MAX_CHARS),
            (None, Err(e)) => e@ == plain("history_missing"@),
            _ => false,
        },
{
    match found {
        None => Err(ErrDto::new("history_missing")),
        Some((text, total_chars)) => Ok(
            EntryTextDto { truncated: total_chars > PREVIEW_TEXT_MAX_CHARS, text, total_chars },
        ),
    }
}

/// What a restore writes to the clipboard.
#[derive(Debug, PartialEq, Eq)]
pub enum Restore {
    /// A text
    Text(String),
    /// An image, by the hash of its payload
    Image(String),
    /// File references, which have to exist
    Files(Vec<String>),
}

/// What a [`Restore`] stands for.
#[verifier::ext_equal]
pub enum RestoreView {
    Text(Seq<char>),
    Image(Seq<char>),
    Files(Seq<Seq<char>>),
}

impl View for Restore {
    type V = RestoreView;

    open spec fn view(&self) -> RestoreView {
        match *self {
            Restore::Text(t) => RestoreView::Text(t@),
            Restore::Image(h) => RestoreView::Image(h@),
            Restore::Files(f) => RestoreView::Files(views(f@)),
        }
    }
}

/// What restoring an entry writes; nothing when the entry is not there, is of
/// an unknown type or lacks its content.
pub open spec fn restore_of(entry: Option<EntryView>) -> Option<RestoreView> {
    match entry {
        None => None,
        Some(e) => if e.kind == KIND_TEXT@ {
            match e.text {
                Some(t) => Some(RestoreView::Text(t)),
                None => None,
            }
        } else if e.kind == KIND_IMAGE@ {
            match e.blob_hash {
                Some(h) => Some(RestoreView::Image(h)),
                None => None,
            }
        } else if e.kind == KIND_FILES@ {
            match e.files {
                Some(f) => Some(RestoreView::Files(f)),
                None => None,
            }
        } else {
            None
        },
    }
}

/// What restoring an entry writes to the clipboard.
pub fn restore_entry(entry: Option<HistoryEntry>) -> (r: Result<Restore, ErrDto>)
    ensures
        match r {
            Ok(what) => restore_of(opt_view(entry)) == Some(what@),
            Err(e) => restore_of(opt_view(entry)) is None && e@ == plain("history_missing"@),
        },
{
    match entry {
        None => Err(ErrDto::new("history_missing")),
        Some(e) => {
            if text::same(e.kind.as_str(), KIND_TEXT) {
                match e.text {
                    Some(t) => Ok(Restore::Text(t)),
                    None => Err(ErrDto::new("history_missing")),
                }
            } else if text::same(e.kind.as_str(), KIND_IMAGE) {
                match e.blob_hash {
                    Some(h) => Ok(Restore::Image(h)),
                    None => Err(ErrDto::new("history_missing")),
                }
            } else if text::same(e.kind.as_str(), KIND_FILES) {
                match e.files {
                    Some(f) => Ok(Restore::Files(f)),
                    None => Err(ErrDto::new("history_missing")),
                }
            } else {
                Err(ErrDto::new("history_missing"))
            }
        },
    }
}

/// Whether the files of a restore can be written; they all have to exist.
pub fn check_files(all_exist: bool) -> (r: Result<(), ErrDto>)
    ensures
        match r {
            Ok(_) => all_exist,
            Err(e) => !all_exist && e@ == plain("files_missing"@),
        },
{
    if all_exist {
        Ok(())
    } else {
        Err(ErrDto::new("files_missing"))
    }
}

/// The payload hash of an image entry.
pub fn image_hash(entry: Option<HistoryEntry>) -> (r: Result<String, ErrDto>)
    ensures
        match r {
            Ok(hash) => opt_view(entry) is Some && opt_view(entry)->0.blob_hash == Some(hash@),
            Err(e) => e@ == plain("history_missing"@) && (opt_view(entry) is None || opt_view(
                entry,
            )->0.blob_hash is None),
        },
{
    match entry {
        None => Err(ErrDto::new("history_missing")),
        Some(e) => match e.blob_hash {
            Some(hash) => Ok(hash),
            None => Err(ErrDto::new("history_missing")),
        },
    }
}

/// What saving new settings entails.
#[derive(PartialEq, Eq, Structural, Clone, Copy, Debug)]
pub struct SavePlan {
    /// The hotkeys have to be registered anew, before anything is saved
    pub hotkeys_changed: bool,
    /// The login item has to be switched to this
    pub autostart: Option<bool>,
    /// The engine and the windows have to learn of the direction
    pub sync_changed: bool,
    /// The ignore rules have to be compiled anew
    pub ignore_changed: bool,
    /// The watcher has to forget what it saw last
    pub reset_dedupe: bool,
    /// Whether the watcher reads the pixels of images
    pub needs_pixels: bool,
    /// The tray menu has to be refreshed
    pub refresh_tray: bool,
}

/// What saving new settings entails.
pub open spec fn save_plan_of(old: SettingsView, new: SettingsView) -> SavePlan {
    SavePlan {
        hotkeys_changed: old.panel_hotkey != new.panel_hotkey || old.slot_hotkeys != new.slot_hotkeys
            || old.slot_modifier != new.slot_modifier,
        autostart: if old.autostart != new.autostart {
            Some(new.autostart)
        } else {
            None
        },
        sync_changed: old.sync_mode != new.sync_mode,
        ignore_changed: old.ignore != new.ignore,
        reset_dedupe: record_reopened(old, new) || sync_reopened(old, new),
        needs_pixels: new.needs_pixels(),
        refresh_tray: old.language != new.language || old.sync_mode != new.sync_mode,
    }
}

/// Works out what saving new settings entails. The new ones are put into
/// canonical form first.
pub fn plan_save(current: &Settings, next: &mut Settings) -> (r: SavePlan)
    ensures
        final(next)@ == old(next)@.normalized(),
        r == save_plan_of(current@, old(next)@.normalized()),
{
    next.normalize();
    SavePlan {
        hotkeys_changed: !text::same(current.panel_hotkey.as_str(), next.panel_hotkey.as_str())
            || current.slot_hotkeys != next.slot_hotkeys || !text::same(
            current.slot_modifier.as_str(),
            next.slot_modifier.as_str(),
        ),
        autostart: if current.autostart != next.autostart {
            Some(next.autostart)
        } else {
            None
        },
        sync_changed: !text::same(current.sync_mode.as_str(), next.sync_mode.as_str()),
        ignore_changed: !current.ignore.same(&next.ignore),
        reset_dedupe: settings::record_resumed(current, next) || settings::sync_resumed(current, next),
        needs_pixels: next.needs_pixels(),
        refresh_tray: !text::same(current.language.as_str(), next.language.as_str()) || !text::same(
            current.sync_mode.as_str(),
            next.sync_mode.as_str(),
        ),
    }
}

/// How a save ends.
#[derive(Debug, PartialEq, Eq)]
pub enum SaveEnd {
    /// The side effects are applied
    Apply,
    /// Nothing takes effect; whether the old hotkeys have to come back
    Fail { restore_hotkeys: bool, error: ErrDto },
}

/// What a [`SaveEnd`] stands for.
#[verifier::ext_equal]
pub enum SaveEndView {
    Apply,
    Fail { restore_hotkeys: bool, error: ErrView },
}

impl View for SaveEnd {
    type V = SaveEndView;

    open spec fn view(&self) -> SaveEndView {
        match *self {
            SaveEnd::Apply => SaveEndView::Apply,
            SaveEnd::Fail { restore_hotkeys, error } => SaveEndView::Fail {
                restore_hotkeys,
                error: error@,
            },
        }
    }
}

/// How a save ends.
pub open spec fn save_end(
    hotkeys_changed: bool,
    hotkey_error: Option<Seq<char>>,
    save_error: Option<Seq<char>>,
) -> SaveEndView {
    match (hotkey_error, save_error) {
        (Some(e), _) => SaveEndView::Fail {
            restore_hotkeys: true,
            error: detailed("hotkey_invalid"@, e),
        },
        (None, Some(e)) => SaveEndView::Fail {
            restore_hotkeys: hotkeys_changed,
            error: detailed("settings_save_failed"@, e),
        },
        (None, None) => SaveEndView::Apply,
    }
}

/// How a save ends, given the errors of the steps that can fail. A save that
/// fails leaves no side effect.
pub fn conclude_save(plan: &SavePlan, hotkey_error: Option<String>, save_error: Option<String>) -> (r: SaveEnd)
    ensures
        r@ == save_end(plan.hotkeys_changed, opt_view(hotkey_error), opt_view(save_error)),
{
    match hotkey_error {
        Some(e) => SaveEnd::Fail {
            restore_hotkeys: true,
            error: ErrDto::with("hotkey_invalid", e.as_str()),
        },
        None => match save_error {
            Some(e) => SaveEnd::Fail {
                restore_hotkeys: plan.hotkeys_changed,
                error: ErrDto::with("settings_save_failed", e.as_str()),
            },
            None => SaveEnd::Apply,
        },
    }
}

/// The number of slots with a hotkey.
pub const SLOTS: u8 = 6;

/// The hotkey of a slot.
pub fn slot_hotkey(modifier: &str, n: u8) -> (r: String)
    ensures
        r@ == modifier@ + "+"@ + decimal_text(n as nat),
{
    let head = text::join(modifier, "+");
    let number = text::decimal(n as u64);
    text::join(head.as_str(), number.as_str())
}

/// The slots whose hotkey could not be registered: `registered` says so of
/// each slot in turn, from slot 1 on.
pub open spec fn failed_slots(registered: Seq<bool>) -> Seq<u8>
    decreases registered.len(),
{
    if registered.len() == 0 {
        Seq::empty()
    } else {
        let before = failed_slots(registered.drop_last());
        if registered.last() {
            before
        } else {
            before.push(registered.len() as u8)
        }
    }
}

/// The slots whose hotkey could not be registered.
pub fn slot_failures(registered: &Vec<bool>) -> (r: Vec<u8>)
    requires
        registered.len() <= SLOTS,
    ensures
        r@ == failed_slots(registered@),
{
    let mut out: Vec<u8> = Vec::new();
    let mut i: usize = 0;
    while i < registered.len()
        invariant
            i <= registered.len(),
            registered.len() <= SLOTS,
            out@ == failed_slots(registered@.take(i as int)),
        decreases registered.len() - i,
    {
        proof {
            assert(registered@.take(i + 1).drop_last() =~= registered@.take(i as int));
        }
        i += 1;
        if !registered[i - 1] {
            out.push(i as u8);
        }
    }
    proof {
        assert(registered@.take(registered.len() as int) =~= registered@);
    }
    out
}

/// The backdrop of a window that has not painted yet: red, green, blue, alpha.
pub fn theme_backdrop(dark: bool) -> (r: (u8, u8, u8, u8))
    ensures
        r == (if dark {
            (0x10u8, 0x14u8, 0x25u8, 0xffu8)
        } else {
            (0xeeu8, 0xf1u8, 0xfau8, 0xffu8)
        }),
{
    if dark {
        (0x10, 0x14, 0x25, 0xff)
    } else {
        (0xee, 0xf1, 0xfa, 0xff)
    }
}

/// Errors are told by their code: a refusal that the protocol knows under its own
/// code, another one as such with the code for a detail.
pub proof fn law_errors_are_told_by_code(e: SyncErrorView, code: Seq<char>, step: Seq<char>)
    ensures
        shown_error(SyncErrorView::PeerUnreachable) == (ErrView {
            code: "peer_unreachable"@,
            detail: None,
        }),
        shown_error(SyncErrorView::PairRejected) == (ErrView { code: "pair_rejected"@, detail: None }),
        shown_error(SyncErrorView::FingerprintMismatch) == (ErrView {
            code: "fingerprint_mismatch"@,
            detail: None,
        }),
        shown_error(SyncErrorView::Timeout(step)) == (ErrView {
            code: "timeout"@,
            detail: Some(step),
        }),
        code == "not_paired"@ || code == "too_large"@ || code == "disabled"@ || code
            == "unsupported_type"@ || code == "checksum_mismatch"@ || code == "identity_mismatch"@
            || code == "unsupported_version"@ ==> shown_error(SyncErrorView::Rejected(code)) == (
        ErrView { code, detail: None }),
        code != "not_paired"@ && code != "too_large"@ && code != "disabled"@ && code
            != "unsupported_type"@ && code != "checksum_mismatch"@ && code != "identity_mismatch"@
            && code != "unsupported_version"@ ==> shown_error(SyncErrorView::Rejected(code)) == (
        ErrView { code: "rejected"@, detail: Some(code) }),
        !(e is PeerUnreachable) && !(e is PairRejected) && !(e is FingerprintMismatch) && !(
        e is Timeout) && !(e is Rejected) ==> shown_error(e) == (ErrView {
            code: "engine"@,
            detail: Some(e.message()),
        }),
{
}

proof fn lemma_with_offline(devices: Seq<DeviceView>, paired: Seq<PairedPeerView>)
    ensures
        with_offline(devices, paired).len() >= devices.len(),
        with_offline(devices, paired).take(devices.len() as int) == devices,
        forall|i: int|
            devices.len() <= i < with_offline(devices, paired).len() ==> exists|k: int|
                0 <= k < paired.len() && #[trigger] with_offline(devices, paired)[i] == offline_device(
                    #[trigger] paired[k],
                ),
        forall|i: int, j: int|
            0 <= i < j < with_offline(devices, paired).len() && devices.len() <= j ==> (
            #[trigger] with_offline(devices, paired)[i]).fingerprint != (#[trigger] with_offline(
                devices,
                paired,
            )[j]).fingerprint,
    decreases paired.len(),
{
    let now = with_offline(devices, paired);
    if paired.len() == 0 {
        assert(now.take(devices.len() as int) =~= devices);
    } else {
        let rest = paired.drop_last();
        let before = with_offline(devices, rest);
        let n = paired.len() - 1;
        lemma_with_offline(devices, rest);
        assert(now.take(devices.len() as int) =~= before.take(devices.len() as int));
        assert(paired[n] == paired.last());
        assert forall|i: int| devices.len() <= i < now.len() implies exists|k: int|
            0 <= k < paired.len() && #[trigger] now[i] == offline_device(#[trigger] paired[k]) by {
            if i < before.len() {
                assert(now[i] == before[i]);
                let k = choose|k: int|
                    0 <= k < rest.len() && before[i] == offline_device(#[trigger] rest[k]);
                assert(rest[k] == paired[k]);
                assert(now[i] == offline_device(paired[k]));
            } else {
                assert(now[i] == offline_device(paired[n]));
            }
        }
        assert forall|i: int, j: int| 0 <= i < j < now.len() && devices.len() <= j implies (
        #[trigger] now[i]).fingerprint != (#[trigger] now[j]).fingerprint by {
            assert(now[i] == before[i]);
            if j < before.len() {
                assert(now[j] == before[j]);
            } else {
                assert(!is_listed(before, paired.last().fingerprint));
            }
        }
    }
}

/// The device list is made of the peers that are online, each with what it
/// declares and whether it is paired, and of the pairings that are not among
/// them, each once, offline and under the name of the pairing.
pub proof fn law_devices_are_told_in_full(
    peers: Seq<PeerView>,
    paired: Seq<PairedPeerView>,
    i: int,
)
    requires
        0 <= i < all_devices(peers, paired).len(),
    ensures
        ({
            let d = all_devices(peers, paired)[i];
            &&& all_devices(peers, paired).len() >= peers.len()
            &&& i < peers.len() ==> {
                &&& d.name == peers[i].info.name
                &&& d.fingerprint == peers[i].info.fingerprint
                &&& d.platform == Some(peers[i].info.platform)
                &&& d.os_version == peers[i].info.os_version
                &&& d.online
                &&& d.paired <==> exists|k: int|
                    0 <= k < paired.len() && (#[trigger] paired[k]).fingerprint
                        == peers[i].info.fingerprint
            }
            &&& i >= peers.len() ==> {
                &&& !d.online && d.paired
                &&& d.platform is None && d.os_version is None
                &&& exists|k: int|
                    0 <= k < paired.len() && (#[trigger] paired[k]).fingerprint == d.fingerprint
                        && paired[k].name == d.name
                &&& forall|j: int|
                    0 <= j < i ==> (#[trigger] all_devices(peers, paired)[j]).fingerprint
                        != d.fingerprint
            }
        }),
{
    let online = peers.map_values(|p: PeerView| online_device(p, paired));
    lemma_with_offline(online, paired);
    let all = all_devices(peers, paired);
    if i < peers.len() {
        assert(all[i] == all.take(online.len() as int)[i]);
        assert(all[i] == online_device(peers[i], paired));
    } else {
        let k = choose|k: int|
            0 <= k < paired.len() && all[i] == offline_device(#[trigger] paired[k]);
        assert(paired[k].fingerprint == all[i].fingerprint);
    }
}

/// What is restored is the content of the entry, of the type that the entry has;
/// an entry that is missing, or whose content is missing, is not restored.
pub proof fn law_restore_gives_the_content_back(e: EntryView)
    ensures
        restore_of(None) is None,
        e.kind == "text"@ && e.text is Some ==> restore_of(Some(e)) == Some(
            RestoreView::Text(e.text->0),
        ),
        e.kind == "text"@ && e.text is None ==> restore_of(Some(e)) is None,
        e.kind == "image"@ && e.blob_hash is Some ==> restore_of(Some(e)) == Some(
            RestoreView::Image(e.blob_hash->0),
        ),
        e.kind == "image"@ && e.blob_hash is None ==> restore_of(Some(e)) is None,
        e.kind == "files"@ && e.files is Some ==> restore_of(Some(e)) == Some(
            RestoreView::Files(e.files->0),
        ),
        e.kind == "files"@ && e.files is None ==> restore_of(Some(e)) is None,
        e.kind != "text"@ && e.kind != "image"@ && e.kind != "files"@ ==> restore_of(Some(e)) is None,
{
    reveal_strlit("text");
    reveal_strlit("image");
    reveal_strlit("files");
    assert("text"@.len() == 4 && "image"@.len() == 5 && "files"@.len() == 5);
    assert("image"@[0] == 'i' && "files"@[0] == 'f');
}

/// Saving does what the change asks for and nothing else: settings that did not
/// change entail nothing, and each part follows the settings that it depends on.
pub proof fn law_save_follows_the_change(a: SettingsView, b: SettingsView)
    ensures
        ({
            let same = save_plan_of(a, a);
            &&& !same.hotkeys_changed && same.autostart is None && !same.sync_changed
            &&& !same.ignore_changed && !same.reset_dedupe && !same.refresh_tray
        }),
        ({
            let plan = save_plan_of(a, b);
            &&& a.panel_hotkey != b.panel_hotkey ==> plan.hotkeys_changed
            &&& a.slot_hotkeys != b.slot_hotkeys ==> plan.hotkeys_changed
            &&& a.slot_modifier != b.slot_modifier ==> plan.hotkeys_changed
            &&& a.panel_hotkey == b.panel_hotkey && a.slot_hotkeys == b.slot_hotkeys
                && a.slot_modifier == b.slot_modifier ==> !plan.hotkeys_changed
            &&& a.autostart != b.autostart ==> plan.autostart == Some(b.autostart)
            &&& a.autostart == b.autostart ==> plan.autostart is None
            &&& plan.sync_changed <==> a.sync_mode != b.sync_mode
            &&& plan.ignore_changed <==> a.ignore != b.ignore
            &&& a.language != b.language ==> plan.refresh_tray
            &&& a.sync_mode != b.sync_mode ==> plan.refresh_tray
            &&& a.language == b.language && a.sync_mode == b.sync_mode ==> !plan.refresh_tray
            &&& plan.needs_pixels <==> b.history_record_images || b.sync_images
            &&& !a.history_record_text && b.history_record_text ==> plan.reset_dedupe
            &&& !a.history_record_images && b.history_record_images ==> plan.reset_dedupe
            &&& !a.history_record_files && b.history_record_files ==> plan.reset_dedupe
            &&& !a.sync_text && b.sync_text ==> plan.reset_dedupe
            &&& !a.sync_images && b.sync_images ==> plan.reset_dedupe
            &&& !a.sync_files && b.sync_files ==> plan.reset_dedupe
            &&& plan.reset_dedupe ==> record_reopened(a, b) || sync_reopened(a, b)
        }),
{
}

/// A save takes effect only when every step of it went well. Where a hotkey
/// failed the old ones come back; where the write failed they do if they had been
/// changed.
pub proof fn law_failed_save_takes_no_effect(
    changed: bool,
    hotkey_error: Option<Seq<char>>,
    save_error: Option<Seq<char>>,
)
    ensures
        save_end(changed, hotkey_error, save_error) is Apply <==> hotkey_error is None
            && save_error is None,
        hotkey_error is Some ==> save_end(changed, hotkey_error, save_error) == (SaveEndView::Fail {
            restore_hotkeys: true,
            error: ErrView { code: "hotkey_invalid"@, detail: hotkey_error },
        }),
        hotkey_error is None && save_error is Some ==> save_end(changed, hotkey_error, save_error)
            == (SaveEndView::Fail {
            restore_hotkeys: changed,
            error: ErrView { code: "settings_save_failed"@, detail: save_error },
        }),
{
}

/// A slot is told as failed exactly when its hotkey was not registered; slots
/// count from one.
pub proof fn law_failed_slots(registered: Seq<bool>, n: int)
    requires
        registered.len() <= 255,
    ensures
        1 <= n <= registered.len() ==> (failed_slots(registered).contains(n as u8) <==> !registered[n
            - 1]),
        !(1 <= n <= registered.len()) && 0 <= n <= 255 ==> !failed_slots(registered).contains(n as u8),
    decreases registered.len(),
{
    if registered.len() > 0 {
        let rest = registered.drop_last();
        let before = failed_slots(rest);
        let all = failed_slots(registered);
        law_failed_slots(rest, n);
        if 0 <= n <= 255 {
            if before.contains(n as u8) {
                let k = choose|k: int| 0 <= k < before.len() && before[k] == n as u8;
                assert(all[k] == n as u8);
            }
            if !registered.last() {
                assert(all[before.len() as int] == registered.len() as u8);
            }
            if all.contains(n as u8) && n != registered.len() {
                let k = choose|k: int| 0 <= k < all.len() && all[k] == n as u8;
                assert(k < before.len());
                assert(before[k] == n as u8);
            }
        }
    }
}

} // verus!
