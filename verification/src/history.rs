//! Clipboard history: entries, recording, eviction, listing and search.
//!
//! The store decides; files are read, written and removed by its caller, who
//! hands the outcome back.

use vstd::prelude::*;
use vstd::utf8::encode_utf8;
use crate::clipboard::{self, ClipboardContent, ContentView, FilePath, FilePathView};
use crate::ids::{self, is_uuid};
use crate::filenames::law_landing_stays_below;
use crate::images::{self, covers, decoded, has_size, is_bitmap, png_encoded, png_header, png_raw, rows_fit};
use crate::order::{self, stable_order, Ranked};
use crate::paths::{self, absolute, components, joined_path, lies_under, name_part, parent_part};
use crate::sync::SYNC_FILES_DIR;
use crate::text::{
    self, decimal_text, has_suffix, head, lowercase, occurs, opt_view, separated, views,
};

verus! {

/// Directory of the history below the data directory.
pub const HISTORY_DIR: &'static str = "history";

/// Index file name.
pub const INDEX_FILE: &'static str = "index.json";

/// Directory that holds the image payloads.
pub const BLOBS_DIR: &'static str = "blobs";

/// Directory of the source application icons.
pub const APP_ICONS_DIR: &'static str = "appicons";

/// Cap on an image, measured on the encoded PNG.
pub const MAX_IMAGE_PNG_BYTES: usize = 16_777_216;

/// Cap on the raw pixels of an image: anything larger is not even encoded.
pub const MAX_IMAGE_RGBA_BYTES: usize = 134_217_728;

/// Cap on a text.
pub const MAX_TEXT_BYTES: usize = 5_242_880;

/// Cap on the long edge of a preview image, in pixels.
pub const PREVIEW_IMAGE_MAX_EDGE: u32 = 800;

/// Capacity of the cache of downsampled previews.
pub const PREVIEW_CACHE_CAP: usize = 12;

/// Length of a preview text, in characters.
pub const PREVIEW_CHARS: usize = 80;

/// The `kind` of a text entry.
pub const KIND_TEXT: &'static str = "text";

/// The `kind` of an image entry.
pub const KIND_IMAGE: &'static str = "image";

/// The `kind` of a files entry.
pub const KIND_FILES: &'static str = "files";

/// The sort mode by copy count; every other mode sorts by recency.
pub const SORT_FREQUENT: &'static str = "frequent";

/// What an optional list of texts stands for.
pub open spec fn opt_texts(o: Option<Vec<String>>) -> Option<Seq<Seq<char>>> {
    match o {
        Some(v) => Some(views(v@)),
        None => None,
    }
}

/// One history entry.
#[derive(Debug, PartialEq, Eq)]
pub struct HistoryEntry {
    /// Stable ID
    pub id: String,
    /// Content type
    pub kind: String,
    /// The text, exactly as copied
    pub text: Option<String>,
    /// Hash of the image payload
    pub blob_hash: Option<String>,
    /// File path references
    pub files: Option<Vec<String>>,
    /// Summary shown in the list
    pub preview: String,
    /// Content hash: the dedup key
    pub content_hash: String,
    /// When the content was first copied (Unix milliseconds)
    pub first_copied_at: u64,
    /// When the content was last copied (Unix milliseconds)
    pub last_copied_at: u64,
    /// How often the content was copied
    pub copy_count: u32,
    /// The device that sent the content; nothing for a local copy
    pub origin: Option<String>,
    /// The application that a local copy came from
    pub source_app: Option<String>,
    /// Pinned to the top; takes no part in eviction
    pub pinned: bool,
}

/// What a [`HistoryEntry`] stands for.
#[verifier::ext_equal]
pub struct EntryView {
    pub id: Seq<char>,
    pub kind: Seq<char>,
    pub text: Option<Seq<char>>,
    pub blob_hash: Option<Seq<char>>,
    pub files: Option<Seq<Seq<char>>>,
    pub preview: Seq<char>,
    pub content_hash: Seq<char>,
    pub first_copied_at: u64,
    pub last_copied_at: u64,
    pub copy_count: u32,
    pub origin: Option<Seq<char>>,
    pub source_app: Option<Seq<char>>,
    pub pinned: bool,
}

impl View for HistoryEntry {
    type V = EntryView;

    open spec fn view(&self) -> EntryView {
        EntryView {
            id: self.id@,
            kind: self.kind@,
            text: opt_view(self.text),
            blob_hash: opt_view(self.blob_hash),
            files: opt_texts(self.files),
            preview: self.preview@,
            content_hash: self.content_hash@,
            first_copied_at: self.first_copied_at,
            last_copied_at: self.last_copied_at,
            copy_count: self.copy_count,
            origin: opt_view(self.origin),
            source_app: opt_view(self.source_app),
            pinned: self.pinned,
        }
    }
}

/// The entry that missing fields are taken from.
pub open spec fn blank_entry() -> EntryView {
    EntryView {
        id: Seq::empty(),
        kind: KIND_TEXT@,
        text: None,
        blob_hash: None,
        files: None,
        preview: Seq::empty(),
        content_hash: Seq::empty(),
        first_copied_at: 0,
        last_copied_at: 0,
        copy_count: 1,
        origin: None,
        source_app: None,
        pinned: false,
    }
}

impl Default for HistoryEntry {
    fn default() -> (r: Self)
        ensures
            r@ == blank_entry(),
    {
        HistoryEntry {
            id: String::new(),
            kind: KIND_TEXT.to_owned(),
            text: None,
            blob_hash: None,
            files: None,
            preview: String::new(),
            content_hash: String::new(),
            first_copied_at: 0,
            last_copied_at: 0,
            copy_count: 1,
            origin: None,
            source_app: None,
            pinned: false,
        }
    }
}

fn clone_files(o: &Option<Vec<String>>) -> (r: Option<Vec<String>>)
    ensures
        opt_texts(r) == opt_texts(*o),
{
    match o {
        Some(v) => Some(text::clone_all(v)),
        None => None,
    }
}

impl HistoryEntry {
    /// A copy of the entry.
    pub fn duplicate(&self) -> (r: HistoryEntry)
        ensures
            r@ == self@,
    {
        HistoryEntry {
            id: self.id.clone(),
            kind: self.kind.clone(),
            text: text::clone_opt(&self.text),
            blob_hash: text::clone_opt(&self.blob_hash),
            files: clone_files(&self.files),
            preview: self.preview.clone(),
            content_hash: self.content_hash.clone(),
            first_copied_at: self.first_copied_at,
            last_copied_at: self.last_copied_at,
            copy_count: self.copy_count,
            origin: text::clone_opt(&self.origin),
            source_app: text::clone_opt(&self.source_app),
            pinned: self.pinned,
        }
    }
}

/// List projection of an entry: the size of the text in place of the text.
#[derive(Debug, PartialEq, Eq)]
pub struct HistoryEntryMeta {
    /// Stable ID
    pub id: String,
    /// Content type
    pub kind: String,
    /// File path references
    pub files: Option<Vec<String>>,
    /// Summary shown in the list
    pub preview: String,
    /// When the content was first copied (Unix milliseconds)
    pub first_copied_at: u64,
    /// When the content was last copied (Unix milliseconds)
    pub last_copied_at: u64,
    /// How often the content was copied
    pub copy_count: u32,
    /// The device that sent the content
    pub origin: Option<String>,
    /// The application that a local copy came from
    pub source_app: Option<String>,
    /// Pinned to the top
    pub pinned: bool,
    /// Size of the text in bytes
    pub text_len: usize,
}

/// What a [`HistoryEntryMeta`] stands for.
#[verifier::ext_equal]
pub struct MetaView {
    pub id: Seq<char>,
    pub kind: Seq<char>,
    pub files: Option<Seq<Seq<char>>>,
    pub preview: Seq<char>,
    pub first_copied_at: u64,
    pub last_copied_at: u64,
    pub copy_count: u32,
    pub origin: Option<Seq<char>>,
    pub source_app: Option<Seq<char>>,
    pub pinned: bool,
    pub text_len: int,
}

impl View for HistoryEntryMeta {
    type V = MetaView;

    open spec fn view(&self) -> MetaView {
        MetaView {
            id: self.id@,
            kind: self.kind@,
            files: opt_texts(self.files),
            preview: self.preview@,
            first_copied_at: self.first_copied_at,
            last_copied_at: self.last_copied_at,
            copy_count: self.copy_count,
            origin: opt_view(self.origin),
            source_app: opt_view(self.source_app),
            pinned: self.pinned,
            text_len: self.text_len as int,
        }
    }
}

impl EntryView {
    /// The list projection of the entry.
    pub open spec fn meta(self) -> MetaView {
        MetaView {
            id: self.id,
            kind: self.kind,
            files: self.files,
            preview: self.preview,
            first_copied_at: self.first_copied_at,
            last_copied_at: self.last_copied_at,
            copy_count: self.copy_count,
            origin: self.origin,
            source_app: self.source_app,
            pinned: self.pinned,
            text_len: match self.text {
                Some(t) => encode_utf8(t).len() as int,
                None => 0,
            },
        }
    }
}

impl HistoryEntryMeta {
    /// Projects an entry.
    pub fn of(entry: &HistoryEntry) -> (r: HistoryEntryMeta)
        ensures
            r@ == entry@.meta(),
    {
        let text_len: usize = match &entry.text {
            Some(t) => t.as_str().as_bytes().len(),
            None => 0,
        };
        HistoryEntryMeta {
            id: entry.id.clone(),
            kind: entry.kind.clone(),
            files: clone_files(&entry.files),
            preview: entry.preview.clone(),
            first_copied_at: entry.first_copied_at,
            last_copied_at: entry.last_copied_at,
            copy_count: entry.copy_count,
            origin: text::clone_opt(&entry.origin),
            source_app: text::clone_opt(&entry.source_app),
            pinned: entry.pinned,
            text_len,
        }
    }
}

/// What decides the place of an entry in the list.
#[derive(PartialEq, Eq, Structural, Clone, Copy, Debug)]
pub struct Rank {
    /// Pinned entries come first
    pub pinned: bool,
    /// Then the higher count, in the mode that sorts by it
    pub count: u32,
    /// Then the later copy
    pub at: u64,
}

impl Ranked for Rank {
    open spec fn rank_less(&self, other: &Self) -> bool {
        if self.pinned != other.pinned {
            self.pinned
        } else if self.count != other.count {
            self.count > other.count
        } else {
            self.at > other.at
        }
    }

    proof fn lemma_rank(a: &Self, b: &Self, c: &Self) {
    }

    fn is_less(&self, other: &Self) -> (r: bool) {
        if self.pinned != other.pinned {
            self.pinned
        } else if self.count != other.count {
            self.count > other.count
        } else {
            self.at > other.at
        }
    }
}

impl EntryView {
    /// The rank of the entry in a sort mode.
    pub open spec fn rank(self, sort: Seq<char>) -> Rank {
        Rank {
            pinned: self.pinned,
            count: if sort == SORT_FREQUENT@ {
                self.copy_count
            } else {
                0
            },
            at: self.last_copied_at,
        }
    }
}

/// The ranks of the entries in a sort mode.
pub open spec fn ranks(entries: Seq<EntryView>, sort: Seq<char>) -> Seq<Rank> {
    entries.map_values(|e: EntryView| e.rank(sort))
}

/// The places of the entries in list order.
pub open spec fn list_order(entries: Seq<EntryView>, sort: Seq<char>) -> Seq<usize> {
    choose|p: Seq<usize>| stable_order(ranks(entries, sort), p)
}

/// The entries in list order: pinned first, then by the mode, entries of one
/// rank as they came in.
pub open spec fn sorted(entries: Seq<EntryView>, sort: Seq<char>) -> Seq<EntryView> {
    list_order(entries, sort).map_values(|k: usize| entries[k as int])
}

/// What is recorded, and how many entries are kept.
#[derive(PartialEq, Eq, Structural, Clone, Copy, Debug)]
pub struct HistoryConfig {
    /// Entry cap
    pub max_entries: usize,
    /// Record text
    pub record_text: bool,
    /// Record images
    pub record_images: bool,
    /// Record file references
    pub record_files: bool,
}

impl HistoryConfig {
    /// Whether content of that type is recorded.
    pub open spec fn takes(self, content: ContentView) -> bool {
        match content {
            ContentView::Text(_) => self.record_text,
            ContentView::Image { .. } => self.record_images,
            ContentView::Files(_) => self.record_files,
            ContentView::ImageUnread => false,
        }
    }

    /// The cap in force: at least one entry is kept.
    pub open spec fn cap(self) -> nat {
        if self.max_entries == 0 {
            1
        } else {
            self.max_entries as nat
        }
    }
}

/// Outcome of a recording.
#[derive(PartialEq, Eq, Structural, Clone, Copy, Debug)]
pub enum RecordOutcome {
    /// A new entry was added
    Added,
    /// An entry was there; its count and time were refreshed
    Bumped,
    /// A toggle, a cap or a clear kept the content out
    Skipped,
}

/// The first line of a text, without its line ending.
pub open spec fn first_line(s: Seq<char>) -> Seq<char> {
    if s.contains('\n') {
        let i = s.index_of_first('\n')->0;
        if i > 0 && s[i - 1] == '\r' {
            s.take(i - 1)
        } else {
            s.take(i)
        }
    } else {
        s
    }
}

/// The preview of a text: the first line, cut to the preview length, with an
/// ellipsis when anything is left out.
pub open spec fn text_preview(s: Seq<char>) -> Seq<char> {
    let shown = head(first_line(s), PREVIEW_CHARS as nat);
    if shown.len() < s.len() {
        shown + "…"@
    } else {
        shown
    }
}

/// The preview of a text.
pub fn preview_text(text: &str) -> (r: String)
    ensures
        r@ == text_preview(text@),
{
    let chars: Vec<char> = text::chars_of(text);
    let mut end: usize = 0;
    while end < chars.len() && chars[end] != '\n'
        invariant
            chars@ == text@,
            end <= chars.len(),
            forall|j: int| 0 <= j < end ==> chars@[j] != '\n',
        decreases chars.len() - end,
    {
        end += 1;
    }
    let mut cut: usize = end;
    if end < chars.len() {
        proof {
            assert(text@[end as int] == '\n');
            assert(text@.contains('\n'));
            text@.index_of_first_ensures('\n');
            let i = text@.index_of_first('\n')->0;
            assert(i == end) by {
                if i < end {
                    assert(chars@[i] != '\n');
                }
            }
        }
        if end > 0 && chars[end - 1] == '\r' {
            cut = end - 1;
        }
    } else {
        proof {
            assert(!text@.contains('\n'));
            assert(text@.take(cut as int) =~= text@);
        }
    }
    let line = vstd::slice::slice_subrange(chars.as_slice(), 0, cut);
    proof {
        assert(line@ =~= first_line(text@));
    }
    let mut out = text::head_of(line, PREVIEW_CHARS);
    let shown: usize = if line.len() <= PREVIEW_CHARS {
        line.len()
    } else {
        PREVIEW_CHARS
    };
    if shown < chars.len() {
        out.append("…");
    }
    out
}

/// The names that the paths end in.
pub open spec fn names_of(paths: Seq<Seq<char>>) -> Seq<Seq<char>>
    decreases paths.len(),
{
    if paths.len() == 0 {
        Seq::empty()
    } else {
        let before = names_of(paths.drop_last());
        match name_part(paths.last()) {
            Some(name) => before.push(name),
            None => before,
        }
    }
}

/// The preview of a list of paths: the file names, cut to the preview length;
/// the number of files when anything is left out.
pub open spec fn files_preview(paths: Seq<Seq<char>>) -> Seq<char> {
    let all = separated(names_of(paths), ", "@);
    let shown = head(all, PREVIEW_CHARS as nat);
    if shown.len() < all.len() {
        shown + "… ("@ + decimal_text(paths.len()) + ")"@
    } else {
        shown
    }
}

/// The preview of a list of paths.
pub fn preview_files(paths: &Vec<String>) -> (r: String)
    ensures
        r@ == files_preview(views(paths@)),
{
    let mut names: Vec<String> = Vec::new();
    let ghost all = views(paths@);
    let mut i: usize = 0;
    while i < paths.len()
        invariant
            i <= paths.len(),
            all == views(paths@),
            views(names@) == names_of(all.take(i as int)),
        decreases paths.len() - i,
    {
        let ghost before = names@;
        proof {
            assert(all.take(i + 1).drop_last() =~= all.take(i as int));
            assert(all[i as int] == paths@[i as int]@);
        }
        match paths::file_name(paths[i].as_str()) {
            Some(name) => {
                names.push(name);
                proof {
                    assert(views(names@) =~= views(before).push(name@));
                }
            },
            None => {},
        }
        i += 1;
    }
    proof {
        assert(all.take(paths.len() as int) =~= all);
    }
    let joined = text::separate(&names, ", ");
    let chars: Vec<char> = text::chars_of(joined.as_str());
    let mut out = text::head_of(chars.as_slice(), PREVIEW_CHARS);
    if chars.len() > PREVIEW_CHARS {
        out.append("… (");
        let count = text::decimal(paths.len() as u64);
        out.append(count.as_str());
        out.append(")");
    }
    out
}

/// The preview of a bitmap: its size.
pub open spec fn image_preview(width: usize, height: usize) -> Seq<char> {
    decimal_text(width as nat) + "×"@ + decimal_text(height as nat)
}

/// The preview of a bitmap: its size.
pub fn preview_image(width: usize, height: usize) -> (r: String)
    ensures
        r@ == image_preview(width, height),
{
    let mut out = text::decimal(width as u64);
    out.append("×");
    let rest = text::decimal(height as u64);
    out.append(rest.as_str());
    out
}

/// The first place where something holds.
pub open spec fn first_place(s: Seq<EntryView>, p: spec_fn(EntryView) -> bool) -> Option<int>
    decreases s.len(),
{
    if s.len() == 0 {
        None
    } else {
        match first_place(s.drop_last(), p) {
            Some(i) => Some(i),
            None => if p(s.last()) {
                Some(s.len() - 1)
            } else {
                None
            },
        }
    }
}

/// Where the first place is.
pub proof fn lemma_first_place(s: Seq<EntryView>, p: spec_fn(EntryView) -> bool)
    ensures
        match first_place(s, p) {
            Some(i) => 0 <= i < s.len() && p(s[i]) && forall|j: int| 0 <= j < i ==> !p(#[trigger] s[j]),
            None => forall|j: int| 0 <= j < s.len() ==> !p(#[trigger] s[j]),
        },
    decreases s.len(),
{
    if s.len() > 0 {
        let before = s.drop_last();
        lemma_first_place(before, p);
        assert forall|j: int| 0 <= j < before.len() implies before[j] == s[j] by {}
        match first_place(before, p) {
            Some(i) => {
                assert(before[i] == s[i]);
                assert forall|j: int| 0 <= j < i implies !p(#[trigger] s[j]) by {
                    assert(!p(before[j]));
                }
            },
            None => {
                assert forall|j: int| 0 <= j < before.len() implies !p(#[trigger] s[j]) by {
                    assert(!p(before[j]));
                }
            },
        }
    }
}

/// The entries with that ID.
pub open spec fn by_id(id: Seq<char>) -> spec_fn(EntryView) -> bool {
    |e: EntryView| e.id == id
}

/// The entries with that content.
pub open spec fn by_hash(hash: Seq<char>) -> spec_fn(EntryView) -> bool {
    |e: EntryView| e.content_hash == hash
}

/// Whether the entry is the first of the oldest ones that are not pinned.
pub open spec fn is_oldest(s: Seq<EntryView>, i: int) -> bool {
    &&& 0 <= i < s.len()
    &&& !s[i].pinned
    &&& forall|j: int|
        0 <= j < s.len() && !(#[trigger] s[j]).pinned ==> s[i].last_copied_at <= s[j].last_copied_at
    &&& forall|j: int|
        0 <= j < i && !(#[trigger] s[j]).pinned ==> s[i].last_copied_at < s[j].last_copied_at
}

/// Whether some entry is not pinned.
pub open spec fn has_loose(s: Seq<EntryView>) -> bool {
    exists|i: int| is_oldest(s, i)
}

/// The entries that eviction keeps: while there are too many, the oldest one
/// that is not pinned goes.
pub open spec fn kept(s: Seq<EntryView>, cap: nat) -> Seq<EntryView>
    decreases s.len(),
{
    if s.len() > cap && has_loose(s) {
        let i = choose|i: int| is_oldest(s, i);
        if 0 <= i < s.len() {
            kept(s.remove(i), cap)
        } else {
            s
        }
    } else {
        s
    }
}

/// The entries that eviction drops, in order.
pub open spec fn dropped(s: Seq<EntryView>, cap: nat) -> Seq<EntryView>
    decreases s.len(),
{
    if s.len() > cap && has_loose(s) {
        let i = choose|i: int| is_oldest(s, i);
        if 0 <= i < s.len() {
            seq![s[i]] + dropped(s.remove(i), cap)
        } else {
            Seq::empty()
        }
    } else {
        Seq::empty()
    }
}

/// The batch directory that holds a received file: a directory below the
/// landing root. A path elsewhere is the user's own.
pub open spec fn batch_dir_of(path: Seq<char>, root: Seq<char>) -> Option<Seq<char>> {
    if lies_under(path, root) && components(path).len() > components(root).len() + 1 {
        parent_part(path)
    } else {
        None
    }
}

/// The batch directories of a list of paths, each once.
pub open spec fn batch_dirs(paths: Seq<Seq<char>>, root: Seq<char>) -> Seq<Seq<char>>
    decreases paths.len(),
{
    if paths.len() == 0 {
        Seq::empty()
    } else {
        let before = batch_dirs(paths.drop_last(), root);
        match batch_dir_of(paths.last(), root) {
            Some(dir) => if before.contains(dir) {
                before
            } else {
                before.push(dir)
            },
            None => before,
        }
    }
}

/// What an entry leaves on disk: batch directories and an image payload.
#[derive(Debug, PartialEq, Eq)]
pub struct Cleanup {
    /// Directories to remove
    pub batch_dirs: Vec<String>,
    /// Hash of the payload to remove
    pub blob_hash: Option<String>,
}

/// What a [`Cleanup`] stands for.
#[verifier::ext_equal]
pub struct CleanupView {
    pub batch_dirs: Seq<Seq<char>>,
    pub blob_hash: Option<Seq<char>>,
}

impl View for Cleanup {
    type V = CleanupView;

    open spec fn view(&self) -> CleanupView {
        CleanupView { batch_dirs: views(self.batch_dirs@), blob_hash: opt_view(self.blob_hash) }
    }
}

/// What is left of an entry on disk.
pub open spec fn cleanup_of(e: EntryView, root: Seq<char>) -> CleanupView {
    CleanupView {
        batch_dirs: match e.files {
            Some(paths) => batch_dirs(paths, root),
            None => Seq::empty(),
        },
        blob_hash: e.blob_hash,
    }
}

/// What is left of several entries on disk.
pub open spec fn cleanups_of(gone: Seq<EntryView>, root: Seq<char>) -> Seq<CleanupView> {
    gone.map_values(|e: EntryView| cleanup_of(e, root))
}

/// A downsampled preview image.
pub struct CachedPreview {
    /// Hash of the payload
    pub blob_hash: String,
    /// The preview
    pub png: Vec<u8>,
}

/// What a [`CachedPreview`] stands for.
#[verifier::ext_equal]
pub struct CachedView {
    pub blob_hash: Seq<char>,
    pub png: Seq<u8>,
}

impl View for CachedPreview {
    type V = CachedView;

    open spec fn view(&self) -> CachedView {
        CachedView { blob_hash: self.blob_hash@, png: self.png@ }
    }
}

/// The cache without the previews of a payload.
pub open spec fn without(cache: Seq<CachedView>, hash: Seq<char>) -> Seq<CachedView> {
    cache.filter(|c: CachedView| c.blob_hash != hash)
}

/// The cache without the previews of the entries.
pub open spec fn purged(cache: Seq<CachedView>, gone: Seq<EntryView>) -> Seq<CachedView>
    decreases gone.len(),
{
    if gone.len() == 0 {
        cache
    } else {
        let before = purged(cache, gone.drop_last());
        match gone.last().blob_hash {
            Some(hash) => without(before, hash),
            None => before,
        }
    }
}

/// Where the index stands on disk.
#[derive(PartialEq, Eq, Structural, Clone, Copy, Debug)]
pub enum SaveState {
    /// On disk as in memory, as far as the store knows
    Saved,
    /// A writer has to be started
    Due,
    /// A writer is on its way; it takes the latest entries
    Queued,
}

impl SaveState {
    /// After a change.
    pub open spec fn changed(self) -> SaveState {
        match self {
            SaveState::Queued => SaveState::Queued,
            _ => SaveState::Due,
        }
    }
}

/// A file of the payload directory.
#[derive(Debug, PartialEq, Eq)]
pub struct BlobFile {
    /// File name; nothing when it is not text
    pub name: Option<String>,
    /// Size in bytes
    pub bytes: u64,
}

/// What a [`BlobFile`] stands for.
#[verifier::ext_equal]
pub struct BlobFileView {
    pub name: Option<Seq<char>>,
    pub bytes: u64,
}

impl View for BlobFile {
    type V = BlobFileView;

    open spec fn view(&self) -> BlobFileView {
        BlobFileView { name: opt_view(self.name), bytes: self.bytes }
    }
}

/// Whether some entry refers to the payload.
pub open spec fn refers_to_blob(entries: Seq<EntryView>, hash: Seq<char>) -> bool {
    exists|i: int| 0 <= i < entries.len() && (#[trigger] entries[i]).blob_hash == Some(hash)
}

/// Whether the file is a payload that no entry refers to.
pub open spec fn is_orphan(entries: Seq<EntryView>, file: BlobFileView) -> bool {
    match file.name {
        Some(name) => has_suffix(name, ".png"@) && !refers_to_blob(
            entries,
            name.take(name.len() - ".png"@.len()),
        ),
        None => false,
    }
}

/// The bytes of the files that stay.
pub open spec fn staying_bytes(entries: Seq<EntryView>, files: Seq<BlobFileView>) -> int
    decreases files.len(),
{
    if files.len() == 0 {
        0
    } else {
        staying_bytes(entries, files.drop_last()) + if is_orphan(entries, files.last()) {
            0
        } else {
            files.last().bytes as int
        }
    }
}

/// The names of the orphaned payloads.
pub open spec fn orphans(entries: Seq<EntryView>, files: Seq<BlobFileView>) -> Seq<Seq<char>>
    decreases files.len(),
{
    if files.len() == 0 {
        Seq::empty()
    } else {
        let before = orphans(entries, files.drop_last());
        if is_orphan(entries, files.last()) {
            before.push(files.last().name->0)
        } else {
            before
        }
    }
}

/// The history of the clipboard.
pub struct HistoryStore {
    dir: String,
    sync_root: String,
    entries: Vec<HistoryEntry>,
    blob_bytes: u64,
    previews: Vec<CachedPreview>,
    clear_generation: u64,
    save: SaveState,
}

/// What a [`HistoryStore`] stands for.
#[verifier::ext_equal]
pub struct HistoryView {
    /// Directory of the history
    pub dir: Seq<char>,
    /// Landing root of received files
    pub sync_root: Seq<char>,
    /// The entries, as they came in
    pub entries: Seq<EntryView>,
    /// Bytes that the payloads take on disk
    pub blob_bytes: u64,
    /// Downsampled previews, the least recently used first
    pub previews: Seq<CachedView>,
    /// How often the history was cleared
    pub clear_generation: u64,
    /// Where the index stands on disk
    pub save: SaveState,
}

impl View for HistoryStore {
    type V = HistoryView;

    closed spec fn view(&self) -> HistoryView {
        HistoryView {
            dir: self.dir@,
            sync_root: self.sync_root@,
            entries: views(self.entries@),
            blob_bytes: self.blob_bytes,
            previews: views(self.previews@),
            clear_generation: self.clear_generation,
            save: self.save,
        }
    }
}

/// An image on its way into the history: the encoding and the write take their
/// time, and the history may be cleared meanwhile.
#[derive(Debug, PartialEq, Eq)]
pub struct ImageJob {
    /// Width in pixels
    pub width: usize,
    /// Height in pixels
    pub height: usize,
    /// RGBA bytes
    pub rgba: Vec<u8>,
    /// The entry to add
    pub entry: HistoryEntry,
    /// The entry cap
    pub max_entries: usize,
    /// How often the history had been cleared at the start
    pub generation: u64,
}

/// What an [`ImageJob`] stands for.
#[verifier::ext_equal]
pub struct JobView {
    pub width: usize,
    pub height: usize,
    pub rgba: Seq<u8>,
    pub entry: EntryView,
    pub max_entries: usize,
    pub generation: u64,
}

impl View for ImageJob {
    type V = JobView;

    open spec fn view(&self) -> JobView {
        JobView {
            width: self.width,
            height: self.height,
            rgba: self.rgba@,
            entry: self.entry@,
            max_entries: self.max_entries,
            generation: self.generation,
        }
    }
}

/// What a recording comes to, or what it still needs.
#[derive(Debug, PartialEq, Eq)]
pub enum RecordStep {
    /// Kept out
    Skipped,
    /// An entry was there and is refreshed
    Bumped,
    /// Added; what the evicted entries leave on disk
    Added(Vec<Cleanup>),
    /// An image that has to be encoded and written first
    Encode(ImageJob),
}

/// What a [`RecordStep`] stands for.
#[verifier::ext_equal]
pub enum StepView {
    Skipped,
    Bumped,
    Added(Seq<CleanupView>),
    Encode(JobView),
}

impl View for RecordStep {
    type V = StepView;

    open spec fn view(&self) -> StepView {
        match *self {
            RecordStep::Skipped => StepView::Skipped,
            RecordStep::Bumped => StepView::Bumped,
            RecordStep::Added(gone) => StepView::Added(views(gone@)),
            RecordStep::Encode(job) => StepView::Encode(job@),
        }
    }
}

impl RecordStep {
    /// The outcome, where it is known.
    pub fn outcome(&self) -> (r: Option<RecordOutcome>)
        ensures
            r == (match self@ {
                StepView::Skipped => Some(RecordOutcome::Skipped),
                StepView::Bumped => Some(RecordOutcome::Bumped),
                StepView::Added(_) => Some(RecordOutcome::Added),
                StepView::Encode(_) => None,
            }),
    {
        match self {
            RecordStep::Skipped => Some(RecordOutcome::Skipped),
            RecordStep::Bumped => Some(RecordOutcome::Bumped),
            RecordStep::Added(_) => Some(RecordOutcome::Added),
            RecordStep::Encode(_) => None,
        }
    }
}

/// What became of an image.
#[derive(Debug, PartialEq, Eq)]
pub enum ImageEnd {
    /// The payload could not be written
    Skipped,
    /// The history was cleared meanwhile; whether the payload has to go
    Discarded { remove_blob: bool },
    /// Added; what the evicted entries leave on disk
    Added(Vec<Cleanup>),
}

/// What an [`ImageEnd`] stands for.
#[verifier::ext_equal]
pub enum EndView {
    Skipped,
    Discarded { remove_blob: bool },
    Added(Seq<CleanupView>),
}

impl View for ImageEnd {
    type V = EndView;

    open spec fn view(&self) -> EndView {
        match *self {
            ImageEnd::Skipped => EndView::Skipped,
            ImageEnd::Discarded { remove_blob } => EndView::Discarded { remove_blob },
            ImageEnd::Added(gone) => EndView::Added(views(gone@)),
        }
    }
}

/// A copy of content, and where it came from.
#[derive(Debug, PartialEq, Eq)]
pub struct Copied {
    /// Content hash
    pub content_hash: String,
    /// When it was copied (Unix milliseconds)
    pub at: u64,
    /// The device that sent it
    pub origin: Option<String>,
    /// The application that it came from
    pub source_app: Option<String>,
}

/// What a [`Copied`] stands for.
#[verifier::ext_equal]
pub struct CopiedView {
    pub content_hash: Seq<char>,
    pub at: u64,
    pub origin: Option<Seq<char>>,
    pub source_app: Option<Seq<char>>,
}

impl View for Copied {
    type V = CopiedView;

    open spec fn view(&self) -> CopiedView {
        CopiedView {
            content_hash: self.content_hash@,
            at: self.at,
            origin: opt_view(self.origin),
            source_app: opt_view(self.source_app),
        }
    }
}

/// An entry whose content was copied again. A remote copy names its device and
/// drops the application; a local one replaces the application only when it
/// is known.
pub open spec fn bumped(e: EntryView, copy: CopiedView) -> EntryView {
    EntryView {
        copy_count: if e.copy_count == u32::MAX {
            u32::MAX
        } else {
            (e.copy_count + 1) as u32
        },
        last_copied_at: copy.at,
        origin: copy.origin,
        source_app: if copy.origin is Some {
            None
        } else if copy.source_app is Some {
            copy.source_app
        } else {
            e.source_app
        },
        ..e
    }
}

/// The entry of new content, but for what depends on the type.
pub open spec fn fresh(copy: CopiedView, id: Seq<char>) -> EntryView {
    EntryView {
        id,
        content_hash: copy.content_hash,
        first_copied_at: copy.at,
        last_copied_at: copy.at,
        copy_count: 1,
        origin: copy.origin,
        source_app: copy.source_app,
        pinned: false,
        ..blank_entry()
    }
}

/// The texts of the paths; nothing when one of them is no text.
pub open spec fn texts_of(paths: Seq<FilePathView>) -> Option<Seq<Seq<char>>>
    decreases paths.len(),
{
    if paths.len() == 0 {
        Some(Seq::empty())
    } else {
        match (texts_of(paths.drop_last()), paths.last()) {
            (Some(before), FilePathView::Text(t)) => Some(before.push(t)),
            _ => None,
        }
    }
}

impl HistoryView {
    /// The store with a new entry, after eviction.
    pub open spec fn added(self, e: EntryView, cap: nat) -> HistoryView {
        let all = self.entries.push(e);
        HistoryView {
            entries: kept(all, cap),
            previews: purged(self.previews, dropped(all, cap)),
            save: self.save.changed(),
            ..self
        }
    }

    /// What eviction leaves on disk when a new entry comes in.
    pub open spec fn leftovers(self, e: EntryView, cap: nat) -> Seq<CleanupView> {
        cleanups_of(dropped(self.entries.push(e), cap), self.sync_root)
    }

    /// The store with an entry copied again.
    pub open spec fn again(self, i: int, copy: CopiedView) -> HistoryView {
        HistoryView {
            entries: self.entries.update(i, bumped(self.entries[i], copy)),
            save: self.save.changed(),
            ..self
        }
    }

    /// Recording content under an ID: known content is counted, new content
    /// within the caps is added, an image has to be encoded first.
    pub open spec fn recorded(
        self,
        content: ContentView,
        copy: CopiedView,
        cfg: HistoryConfig,
        id: Seq<char>,
    ) -> (HistoryView, StepView) {
        if !cfg.takes(content) {
            (self, StepView::Skipped)
        } else {
            match first_place(self.entries, by_hash(copy.content_hash)) {
                Some(i) => (self.again(i, copy), StepView::Bumped),
                None => match content {
                    ContentView::Text(t) => if encode_utf8(t).len() > MAX_TEXT_BYTES {
                        (self, StepView::Skipped)
                    } else {
                        let e = EntryView {
                            kind: KIND_TEXT@,
                            preview: text_preview(t),
                            text: Some(t),
                            ..fresh(copy, id)
                        };
                        (self.added(e, cfg.cap()), StepView::Added(self.leftovers(e, cfg.cap())))
                    },
                    ContentView::Image { width, height, rgba } => if rgba.len()
                        > MAX_IMAGE_RGBA_BYTES {
                        (self, StepView::Skipped)
                    } else {
                        let e = EntryView {
                            kind: KIND_IMAGE@,
                            preview: image_preview(width, height),
                            blob_hash: Some(copy.content_hash),
                            ..fresh(copy, id)
                        };
                        (
                            self,
                            StepView::Encode(
                                JobView {
                                    width,
                                    height,
                                    rgba,
                                    entry: e,
                                    max_entries: cfg.max_entries,
                                    generation: self.clear_generation,
                                },
                            ),
                        )
                    },
                    ContentView::Files(paths) => match texts_of(paths) {
                        None => (self, StepView::Skipped),
                        Some(list) => {
                            let e = EntryView {
                                kind: KIND_FILES@,
                                preview: files_preview(list),
                                files: Some(list),
                                ..fresh(copy, id)
                            };
                            (
                                self.added(e, cfg.cap()),
                                StepView::Added(self.leftovers(e, cfg.cap())),
                            )
                        },
                    },
                    ContentView::ImageUnread => (self, StepView::Skipped),
                },
            }
        }
    }

    /// The end of an image: `written` tells whether the payload is on disk,
    /// and whether the write put it there.
    pub open spec fn finished(self, job: JobView, png_bytes: u64, written: Option<bool>) -> (
        HistoryView,
        EndView,
    ) {
        match written {
            None => (self, EndView::Skipped),
            Some(put) => if job.generation != self.clear_generation {
                (self, EndView::Discarded { remove_blob: put })
            } else {
                let cap = if job.max_entries == 0 {
                    1nat
                } else {
                    job.max_entries as nat
                };
                let counted = HistoryView {
                    blob_bytes: if put {
                        self.blob_bytes.wrapping_add(png_bytes)
                    } else {
                        self.blob_bytes
                    },
                    ..self
                };
                (
                    counted.added(job.entry, cap),
                    EndView::Added(self.leftovers(job.entry, cap)),
                )
            },
        }
    }

    /// The store without an entry.
    pub open spec fn deleted(self, i: int) -> HistoryView {
        HistoryView {
            entries: self.entries.remove(i),
            previews: purged(self.previews, seq![self.entries[i]]),
            save: self.save.changed(),
            ..self
        }
    }

    /// The store without the entry of that ID, and what the entry leaves on
    /// disk.
    pub open spec fn removed(self, id: Seq<char>) -> (HistoryView, Option<CleanupView>) {
        match first_place(self.entries, by_id(id)) {
            Some(i) => (self.deleted(i), Some(cleanup_of(self.entries[i], self.sync_root))),
            None => (self, None),
        }
    }

    /// The store with the entry of that ID pinned or unpinned, and whether there
    /// is one.
    pub open spec fn repinned(self, id: Seq<char>, pinned: bool) -> (HistoryView, bool) {
        match first_place(self.entries, by_id(id)) {
            Some(i) => (
                HistoryView {
                    entries: self.entries.update(i, EntryView { pinned, ..self.entries[i] }),
                    save: self.save.changed(),
                    ..self
                },
                true,
            ),
            None => (self, false),
        }
    }

    /// The store after a payload of that size was removed.
    pub open spec fn reclaimed(self, bytes: u64) -> HistoryView {
        HistoryView {
            blob_bytes: if bytes <= self.blob_bytes {
                (self.blob_bytes - bytes) as u64
            } else {
                0
            },
            ..self
        }
    }

    /// Where the payload of an image is kept.
    pub open spec fn blob_file(self, blob_hash: Seq<char>) -> Seq<char> {
        joined_path(joined_path(self.dir, BLOBS_DIR@), blob_hash + ".png"@)
    }

    /// Where the icon of an application is kept.
    pub open spec fn icon_file(self, app_name: Seq<char>) -> Seq<char> {
        joined_path(joined_path(self.dir, APP_ICONS_DIR@), icon_name(app_name))
    }

    /// The directories that go when the store is cleared: the payloads, and the
    /// received files.
    pub open spec fn clear_dirs(self) -> Seq<Seq<char>> {
        seq![joined_path(self.dir, BLOBS_DIR@), self.sync_root]
    }

    /// The directories of the store are those below a data directory.
    pub open spec fn below(self, data_dir: Seq<char>) -> bool {
        &&& self.dir == joined_path(data_dir, HISTORY_DIR@)
        &&& self.sync_root == joined_path(data_dir, SYNC_FILES_DIR@)
    }

    /// The store after it was cleared.
    pub open spec fn cleared(self) -> HistoryView {
        HistoryView {
            entries: Seq::empty(),
            blob_bytes: 0,
            previews: Seq::empty(),
            clear_generation: self.clear_generation.wrapping_add(1),
            save: self.save.changed(),
            ..self
        }
    }
}

/// The name of the icon file of an application: the digest of its name.
pub open spec fn icon_name(app_name: Seq<char>) -> Seq<char> {
    ContentView::Text(app_name).hash() + ".png"@
}

/// The payload of an image on its way: the encoded bitmap, within the cap.
pub open spec fn payload_of(job: JobView) -> Option<Seq<u8>> {
    let png = png_encoded(job.width as u32, job.height as u32, job.rgba);
    if is_bitmap(job.width as u32, job.height as u32, job.rgba) && png.len() <= MAX_IMAGE_PNG_BYTES {
        Some(png)
    } else {
        None
    }
}

impl ImageJob {
    /// Encodes the payload; nothing when the bitmap cannot be encoded or the
    /// payload is over the cap.
    pub fn encode(&self) -> (r: Option<Vec<u8>>)
        ensures
            opt_view(r) == payload_of(self@),
            r is Some && rows_fit(self@.width as u32) ==> decoded(r->0@) == Some(
                (self@.width as u32, self@.height as u32, self@.rgba),
            ),
            r is Some && rows_fit(self@.width as u32) ==> png_raw(r->0@) == Some(
                (self@.width as u32, self@.height as u32, self@.rgba),
            ),
            r is Some && rows_fit(self@.width as u32) ==> png_header(r->0@) == Some(
                (self@.width as u32, self@.height as u32),
            ),
    {
        match images::encode_png_rgba(self.width, self.height, self.rgba.as_slice()) {
            Err(_) => None,
            Ok(png) => {
                if png.len() > MAX_IMAGE_PNG_BYTES {
                    None
                } else {
                    Some(png)
                }
            },
        }
    }
}

fn path_texts(list: Vec<FilePath>) -> (r: Option<Vec<String>>)
    ensures
        opt_texts(r) == texts_of(views(list@)),
{
    let ghost all = views(list@);
    let mut out: Vec<String> = Vec::new();
    let mut i: usize = 0;
    while i < list.len()
        invariant
            i <= list.len(),
            all == views(list@),
            texts_of(all.take(i as int)) == Some(views(out@)),
        decreases list.len() - i,
    {
        let ghost before = out@;
        proof {
            assert(all.take(i + 1).drop_last() =~= all.take(i as int));
            assert(all[i as int] == list@[i as int]@);
        }
        match &list[i] {
            FilePath::Text(t) => {
                out.push(t.clone());
                proof {
                    assert(views(out@) =~= views(before).push(t@));
                }
            },
            FilePath::Raw { .. } => {
                proof {
                    lemma_texts_of_prefix(all, i + 1);
                }
                return None;
            },
        }
        i += 1;
    }
    proof {
        assert(all.take(list.len() as int) =~= all);
    }
    Some(out)
}

proof fn lemma_texts_of_prefix(paths: Seq<FilePathView>, n: int)
    requires
        0 <= n <= paths.len(),
        texts_of(paths.take(n)) is None,
    ensures
        texts_of(paths) is None,
    decreases paths.len(),
{
    if n == paths.len() {
        assert(paths.take(n) =~= paths);
    } else {
        assert(paths.drop_last().take(n) =~= paths.take(n));
        lemma_texts_of_prefix(paths.drop_last(), n);
    }
}

/// Whether a text is among the first ones of a list.
fn is_among(list: &Vec<String>, s: &str) -> (r: bool)
    ensures
        r == views(list@).contains(s@),
{
    let mut i: usize = 0;
    while i < list.len()
        invariant
            i <= list.len(),
            forall|j: int| 0 <= j < i ==> list@[j]@ != s@,
        decreases list.len() - i,
    {
        if text::same(list[i].as_str(), s) {
            proof {
                assert(views(list@)[i as int] == s@);
            }
            return true;
        }
        i += 1;
    }
    proof {
        assert forall|j: int| 0 <= j < views(list@).len() implies views(list@)[j] != s@ by {
            assert(list@[j]@ != s@);
        }
    }
    false
}

fn batch_dir(path: &str, root: &str) -> (r: Option<String>)
    ensures
        opt_view(r) == batch_dir_of(path@, root@),
{
    if !paths::is_under(path, root) {
        return None;
    }
    let p: Vec<String> = paths::components_of(path);
    let q: Vec<String> = paths::components_of(root);
    proof {
        assert(p.len() == components(path@).len());
        assert(q.len() == components(root@).len());
    }
    if p.len() > 0 && p.len() - 1 > q.len() {
        paths::parent(path)
    } else {
        None
    }
}

fn cleanup(entry: &HistoryEntry, root: &str) -> (r: Cleanup)
    ensures
        r@ == cleanup_of(entry@, root@),
{
    let mut dirs: Vec<String> = Vec::new();
    match &entry.files {
        None => {
            proof {
                assert(views(dirs@) =~= Seq::<Seq<char>>::empty());
            }
        },
        Some(list) => {
            let ghost all = views(list@);
            let mut i: usize = 0;
            proof {
                assert(views(dirs@) =~= Seq::<Seq<char>>::empty());
            }
            while i < list.len()
                invariant
                    i <= list.len(),
                    all == views(list@),
                    views(dirs@) == batch_dirs(all.take(i as int), root@),
                decreases list.len() - i,
            {
                let ghost before = dirs@;
                proof {
                    assert(all.take(i + 1).drop_last() =~= all.take(i as int));
                    assert(all[i as int] == list@[i as int]@);
                }
                match batch_dir(list[i].as_str(), root) {
                    Some(dir) => {
                        if !is_among(&dirs, dir.as_str()) {
                            dirs.push(dir);
                            proof {
                                assert(views(dirs@) =~= views(before).push(dir@));
                            }
                        }
                    },
                    None => {},
                }
                i += 1;
            }
            proof {
                assert(all.take(list.len() as int) =~= all);
            }
        },
    }
    Cleanup { batch_dirs: dirs, blob_hash: text::clone_opt(&entry.blob_hash) }
}

proof fn lemma_oldest_unique(s: Seq<EntryView>, i: int, j: int)
    requires
        is_oldest(s, i),
        is_oldest(s, j),
    ensures
        i == j,
{
    if i < j {
        assert(!s[i].pinned);
    }
    if j < i {
        assert(!s[j].pinned);
    }
}

impl HistoryStore {
    fn find_hash(&self, hash: &str) -> (r: Option<usize>)
        ensures
            match r {
                Some(i) => first_place(self@.entries, by_hash(hash@)) == Some(i as int) && i
                    < self.entries.len(),
                None => first_place(self@.entries, by_hash(hash@)) is None,
            },
    {
        let ghost p = by_hash(hash@);
        proof {
            lemma_first_place(self@.entries, p);
        }
        let mut i: usize = 0;
        while i < self.entries.len()
            invariant
                i <= self.entries.len(),
                p == by_hash(hash@),
                forall|j: int| 0 <= j < i ==> !p(#[trigger] self@.entries[j]),
            decreases self.entries.len() - i,
        {
            proof {
                assert(self@.entries[i as int] == self.entries@[i as int]@);
            }
            if text::same(self.entries[i].content_hash.as_str(), hash) {
                proof {
                    lemma_first_place(self@.entries, p);
                    assert(p(self@.entries[i as int]));
                }
                return Some(i);
            }
            i += 1;
        }
        proof {
            lemma_first_place(self@.entries, p);
        }
        None
    }

    fn find_id(&self, id: &str) -> (r: Option<usize>)
        ensures
            match r {
                Some(i) => first_place(self@.entries, by_id(id@)) == Some(i as int) && i
                    < self.entries.len(),
                None => first_place(self@.entries, by_id(id@)) is None,
            },
    {
        let ghost p = by_id(id@);
        let mut i: usize = 0;
        while i < self.entries.len()
            invariant
                i <= self.entries.len(),
                p == by_id(id@),
                forall|j: int| 0 <= j < i ==> !p(#[trigger] self@.entries[j]),
            decreases self.entries.len() - i,
        {
            proof {
                assert(self@.entries[i as int] == self.entries@[i as int]@);
            }
            if text::same(self.entries[i].id.as_str(), id) {
                proof {
                    lemma_first_place(self@.entries, p);
                    assert(p(self@.entries[i as int]));
                }
                return Some(i);
            }
            i += 1;
        }
        proof {
            lemma_first_place(self@.entries, p);
        }
        None
    }

    fn touch(&mut self)
        ensures
            final(self)@ == (HistoryView { save: old(self)@.save.changed(), ..old(self)@ }),
    {
        if self.save != SaveState::Queued {
            self.save = SaveState::Due;
        }
    }

    fn forget_preview(&mut self, hash: &str)
        ensures
            final(self)@ == (HistoryView {
                previews: without(old(self)@.previews, hash@),
                ..old(self)@
            }),
    {
        let ghost all = self@.previews;
        let ghost p = |c: CachedView| c.blob_hash != hash@;
        let mut out: Vec<CachedPreview> = Vec::new();
        let mut rest: Vec<CachedPreview> = Vec::new();
        std::mem::swap(&mut rest, &mut self.previews);
        let mut i: usize = 0;
        let ghost held = rest@;
        proof {
            reveal(Seq::filter);
            assert(views(out@) =~= all.take(0).filter(p));
            assert(views(held) =~= all);
        }
        while i < rest.len()
            invariant
                i <= rest.len(),
                rest@ == held,
                views(held) == all,
                p == (|c: CachedView| c.blob_hash != hash@),
                views(out@) == all.take(i as int).filter(p),
            decreases rest.len() - i,
        {
            let ghost before = out@;
            proof {
                reveal(Seq::filter);
                assert(all.take(i + 1).drop_last() =~= all.take(i as int));
                assert(all[i as int] == rest@[i as int]@);
            }
            if !text::same(rest[i].blob_hash.as_str(), hash) {
                let png: Vec<u8> = rest[i].png.clone();
                proof {
                    assert(png@ =~= rest@[i as int].png@);
                }
                out.push(CachedPreview { blob_hash: rest[i].blob_hash.clone(), png });
                proof {
                    assert(views(out@) =~= views(before).push(rest@[i as int]@));
                }
            }
            i += 1;
        }
        proof {
            assert(all.take(rest.len() as int) =~= all);
        }
        self.previews = out;
    }

    /// The oldest entry that is not pinned.
    fn oldest(&self) -> (r: Option<usize>)
        ensures
            match r {
                Some(i) => is_oldest(self@.entries, i as int) && i < self.entries.len(),
                None => !has_loose(self@.entries),
            },
    {
        let ghost s = self@.entries;
        let mut found: Option<usize> = None;
        let mut i: usize = 0;
        while i < self.entries.len()
            invariant
                i <= self.entries.len(),
                s == self@.entries,
                s.len() == self.entries.len(),
                match found {
                    Some(k) => k < i && !s[k as int].pinned && (forall|j: int|
                        0 <= j < i && !(#[trigger] s[j]).pinned ==> s[k as int].last_copied_at
                            <= s[j].last_copied_at) && (forall|j: int|
                        0 <= j < k && !(#[trigger] s[j]).pinned ==> s[k as int].last_copied_at
                            < s[j].last_copied_at),
                    None => forall|j: int| 0 <= j < i ==> (#[trigger] s[j]).pinned,
                },
            decreases self.entries.len() - i,
        {
            proof {
                assert(s[i as int] == self.entries@[i as int]@);
            }
            if !self.entries[i].pinned {
                match found {
                    None => {
                        found = Some(i);
                    },
                    Some(k) => {
                        proof {
                            assert(s[k as int] == self.entries@[k as int]@);
                        }
                        if self.entries[i].last_copied_at < self.entries[k].last_copied_at {
                            found = Some(i);
                        }
                    },
                }
            }
            i += 1;
        }
        proof {
            if found is None && has_loose(s) {
                let k = choose|k: int| is_oldest(s, k);
                assert(s[k].pinned);
            }
        }
        found
    }

    /// Drops entries until the cap holds or all that is left is pinned.
    fn evict(&mut self, cap: usize) -> (r: Vec<Cleanup>)
        ensures
            final(self)@ == (HistoryView {
                entries: kept(old(self)@.entries, cap as nat),
                previews: purged(old(self)@.previews, dropped(old(self)@.entries, cap as nat)),
                ..old(self)@
            }),
            views(r@) == cleanups_of(dropped(old(self)@.entries, cap as nat), old(self)@.sync_root),
    {
        let ghost start = self@;
        let ghost mut gone: Seq<EntryView> = Seq::empty();
        let mut out: Vec<Cleanup> = Vec::new();
        proof {
            assert(gone + dropped(start.entries, cap as nat) =~= dropped(start.entries, cap as nat));
            assert(views(out@) =~= cleanups_of(gone, start.sync_root));
        }
        loop
            invariant
                kept(self@.entries, cap as nat) == kept(start.entries, cap as nat),
                gone + dropped(self@.entries, cap as nat) == dropped(start.entries, cap as nat),
                self@ == (HistoryView {
                    entries: self@.entries,
                    previews: purged(start.previews, gone),
                    ..start
                }),
                views(out@) == cleanups_of(gone, start.sync_root),
                self@.entries.len() == self.entries.len(),
            ensures
                self@.entries == kept(start.entries, cap as nat),
                gone == dropped(start.entries, cap as nat),
            decreases self.entries.len(),
        {
            let ghost now = self@.entries;
            if self.entries.len() <= cap {
                proof {
                    assert(gone + dropped(now, cap as nat) =~= gone);
                }
                break;
            }
            match self.oldest() {
                None => {
                    proof {
                        assert(gone + dropped(now, cap as nat) =~= gone);
                    }
                    break;
                },
                Some(i) => {
                    proof {
                        assert(has_loose(now));
                        lemma_oldest_unique(now, i as int, choose|k: int| is_oldest(now, k));
                        assert(now[i as int] == self.entries@[i as int]@);
                    }
                    let entry = self.entries.remove(i);
                    let ghost before = out@;
                    let ghost was = gone;
                    proof {
                        gone = was.push(entry@);
                        assert(gone.drop_last() =~= was);
                        assert(self@.entries =~= now.remove(i as int));
                        assert(was + (seq![entry@] + dropped(now.remove(i as int), cap as nat))
                            =~= gone + dropped(now.remove(i as int), cap as nat));
                    }
                    out.push(cleanup(&entry, self.sync_root.as_str()));
                    proof {
                        let one = cleanup_of(entry@, start.sync_root);
                        assert(self.sync_root@ == start.sync_root);
                        assert(views(out@) =~= views(before).push(one));
                        assert(cleanups_of(gone, start.sync_root) =~= cleanups_of(
                            was,
                            start.sync_root,
                        ).push(one));
                    }
                    match &entry.blob_hash {
                        Some(hash) => {
                            self.forget_preview(hash.as_str());
                        },
                        None => {},
                    }
                },
            }
        }
        out
    }

    /// Takes a new entry in and evicts.
    fn push(&mut self, entry: HistoryEntry, max_entries: usize) -> (r: Vec<Cleanup>)
        ensures
            ({
                let cap = if max_entries == 0 {
                    1nat
                } else {
                    max_entries as nat
                };
                final(self)@ == old(self)@.added(entry@, cap) && views(r@) == old(self)@.leftovers(
                    entry@,
                    cap,
                )
            }),
    {
        let ghost before = self@;
        self.entries.push(entry);
        proof {
            assert(self@.entries =~= before.entries.push(entry@));
        }
        let cap: usize = if max_entries == 0 {
            1
        } else {
            max_entries
        };
        let gone = self.evict(cap);
        self.touch();
        gone
    }
}

/// What an entry is searched in: the preview, and the text on the lines below
/// it.
pub open spec fn haystack(e: EntryView) -> Seq<char> {
    match e.text {
        Some(t) => lowercase(e.preview + "\n"@ + t),
        None => lowercase(e.preview),
    }
}

/// The entries that a query finds: all of them when it is empty.
pub open spec fn found_by(query: Seq<char>) -> spec_fn(EntryView) -> bool {
    |e: EntryView| query.len() == 0 || occurs(lowercase(query), haystack(e))
}

/// The IDs of the entries that a query finds.
pub open spec fn hits(entries: Seq<EntryView>, query: Seq<char>) -> Seq<Seq<char>> {
    entries.filter(found_by(query)).map_values(|e: EntryView| e.id)
}

/// Whether some entry refers to a file of the batch directory.
pub open spec fn refers_to_dir(entries: Seq<EntryView>, root: Seq<char>, dir: Seq<char>) -> bool {
    exists|i: int| 0 <= i < entries.len() && #[trigger] entry_refers_to(entries[i], root, dir)
}

/// Whether the entry refers to a file of the batch directory.
pub open spec fn entry_refers_to(e: EntryView, root: Seq<char>, dir: Seq<char>) -> bool {
    match e.files {
        Some(paths) => one_sits_in(paths, root, dir),
        None => false,
    }
}

/// Whether one of the paths sits in the directory.
pub open spec fn one_sits_in(paths: Seq<Seq<char>>, root: Seq<char>, dir: Seq<char>) -> bool {
    exists|k: int| 0 <= k < paths.len() && #[trigger] sits_in(paths[k], root, dir)
}

/// Whether the path lies below the landing root, directly in the directory.
pub open spec fn sits_in(path: Seq<char>, root: Seq<char>, dir: Seq<char>) -> bool {
    &&& lies_under(path, root)
    &&& absolute(path) == absolute(dir)
    &&& components(path).len() > 0
    &&& components(path).drop_last() == components(dir)
}

/// The sum of the sizes.
pub open spec fn total(sizes: Seq<u64>) -> int
    decreases sizes.len(),
{
    if sizes.len() == 0 {
        0
    } else {
        total(sizes.drop_last()) + sizes.last()
    }
}

proof fn lemma_total_part(sizes: Seq<u64>, n: int)
    requires
        0 <= n <= sizes.len(),
    ensures
        0 <= total(sizes.take(n)) <= total(sizes),
    decreases sizes.len(),
{
    if n == sizes.len() {
        assert(sizes.take(n) =~= sizes);
        if n > 0 {
            lemma_total_part(sizes.drop_last(), n - 1);
        }
    } else {
        assert(sizes.drop_last().take(n) =~= sizes.take(n));
        lemma_total_part(sizes.drop_last(), n);
    }
}

proof fn lemma_staying_part(entries: Seq<EntryView>, files: Seq<BlobFileView>, n: int)
    requires
        0 <= n <= files.len(),
    ensures
        0 <= staying_bytes(entries, files.take(n)) <= staying_bytes(entries, files),
    decreases files.len(),
{
    if n == files.len() {
        assert(files.take(n) =~= files);
        if n > 0 {
            lemma_staying_part(entries, files.drop_last(), n - 1);
        }
    } else {
        assert(files.drop_last().take(n) =~= files.take(n));
        lemma_staying_part(entries, files.drop_last(), n);
    }
}

fn same_components(a: &Vec<String>, b: &Vec<String>, n: usize) -> (r: bool)
    requires
        n <= a.len(),
    ensures
        r == (views(a@).take(n as int) == views(b@)),
{
    if b.len() != n {
        proof {
            assert(views(a@).take(n as int).len() == n);
            assert(views(b@).len() == b.len());
        }
        return false;
    }
    let mut i: usize = 0;
    while i < n
        invariant
            i <= n,
            n <= a.len(),
            n == b.len(),
            forall|j: int| 0 <= j < i ==> a@[j]@ == b@[j]@,
        decreases n - i,
    {
        if !text::same(a[i].as_str(), b[i].as_str()) {
            proof {
                assert(views(a@).take(n as int)[i as int] == a@[i as int]@);
                assert(views(b@)[i as int] == b@[i as int]@);
            }
            return false;
        }
        i += 1;
    }
    proof {
        assert(views(a@).take(n as int) =~= views(b@));
    }
    true
}

fn file_sits_in(path: &str, root: &str, dir: &str) -> (r: bool)
    ensures
        r == sits_in(path@, root@, dir@),
{
    if !paths::is_under(path, root) || paths::is_absolute(path) != paths::is_absolute(dir) {
        return false;
    }
    let p: Vec<String> = paths::components_of(path);
    let q: Vec<String> = paths::components_of(dir);
    if p.len() == 0 {
        return false;
    }
    proof {
        assert(views(p@).drop_last() =~= views(p@).take(p.len() - 1));
    }
    same_components(&p, &q, p.len() - 1)
}

fn refers_to(entry: &HistoryEntry, root: &str, dir: &str) -> (r: bool)
    ensures
        r == entry_refers_to(entry@, root@, dir@),
{
    match &entry.files {
        None => false,
        Some(list) => {
            let ghost all = views(list@);
            let mut i: usize = 0;
            while i < list.len()
                invariant
                    i <= list.len(),
                    all == views(list@),
                    entry@.files == Some(all),
                    forall|j: int| 0 <= j < i ==> !sits_in(#[trigger] all[j], root@, dir@),
                decreases list.len() - i,
            {
                proof {
                    assert(all[i as int] == list@[i as int]@);
                }
                if file_sits_in(list[i].as_str(), root, dir) {
                    proof {
                        assert(sits_in(all[i as int], root@, dir@));
                        assert(one_sits_in(all, root@, dir@));
                    }
                    return true;
                }
                i += 1;
            }
            false
        },
    }
}

fn is_referred(entries: &Vec<HistoryEntry>, hash: &str) -> (r: bool)
    ensures
        r == refers_to_blob(views(entries@), hash@),
{
    let ghost all = views(entries@);
    let mut i: usize = 0;
    while i < entries.len()
        invariant
            i <= entries.len(),
            all == views(entries@),
            forall|j: int| 0 <= j < i ==> (#[trigger] all[j]).blob_hash != Some(hash@),
        decreases entries.len() - i,
    {
        proof {
            assert(all[i as int] == entries@[i as int]@);
        }
        match &entries[i].blob_hash {
            Some(h) => {
                if text::same(h.as_str(), hash) {
                    proof {
                        assert(all[i as int].blob_hash == Some(hash@));
                    }
                    return true;
                }
            },
            None => {},
        }
        i += 1;
    }
    false
}

fn orphaned(entries: &Vec<HistoryEntry>, file: &BlobFile) -> (r: bool)
    ensures
        r == is_orphan(views(entries@), file@),
{
    match &file.name {
        None => false,
        Some(name) => match text::strip_suffix(name.as_str(), ".png") {
            None => false,
            Some(hash) => !is_referred(entries, hash.as_str()),
        },
    }
}

impl HistoryStore {
    /// Loads the history below the data directory. An index that is missing or
    /// corrupt reads as an empty one. Gives the names of the payload files
    /// that no entry refers to, for removal.
    pub fn load(data_dir: &str, index: Option<Vec<HistoryEntry>>, blobs: &Vec<BlobFile>) -> (r: (
        HistoryStore,
        Vec<String>,
    ))
        requires
            staying_bytes(
                match index {
                    Some(list) => views(list@),
                    None => Seq::empty(),
                },
                views(blobs@),
            ) <= u64::MAX,
        ensures
            ({
                let entries = match index {
                    Some(list) => views(list@),
                    None => Seq::empty(),
                };
                &&& r.0@ == (HistoryView {
                    dir: joined_path(data_dir@, HISTORY_DIR@),
                    sync_root: joined_path(data_dir@, SYNC_FILES_DIR@),
                    entries,
                    blob_bytes: staying_bytes(entries, views(blobs@)) as u64,
                    previews: Seq::empty(),
                    clear_generation: 0,
                    save: SaveState::Saved,
                })
                &&& views(r.1@) == orphans(entries, views(blobs@))
            }),
    {
        let entries: Vec<HistoryEntry> = match index {
            Some(list) => list,
            None => {
                let none: Vec<HistoryEntry> = Vec::new();
                proof {
                    assert(views(none@) =~= Seq::<EntryView>::empty());
                }
                none
            },
        };
        let ghost all = views(entries@);
        let ghost files = views(blobs@);
        let mut blob_bytes: u64 = 0;
        let mut gone: Vec<String> = Vec::new();
        let mut i: usize = 0;
        proof {
            assert(views(gone@) =~= Seq::<Seq<char>>::empty());
        }
        while i < blobs.len()
            invariant
                i <= blobs.len(),
                all == views(entries@),
                files == views(blobs@),
                staying_bytes(all, files) <= u64::MAX,
                blob_bytes == staying_bytes(all, files.take(i as int)),
                views(gone@) == orphans(all, files.take(i as int)),
            decreases blobs.len() - i,
        {
            let ghost before = gone@;
            proof {
                assert(files.take(i + 1).drop_last() =~= files.take(i as int));
                assert(files[i as int] == blobs@[i as int]@);
                lemma_staying_part(all, files, i + 1);
            }
            if orphaned(&entries, &blobs[i]) {
                match &blobs[i].name {
                    Some(name) => {
                        gone.push(name.clone());
                        proof {
                            assert(views(gone@) =~= views(before).push(name@));
                        }
                    },
                    None => {},
                }
            } else {
                blob_bytes = blob_bytes + blobs[i].bytes;
            }
            i += 1;
        }
        proof {
            assert(files.take(blobs.len() as int) =~= files);
        }
        let previews: Vec<CachedPreview> = Vec::new();
        proof {
            assert(views(previews@) =~= Seq::<CachedView>::empty());
        }
        (
            HistoryStore {
                dir: paths::join(data_dir, HISTORY_DIR),
                sync_root: paths::join(data_dir, SYNC_FILES_DIR),
                entries,
                blob_bytes,
                previews,
                clear_generation: 0,
                save: SaveState::Saved,
            },
            gone,
        )
    }

    /// Records content under a fresh ID.
    pub fn record(&mut self, content: ClipboardContent, copy: Copied, cfg: HistoryConfig) -> (r: RecordStep)
        ensures
            exists|id: Seq<char>|
                #![trigger is_uuid(id)]
                is_uuid(id) && (final(self)@, r@) == old(self)@.recorded(content@, copy@, cfg, id),
    {
        let id = ids::new_id();
        proof {
            assert(is_uuid(id@));
        }
        self.record_as(content, copy, cfg, id)
    }

    /// Records content under the given ID.
    pub fn record_as(&mut self, content: ClipboardContent, copy: Copied, cfg: HistoryConfig, id: String) -> (r: RecordStep)
        ensures
            (final(self)@, r@) == old(self)@.recorded(content@, copy@, cfg, id@),
    {
        let enabled = match &content {
            ClipboardContent::Text(_) => cfg.record_text,
            ClipboardContent::Image { .. } => cfg.record_images,
            ClipboardContent::Files(_) => cfg.record_files,
            ClipboardContent::ImageUnread => false,
        };
        if !enabled {
            return RecordStep::Skipped;
        }
        match self.find_hash(copy.content_hash.as_str()) {
            Some(i) => {
                self.bump(i, copy);
                return RecordStep::Bumped;
            },
            None => {},
        }
        let mut entry = HistoryEntry {
            id,
            kind: KIND_TEXT.to_owned(),
            text: None,
            blob_hash: None,
            files: None,
            preview: String::new(),
            content_hash: copy.content_hash,
            first_copied_at: copy.at,
            last_copied_at: copy.at,
            copy_count: 1,
            origin: copy.origin,
            source_app: copy.source_app,
            pinned: false,
        };
        match content {
            ClipboardContent::Text(t) => {
                if t.as_str().as_bytes().len() > MAX_TEXT_BYTES {
                    return RecordStep::Skipped;
                }
                entry.preview = preview_text(t.as_str());
                entry.text = Some(t);
                RecordStep::Added(self.push(entry, cfg.max_entries))
            },
            ClipboardContent::Image { width, height, rgba } => {
                if rgba.len() > MAX_IMAGE_RGBA_BYTES {
                    return RecordStep::Skipped;
                }
                entry.kind = KIND_IMAGE.to_owned();
                entry.preview = preview_image(width, height);
                entry.blob_hash = Some(entry.content_hash.clone());
                RecordStep::Encode(
                    ImageJob {
                        width,
                        height,
                        rgba,
                        entry,
                        max_entries: cfg.max_entries,
                        generation: self.clear_generation,
                    },
                )
            },
            ClipboardContent::Files(list) => match path_texts(list) {
                None => RecordStep::Skipped,
                Some(texts) => {
                    entry.kind = KIND_FILES.to_owned();
                    entry.preview = preview_files(&texts);
                    entry.files = Some(texts);
                    RecordStep::Added(self.push(entry, cfg.max_entries))
                },
            },
            ClipboardContent::ImageUnread => RecordStep::Skipped,
        }
    }

    fn bump(&mut self, i: usize, copy: Copied)
        requires
            i < old(self).entries.len(),
        ensures
            final(self)@ == old(self)@.again(i as int, copy@),
    {
        let ghost before = self@;
        let mut entry = self.entries[i].duplicate();
        proof {
            assert(before.entries[i as int] == self.entries@[i as int]@);
        }
        if entry.copy_count < u32::MAX {
            entry.copy_count = entry.copy_count + 1;
        }
        entry.last_copied_at = copy.at;
        if copy.origin.is_some() {
            entry.source_app = None;
        } else if copy.source_app.is_some() {
            entry.source_app = copy.source_app;
        }
        entry.origin = copy.origin;
        self.entries.set(i, entry);
        proof {
            assert(self@.entries =~= before.entries.update(i as int, bumped(before.entries[i as int], copy@)));
        }
        self.touch();
    }

    /// Ends the recording of an image. `written` is nothing when the payload
    /// could not be written, and otherwise tells whether the write put it
    /// there (it may have been there already).
    pub fn finish_image(&mut self, job: ImageJob, png_bytes: u64, written: Option<bool>) -> (r: ImageEnd)
        ensures
            (final(self)@, r@) == old(self)@.finished(job@, png_bytes, written),
    {
        match written {
            None => ImageEnd::Skipped,
            Some(put) => {
                if job.generation != self.clear_generation {
                    return ImageEnd::Discarded { remove_blob: put };
                }
                if put {
                    self.blob_bytes = self.blob_bytes.wrapping_add(png_bytes);
                }
                ImageEnd::Added(self.push(job.entry, job.max_entries))
            },
        }
    }

    fn places(&self, sort: &str) -> (r: Vec<usize>)
        ensures
            r@ == list_order(self@.entries, sort@),
            stable_order(ranks(self@.entries, sort@), r@),
    {
        let frequent = text::same(sort, SORT_FREQUENT);
        let mut keys: Vec<Rank> = Vec::new();
        let mut i: usize = 0;
        while i < self.entries.len()
            invariant
                i <= self.entries.len(),
                frequent == (sort@ == SORT_FREQUENT@),
                keys.len() == i,
                forall|j: int| 0 <= j < i ==> keys@[j] == self.entries@[j]@.rank(sort@),
            decreases self.entries.len() - i,
        {
            keys.push(
                Rank {
                    pinned: self.entries[i].pinned,
                    count: if frequent {
                        self.entries[i].copy_count
                    } else {
                        0
                    },
                    at: self.entries[i].last_copied_at,
                },
            );
            i += 1;
        }
        proof {
            assert(keys@ =~= ranks(self@.entries, sort@));
        }
        let p = order::sorted_places(&keys);
        proof {
            order::lemma_stable_order_unique(keys@, p@, list_order(self@.entries, sort@));
        }
        p
    }

    /// The entries in list order.
    pub fn list(&self, sort: &str) -> (r: Vec<HistoryEntry>)
        ensures
            views(r@) == sorted(self@.entries, sort@),
    {
        let p = self.places(sort);
        let mut out: Vec<HistoryEntry> = Vec::new();
        let mut i: usize = 0;
        while i < p.len()
            invariant
                i <= p.len(),
                p@ == list_order(self@.entries, sort@),
                stable_order(ranks(self@.entries, sort@), p@),
                out.len() == i,
                forall|j: int| 0 <= j < i ==> (#[trigger] out@[j])@ == self@.entries[p@[j] as int],
            decreases p.len() - i,
        {
            let k: usize = p[i];
            proof {
                assert(self@.entries[k as int] == self.entries@[k as int]@);
            }
            out.push(self.entries[k].duplicate());
            i += 1;
        }
        proof {
            assert(views(out@) =~= sorted(self@.entries, sort@));
        }
        out
    }

    /// The list projections in list order.
    pub fn list_meta(&self, sort: &str) -> (r: Vec<HistoryEntryMeta>)
        ensures
            views(r@) == sorted(self@.entries, sort@).map_values(|e: EntryView| e.meta()),
    {
        let p = self.places(sort);
        let mut out: Vec<HistoryEntryMeta> = Vec::new();
        let mut i: usize = 0;
        while i < p.len()
            invariant
                i <= p.len(),
                p@ == list_order(self@.entries, sort@),
                stable_order(ranks(self@.entries, sort@), p@),
                out.len() == i,
                forall|j: int|
                    0 <= j < i ==> (#[trigger] out@[j])@ == self@.entries[p@[j] as int].meta(),
            decreases p.len() - i,
        {
            let k: usize = p[i];
            proof {
                assert(self@.entries[k as int] == self.entries@[k as int]@);
            }
            out.push(HistoryEntryMeta::of(&self.entries[k]));
            i += 1;
        }
        proof {
            assert(views(out@) =~= sorted(self@.entries, sort@).map_values(|e: EntryView| e.meta()));
        }
        out
    }

    /// The ID of the nth entry in list order.
    pub fn entry_id_at(&self, sort: &str, n: usize) -> (r: Option<String>)
        ensures
            opt_view(r) == (if n < self@.entries.len() {
                Some(sorted(self@.entries, sort@)[n as int].id)
            } else {
                None
            }),
    {
        if n >= self.entries.len() {
            return None;
        }
        let p = self.places(sort);
        let k: usize = p[n];
        proof {
            assert(self@.entries[k as int] == self.entries@[k as int]@);
        }
        Some(self.entries[k].id.clone())
    }

    /// The IDs of the entries whose preview or text holds the query, whatever
    /// the case of the letters. An empty query finds every entry.
    pub fn search(&self, query: &str) -> (r: Vec<String>)
        ensures
            views(r@) == hits(self@.entries, query@),
            query@.len() == 0 ==> views(r@) == self@.entries.map_values(|e: EntryView| e.id),
    {
        proof {
            if query@.len() == 0 {
                law_empty_query_finds_all(self@.entries, query@);
            }
        }
        let every = query.is_empty();
        let ghost all = self@.entries;
        let ghost p = found_by(query@);
        let needle = text::to_lowercase(query);
        let mut out: Vec<String> = Vec::new();
        let mut i: usize = 0;
        proof {
            reveal(Seq::filter);
            assert(views(out@) =~= all.take(0).filter(p).map_values(|e: EntryView| e.id));
        }
        while i < self.entries.len()
            invariant
                i <= self.entries.len(),
                all == self@.entries,
                p == found_by(query@),
                needle@ == lowercase(query@),
                every == (query@.len() == 0),
                views(out@) == all.take(i as int).filter(p).map_values(|e: EntryView| e.id),
            decreases self.entries.len() - i,
        {
            let ghost before = out@;
            proof {
                reveal(Seq::filter);
                assert(all.take(i + 1).drop_last() =~= all.take(i as int));
                assert(all[i as int] == self.entries@[i as int]@);
            }
            let mut whole = self.entries[i].preview.clone();
            match &self.entries[i].text {
                Some(t) => {
                    whole.append("\n");
                    whole.append(t.as_str());
                },
                None => {},
            }
            let lower = text::to_lowercase(whole.as_str());
            if every || text::contains(lower.as_str(), needle.as_str()) {
                out.push(self.entries[i].id.clone());
                proof {
                    let picked = all.take(i as int).filter(p);
                    assert(views(out@) =~= views(before).push(all[i as int].id));
                    assert(picked.push(all[i as int]).map_values(|e: EntryView| e.id)
                        =~= picked.map_values(|e: EntryView| e.id).push(all[i as int].id));
                }
            }
            i += 1;
        }
        proof {
            assert(all.take(self.entries.len() as int) =~= all);
        }
        out
    }

    /// The text of an entry, cut to `max_chars` characters, and its length in
    /// characters. Nothing for an unknown ID and for an entry without text.
    pub fn entry_text(&self, id: &str, max_chars: usize) -> (r: Option<(String, usize)>)
        ensures
            match first_place(self@.entries, by_id(id@)) {
                Some(i) => match self@.entries[i].text {
                    Some(t) => match r {
                        Some(shown) => shown.0@ == head(t, max_chars as nat) && shown.1 == t.len(),
                        None => false,
                    },
                    None => r is None,
                },
                None => r is None,
            },
    {
        match self.find_id(id) {
            None => None,
            Some(i) => {
                proof {
                    assert(self@.entries[i as int] == self.entries@[i as int]@);
                }
                match &self.entries[i].text {
                    None => None,
                    Some(t) => {
                        let chars: Vec<char> = text::chars_of(t.as_str());
                        Some((text::head_of(chars.as_slice(), max_chars), chars.len()))
                    },
                }
            },
        }
    }

    /// The entry with that ID.
    pub fn entry(&self, id: &str) -> (r: Option<HistoryEntry>)
        ensures
            opt_view(r) == (match first_place(self@.entries, by_id(id@)) {
                Some(i) => Some(self@.entries[i]),
                None => None,
            }),
    {
        match self.find_id(id) {
            None => None,
            Some(i) => {
                proof {
                    assert(self@.entries[i as int] == self.entries@[i as int]@);
                }
                Some(self.entries[i].duplicate())
            },
        }
    }

    /// Deletes an entry: what it leaves on disk, or nothing for an unknown ID.
    pub fn delete(&mut self, id: &str) -> (r: Option<Cleanup>)
        ensures
            (final(self)@, opt_view(r)) == old(self)@.removed(id@),
    {
        let ghost before = self@;
        match self.find_id(id) {
            None => None,
            Some(i) => {
                proof {
                    assert(before.entries[i as int] == self.entries@[i as int]@);
                }
                let entry = self.entries.remove(i);
                proof {
                    assert(self@.entries =~= before.entries.remove(i as int));
                    let one = seq![entry@];
                    assert(one.drop_last() =~= Seq::<EntryView>::empty());
                    assert(purged(before.previews, Seq::empty()) == before.previews);
                }
                let left = cleanup(&entry, self.sync_root.as_str());
                match &entry.blob_hash {
                    Some(hash) => {
                        self.forget_preview(hash.as_str());
                    },
                    None => {},
                }
                self.touch();
                Some(left)
            },
        }
    }

    /// Clears the history, pinned entries included. An image that is on its
    /// way is discarded when it arrives. Gives the directories to remove.
    pub fn clear(&mut self) -> (r: Vec<String>)
        ensures
            final(self)@ == old(self)@.cleared(),
            views(r@) == old(self)@.clear_dirs(),
    {
        let mut gone: Vec<String> = Vec::new();
        gone.push(paths::join(self.dir.as_str(), BLOBS_DIR));
        gone.push(self.sync_root.clone());
        proof {
            assert(views(gone@) =~= self@.clear_dirs());
        }
        self.clear_generation = self.clear_generation.wrapping_add(1);
        self.entries = Vec::new();
        self.previews = Vec::new();
        self.blob_bytes = 0;
        proof {
            assert(self@.entries =~= Seq::<EntryView>::empty());
            assert(self@.previews =~= Seq::<CachedView>::empty());
        }
        self.touch();
        gone
    }

    /// Pins or unpins an entry; false for an unknown ID.
    pub fn set_pinned(&mut self, id: &str, pinned: bool) -> (r: bool)
        ensures
            (final(self)@, r) == old(self)@.repinned(id@, pinned),
    {
        let ghost before = self@;
        match self.find_id(id) {
            None => false,
            Some(i) => {
                proof {
                    assert(before.entries[i as int] == self.entries@[i as int]@);
                }
                let mut entry = self.entries[i].duplicate();
                entry.pinned = pinned;
                self.entries.set(i, entry);
                proof {
                    assert(self@.entries =~= before.entries.update(i as int, entry@));
                }
                self.touch();
                true
            },
        }
    }

    /// The bytes that the history takes on disk: the index, the payloads and
    /// the received files.
    pub fn disk_usage(&self, index_bytes: u64, sync_files: &Vec<u64>) -> (r: u64)
        requires
            index_bytes + total(sync_files@) + self@.blob_bytes <= u64::MAX,
        ensures
            r == index_bytes + total(sync_files@) + self@.blob_bytes,
    {
        let mut sum: u64 = 0;
        let mut i: usize = 0;
        while i < sync_files.len()
            invariant
                i <= sync_files.len(),
                sum == total(sync_files@.take(i as int)),
                total(sync_files@) <= u64::MAX,
            decreases sync_files.len() - i,
        {
            proof {
                assert(sync_files@.take(i + 1).drop_last() =~= sync_files@.take(i as int));
                lemma_total_part(sync_files@, i + 1);
            }
            sum = sum + sync_files[i];
            i += 1;
        }
        proof {
            assert(sync_files@.take(sync_files.len() as int) =~= sync_files@);
        }
        index_bytes + sum + self.blob_bytes
    }

    /// Takes the size of a removed payload off the footprint.
    pub fn reclaim(&mut self, bytes: u64)
        ensures
            final(self)@ == old(self)@.reclaimed(bytes),
    {
        self.blob_bytes = if bytes <= self.blob_bytes {
            self.blob_bytes - bytes
        } else {
            0
        };
    }

    /// The batch directories that no entry refers to.
    pub fn sweep_orphan_sync_files(&self, dirs: &Vec<String>) -> (r: Vec<String>)
        ensures
            views(r@) == views(dirs@).filter(
                |d: Seq<char>| !refers_to_dir(self@.entries, self@.sync_root, d),
            ),
    {
        let ghost all = views(dirs@);
        let ghost p = |d: Seq<char>| !refers_to_dir(self@.entries, self@.sync_root, d);
        let mut out: Vec<String> = Vec::new();
        let mut i: usize = 0;
        proof {
            reveal(Seq::filter);
            assert(views(out@) =~= all.take(0).filter(p));
        }
        while i < dirs.len()
            invariant
                i <= dirs.len(),
                all == views(dirs@),
                p == (|d: Seq<char>| !refers_to_dir(self@.entries, self@.sync_root, d)),
                views(out@) == all.take(i as int).filter(p),
            decreases dirs.len() - i,
        {
            let ghost before = out@;
            proof {
                reveal(Seq::filter);
                assert(all.take(i + 1).drop_last() =~= all.take(i as int));
                assert(all[i as int] == dirs@[i as int]@);
            }
            if !self.refers_to_batch(dirs[i].as_str()) {
                out.push(dirs[i].clone());
                proof {
                    assert(views(out@) =~= views(before).push(dirs@[i as int]@));
                }
            }
            i += 1;
        }
        proof {
            assert(all.take(dirs.len() as int) =~= all);
        }
        out
    }

    fn refers_to_batch(&self, dir: &str) -> (r: bool)
        ensures
            r == refers_to_dir(self@.entries, self@.sync_root, dir@),
    {
        let ghost all = self@.entries;
        let mut i: usize = 0;
        while i < self.entries.len()
            invariant
                i <= self.entries.len(),
                all == self@.entries,
                forall|j: int|
                    0 <= j < i ==> !entry_refers_to(#[trigger] all[j], self@.sync_root, dir@),
            decreases self.entries.len() - i,
        {
            proof {
                assert(all[i as int] == self.entries@[i as int]@);
            }
            if refers_to(&self.entries[i], self.sync_root.as_str(), dir) {
                proof {
                    assert(entry_refers_to(all[i as int], self@.sync_root, dir@));
                }
                return true;
            }
            i += 1;
        }
        false
    }

    /// Where the payload of an image is kept.
    pub fn blob_path(&self, blob_hash: &str) -> (r: String)
        ensures
            r@ == self@.blob_file(blob_hash@),
    {
        let dir = paths::join(self.dir.as_str(), BLOBS_DIR);
        let name = text::join(blob_hash, ".png");
        paths::join(dir.as_str(), name.as_str())
    }

    /// Where the icon of an application is kept: under the digest of the
    /// application name.
    pub fn app_icon_path(&self, app_name: &str) -> (r: String)
        ensures
            r@ == self@.icon_file(app_name@),
    {
        let dir = paths::join(self.dir.as_str(), APP_ICONS_DIR);
        let key = clipboard::hash_text(app_name);
        let name = text::join(key.as_str(), ".png");
        paths::join(dir.as_str(), name.as_str())
    }

    /// Whether the icon of an application is among the icon files.
    pub fn has_app_icon(&self, app_name: &str, files: &Vec<String>) -> (r: bool)
        ensures
            r == views(files@).contains(icon_name(app_name@)),
    {
        let key = clipboard::hash_text(app_name);
        let name = text::join(key.as_str(), ".png");
        is_among(files, name.as_str())
    }

    /// Directory of the history.
    pub fn dir(&self) -> (r: String)
        ensures
            r@ == self@.dir,
    {
        self.dir.clone()
    }

    /// Landing root of received files.
    pub fn sync_root(&self) -> (r: String)
        ensures
            r@ == self@.sync_root,
    {
        self.sync_root.clone()
    }

    /// Whether a writer has to be started now; then one is on its way.
    pub fn take_due_save(&mut self) -> (r: bool)
        ensures
            r == (old(self)@.save == SaveState::Due),
            final(self)@ == (HistoryView {
                save: if r {
                    SaveState::Queued
                } else {
                    old(self)@.save
                },
                ..old(self)@
            }),
    {
        if self.save == SaveState::Due {
            self.save = SaveState::Queued;
            true
        } else {
            false
        }
    }

    /// What a writer puts on disk: the entries as they are now. A change after
    /// this starts another writer.
    pub fn snapshot(&mut self) -> (r: Vec<HistoryEntry>)
        ensures
            views(r@) == old(self)@.entries,
            final(self)@ == (HistoryView { save: SaveState::Saved, ..old(self)@ }),
    {
        self.save = SaveState::Saved;
        self.save_sync()
    }

    /// The entries as they are now, for a write outside the queue.
    pub fn save_sync(&self) -> (r: Vec<HistoryEntry>)
        ensures
            views(r@) == self@.entries,
    {
        let mut out: Vec<HistoryEntry> = Vec::new();
        let mut i: usize = 0;
        while i < self.entries.len()
            invariant
                i <= self.entries.len(),
                out.len() == i,
                forall|j: int| 0 <= j < i ==> (#[trigger] out@[j])@ == self.entries@[j]@,
            decreases self.entries.len() - i,
        {
            out.push(self.entries[i].duplicate());
            i += 1;
        }
        proof {
            assert(views(out@) =~= self@.entries);
        }
        out
    }
}

/// Whether the place is the first with a preview of the payload.
pub open spec fn cached_at(previews: Seq<CachedView>, hash: Seq<char>, i: int) -> bool {
    &&& 0 <= i < previews.len()
    &&& previews[i].blob_hash == hash
    &&& forall|j: int| 0 <= j < i ==> (#[trigger] previews[j]).blob_hash != hash
}

/// The cache after a use: the preview moves to the end.
pub open spec fn used(previews: Seq<CachedView>, i: int) -> Seq<CachedView> {
    previews.remove(i).push(previews[i])
}

/// The cache with a new preview: the least recently used one makes room.
pub open spec fn stored(previews: Seq<CachedView>, hash: Seq<char>, png: Seq<u8>) -> Seq<CachedView> {
    let room = if previews.len() >= PREVIEW_CACHE_CAP {
        previews.remove(0)
    } else {
        previews
    };
    room.push(CachedView { blob_hash: hash, png })
}

/// Whether an image is too large for the preview card.
pub open spec fn oversized(bytes: Seq<u8>) -> bool {
    match png_header(bytes) {
        Some(size) => size.0 > PREVIEW_IMAGE_MAX_EDGE || size.1 > PREVIEW_IMAGE_MAX_EDGE,
        None => false,
    }
}

/// Whether an image is too large for the preview card and its samples are
/// enough for an RGBA bitmap.
pub open spec fn scalable(bytes: Seq<u8>) -> bool {
    match png_header(bytes) {
        Some(size) => oversized(bytes) && covers(bytes, size.0, size.1),
        None => false,
    }
}

/// The size of an image that is too large for the preview card.
pub fn oversize(bytes: &[u8]) -> (r: Option<(u32, u32)>)
    ensures
        r == (if oversized(bytes@) {
            png_header(bytes@)
        } else {
            None
        }),
{
    match images::png_dimensions(bytes) {
        Some(size) => {
            if size.0 > PREVIEW_IMAGE_MAX_EDGE || size.1 > PREVIEW_IMAGE_MAX_EDGE {
                Some(size)
            } else {
                None
            }
        },
        None => None,
    }
}

impl HistoryStore {
    /// The cached preview of a payload.
    pub fn cached_preview(&mut self, blob_hash: &str) -> (r: Option<Vec<u8>>)
        ensures
            match r {
                Some(png) => exists|i: int| #[trigger]
                    cached_at(old(self)@.previews, blob_hash@, i) && png@
                        == old(self)@.previews[i].png && final(self)@ == (HistoryView {
                        previews: used(old(self)@.previews, i),
                        ..old(self)@
                    }),
                None => final(self)@ == old(self)@ && forall|i: int|
                    0 <= i < old(self)@.previews.len() ==> (#[trigger] old(self)@.previews[i]).blob_hash
                        != blob_hash@,
            },
    {
        let ghost before = self@;
        let mut i: usize = 0;
        while i < self.previews.len()
            invariant
                i <= self.previews.len(),
                before == old(self)@,
                self@ == before,
                forall|j: int| 0 <= j < i ==> (#[trigger] before.previews[j]).blob_hash != blob_hash@,
            decreases self.previews.len() - i,
        {
            proof {
                assert(before.previews[i as int] == self.previews@[i as int]@);
            }
            if text::same(self.previews[i].blob_hash.as_str(), blob_hash) {
                let hit = self.previews.remove(i);
                let png: Vec<u8> = hit.png.clone();
                proof {
                    assert(png@ =~= hit.png@);
                    assert(cached_at(before.previews, blob_hash@, i as int));
                    assert(png@ == before.previews[i as int].png);
                }
                self.previews.push(hit);
                proof {
                    assert(self@.previews =~= used(before.previews, i as int));
                    assert(self@ == (HistoryView {
                        previews: used(before.previews, i as int),
                        ..before
                    }));
                }
                return Some(png);
            }
            i += 1;
        }
        None
    }

    /// The preview of a payload, given the payload and the size to scale to:
    /// the payload itself when it is small or cannot be scaled. A scaled
    /// preview is cached.
    pub fn preview_png(&mut self, blob_hash: &str, bytes: Vec<u8>, to_width: u32, to_height: u32) -> (r: Vec<u8>)
        requires
            to_width <= PREVIEW_IMAGE_MAX_EDGE,
            to_height <= PREVIEW_IMAGE_MAX_EDGE,
        ensures
            if scalable(bytes@) && to_width > 0 && to_height > 0 {
                &&& has_size(r@, to_width, to_height)
                &&& final(self)@ == (HistoryView {
                    previews: stored(old(self)@.previews, blob_hash@, r@),
                    ..old(self)@
                })
            } else {
                &&& r@ == bytes@
                &&& final(self)@ == old(self)@
            },
    {
        let ghost before = self@;
        let size = match oversize(bytes.as_slice()) {
            Some(size) => size,
            None => {
                return bytes;
            },
        };
        assert(to_width * to_height <= 800 * 800) by (nonlinear_arith)
            requires
                to_width <= 800,
                to_height <= 800,
        ;
        match images::downscale_png(bytes.as_slice(), size.0, size.1, to_width, to_height) {
            None => bytes,
            Some(png) => {
                if self.previews.len() >= PREVIEW_CACHE_CAP {
                    let _ = self.previews.remove(0);
                }
                let copy: Vec<u8> = png.clone();
                proof {
                    assert(copy@ =~= png@);
                }
                self.previews.push(CachedPreview { blob_hash: blob_hash.to_owned(), png: copy });
                proof {
                    assert(self@.previews =~= stored(before.previews, blob_hash@, png@));
                }
                png
            },
        }
    }
}

/// Pinned entries are never evicted.
pub proof fn law_pinned_entries_survive(s: Seq<EntryView>, cap: nat, e: EntryView)
    requires
        s.contains(e),
        e.pinned,
    ensures
        kept(s, cap).contains(e),
    decreases s.len(),
{
    if s.len() > cap && has_loose(s) {
        let i = choose|i: int| is_oldest(s, i);
        let k = choose|k: int| 0 <= k < s.len() && s[k] == e;
        let rest = s.remove(i);
        if k < i {
            assert(rest[k] == e);
        } else {
            assert(rest[k - 1] == e);
        }
        law_pinned_entries_survive(rest, cap, e);
    }
}

/// Eviction keeps to the cap, unless all that is left is pinned.
pub proof fn law_eviction_respects_the_cap(s: Seq<EntryView>, cap: nat)
    ensures
        kept(s, cap).len() <= cap || forall|i: int|
            0 <= i < kept(s, cap).len() ==> (#[trigger] kept(s, cap)[i]).pinned,
    decreases s.len(),
{
    if s.len() > cap {
        if has_loose(s) {
            let i = choose|i: int| is_oldest(s, i);
            law_eviction_respects_the_cap(s.remove(i), cap);
        } else {
            assert forall|i: int| 0 <= i < s.len() implies (#[trigger] s[i]).pinned by {
                if !s[i].pinned {
                    lemma_some_oldest(s, i);
                }
            }
        }
    }
}

proof fn lemma_some_oldest(s: Seq<EntryView>, i: int)
    requires
        0 <= i < s.len(),
        !s[i].pinned,
    ensures
        has_loose(s),
    decreases s[i].last_copied_at, i,
{
    if exists|j: int|
        0 <= j < s.len() && !(#[trigger] s[j]).pinned && s[j].last_copied_at < s[i].last_copied_at {
        let j = choose|j: int|
            0 <= j < s.len() && !(#[trigger] s[j]).pinned && s[j].last_copied_at < s[i].last_copied_at;
        lemma_some_oldest(s, j);
    } else if exists|j: int|
        0 <= j < i && !(#[trigger] s[j]).pinned && s[j].last_copied_at <= s[i].last_copied_at {
        let j = choose|j: int|
            0 <= j < i && !(#[trigger] s[j]).pinned && s[j].last_copied_at <= s[i].last_copied_at;
        assert(s[j].last_copied_at == s[i].last_copied_at);
        lemma_some_oldest(s, j);
    } else {
        assert(is_oldest(s, i));
    }
}

/// Every entry is either kept or dropped, and what is dropped is not pinned.
pub proof fn law_eviction_drops_loose_entries(s: Seq<EntryView>, cap: nat)
    ensures
        kept(s, cap).len() + dropped(s, cap).len() == s.len(),
        forall|i: int| 0 <= i < dropped(s, cap).len() ==> !(#[trigger] dropped(s, cap)[i]).pinned,
        forall|i: int|
            0 <= i < dropped(s, cap).len() ==> s.contains(#[trigger] dropped(s, cap)[i]),
        forall|i: int| 0 <= i < kept(s, cap).len() ==> s.contains(#[trigger] kept(s, cap)[i]),
    decreases s.len(),
{
    if s.len() > cap && has_loose(s) {
        let i = choose|i: int| is_oldest(s, i);
        let rest = s.remove(i);
        law_eviction_drops_loose_entries(rest, cap);
        let gone = dropped(s, cap);
        assert forall|e: EntryView| #[trigger] rest.contains(e) implies s.contains(e) by {
            let k = choose|k: int| 0 <= k < rest.len() && rest[k] == e;
            if k < i {
                assert(s[k] == e);
            } else {
                assert(s[k + 1] == e);
            }
        }
        assert forall|k: int| 0 <= k < gone.len() implies !(#[trigger] gone[k]).pinned && s.contains(
            gone[k],
        ) by {
            if k == 0 {
                assert(gone[0] == s[i]);
            } else {
                assert(gone[k] == dropped(rest, cap)[k - 1]);
            }
        }
    } else {
        assert forall|i: int| 0 <= i < s.len() implies s.contains(#[trigger] s[i]) by {}
    }
}

/// Copying known content adds no entry: the count goes up, and the entry takes
/// the time of the copy.
pub proof fn law_known_content_adds_nothing(
    h: HistoryView,
    content: ContentView,
    copy: CopiedView,
    cfg: HistoryConfig,
    id: Seq<char>,
)
    requires
        cfg.takes(content),
        exists|i: int| 0 <= i < h.entries.len() && (#[trigger] h.entries[i]).content_hash == copy.content_hash,
    ensures
        ({
            let (after, step) = h.recorded(content, copy, cfg, id);
            &&& step == StepView::Bumped
            &&& after.entries.len() == h.entries.len()
            &&& exists|i: int|
                0 <= i < h.entries.len() && (#[trigger] h.entries[i]).content_hash == copy.content_hash
                    && after.entries == h.entries.update(i, bumped(h.entries[i], copy))
        }),
{
    let p = by_hash(copy.content_hash);
    lemma_first_place(h.entries, p);
    let i = choose|i: int|
        0 <= i < h.entries.len() && (#[trigger] h.entries[i]).content_hash == copy.content_hash;
    assert(p(h.entries[i]));
    let k = first_place(h.entries, p)->0;
    assert(h.entries[k].content_hash == copy.content_hash);
}

/// New text within the caps becomes the last entry, exactly as copied.
pub proof fn law_new_text_is_kept_exactly(
    h: HistoryView,
    t: Seq<char>,
    copy: CopiedView,
    cfg: HistoryConfig,
    id: Seq<char>,
)
    requires
        cfg.record_text,
        encode_utf8(t).len() <= MAX_TEXT_BYTES,
        h.entries.len() < cfg.cap(),
        forall|i: int|
            0 <= i < h.entries.len() ==> (#[trigger] h.entries[i]).content_hash != copy.content_hash,
    ensures
        ({
            let after = h.recorded(ContentView::Text(t), copy, cfg, id).0;
            &&& after.entries.len() == h.entries.len() + 1
            &&& after.entries.drop_last() == h.entries
            &&& after.entries.last().text == Some(t)
            &&& after.entries.last().id == id
            &&& after.entries.last().content_hash == copy.content_hash
        }),
{
    lemma_first_place(h.entries, by_hash(copy.content_hash));
    let after = h.recorded(ContentView::Text(t), copy, cfg, id).0;
    assert(after.entries.drop_last() =~= h.entries);
}

/// No content has two entries.
pub open spec fn hashes_unique(s: Seq<EntryView>) -> bool {
    forall|i: int, j: int|
        0 <= i < s.len() && 0 <= j < s.len() && (#[trigger] s[i]).content_hash == (
        #[trigger] s[j]).content_hash ==> i == j
}

proof fn lemma_kept_unique(s: Seq<EntryView>, cap: nat)
    requires
        hashes_unique(s),
    ensures
        hashes_unique(kept(s, cap)),
    decreases s.len(),
{
    if s.len() > cap && has_loose(s) {
        let i = choose|i: int| is_oldest(s, i);
        let rest = s.remove(i);
        assert forall|a: int, b: int|
            0 <= a < rest.len() && 0 <= b < rest.len() && (#[trigger] rest[a]).content_hash == (
            #[trigger] rest[b]).content_hash implies a == b by {
            let a1 = if a < i {
                a
            } else {
                a + 1
            };
            let b1 = if b < i {
                b
            } else {
                b + 1
            };
            assert(s[a1] == rest[a] && s[b1] == rest[b]);
        }
        lemma_kept_unique(rest, cap);
    }
}

/// Recording never gives content a second entry.
pub proof fn law_content_has_one_entry(
    h: HistoryView,
    content: ContentView,
    copy: CopiedView,
    cfg: HistoryConfig,
    id: Seq<char>,
)
    requires
        hashes_unique(h.entries),
    ensures
        hashes_unique(h.recorded(content, copy, cfg, id).0.entries),
{
    let p = by_hash(copy.content_hash);
    lemma_first_place(h.entries, p);
    let (after, step) = h.recorded(content, copy, cfg, id);
    match step {
        StepView::Bumped => {
            let i = first_place(h.entries, p)->0;
            assert forall|a: int, b: int|
                0 <= a < after.entries.len() && 0 <= b < after.entries.len() && (
                #[trigger] after.entries[a]).content_hash == (#[trigger] after.entries[b]).content_hash
                implies a == b by {
                assert(after.entries[a].content_hash == h.entries[a].content_hash);
                assert(after.entries[b].content_hash == h.entries[b].content_hash);
            }
        },
        StepView::Added(_) => {
            assert forall|e: EntryView| e.content_hash == copy.content_hash implies hashes_unique(
                #[trigger] h.entries.push(e),
            ) by {
                lemma_push_unique(h.entries, e);
            }
            assert forall|e: EntryView| e.content_hash == copy.content_hash implies hashes_unique(
                kept(#[trigger] h.entries.push(e), cfg.cap()),
            ) by {
                lemma_kept_unique(h.entries.push(e), cfg.cap());
            }
        },
        _ => {},
    }
}

proof fn lemma_push_unique(s: Seq<EntryView>, e: EntryView)
    requires
        hashes_unique(s),
        forall|j: int| 0 <= j < s.len() ==> !by_hash(e.content_hash)(#[trigger] s[j]),
    ensures
        hashes_unique(s.push(e)),
{
    let all = s.push(e);
    assert forall|a: int, b: int|
        0 <= a < all.len() && 0 <= b < all.len() && (#[trigger] all[a]).content_hash == (
        #[trigger] all[b]).content_hash implies a == b by {
        if a < s.len() && b == s.len() {
            assert(!by_hash(e.content_hash)(s[a]));
        }
        if b < s.len() && a == s.len() {
            assert(!by_hash(e.content_hash)(s[b]));
        }
        if a < s.len() && b < s.len() {
            assert(all[a] == s[a] && all[b] == s[b]);
        }
    }
}

/// Clearing the history leaves the application icons alone: an icon is looked
/// for in the same place as before, and that place is in none of the
/// directories that go. The payloads are.
pub proof fn law_clear_spares_icons(
    h: HistoryView,
    data_dir: Seq<char>,
    app_name: Seq<char>,
    blob_hash: Seq<char>,
)
    requires
        h.below(data_dir),
    ensures
        h.cleared().below(data_dir),
        h.cleared().icon_file(app_name) == h.icon_file(app_name),
        forall|i: int|
            0 <= i < h.clear_dirs().len() ==> !lies_under(
                h.icon_file(app_name),
                #[trigger] h.clear_dirs()[i],
            ),
        lies_under(h.blob_file(blob_hash), h.clear_dirs()[0]),
{
    reveal_strlit("history");
    reveal_strlit("sync-files");
    reveal_strlit("blobs");
    reveal_strlit("appicons");
    assert(HISTORY_DIR@.len() == 7 && !HISTORY_DIR@.contains('/'));
    assert(SYNC_FILES_DIR@.len() == 10 && !SYNC_FILES_DIR@.contains('/'));
    assert(BLOBS_DIR@.len() == 5 && !BLOBS_DIR@.contains('/'));
    assert(APP_ICONS_DIR@.len() == 8 && !APP_ICONS_DIR@.contains('/'));
    law_landing_stays_below(data_dir, HISTORY_DIR@);
    law_landing_stays_below(data_dir, SYNC_FILES_DIR@);
    law_landing_stays_below(h.dir, BLOBS_DIR@);
    law_landing_stays_below(h.dir, APP_ICONS_DIR@);
    let icons = joined_path(h.dir, APP_ICONS_DIR@);
    let blobs = joined_path(h.dir, BLOBS_DIR@);
    paths::law_joined_lies_under(icons, icon_name(app_name));
    paths::law_joined_lies_under(blobs, blob_hash + ".png"@);
    let icon = components(h.icon_file(app_name));
    let n = components(data_dir).len() as int;
    assert(components(icons)[n] == HISTORY_DIR@);
    assert(components(icons)[n + 1] == APP_ICONS_DIR@);
    assert(icon.take(n + 2) == components(icons));
    assert(icon[n] == icon.take(n + 2)[n]);
    assert(icon[n + 1] == icon.take(n + 2)[n + 1]);
    assert(components(blobs)[n + 1] == BLOBS_DIR@);
    assert(components(h.sync_root)[n] == SYNC_FILES_DIR@);
    assert(!lies_under(h.icon_file(app_name), blobs)) by {
        if lies_under(h.icon_file(app_name), blobs) {
            assert(icon.take(n + 2)[n + 1] == components(blobs)[n + 1]);
        }
    }
    assert(!lies_under(h.icon_file(app_name), h.sync_root)) by {
        if lies_under(h.icon_file(app_name), h.sync_root) {
            assert(icon.take(n + 1)[n] == components(h.sync_root)[n]);
        }
    }
}

/// An image that was on its way when the history was cleared leaves nothing
/// behind: no entry, no bytes in the footprint, and its payload goes.
pub proof fn law_clear_discards_images_on_their_way(
    h: HistoryView,
    job: JobView,
    png_bytes: u64,
    put: bool,
)
    requires
        job.generation == h.clear_generation,
    ensures
        h.cleared().finished(job, png_bytes, Some(put)) == (
            h.cleared(),
            EndView::Discarded { remove_blob: put },
        ),
        h.cleared().entries.len() == 0,
        h.cleared().blob_bytes == 0,
{
}

/// Whatever an entry leaves behind for removal lies below the landing root of
/// received files; the root itself and everything beside it stay.
pub proof fn law_cleanup_stays_below_the_landing_root(e: EntryView, root: Seq<char>)
    ensures
        forall|i: int|
            0 <= i < cleanup_of(e, root).batch_dirs.len() ==> lies_under(
                #[trigger] cleanup_of(e, root).batch_dirs[i],
                root,
            ) && components(cleanup_of(e, root).batch_dirs[i]).len() > components(root).len(),
{
    match e.files {
        Some(paths) => {
            lemma_batch_dirs_below(paths, root);
        },
        None => {},
    }
}

proof fn lemma_batch_dirs_below(paths: Seq<Seq<char>>, root: Seq<char>)
    ensures
        forall|i: int|
            0 <= i < batch_dirs(paths, root).len() ==> lies_under(
                #[trigger] batch_dirs(paths, root)[i],
                root,
            ) && components(batch_dirs(paths, root)[i]).len() > components(root).len(),
    decreases paths.len(),
{
    if paths.len() > 0 {
        let before = batch_dirs(paths.drop_last(), root);
        lemma_batch_dirs_below(paths.drop_last(), root);
        let path = paths.last();
        match batch_dir_of(path, root) {
            Some(dir) => {
                paths::law_parent_components(path);
                let n = components(root).len() as int;
                assert(components(dir).take(n) =~= components(path).take(n));
                assert(lies_under(dir, root));
                let all = batch_dirs(paths, root);
                assert forall|i: int| 0 <= i < all.len() implies lies_under(#[trigger] all[i], root)
                    && components(all[i]).len() > components(root).len() by {
                    if i < before.len() {
                        assert(all[i] == before[i]);
                    }
                }
            },
            None => {},
        }
    }
}

/// An entry that refers to nothing below the landing root leaves no directory
/// for removal: the user's own files are never touched.
pub proof fn law_own_files_are_never_touched(e: EntryView, root: Seq<char>)
    requires
        e.files matches Some(paths) ==> forall|i: int|
            0 <= i < paths.len() ==> !lies_under(#[trigger] paths[i], root),
    ensures
        cleanup_of(e, root).batch_dirs.len() == 0,
{
    match e.files {
        Some(paths) => {
            lemma_no_batch_dirs(paths, root);
        },
        None => {},
    }
}

proof fn lemma_no_batch_dirs(paths: Seq<Seq<char>>, root: Seq<char>)
    requires
        forall|i: int| 0 <= i < paths.len() ==> !lies_under(#[trigger] paths[i], root),
    ensures
        batch_dirs(paths, root).len() == 0,
    decreases paths.len(),
{
    if paths.len() > 0 {
        let before = paths.drop_last();
        assert forall|i: int| 0 <= i < before.len() implies !lies_under(#[trigger] before[i], root) by {
            assert(before[i] == paths[i]);
        }
        lemma_no_batch_dirs(before, root);
        assert(!lies_under(paths[paths.len() - 1], root));
    }
}

/// Pinned entries come first in every sort mode. Among the pinned ones, and
/// among the rest, the default mode puts the latest first; the frequent mode
/// puts the most copied first, and of those copied equally often the latest.
pub proof fn law_list_order(entries: Seq<EntryView>, sort: Seq<char>, i: int, j: int)
    requires
        entries.len() <= usize::MAX,
        0 <= i < j < entries.len(),
    ensures
        ({
            let list = sorted(entries, sort);
            &&& list.len() == entries.len()
            &&& list[j].pinned ==> list[i].pinned
            &&& sort != SORT_FREQUENT@ && list[i].pinned == list[j].pinned ==> list[i].last_copied_at
                >= list[j].last_copied_at
            &&& sort == SORT_FREQUENT@ && list[i].pinned == list[j].pinned ==> list[i].copy_count
                >= list[j].copy_count
            &&& sort == SORT_FREQUENT@ && list[i].pinned == list[j].pinned && list[i].copy_count
                == list[j].copy_count ==> list[i].last_copied_at >= list[j].last_copied_at
        }),
{
    let keys = ranks(entries, sort);
    let q = list_order(entries, sort);
    order::lemma_stable_order_exists(keys);
    assert(order::precedes(keys, q[i] as int, q[j] as int));
    assert(keys[q[i] as int] == entries[q[i] as int].rank(sort));
    assert(keys[q[j] as int] == entries[q[j] as int].rank(sort));
}

/// An empty query finds every entry.
pub proof fn law_empty_query_finds_all(entries: Seq<EntryView>, query: Seq<char>)
    requires
        query.len() == 0,
    ensures
        hits(entries, query) == entries.map_values(|e: EntryView| e.id),
{
    lemma_all_found(entries, query);
}

proof fn lemma_all_found(entries: Seq<EntryView>, query: Seq<char>)
    requires
        query.len() == 0,
    ensures
        entries.filter(found_by(query)) == entries,
    decreases entries.len(),
{
    reveal(Seq::filter);
    if entries.len() > 0 {
        lemma_all_found(entries.drop_last(), query);
        assert(entries.drop_last().push(entries.last()) =~= entries);
    } else {
        assert(entries.filter(found_by(query)) =~= entries);
    }
}

/// Removing a payload takes off the footprint what recording it had put on.
pub proof fn law_footprint_is_reclaimed(h: HistoryView, job: JobView, png_bytes: u64)
    requires
        job.generation == h.clear_generation,
        h.blob_bytes + png_bytes <= u64::MAX,
    ensures
        h.finished(job, png_bytes, Some(true)).0.blob_bytes == h.blob_bytes + png_bytes,
        h.finished(job, png_bytes, Some(false)).0.blob_bytes == h.blob_bytes,
{
}

/// A change is on its way to disk: a writer is due or queued.
pub proof fn law_changes_reach_the_disk(
    h: HistoryView,
    content: ContentView,
    copy: CopiedView,
    cfg: HistoryConfig,
    id: Seq<char>,
    i: int,
)
    ensures
        h.recorded(content, copy, cfg, id).0.entries != h.entries ==> h.recorded(
            content,
            copy,
            cfg,
            id,
        ).0.save != SaveState::Saved,
        h.deleted(i).save != SaveState::Saved,
        h.cleared().save != SaveState::Saved,
{
}

/// The preview cache never outgrows its capacity.
pub proof fn law_preview_cache_is_bounded(
    previews: Seq<CachedView>,
    hash: Seq<char>,
    png: Seq<u8>,
    i: int,
)
    requires
        previews.len() <= PREVIEW_CACHE_CAP,
        0 <= i < previews.len(),
    ensures
        stored(previews, hash, png).len() <= PREVIEW_CACHE_CAP,
        used(previews, i).len() == previews.len(),
{
}

/// Whether the toggle of the content's own type is on.
pub open spec fn toggled_on(cfg: HistoryConfig, content: ContentView) -> bool {
    ||| content is Text && cfg.record_text
    ||| content is Image && cfg.record_images
    ||| content is Files && cfg.record_files
}

/// Whether the entry is the first one with that content.
pub open spec fn holds_content(h: HistoryView, hash: Seq<char>, i: int) -> bool {
    &&& 0 <= i < h.entries.len()
    &&& h.entries[i].content_hash == hash
    &&& forall|j: int| 0 <= j < i ==> (#[trigger] h.entries[j]).content_hash != hash
}

/// Whether no entry has that content.
pub open spec fn unheard_of(h: HistoryView, hash: Seq<char>) -> bool {
    forall|j: int| 0 <= j < h.entries.len() ==> (#[trigger] h.entries[j]).content_hash != hash
}

/// Recording known content counts the copy, and leaves what the entry is as it
/// was: the ID, the type, the text, the files, the payload, the preview, the
/// content hash, the time of the first copy and the pin. The time of the last
/// copy and the source are those of the new copy. No other entry changes, and
/// nothing is evicted.
pub proof fn law_known_content_is_counted(
    h: HistoryView,
    content: ContentView,
    copy: CopiedView,
    cfg: HistoryConfig,
    id: Seq<char>,
    i: int,
)
    requires
        toggled_on(cfg, content),
        holds_content(h, copy.content_hash, i),
    ensures
        ({
            let (after, step) = h.recorded(content, copy, cfg, id);
            let e = h.entries[i];
            let f = after.entries[i];
            &&& step == StepView::Bumped
            &&& f.id == e.id
            &&& f.kind == e.kind
            &&& f.text == e.text
            &&& f.files == e.files
            &&& f.blob_hash == e.blob_hash
            &&& f.preview == e.preview
            &&& f.content_hash == e.content_hash
            &&& f.first_copied_at == e.first_copied_at
            &&& f.pinned == e.pinned
            &&& e.copy_count < 0xffff_ffff ==> f.copy_count == e.copy_count + 1
            &&& e.copy_count == 0xffff_ffff ==> f.copy_count == 0xffff_ffff
            &&& f.last_copied_at == copy.at
            &&& f.origin == copy.origin
            &&& copy.origin is Some ==> f.source_app is None
            &&& copy.origin is None && copy.source_app is Some ==> f.source_app == copy.source_app
            &&& copy.origin is None && copy.source_app is None ==> f.source_app == e.source_app
            &&& after.entries.len() == h.entries.len()
            &&& forall|j: int|
                0 <= j < h.entries.len() && j != i ==> #[trigger] after.entries[j] == h.entries[j]
            &&& (HistoryView { entries: h.entries, save: h.save, ..after }) == h
        }),
{
    lemma_first_place(h.entries, by_hash(copy.content_hash));
    assert(by_hash(copy.content_hash)(h.entries[i]));
    let k = first_place(h.entries, by_hash(copy.content_hash))->0;
    if k < i {
        assert(h.entries[k].content_hash != copy.content_hash);
    }
    if i < k {
        assert(!by_hash(copy.content_hash)(h.entries[i]));
    }
}

/// Copying the same content twice counts twice, and the second copy has the
/// last word on the time and on the sending device.
pub proof fn law_copies_add_up(
    h: HistoryView,
    content: ContentView,
    first: CopiedView,
    second: CopiedView,
    cfg: HistoryConfig,
    id: Seq<char>,
    i: int,
)
    requires
        toggled_on(cfg, content),
        first.content_hash == second.content_hash,
        holds_content(h, first.content_hash, i),
        h.entries[i].copy_count < 0xffff_fffe,
    ensures
        ({
            let once = h.recorded(content, first, cfg, id).0;
            let twice = once.recorded(content, second, cfg, id).0;
            &&& twice.entries.len() == h.entries.len()
            &&& twice.entries[i].copy_count == h.entries[i].copy_count + 2
            &&& twice.entries[i].last_copied_at == second.at
            &&& twice.entries[i].first_copied_at == h.entries[i].first_copied_at
            &&& twice.entries[i].origin == second.origin
            &&& twice.entries[i].pinned == h.entries[i].pinned
        }),
{
    law_known_content_is_counted(h, content, first, cfg, id, i);
    let once = h.recorded(content, first, cfg, id).0;
    assert(holds_content(once, second.content_hash, i)) by {
        assert forall|j: int| 0 <= j < i implies (#[trigger] once.entries[j]).content_hash
            != second.content_hash by {
            assert(once.entries[j] == h.entries[j]);
        }
    }
    law_known_content_is_counted(once, content, second, cfg, id, i);
}

/// Content whose type is switched off, or that was not read, is kept out: known
/// or not, nothing changes. The toggles of the other types make no difference.
pub proof fn law_toggles_keep_content_out(
    h: HistoryView,
    content: ContentView,
    copy: CopiedView,
    cfg: HistoryConfig,
    other: HistoryConfig,
    id: Seq<char>,
)
    ensures
        !toggled_on(cfg, content) ==> h.recorded(content, copy, cfg, id) == (h, StepView::Skipped),
        toggled_on(cfg, content) && toggled_on(other, content) && other.max_entries
            == cfg.max_entries ==> h.recorded(content, copy, cfg, id) == h.recorded(
            content,
            copy,
            other,
            id,
        ),
{
}

/// New text within its cap becomes an entry with everything known of the copy,
/// counted once and not pinned; text over the cap is kept out.
pub proof fn law_new_text_entry(
    h: HistoryView,
    t: Seq<char>,
    copy: CopiedView,
    cfg: HistoryConfig,
    id: Seq<char>,
)
    requires
        cfg.record_text,
        unheard_of(h, copy.content_hash),
    ensures
        ({
            let (after, step) = h.recorded(ContentView::Text(t), copy, cfg, id);
            let e = EntryView {
                id,
                kind: "text"@,
                text: Some(t),
                blob_hash: None,
                files: None,
                preview: text_preview(t),
                content_hash: copy.content_hash,
                first_copied_at: copy.at,
                last_copied_at: copy.at,
                copy_count: 1,
                origin: copy.origin,
                source_app: copy.source_app,
                pinned: false,
            };
            let cap = if cfg.max_entries == 0 {
                1nat
            } else {
                cfg.max_entries as nat
            };
            &&& encode_utf8(t).len() > 5 * 1024 * 1024 ==> (after, step) == (h, StepView::Skipped)
            &&& encode_utf8(t).len() <= 5 * 1024 * 1024 ==> {
                &&& after == h.added(e, cap)
                &&& step == StepView::Added(h.leftovers(e, cap))
                &&& after.entries == kept(h.entries.push(e), cap)
                &&& after.dir == h.dir && after.sync_root == h.sync_root
                &&& after.blob_bytes == h.blob_bytes && after.clear_generation == h.clear_generation
            }
        }),
{
    lemma_first_place(h.entries, by_hash(copy.content_hash));
    if first_place(h.entries, by_hash(copy.content_hash)) is Some {
        let k = first_place(h.entries, by_hash(copy.content_hash))->0;
        assert(h.entries[k].content_hash != copy.content_hash);
    }
}

proof fn lemma_texts_of(paths: Seq<FilePathView>, list: Seq<Seq<char>>)
    requires
        paths.len() == list.len(),
        forall|i: int| 0 <= i < paths.len() ==> #[trigger] paths[i] == FilePathView::Text(list[i]),
    ensures
        texts_of(paths) == Some(list),
    decreases paths.len(),
{
    if paths.len() > 0 {
        let before = paths.drop_last();
        let rest = list.drop_last();
        assert forall|i: int| 0 <= i < before.len() implies #[trigger] before[i]
            == FilePathView::Text(rest[i]) by {
            assert(before[i] == paths[i]);
        }
        lemma_texts_of(before, rest);
        assert(paths[paths.len() - 1] == FilePathView::Text(list[list.len() - 1]));
        assert(rest.push(list.last()) =~= list);
    } else {
        assert(list =~= Seq::empty());
    }
}

proof fn lemma_no_texts_of(paths: Seq<FilePathView>, i: int)
    requires
        0 <= i < paths.len(),
        paths[i] is Raw,
    ensures
        texts_of(paths) is None,
    decreases paths.len(),
{
    if i < paths.len() - 1 {
        assert(paths.drop_last()[i] == paths[i]);
        lemma_no_texts_of(paths.drop_last(), i);
    }
}

/// A new list of files becomes an entry that refers to the paths in their
/// order.
pub proof fn law_new_files_entry(
    h: HistoryView,
    paths: Seq<FilePathView>,
    list: Seq<Seq<char>>,
    copy: CopiedView,
    cfg: HistoryConfig,
    id: Seq<char>,
)
    requires
        cfg.record_files,
        unheard_of(h, copy.content_hash),
        paths.len() == list.len(),
        forall|i: int| 0 <= i < paths.len() ==> #[trigger] paths[i] == FilePathView::Text(list[i]),
    ensures
        ({
            let (after, step) = h.recorded(ContentView::Files(paths), copy, cfg, id);
            let e = EntryView {
                id,
                kind: "files"@,
                text: None,
                blob_hash: None,
                files: Some(list),
                preview: files_preview(list),
                content_hash: copy.content_hash,
                first_copied_at: copy.at,
                last_copied_at: copy.at,
                copy_count: 1,
                origin: copy.origin,
                source_app: copy.source_app,
                pinned: false,
            };
            let cap = if cfg.max_entries == 0 {
                1nat
            } else {
                cfg.max_entries as nat
            };
            &&& after == h.added(e, cap)
            &&& step == StepView::Added(h.leftovers(e, cap))
            &&& after.entries == kept(h.entries.push(e), cap)
            &&& after.dir == h.dir && after.sync_root == h.sync_root
            &&& after.blob_bytes == h.blob_bytes && after.clear_generation == h.clear_generation
        }),
{
    lemma_first_place(h.entries, by_hash(copy.content_hash));
    if first_place(h.entries, by_hash(copy.content_hash)) is Some {
        let k = first_place(h.entries, by_hash(copy.content_hash))->0;
        assert(h.entries[k].content_hash != copy.content_hash);
    }
    lemma_texts_of(paths, list);
}

/// A list with a path that is no text is kept out.
pub proof fn law_undecodable_paths_are_kept_out(
    h: HistoryView,
    paths: Seq<FilePathView>,
    copy: CopiedView,
    cfg: HistoryConfig,
    id: Seq<char>,
    i: int,
)
    requires
        unheard_of(h, copy.content_hash),
        0 <= i < paths.len(),
        paths[i] is Raw,
    ensures
        h.recorded(ContentView::Files(paths), copy, cfg, id) == (h, StepView::Skipped),
{
    lemma_first_place(h.entries, by_hash(copy.content_hash));
    if first_place(h.entries, by_hash(copy.content_hash)) is Some {
        let k = first_place(h.entries, by_hash(copy.content_hash))->0;
        assert(h.entries[k].content_hash != copy.content_hash);
    }
    lemma_no_texts_of(paths, i);
}

/// A new image within its cap is handed out for encoding, pixels and all; the
/// store waits. The entry to come keeps its payload under the content hash.
pub proof fn law_new_image_is_encoded_first(
    h: HistoryView,
    width: usize,
    height: usize,
    rgba: Seq<u8>,
    copy: CopiedView,
    cfg: HistoryConfig,
    id: Seq<char>,
)
    requires
        cfg.record_images,
        unheard_of(h, copy.content_hash),
    ensures
        ({
            let (after, step) = h.recorded(ContentView::Image { width, height, rgba }, copy, cfg, id);
            &&& after == h
            &&& rgba.len() > 128 * 1024 * 1024 ==> step == StepView::Skipped
            &&& rgba.len() <= 128 * 1024 * 1024 ==> step == StepView::Encode(
                JobView {
                    width,
                    height,
                    rgba,
                    entry: EntryView {
                        id,
                        kind: "image"@,
                        text: None,
                        blob_hash: Some(copy.content_hash),
                        files: None,
                        preview: image_preview(width, height),
                        content_hash: copy.content_hash,
                        first_copied_at: copy.at,
                        last_copied_at: copy.at,
                        copy_count: 1,
                        origin: copy.origin,
                        source_app: copy.source_app,
                        pinned: false,
                    },
                    max_entries: cfg.max_entries,
                    generation: h.clear_generation,
                },
            )
        }),
{
    lemma_first_place(h.entries, by_hash(copy.content_hash));
    if first_place(h.entries, by_hash(copy.content_hash)) is Some {
        let k = first_place(h.entries, by_hash(copy.content_hash))->0;
        assert(h.entries[k].content_hash != copy.content_hash);
    }
}

/// An image whose payload is on disk becomes an entry unless the history was
/// cleared meanwhile; the footprint grows by what the write put there.
pub proof fn law_written_image_is_added(h: HistoryView, job: JobView, png_bytes: u64, put: bool)
    ensures
        h.finished(job, png_bytes, None) == (h, EndView::Skipped),
        job.generation != h.clear_generation ==> h.finished(job, png_bytes, Some(put)) == (
            h,
            EndView::Discarded { remove_blob: put },
        ),
        job.generation == h.clear_generation ==> ({
            let (after, end) = h.finished(job, png_bytes, Some(put));
            let cap = if job.max_entries == 0 {
                1nat
            } else {
                job.max_entries as nat
            };
            &&& end == EndView::Added(h.leftovers(job.entry, cap))
            &&& after.entries == kept(h.entries.push(job.entry), cap)
            &&& after.previews == h.added(job.entry, cap).previews
            &&& after.save == h.added(job.entry, cap).save
            &&& put && h.blob_bytes + png_bytes <= u64::MAX ==> after.blob_bytes == h.blob_bytes
                + png_bytes
            &&& !put ==> after.blob_bytes == h.blob_bytes
            &&& after.dir == h.dir && after.sync_root == h.sync_root
            &&& after.clear_generation == h.clear_generation
        }),
{
}

/// What an entry is evicted by: pins and times. Of the places of the entries,
/// some stay and the others go, and both are told in full. The entries that
/// stay keep their order and are as they were. Nothing goes while the cap
/// holds, and no more than it takes. What is pinned stays. What goes is no
/// younger than anything loose that stays, and of the entries of one time the
/// first go first.
pub proof fn law_eviction_takes_the_oldest(s: Seq<EntryView>, cap: nat) -> (r: (Seq<int>, Seq<int>))
    ensures
        r.0.len() == kept(s, cap).len(),
        r.1.len() == dropped(s, cap).len(),
        forall|i: int|
            0 <= i < r.0.len() ==> 0 <= #[trigger] r.0[i] < s.len() && kept(s, cap)[i] == s[r.0[i]],
        forall|i: int|
            0 <= i < r.1.len() ==> 0 <= #[trigger] r.1[i] < s.len() && dropped(s, cap)[i] == s[r.1[i]],
        forall|i: int, j: int| 0 <= i < j < r.0.len() ==> #[trigger] r.0[i] < #[trigger] r.0[j],
        forall|i: int, j: int|
            0 <= i < r.0.len() && 0 <= j < r.1.len() ==> #[trigger] r.0[i] != #[trigger] r.1[j],
        r.0.len() + r.1.len() == s.len(),
        s.len() <= cap ==> kept(s, cap) == s && r.1.len() == 0,
        s.len() > cap ==> kept(s, cap).len() >= cap,
        kept(s, cap).len() > cap ==> forall|i: int|
            0 <= i < kept(s, cap).len() ==> (#[trigger] kept(s, cap)[i]).pinned,
        forall|j: int| 0 <= j < r.1.len() ==> !s[#[trigger] r.1[j]].pinned,
        forall|i: int, j: int|
            0 <= i < r.0.len() && 0 <= j < r.1.len() && !s[#[trigger] r.0[i]].pinned ==> {
                let stays = s[r.0[i]].last_copied_at;
                let goes = s[#[trigger] r.1[j]].last_copied_at;
                goes < stays || goes == stays && r.1[j] < r.0[i]
            },
    decreases s.len(),
{
    law_eviction_drops_loose_entries(s, cap);
    law_eviction_respects_the_cap(s, cap);
    if s.len() > cap && has_loose(s) {
        let o = choose|i: int| is_oldest(s, i);
        let rest = s.remove(o);
        let q = law_eviction_takes_the_oldest(rest, cap);
        let back = |i: int| if i < o {
            i
        } else {
            i + 1
        };
        let stay = q.0.map_values(back);
        let go = seq![o] + q.1.map_values(back);
        assert forall|i: int| 0 <= i < rest.len() implies rest[i] == s[back(i)] by {}
        assert forall|i: int| 0 <= i < stay.len() implies 0 <= #[trigger] stay[i] < s.len()
            && kept(s, cap)[i] == s[stay[i]] && stay[i] != o by {
            assert(stay[i] == back(q.0[i]));
        }
        assert forall|i: int| 0 <= i < go.len() implies 0 <= #[trigger] go[i] < s.len()
            && dropped(s, cap)[i] == s[go[i]] && !s[go[i]].pinned && (i > 0 ==> go[i] == back(
            q.1[i - 1],
        )) by {
            if i > 0 {
                assert(go[i] == back(q.1[i - 1]));
            }
        }
        assert forall|i: int, j: int| 0 <= i < j < stay.len() implies #[trigger] stay[i]
            < #[trigger] stay[j] by {
            assert(stay[i] == back(q.0[i]) && stay[j] == back(q.0[j]));
        }
        assert forall|i: int, j: int| 0 <= i < stay.len() && 0 <= j < go.len() implies
            #[trigger] stay[i] != #[trigger] go[j] by {
            assert(stay[i] == back(q.0[i]));
            if j > 0 {
                assert(q.0[i] != q.1[j - 1]);
            }
        }
        assert forall|i: int, j: int|
            0 <= i < stay.len() && 0 <= j < go.len() && !s[#[trigger] stay[i]].pinned implies {
            let stays = s[stay[i]].last_copied_at;
            let goes = s[#[trigger] go[j]].last_copied_at;
            goes < stays || goes == stays && go[j] < stay[i]
        } by {
            assert(stay[i] == back(q.0[i]));
            if j > 0 {
                assert(go[j] == back(q.1[j - 1]));
                assert(!rest[q.0[i]].pinned);
                assert(rest[q.0[i]] == s[stay[i]] && rest[q.1[j - 1]] == s[go[j]]);
            } else {
                assert(!s[stay[i]].pinned);
            }
        }
        (stay, go)
    } else {
        let stay = Seq::new(s.len(), |i: int| i);
        (stay, Seq::empty())
    }
}

/// Recording, finishing an image and deleting change no pin: an entry that is
/// there afterwards has the pin that it had, and a new one is not pinned.
pub proof fn law_only_pinning_changes_a_pin(
    h: HistoryView,
    content: ContentView,
    copy: CopiedView,
    cfg: HistoryConfig,
    id: Seq<char>,
    victim: Seq<char>,
    j: int,
)
    ensures
        ({
            let after = h.recorded(content, copy, cfg, id).0.entries;
            0 <= j < after.len() ==> {
                ||| exists|k: int| #![trigger h.entries[k]]
                    0 <= k < h.entries.len() && after[j].id == h.entries[k].id && after[j].pinned
                        == h.entries[k].pinned && after[j].content_hash == h.entries[k].content_hash
                        && after[j].first_copied_at == h.entries[k].first_copied_at
                ||| after[j].id == id && !after[j].pinned && after[j].content_hash
                    == copy.content_hash && after[j].first_copied_at == copy.at
            }
        }),
        ({
            let after = h.removed(victim).0.entries;
            0 <= j < after.len() ==> h.entries.contains(after[j])
        }),
{
    let p = by_hash(copy.content_hash);
    lemma_first_place(h.entries, p);
    let (now, step) = h.recorded(content, copy, cfg, id);
    let after = now.entries;
    if 0 <= j < after.len() {
        match step {
            StepView::Added(_) => {
                let e = if content is Text {
                    EntryView {
                        kind: KIND_TEXT@,
                        preview: text_preview(content->Text_0),
                        text: Some(content->Text_0),
                        ..fresh(copy, id)
                    }
                } else {
                    EntryView {
                        kind: KIND_FILES@,
                        preview: files_preview(texts_of(content->Files_0)->0),
                        files: Some(texts_of(content->Files_0)->0),
                        ..fresh(copy, id)
                    }
                };
                let all = h.entries.push(e);
                assert(after == kept(all, cfg.cap()));
                let r = law_eviction_takes_the_oldest(all, cfg.cap());
                let k = r.0[j];
                assert(after[j] == all[k]);
                if k < h.entries.len() {
                    assert(after[j] == h.entries[k]);
                }
            },
            StepView::Bumped => {
                assert(after[j].id == h.entries[j].id);
            },
            _ => {
                assert(after[j].id == h.entries[j].id);
            },
        }
    }
    lemma_first_place(h.entries, by_id(victim));
    let left = h.removed(victim).0.entries;
    if 0 <= j < left.len() {
        match first_place(h.entries, by_id(victim)) {
            Some(i) => {
                if j < i {
                    assert(left[j] == h.entries[j]);
                } else {
                    assert(left[j] == h.entries[j + 1]);
                }
            },
            None => {
                assert(left[j] == h.entries[j]);
            },
        }
    }
}

/// Whether the entry is the first one with that ID.
pub open spec fn holds_id(h: HistoryView, id: Seq<char>, i: int) -> bool {
    &&& 0 <= i < h.entries.len()
    &&& h.entries[i].id == id
    &&& forall|j: int| 0 <= j < i ==> (#[trigger] h.entries[j]).id != id
}

proof fn lemma_holds_id(h: HistoryView, id: Seq<char>, i: int)
    requires
        holds_id(h, id, i),
    ensures
        first_place(h.entries, by_id(id)) == Some(i),
{
    lemma_first_place(h.entries, by_id(id));
    assert(by_id(id)(h.entries[i]));
    let k = first_place(h.entries, by_id(id))->0;
    if k < i {
        assert(h.entries[k].id != id);
    }
    if i < k {
        assert(!by_id(id)(h.entries[i]));
    }
}

/// Pinning sets the pin of the entry with that ID and changes nothing else of
/// it, nor any other entry; pinning and then unpinning leaves the entries as if
/// nothing but the last of both had been done. An unknown ID changes nothing.
pub proof fn law_pinning_sets_the_pin_only(
    h: HistoryView,
    id: Seq<char>,
    pinned: bool,
    other: bool,
    i: int,
)
    ensures
        holds_id(h, id, i) ==> ({
            let (after, known) = h.repinned(id, pinned);
            &&& known
            &&& after.entries[i].pinned == pinned
            &&& (EntryView { pinned: h.entries[i].pinned, ..after.entries[i] }) == h.entries[i]
            &&& after.entries.len() == h.entries.len()
            &&& forall|j: int|
                0 <= j < h.entries.len() && j != i ==> #[trigger] after.entries[j] == h.entries[j]
            &&& (HistoryView { entries: h.entries, save: h.save, ..after }) == h
            &&& after.save != SaveState::Saved
        }),
        (forall|j: int| 0 <= j < h.entries.len() ==> (#[trigger] h.entries[j]).id != id)
            ==> h.repinned(id, pinned) == (h, false),
        h.repinned(id, other).0.repinned(id, pinned).0.entries == h.repinned(id, pinned).0.entries,
{
    lemma_first_place(h.entries, by_id(id));
    if holds_id(h, id, i) {
        lemma_holds_id(h, id, i);
    }
    match first_place(h.entries, by_id(id)) {
        Some(k) => {
            let mid = h.repinned(id, other).0;
            assert(holds_id(h, id, k));
            assert(holds_id(mid, id, k)) by {
                assert forall|j: int| 0 <= j < k implies (#[trigger] mid.entries[j]).id != id by {
                    assert(mid.entries[j] == h.entries[j]);
                    assert(!by_id(id)(h.entries[j]));
                }
            }
            lemma_holds_id(mid, id, k);
            assert(mid.repinned(id, pinned).0.entries =~= h.repinned(id, pinned).0.entries);
        },
        None => {},
    }
}

/// Deleting takes the entry with that ID out, and no other: those before it
/// stay in place and those behind it move up. What is left of it on disk is its
/// payload and its received files. An unknown ID changes nothing.
pub proof fn law_deleting_takes_one_entry(h: HistoryView, id: Seq<char>, i: int)
    ensures
        holds_id(h, id, i) ==> ({
            let (after, left) = h.removed(id);
            &&& after.entries.len() == h.entries.len() - 1
            &&& forall|j: int| 0 <= j < i ==> #[trigger] after.entries[j] == h.entries[j]
            &&& forall|j: int|
                i <= j < after.entries.len() ==> #[trigger] after.entries[j] == h.entries[j + 1]
            &&& left is Some && left->0.blob_hash == h.entries[i].blob_hash
            &&& h.entries[i].files is None ==> left->0.batch_dirs.len() == 0
            &&& after.dir == h.dir && after.sync_root == h.sync_root
            &&& after.blob_bytes == h.blob_bytes && after.clear_generation == h.clear_generation
            &&& after.save != SaveState::Saved
        }),
        (forall|j: int| 0 <= j < h.entries.len() ==> (#[trigger] h.entries[j]).id != id)
            ==> h.removed(id) == (h, None::<CleanupView>),
{
    lemma_first_place(h.entries, by_id(id));
    if holds_id(h, id, i) {
        lemma_holds_id(h, id, i);
    }
}

/// Clearing leaves no entry, pinned or not, no preview and no footprint, and
/// the directories where they are.
pub proof fn law_clearing_empties_the_store(h: HistoryView)
    ensures
        h.cleared().entries.len() == 0,
        h.cleared().previews.len() == 0,
        h.cleared().blob_bytes == 0,
        h.cleared().dir == h.dir,
        h.cleared().sync_root == h.sync_root,
        h.cleared().clear_generation != h.clear_generation,
        h.clear_dirs() == seq![joined_path(h.dir, "blobs"@), h.sync_root],
{
}

/// What was put on the footprint comes off it again, and it never falls below
/// zero; nothing else changes.
pub proof fn law_reclaiming(h: HistoryView, bytes: u64)
    ensures
        h.reclaimed(bytes).blob_bytes + bytes >= h.blob_bytes,
        bytes <= h.blob_bytes ==> h.reclaimed(bytes).blob_bytes + bytes == h.blob_bytes,
        bytes > h.blob_bytes ==> h.reclaimed(bytes).blob_bytes == 0,
        (HistoryView { blob_bytes: h.blob_bytes, ..h.reclaimed(bytes) }) == h,
{
}

/// After a change a writer is due, unless one is queued that will take the
/// change along.
pub proof fn law_one_writer_is_enough(save: SaveState)
    ensures
        save == SaveState::Queued ==> save.changed() == SaveState::Queued,
        save != SaveState::Queued ==> save.changed() == SaveState::Due,
{
}

proof fn lemma_without(cache: Seq<CachedView>, hash: Seq<char>, c: CachedView)
    ensures
        without(cache, hash).contains(c) <==> cache.contains(c) && c.blob_hash != hash,
{
    let p = |c: CachedView| c.blob_hash != hash;
    let out = without(cache, hash);
    if cache.contains(c) && c.blob_hash != hash {
        let i = choose|i: int| 0 <= i < cache.len() && cache[i] == c;
        cache.lemma_filter_contains(p, i);
    }
    if out.contains(c) {
        let j = choose|j: int| 0 <= j < out.len() && out[j] == c;
        cache.lemma_filter_pred(p, j);
        cache.lemma_filter_contains_rev(p, c);
    }
}

proof fn lemma_purged(cache: Seq<CachedView>, gone: Seq<EntryView>, c: CachedView)
    ensures
        purged(cache, gone).contains(c) <==> cache.contains(c) && forall|i: int|
            0 <= i < gone.len() ==> (#[trigger] gone[i]).blob_hash != Some(c.blob_hash),
    decreases gone.len(),
{
    if gone.len() > 0 {
        let before = gone.drop_last();
        lemma_purged(cache, before, c);
        assert forall|i: int| 0 <= i < before.len() implies before[i] == gone[i] by {}
        let n = gone.len() - 1;
        assert(gone[n] == gone.last());
        match gone.last().blob_hash {
            Some(hash) => {
                lemma_without(purged(cache, before), hash, c);
            },
            None => {},
        }
        if cache.contains(c) && (forall|i: int|
            0 <= i < before.len() ==> (#[trigger] before[i]).blob_hash != Some(c.blob_hash))
            && gone[n].blob_hash != Some(c.blob_hash) {
            assert forall|i: int| 0 <= i < gone.len() implies (#[trigger] gone[i]).blob_hash != Some(
                c.blob_hash,
            ) by {
                if i < n {
                    assert(before[i] == gone[i]);
                }
            }
        }
        if forall|i: int|
            0 <= i < gone.len() ==> (#[trigger] gone[i]).blob_hash != Some(c.blob_hash) {
            assert forall|i: int| 0 <= i < before.len() implies (#[trigger] before[i]).blob_hash
                != Some(c.blob_hash) by {
                assert(before[i] == gone[i]);
            }
        }
    }
}

/// The preview of a deleted image goes, and every other preview stays.
pub proof fn law_previews_go_with_their_entry(h: HistoryView, id: Seq<char>, i: int, c: CachedView)
    requires
        holds_id(h, id, i),
    ensures
        h.removed(id).0.previews.contains(c) <==> h.previews.contains(c) && h.entries[i].blob_hash
            != Some(c.blob_hash),
{
    lemma_holds_id(h, id, i);
    let gone = seq![h.entries[i]];
    lemma_purged(h.previews, gone, c);
    assert(gone[0] == h.entries[i]);
}

/// Whether the path is a received file: below the landing root, in a directory
/// of its own.
pub open spec fn is_received(path: Seq<char>, root: Seq<char>) -> bool {
    lies_under(path, root) && components(path).len() >= components(root).len() + 2
}

proof fn lemma_batch_dirs_complete(paths: Seq<Seq<char>>, root: Seq<char>, i: int)
    requires
        0 <= i < paths.len(),
        is_received(paths[i], root),
    ensures
        parent_part(paths[i]) is Some,
        batch_dirs(paths, root).contains(parent_part(paths[i])->0),
    decreases paths.len(),
{
    let before = paths.drop_last();
    let dirs = batch_dirs(before, root);
    let all = batch_dirs(paths, root);
    let dir = parent_part(paths[i])->0;
    if i < before.len() {
        assert(before[i] == paths[i]);
        lemma_batch_dirs_complete(before, root, i);
        let k = choose|k: int| 0 <= k < dirs.len() && dirs[k] == dir;
        assert(all[k] == dir);
    } else {
        assert(paths.last() == paths[i]);
        assert(batch_dir_of(paths.last(), root) == Some(dir));
        if !dirs.contains(dir) {
            assert(all[dirs.len() as int] == dir);
        }
    }
}

proof fn lemma_batch_dirs_sound(paths: Seq<Seq<char>>, root: Seq<char>, d: int)
    requires
        0 <= d < batch_dirs(paths, root).len(),
    ensures
        exists|i: int| #![trigger paths[i]]
            0 <= i < paths.len() && is_received(paths[i], root) && parent_part(paths[i]) == Some(
                batch_dirs(paths, root)[d],
            ),
        forall|e: int|
            0 <= e < d ==> #[trigger] batch_dirs(paths, root)[e] != batch_dirs(paths, root)[d],
    decreases paths.len(),
{
    if paths.len() > 0 {
        let before = paths.drop_last();
        let dirs = batch_dirs(before, root);
        let all = batch_dirs(paths, root);
        let n = paths.len() - 1;
        assert(paths.last() == paths[n]);
        if d < dirs.len() {
            lemma_batch_dirs_sound(before, root, d);
            assert(all[d] == dirs[d]);
            let i = choose|i: int| #![trigger before[i]]
                0 <= i < before.len() && is_received(before[i], root) && parent_part(before[i])
                    == Some(dirs[d]);
            assert(paths[i] == before[i]);
            assert forall|e: int| 0 <= e < d implies #[trigger] all[e] != all[d] by {
                assert(dirs[e] != dirs[d]);
            }
        } else {
            assert(is_received(paths[n], root));
            assert(parent_part(paths[n]) == Some(all[d]));
            assert forall|e: int| 0 <= e < d implies #[trigger] all[e] != all[d] by {
                assert(all[e] == dirs[e]);
            }
        }
    }
}

/// The directories that go with an entry are exactly those that hold its
/// received files, each named once; its payload goes too.
pub proof fn law_received_files_go_with_their_entry(e: EntryView, root: Seq<char>, i: int, d: int)
    ensures
        cleanup_of(e, root).blob_hash == e.blob_hash,
        e.files is Some && 0 <= i < e.files->0.len() && is_received(e.files->0[i], root) ==> parent_part(
            e.files->0[i],
        ) is Some && cleanup_of(e, root).batch_dirs.contains(parent_part(e.files->0[i])->0),
        0 <= d < cleanup_of(e, root).batch_dirs.len() ==> e.files is Some && exists|k: int|
            #![trigger e.files->0[k]]
            0 <= k < e.files->0.len() && is_received(e.files->0[k], root) && parent_part(
                e.files->0[k],
            ) == Some(cleanup_of(e, root).batch_dirs[d]),
        0 <= i < d < cleanup_of(e, root).batch_dirs.len() ==> cleanup_of(e, root).batch_dirs[i]
            != cleanup_of(e, root).batch_dirs[d],
{
    match e.files {
        Some(paths) => {
            if 0 <= i < paths.len() && is_received(paths[i], root) {
                lemma_batch_dirs_complete(paths, root, i);
            }
            if 0 <= d < batch_dirs(paths, root).len() {
                lemma_batch_dirs_sound(paths, root, d);
            }
        },
        None => {},
    }
}

/// A batch directory that an entry still needs is not swept: the directory that
/// holds a received file of the entry is referred to. A directory is referred
/// to only by a file directly in it.
pub proof fn law_needed_batches_are_referred_to(
    entries: Seq<EntryView>,
    root: Seq<char>,
    dir: Seq<char>,
    i: int,
    k: int,
)
    ensures
        0 <= i < entries.len() && entries[i].files is Some && 0 <= k < entries[i].files->0.len()
            && lies_under(entries[i].files->0[k], root) && parent_part(entries[i].files->0[k])
            == Some(dir) ==> refers_to_dir(entries, root, dir),
        (forall|a: int, b: int|
            #![trigger entries[a].files->0[b]]
            0 <= a < entries.len() && entries[a].files is Some && 0 <= b < entries[a].files->0.len()
                ==> !(lies_under(entries[a].files->0[b], root) && absolute(entries[a].files->0[b])
                == absolute(dir) && components(entries[a].files->0[b]).len() > 0 && components(
                entries[a].files->0[b],
            ).drop_last() == components(dir))) ==> !refers_to_dir(entries, root, dir),
{
    if 0 <= i < entries.len() && entries[i].files is Some && 0 <= k < entries[i].files->0.len()
        && lies_under(entries[i].files->0[k], root) && parent_part(entries[i].files->0[k]) == Some(
        dir,
    ) {
        let paths = entries[i].files->0;
        paths::law_parent_components(paths[k]);
        assert(sits_in(paths[k], root, dir));
        assert(entry_refers_to(entries[i], root, dir));
    }
    if refers_to_dir(entries, root, dir) {
        let a = choose|a: int|
            0 <= a < entries.len() && #[trigger] entry_refers_to(entries[a], root, dir);
        let paths = entries[a].files->0;
        let b = choose|b: int| 0 <= b < paths.len() && #[trigger] sits_in(paths[b], root, dir);
        assert(sits_in(entries[a].files->0[b], root, dir));
    }
}

/// A preview that was used goes to the end of the cache and is as it was; the
/// others keep their order.
pub proof fn law_used_preview_goes_last(previews: Seq<CachedView>, i: int)
    requires
        0 <= i < previews.len(),
    ensures
        ({
            let after = used(previews, i);
            &&& after.len() == previews.len()
            &&& after.last() == previews[i]
            &&& forall|j: int| 0 <= j < i ==> #[trigger] after[j] == previews[j]
            &&& forall|j: int| i <= j < previews.len() - 1 ==> #[trigger] after[j] == previews[j + 1]
        }),
{
}

/// A new preview is the last of the cache. While there is room nothing goes;
/// in a full cache the first one, the least recently used, makes room.
pub proof fn law_stored_preview_goes_last(previews: Seq<CachedView>, hash: Seq<char>, png: Seq<u8>)
    ensures
        ({
            let after = stored(previews, hash, png);
            &&& after.last().blob_hash == hash
            &&& after.last().png == png
            &&& previews.len() < 12 ==> after.drop_last() == previews
            &&& previews.len() >= 12 ==> after.drop_last() == previews.skip(1)
        }),
{
    let after = stored(previews, hash, png);
    if previews.len() < 12 {
        assert(after.drop_last() =~= previews);
    } else {
        assert(after.drop_last() =~= previews.skip(1));
    }
}

proof fn lemma_orphans(entries: Seq<EntryView>, files: Seq<BlobFileView>, name: Seq<char>)
    ensures
        orphans(entries, files).contains(name) <==> exists|i: int|
            0 <= i < files.len() && (#[trigger] files[i]).name == Some(name) && is_orphan(
                entries,
                files[i],
            ),
    decreases files.len(),
{
    let all = orphans(entries, files);
    if files.len() > 0 {
        let n = files.len() - 1;
        let rest = files.drop_last();
        let before = orphans(entries, rest);
        lemma_orphans(entries, rest, name);
        assert(files.last() == files[n]);
        if before.contains(name) {
            let k = choose|k: int| 0 <= k < before.len() && before[k] == name;
            assert(all[k] == name);
            let i = choose|i: int|
                0 <= i < rest.len() && (#[trigger] rest[i]).name == Some(name) && is_orphan(
                    entries,
                    rest[i],
                );
            assert(files[i] == rest[i]);
        }
        if is_orphan(entries, files[n]) {
            assert(all[before.len() as int] == files[n].name->0);
        }
        if all.contains(name) && !before.contains(name) {
            let k = choose|k: int| 0 <= k < all.len() && all[k] == name;
            if k < before.len() {
                assert(before[k] == name);
            }
            assert(files[n].name == Some(name));
        }
        if exists|i: int|
            0 <= i < files.len() && (#[trigger] files[i]).name == Some(name) && is_orphan(
                entries,
                files[i],
            ) {
            let i = choose|i: int|
                0 <= i < files.len() && (#[trigger] files[i]).name == Some(name) && is_orphan(
                    entries,
                    files[i],
                );
            if i < n {
                assert(rest[i] == files[i]);
                assert(before.contains(name));
            }
        }
    }
}

/// At start a payload file goes exactly when no entry refers to it: a file named
/// after a hash that some entry keeps stays, and so does every file that is no
/// payload.
pub proof fn law_orphaned_payloads_go(
    entries: Seq<EntryView>,
    files: Seq<BlobFileView>,
    i: int,
    hash: Seq<char>,
)
    requires
        0 <= i < files.len(),
    ensures
        files[i].name == Some(hash + ".png"@) && (forall|k: int|
            0 <= k < entries.len() ==> (#[trigger] entries[k]).blob_hash != Some(hash)) ==> orphans(
            entries,
            files,
        ).contains(hash + ".png"@),
        (exists|k: int| 0 <= k < entries.len() && (#[trigger] entries[k]).blob_hash == Some(hash))
            ==> !orphans(entries, files).contains(hash + ".png"@),
        files[i].name is Some && (forall|h: Seq<char>|
            files[i].name->0 != #[trigger] (h + ".png"@)) ==> !orphans(entries, files).contains(
            files[i].name->0,
        ),
{
    let name = hash + ".png"@;
    reveal_strlit(".png");
    assert(".png"@.len() == 4);
    assert(name.skip(name.len() - 4) =~= ".png"@);
    assert(name.take(name.len() - 4) =~= hash);
    lemma_orphans(entries, files, name);
    if files[i].name is Some {
        let own = files[i].name->0;
        lemma_orphans(entries, files, own);
        if has_suffix(own, ".png"@) {
            assert(own =~= own.take(own.len() - 4) + ".png"@);
        }
    }
}

/// The footprint at start is made of the files that stay: each adds its size,
/// and a file that goes adds nothing.
pub proof fn law_footprint_counts_what_stays(
    entries: Seq<EntryView>,
    files: Seq<BlobFileView>,
    file: BlobFileView,
)
    ensures
        staying_bytes(entries, Seq::empty()) == 0,
        orphans(entries, seq![file]).len() == 0 ==> staying_bytes(entries, files.push(file))
            == staying_bytes(entries, files) + file.bytes,
        orphans(entries, seq![file]).len() > 0 ==> staying_bytes(entries, files.push(file))
            == staying_bytes(entries, files),
{
    assert(files.push(file).drop_last() =~= files);
    assert(seq![file].drop_last() =~= Seq::<BlobFileView>::empty());
    reveal_with_fuel(orphans, 2);
}

/// The list holds every entry once: it is told by the places of its entries,
/// which are all the places there are. Entries that nothing tells apart stay in
/// the order in which they came in.
pub proof fn law_list_is_complete(entries: Seq<EntryView>, sort: Seq<char>) -> (p: Seq<usize>)
    requires
        entries.len() <= usize::MAX,
    ensures
        p.len() == entries.len(),
        sorted(entries, sort).len() == entries.len(),
        forall|i: int|
            0 <= i < p.len() ==> 0 <= #[trigger] p[i] < entries.len() && sorted(entries, sort)[i]
                == entries[p[i] as int],
        forall|i: int, j: int| 0 <= i < j < p.len() ==> #[trigger] p[i] != #[trigger] p[j],
        forall|k: usize| 0 <= k < entries.len() ==> #[trigger] p.contains(k),
        forall|i: int, j: int|
            0 <= i < j < p.len() ==> {
                let a = entries[#[trigger] p[i] as int];
                let b = entries[#[trigger] p[j] as int];
                a.pinned == b.pinned && a.last_copied_at == b.last_copied_at && (sort
                    == "frequent"@ ==> a.copy_count == b.copy_count) ==> p[i] < p[j]
            },
{
    let keys = ranks(entries, sort);
    let q = list_order(entries, sort);
    order::lemma_stable_order_exists(keys);
    assert forall|i: int, j: int| 0 <= i < j < q.len() implies #[trigger] q[i] != #[trigger] q[j]
        && ({
        let a = entries[q[i] as int];
        let b = entries[q[j] as int];
        a.pinned == b.pinned && a.last_copied_at == b.last_copied_at && (sort == "frequent"@
            ==> a.copy_count == b.copy_count) ==> q[i] < q[j]
    }) by {
        assert(order::precedes(keys, q[i] as int, q[j] as int));
        order::lemma_precedes_distinct(keys, q[i] as int, q[j] as int);
        assert(keys[q[i] as int] == entries[q[i] as int].rank(sort));
        assert(keys[q[j] as int] == entries[q[j] as int].rank(sort));
    }
    q
}

/// The modes of the list are told apart by their name: the copy count matters
/// in the mode `frequent` and in no other.
pub proof fn law_count_matters_when_asked_for(
    entries: Seq<EntryView>,
    sort: Seq<char>,
    i: int,
    j: int,
)
    requires
        entries.len() <= usize::MAX,
        0 <= i < j < entries.len(),
        sorted(entries, sort)[i].pinned == sorted(entries, sort)[j].pinned,
    ensures
        sort == "frequent"@ ==> sorted(entries, sort)[i].copy_count >= sorted(
            entries,
            sort,
        )[j].copy_count,
        sort != "frequent"@ ==> sorted(entries, sort)[i].last_copied_at >= sorted(
            entries,
            sort,
        )[j].last_copied_at,
{
    law_list_order(entries, sort, i, j);
}

/// The projection for the list tells everything of an entry but the text, the
/// payload and the content hash; of the text it tells the size.
pub proof fn law_projection_is_faithful(e: EntryView)
    ensures
        e.meta().id == e.id,
        e.meta().kind == e.kind,
        e.meta().files == e.files,
        e.meta().preview == e.preview,
        e.meta().first_copied_at == e.first_copied_at,
        e.meta().last_copied_at == e.last_copied_at,
        e.meta().copy_count == e.copy_count,
        e.meta().origin == e.origin,
        e.meta().source_app == e.source_app,
        e.meta().pinned == e.pinned,
        e.text is Some ==> e.meta().text_len == encode_utf8(e.text->0).len(),
        e.text is None ==> e.meta().text_len == 0,
{
}

/// The preview of a text is its first line. What is longer than the preview is
/// cut, and an ellipsis tells that anything, of the line or below it, is left
/// out.
pub proof fn law_preview_of_a_text(line: Seq<char>, rest: Seq<char>)
    requires
        !line.contains('\n'),
        line.len() > 0 ==> line.last() != '\r',
    ensures
        line.len() <= 80 ==> text_preview(line) == line,
        line.len() > 80 ==> text_preview(line) == line.take(80) + "…"@,
        line.len() <= 80 ==> text_preview(line.push('\n') + rest) == line + "…"@,
        line.len() <= 80 ==> text_preview(line.push('\r').push('\n') + rest) == line + "…"@,
        line.len() > 80 ==> text_preview(line.push('\n') + rest) == line.take(80) + "…"@,
        line.len() > 80 ==> text_preview(line.push('\r').push('\n') + rest) == line.take(80) + "…"@,
{
    let a = line.push('\n') + rest;
    let b = line.push('\r').push('\n') + rest;
    let n = line.len() as int;
    assert forall|i: int| 0 <= i < n implies line[i] != '\n' by {}
    assert(a[n] == '\n');
    assert(b[n + 1] == '\n' && b[n] == '\r');
    a.index_of_first_ensures('\n');
    b.index_of_first_ensures('\n');
    let x = a.index_of_first('\n')->0;
    let y = b.index_of_first('\n')->0;
    assert(x == n) by {
        if x < n {
            assert(a[x] == line[x]);
        }
    }
    assert(y == n + 1) by {
        if y < n {
            assert(b[y] == line[y]);
        }
    }
    if n > 0 {
        assert(a[n - 1] == line.last());
    }
    assert(a.take(n) =~= line);
    assert(b.take(n) =~= line);
    assert(first_line(a) == line);
    assert(first_line(b) == line);
    assert(first_line(line) == line);
}

/// The preview of files is their names, in order and with a comma between any
/// two. What is longer than the preview is cut, and the number of files is
/// told.
pub proof fn law_preview_of_files(
    paths: Seq<Seq<char>>,
    path: Seq<char>,
    shown: Seq<char>,
    name: Seq<char>,
)
    requires
        name_part(path) == Some(name),
    ensures
        name.len() <= 80 ==> files_preview(seq![path]) == name,
        paths.len() > 0 && (forall|i: int|
            0 <= i < paths.len() ==> name_part(#[trigger] paths[i]) is Some) && separated(
            names_of(paths),
            ", "@,
        ) == shown && shown.len() + 2 + name.len() <= 80 ==> files_preview(paths) == shown
            && files_preview(paths.push(path)) == shown + ", "@ + name,
        separated(names_of(paths), ", "@) == shown && shown.len() > 80 ==> files_preview(paths)
            == shown.take(80) + "… ("@ + decimal_text(paths.len()) + ")"@,
{
    reveal_strlit(", ");
    assert(", "@.len() == 2);
    let one = seq![path];
    assert(one.drop_last() =~= Seq::<Seq<char>>::empty());
    assert(one.last() == path);
    assert(names_of(Seq::<Seq<char>>::empty()) =~= Seq::<Seq<char>>::empty());
    assert(names_of(one) =~= seq![name]);
    assert(seq![name][0] == name);
    let more = paths.push(path);
    assert(more.drop_last() =~= paths);
    assert(names_of(more) =~= names_of(paths).push(name));
    if paths.len() > 0 && (forall|i: int|
        0 <= i < paths.len() ==> name_part(#[trigger] paths[i]) is Some) {
        assert(name_part(paths[paths.len() - 1]) is Some);
        assert(names_of(paths).len() > 0);
        assert(names_of(more).drop_last() =~= names_of(paths));
    }
}

/// An image is told by its width and its height.
pub proof fn law_preview_of_an_image(width: usize, height: usize)
    ensures
        image_preview(width, height) == decimal_text(width as nat) + "×"@ + decimal_text(
            height as nat,
        ),
        width < 10 && height < 10 ==> image_preview(width, height) == seq![
            ('0' as int + width) as char,
        ] + "×"@ + seq![('0' as int + height) as char],
{
}

/// A search finds an entry exactly where the query occurs in the preview, or in
/// the text below it, whatever the case of the letters.
pub proof fn law_search_finds_what_holds_the_query(
    entries: Seq<EntryView>,
    query: Seq<char>,
    i: int,
    a: Seq<char>,
    b: Seq<char>,
    id: Seq<char>,
)
    ensures
        0 <= i < entries.len() && lowercase(
            match entries[i].text {
                Some(t) => entries[i].preview + "\n"@ + t,
                None => entries[i].preview,
            },
        ) == a + lowercase(query) + b ==> hits(entries, query).contains(entries[i].id),
        hits(entries, query).contains(id) ==> exists|k: int|
            0 <= k < entries.len() && (#[trigger] entries[k]).id == id && (query.len() == 0
                || exists|x: Seq<char>, y: Seq<char>|
                lowercase(
                    match entries[k].text {
                        Some(t) => entries[k].preview + "\n"@ + t,
                        None => entries[k].preview,
                    },
                ) == #[trigger] (x + lowercase(query) + y)),
        hits(entries, query).len() <= entries.len(),
{
    let p = found_by(query);
    let found = entries.filter(p);
    let ids = hits(entries, query);
    let needle = lowercase(query);
    entries.lemma_filter_len(p);
    if 0 <= i < entries.len() && haystack(entries[i]) == a + needle + b {
        let e = entries[i];
        assert(haystack(e).subrange(a.len() as int, (a.len() + needle.len()) as int) =~= needle);
        assert(text::occurs_at(needle, haystack(e), a.len() as int));
        assert(p(e));
        entries.lemma_filter_contains(p, i);
        let k = choose|k: int| 0 <= k < found.len() && found[k] == e;
        assert(ids[k] == e.id);
    }
    if ids.contains(id) {
        let k = choose|k: int| 0 <= k < ids.len() && ids[k] == id;
        let e = found[k];
        entries.lemma_filter_pred(p, k);
        entries.lemma_filter_contains_rev(p, e);
        let m = choose|m: int| 0 <= m < entries.len() && entries[m] == e;
        assert(entries[m].id == id);
        if query.len() > 0 {
            let at = choose|at: int| text::occurs_at(needle, haystack(e), at);
            let x = haystack(e).take(at);
            let y = haystack(e).skip(at + needle.len());
            assert(haystack(e) =~= x + needle + y);
        }
    }
}

/// The payload of an image is kept up to its cap and not beyond; an image is
/// scaled for the preview exactly when an edge is longer than the card.
pub proof fn law_image_limits(job: JobView, bytes: Seq<u8>)
    ensures
        payload_of(job) is Some ==> payload_of(job)->0.len() <= 16 * 1024 * 1024,
        payload_of(job) is Some ==> payload_of(job)->0 == png_encoded(
            job.width as u32,
            job.height as u32,
            job.rgba,
        ),
        is_bitmap(job.width as u32, job.height as u32, job.rgba) && png_encoded(
            job.width as u32,
            job.height as u32,
            job.rgba,
        ).len() <= 16 * 1024 * 1024 ==> payload_of(job) is Some,
        oversized(bytes) <==> png_header(bytes) is Some && ((png_header(bytes)->0).0 > 800 || (
        png_header(bytes)->0).1 > 800),
{
}

/// Payloads and icons are PNG files, each kind in a directory of its own.
pub proof fn law_places_of_files(h: HistoryView, hash: Seq<char>, app: Seq<char>)
    requires
        h.dir.len() > 0,
        h.dir.last() != '/',
    ensures
        h.blob_file(hash) == h.dir + "/blobs/"@ + hash + ".png"@,
        h.icon_file(app) == h.dir + "/appicons/"@ + ContentView::Text(app).hash() + ".png"@,
{
    reveal_strlit("blobs");
    reveal_strlit("/blobs/");
    reveal_strlit("appicons");
    reveal_strlit("/appicons/");
    assert("/blobs/"@ =~= seq!['/'] + "blobs"@ + seq!['/']);
    assert("/appicons/"@ =~= seq!['/'] + "appicons"@ + seq!['/']);
    assert("blobs"@.len() == 5 && "blobs"@.last() == 's');
    assert("appicons"@.len() == 8 && "appicons"@.last() == 's');
    assert(h.blob_file(hash) =~= h.dir + "/blobs/"@ + hash + ".png"@);
    assert(h.icon_file(app) =~= h.dir + "/appicons/"@ + ContentView::Text(app).hash() + ".png"@);
}

/// Whatever a new entry pushes out is cleaned up, and nothing else is: each
/// evicted entry hands over its payload and its received files, its preview goes,
/// and every other preview stays. The new entry is on its way to disk.
pub proof fn law_evicted_entries_are_cleaned_up(
    h: HistoryView,
    e: EntryView,
    cap: nat,
    i: int,
    c: CachedView,
)
    ensures
        ({
            let all = h.entries.push(e);
            let gone = dropped(all, cap);
            let after = h.added(e, cap);
            let left = h.leftovers(e, cap);
            &&& after.entries.len() + left.len() == h.entries.len() + 1
            &&& left.len() == gone.len()
            &&& 0 <= i < left.len() ==> left[i].blob_hash == gone[i].blob_hash && left[i].batch_dirs
                == cleanup_of(gone[i], h.sync_root).batch_dirs
            &&& after.previews.contains(c) <==> h.previews.contains(c) && forall|k: int|
                0 <= k < gone.len() ==> (#[trigger] gone[k]).blob_hash != Some(c.blob_hash)
            &&& after.save != SaveState::Saved
            &&& after.dir == h.dir && after.sync_root == h.sync_root
            &&& after.blob_bytes == h.blob_bytes && after.clear_generation == h.clear_generation
        }),
{
    let all = h.entries.push(e);
    law_eviction_drops_loose_entries(all, cap);
    lemma_purged(h.previews, dropped(all, cap), c);
}

/// A payload is scaled exactly when its header names an edge that is longer than
/// the card and it holds four bytes for each pixel that the header names.
pub proof fn law_what_is_scaled(bytes: Seq<u8>, width: u32, height: u32, raw: (u32, u32, Seq<u8>))
    requires
        png_header(bytes) == Some((width, height)),
        png_raw(bytes) == Some(raw),
    ensures
        scalable(bytes) <==> (width > 800 || height > 800) && raw.2.len() >= width * height * 4,
        width <= 800 && height <= 800 ==> !oversized(bytes),
{
}

/// The place of a preview in the cache is the first one with its hash.
pub proof fn law_cached_preview_is_the_first(
    previews: Seq<CachedView>,
    hash: Seq<char>,
    i: int,
    j: int,
)
    requires
        cached_at(previews, hash, i),
    ensures
        previews[i].blob_hash == hash,
        0 <= j < previews.len() && previews[j].blob_hash == hash ==> i <= j,
        cached_at(previews, hash, j) ==> i == j,
{
}

} // verus!
