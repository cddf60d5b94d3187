//! Clipboard content, its identity, and change events.

use vstd::prelude::*;
use vstd::utf8::encode_utf8;
use crate::digest::{self, absorbed, digest_hex, le_bytes};
use crate::text::{self, opt_view, views};

verus! {

/// A path as the clipboard hands it over.
#[derive(Debug, PartialEq, Eq)]
pub enum FilePath {
    /// A path that is text
    Text(String),
    /// A path whose bytes are not text
    Raw {
        /// The bytes of the path
        bytes: Vec<u8>,
        /// The path with every undecodable part replaced, for matching
        lossy: String,
        /// Whether the file name alone is text
        name_is_text: bool,
    },
}

/// What a [`FilePath`] stands for.
#[verifier::ext_equal]
pub enum FilePathView {
    Text(Seq<char>),
    Raw { bytes: Seq<u8>, lossy: Seq<char>, name_is_text: bool },
}

impl View for FilePath {
    type V = FilePathView;

    open spec fn view(&self) -> FilePathView {
        match *self {
            FilePath::Text(t) => FilePathView::Text(t@),
            FilePath::Raw { bytes, lossy, name_is_text } => FilePathView::Raw {
                bytes: bytes@,
                lossy: lossy@,
                name_is_text,
            },
        }
    }
}

impl FilePathView {
    /// The bytes of the path.
    pub open spec fn bytes(self) -> Seq<u8> {
        match self {
            FilePathView::Text(t) => encode_utf8(t),
            FilePathView::Raw { bytes, .. } => bytes,
        }
    }

    /// The text of the path, undecodable parts replaced.
    pub open spec fn lossy(self) -> Seq<char> {
        match self {
            FilePathView::Text(t) => t,
            FilePathView::Raw { lossy, .. } => lossy,
        }
    }
}

impl FilePath {
    /// A copy of the path.
    pub fn duplicate(&self) -> (r: FilePath)
        ensures
            r@ == self@,
    {
        match self {
            FilePath::Text(t) => FilePath::Text(t.clone()),
            FilePath::Raw { bytes, lossy, name_is_text } => {
                let copy: Vec<u8> = bytes.clone();
                proof {
                    assert(copy@ =~= bytes@);
                }
                FilePath::Raw { bytes: copy, lossy: lossy.clone(), name_is_text: *name_is_text }
            },
        }
    }

    /// The text of the path, undecodable parts replaced.
    pub fn lossy(&self) -> (r: &str)
        ensures
            r@ == self@.lossy(),
    {
        match self {
            FilePath::Text(t) => t.as_str(),
            FilePath::Raw { lossy, .. } => lossy.as_str(),
        }
    }

    /// Whether two paths are the same path.
    pub fn same(&self, other: &FilePath) -> (r: bool)
        ensures
            r == (self@ == other@),
    {
        match (self, other) {
            (FilePath::Text(a), FilePath::Text(b)) => a.clone() == b.clone(),
            (
                FilePath::Raw { bytes: a, lossy: la, name_is_text: na },
                FilePath::Raw { bytes: b, lossy: lb, name_is_text: nb },
            ) => *na == *nb && la.clone() == lb.clone() && same_bytes(a, b),
            _ => false,
        }
    }
}

/// Whether two blocks hold the same bytes.
pub fn same_bytes(a: &[u8], b: &[u8]) -> (r: bool)
    ensures
        r == (a@ == b@),
{
    if a.len() != b.len() {
        return false;
    }
    let mut i: usize = 0;
    while i < a.len()
        invariant
            i <= a.len(),
            a.len() == b.len(),
            forall|j: int| 0 <= j < i ==> a@[j] == b@[j],
        decreases a.len() - i,
    {
        if a[i] != b[i] {
            return false;
        }
        i += 1;
    }
    proof {
        assert(a@ =~= b@);
    }
    true
}

/// A copy of a list of paths.
pub fn duplicate_paths(v: &Vec<FilePath>) -> (r: Vec<FilePath>)
    ensures
        views(r@) == views(v@),
{
    let mut out: Vec<FilePath> = Vec::new();
    let mut i: usize = 0;
    while i < v.len()
        invariant
            i <= v.len(),
            out.len() == i,
            forall|j: int| 0 <= j < i ==> (#[trigger] out@[j])@ == v@[j]@,
        decreases v.len() - i,
    {
        out.push(v[i].duplicate());
        i += 1;
    }
    proof {
        assert(views(out@) =~= views(v@));
    }
    out
}

/// Clipboard content, one representation only: files before image before text.
#[derive(Debug, PartialEq, Eq)]
pub enum ClipboardContent {
    /// Plain text, exactly as copied
    Text(String),
    /// Bitmap
    Image {
        /// Width in pixels
        width: usize,
        /// Height in pixels
        height: usize,
        /// RGBA bytes
        rgba: Vec<u8>,
    },
    /// File references
    Files(Vec<FilePath>),
    /// An image is there, but its pixels were not read
    ImageUnread,
}

/// What a [`ClipboardContent`] stands for.
#[verifier::ext_equal]
pub enum ContentView {
    Text(Seq<char>),
    Image { width: usize, height: usize, rgba: Seq<u8> },
    Files(Seq<FilePathView>),
    ImageUnread,
}

impl View for ClipboardContent {
    type V = ContentView;

    open spec fn view(&self) -> ContentView {
        match *self {
            ClipboardContent::Text(t) => ContentView::Text(t@),
            ClipboardContent::Image { width, height, rgba } => ContentView::Image {
                width,
                height,
                rgba: rgba@,
            },
            ClipboardContent::Files(paths) => ContentView::Files(views(paths@)),
            ClipboardContent::ImageUnread => ContentView::ImageUnread,
        }
    }
}

/// The bytes `t:`.
pub open spec fn text_tag() -> Seq<u8> {
    seq![116u8, 58]
}

/// The bytes `i:`.
pub open spec fn image_tag() -> Seq<u8> {
    seq![105u8, 58]
}

/// The bytes `f:`.
pub open spec fn files_tag() -> Seq<u8> {
    seq![102u8, 58]
}

/// The bytes `i:unread`.
pub open spec fn unread_tag() -> Seq<u8> {
    seq![105u8, 58, 117, 110, 114, 101, 97, 100]
}

/// A list of paths as bytes: each path followed by a zero byte.
pub open spec fn path_bytes(paths: Seq<FilePathView>) -> Seq<u8>
    decreases paths.len(),
{
    if paths.len() == 0 {
        Seq::empty()
    } else {
        path_bytes(paths.drop_last()) + paths.last().bytes() + seq![0u8]
    }
}

impl ContentView {
    /// The bytes whose digest identifies the content. The tag in front keeps
    /// the kinds apart.
    pub open spec fn preimage(self) -> Seq<u8> {
        match self {
            ContentView::Text(t) => text_tag() + encode_utf8(t),
            ContentView::Image { width, height, rgba } => image_tag() + le_bytes(width as nat, 8)
                + le_bytes(height as nat, 8) + rgba,
            ContentView::Files(paths) => files_tag() + path_bytes(paths),
            ContentView::ImageUnread => unread_tag(),
        }
    }

    /// The content hash: the one key for echo comparison and history dedup.
    pub open spec fn hash(self) -> Seq<char> {
        digest_hex(self.preimage())
    }

    /// The short type name.
    pub open spec fn kind(self) -> Seq<char> {
        match self {
            ContentView::Text(_) => "text"@,
            ContentView::Image { .. } => "image"@,
            ContentView::ImageUnread => "image"@,
            ContentView::Files(_) => "files"@,
        }
    }
}

impl ClipboardContent {
    /// The content hash in hexadecimal.
    pub fn hash(&self) -> (r: String)
        ensures
            r@ == self@.hash(),
            r@.len() == 64,
            forall|i: int| 0 <= i < 64 ==> digest::is_hex_digit(#[trigger] r@[i]),
    {
        match self {
            ClipboardContent::Text(text) => hash_text(text.as_str()),
            ClipboardContent::Image { width, height, rgba } => {
                let mut hasher = digest::hasher_new();
                let tag: [u8; 2] = [105, 58];
                digest::hasher_update(&mut hasher, &tag);
                let w: Vec<u8> = digest::le_bytes_of(*width as u64);
                let h: Vec<u8> = digest::le_bytes_of(*height as u64);
                digest::hasher_update(&mut hasher, &w);
                digest::hasher_update(&mut hasher, &h);
                digest::hasher_update(&mut hasher, rgba);
                proof {
                    assert(absorbed(hasher) =~= self@.preimage());
                }
                digest::hasher_hex(&hasher)
            },
            ClipboardContent::Files(paths) => {
                let mut hasher = digest::hasher_new();
                let tag: [u8; 2] = [102, 58];
                digest::hasher_update(&mut hasher, &tag);
                let zero: [u8; 1] = [0];
                let ghost all = views(paths@);
                let mut i: usize = 0;
                proof {
                    assert(absorbed(hasher) =~= files_tag() + path_bytes(all.take(0)));
                }
                while i < paths.len()
                    invariant
                        i <= paths.len(),
                        all == views(paths@),
                        zero@ == seq![0u8],
                        absorbed(hasher) == files_tag() + path_bytes(all.take(i as int)),
                    decreases paths.len() - i,
                {
                    proof {
                        assert(all.take(i + 1).drop_last() =~= all.take(i as int));
                        assert(all.take(i + 1).last() == paths@[i as int]@);
                    }
                    match &paths[i] {
                        FilePath::Text(t) => digest::hasher_update(&mut hasher, t.as_str().as_bytes()),
                        FilePath::Raw { bytes, .. } => digest::hasher_update(&mut hasher, bytes),
                    }
                    digest::hasher_update(&mut hasher, &zero);
                    proof {
                        assert(absorbed(hasher) =~= files_tag() + path_bytes(all.take(i + 1)));
                    }
                    i += 1;
                }
                proof {
                    assert(all.take(i as int) =~= all);
                }
                digest::hasher_hex(&hasher)
            },
            ClipboardContent::ImageUnread => {
                let tag: [u8; 8] = [105, 58, 117, 110, 114, 101, 97, 100];
                proof {
                    assert(tag@ =~= unread_tag());
                }
                digest::digest(&tag)
            },
        }
    }

    /// The short type name.
    pub fn kind(&self) -> (r: &'static str)
        ensures
            r@ == self@.kind(),
    {
        match self {
            ClipboardContent::Text(_) => "text",
            ClipboardContent::Image { .. } => "image",
            ClipboardContent::ImageUnread => "image",
            ClipboardContent::Files(_) => "files",
        }
    }

    /// A copy of the content.
    pub fn duplicate(&self) -> (r: ClipboardContent)
        ensures
            r@ == self@,
    {
        match self {
            ClipboardContent::Text(t) => ClipboardContent::Text(t.clone()),
            ClipboardContent::Image { width, height, rgba } => {
                let copy: Vec<u8> = rgba.clone();
                proof {
                    assert(copy@ =~= rgba@);
                }
                ClipboardContent::Image { width: *width, height: *height, rgba: copy }
            },
            ClipboardContent::Files(paths) => ClipboardContent::Files(duplicate_paths(paths)),
            ClipboardContent::ImageUnread => ClipboardContent::ImageUnread,
        }
    }
}

/// The hash of text content.
pub fn hash_text(text: &str) -> (r: String)
    ensures
        r@ == ContentView::Text(text@).hash(),
        r@.len() == 64,
        forall|i: int| 0 <= i < 64 ==> digest::is_hex_digit(#[trigger] r@[i]),
{
    let mut hasher = digest::hasher_new();
    let tag: [u8; 2] = [116, 58];
    digest::hasher_update(&mut hasher, &tag);
    digest::hasher_update(&mut hasher, text.as_bytes());
    proof {
        assert(absorbed(hasher) =~= ContentView::Text(text@).preimage());
    }
    digest::hasher_hex(&hasher)
}

/// Pairs content with its hash.
pub fn with_hash(content: ClipboardContent) -> (r: (ClipboardContent, String))
    ensures
        r.0 == content,
        r.1@ == content@.hash(),
{
    let hash = content.hash();
    (content, hash)
}

/// What a clipboard read amounts to: files before an image with pixels before
/// text.
pub open spec fn classified(
    files: Seq<FilePathView>,
    image: Option<(usize, usize, Seq<u8>)>,
    text: Option<Seq<char>>,
) -> Option<ContentView> {
    if files.len() > 0 {
        Some(ContentView::Files(files))
    } else {
        match image {
            Some((width, height, rgba)) if width > 0 && height > 0 => Some(
                ContentView::Image { width, height, rgba },
            ),
            _ => match text {
                Some(t) => Some(ContentView::Text(t)),
                None => None,
            },
        }
    }
}

/// Classifies what a clipboard read brought.
pub fn classify(files: Vec<FilePath>, image: Option<(usize, usize, Vec<u8>)>, text: Option<String>) -> (r:
    Option<ClipboardContent>)
    ensures
        opt_view(r) == classified(
            views(files@),
            match image {
                Some((width, height, rgba)) => Some((width, height, rgba@)),
                None => None,
            },
            opt_view(text),
        ),
{
    if files.len() > 0 {
        return Some(ClipboardContent::Files(files));
    }
    match image {
        Some((width, height, rgba)) => {
            if width > 0 && height > 0 {
                return Some(ClipboardContent::Image { width, height, rgba });
            }
        },
        None => {},
    }
    match text {
        Some(t) => Some(ClipboardContent::Text(t)),
        None => None,
    }
}

/// `std::time::SystemTime::now`: the wall clock in Unix milliseconds. Nothing
/// is promised of the reading.
#[verifier::external_body]
pub fn now_ms() -> u64 {
    std::time::SystemTime::now()
        .duration_since(std::time::UNIX_EPOCH)
        .map(|d| d.as_millis() as u64)
        .unwrap_or_default()
}

/// A clipboard change.
#[derive(Debug, PartialEq, Eq)]
pub struct ClipboardEvent {
    /// The content after the change
    pub content: ClipboardContent,
    /// The content hash
    pub hash: String,
    /// When the change was seen (Unix milliseconds)
    pub timestamp_ms: u64,
    /// The pasteboard types or clipboard formats seen at the same time
    pub pasteboard_types: Vec<String>,
    /// Skip the broadcast; the clock of local copies still advances and the
    /// copy is still reported
    pub suppress_broadcast: bool,
    /// Skip the history; handed on with the report of the copy
    pub suppress_record: bool,
    /// Paths to leave out of the broadcast
    pub broadcast_files_excluded: Vec<FilePath>,
    /// Paths to leave out of the history
    pub record_files_excluded: Vec<FilePath>,
}

/// What a [`ClipboardEvent`] stands for.
#[verifier::ext_equal]
pub struct EventView {
    pub content: ContentView,
    pub hash: Seq<char>,
    pub timestamp_ms: u64,
    pub pasteboard_types: Seq<Seq<char>>,
    pub suppress_broadcast: bool,
    pub suppress_record: bool,
    pub broadcast_files_excluded: Seq<FilePathView>,
    pub record_files_excluded: Seq<FilePathView>,
}

impl View for ClipboardEvent {
    type V = EventView;

    open spec fn view(&self) -> EventView {
        EventView {
            content: self.content@,
            hash: self.hash@,
            timestamp_ms: self.timestamp_ms,
            pasteboard_types: views(self.pasteboard_types@),
            suppress_broadcast: self.suppress_broadcast,
            suppress_record: self.suppress_record,
            broadcast_files_excluded: views(self.broadcast_files_excluded@),
            record_files_excluded: views(self.record_files_excluded@),
        }
    }
}

/// A change with no type snapshot and nothing held back.
pub open spec fn plain_event(content: ContentView, hash: Seq<char>, timestamp_ms: u64) -> EventView {
    EventView {
        content,
        hash,
        timestamp_ms,
        pasteboard_types: Seq::empty(),
        suppress_broadcast: false,
        suppress_record: false,
        broadcast_files_excluded: Seq::empty(),
        record_files_excluded: Seq::empty(),
    }
}

impl ClipboardEvent {
    /// A change with no type snapshot and nothing held back.
    pub fn new(content: ClipboardContent, hash: String, timestamp_ms: u64) -> (r: ClipboardEvent)
        ensures
            r@ == plain_event(content@, hash@, timestamp_ms),
    {
        let r = ClipboardEvent {
            content,
            hash,
            timestamp_ms,
            pasteboard_types: Vec::new(),
            suppress_broadcast: false,
            suppress_record: false,
            broadcast_files_excluded: Vec::new(),
            record_files_excluded: Vec::new(),
        };
        proof {
            assert(r@ =~= plain_event(content@, hash@, timestamp_ms));
        }
        r
    }
}

/// Contents of different kinds never share a preimage: text, bitmap, file
/// list and unread image are told apart by what is hashed.
pub proof fn law_kinds_are_told_apart(a: ContentView, b: ContentView)
    requires
        a.preimage() == b.preimage(),
    ensures
        a is Text <==> b is Text,
        a is Image <==> b is Image,
        a is Files <==> b is Files,
        a is ImageUnread <==> b is ImageUnread,
{
    lemma_tags(a);
    lemma_tags(b);
}

proof fn lemma_tags(a: ContentView)
    ensures
        a.preimage().len() >= 2,
        a is Text ==> a.preimage()[0] == 116,
        a is Files ==> a.preimage()[0] == 102,
        a is Image ==> a.preimage()[0] == 105 && a.preimage().len() >= 18,
        a is ImageUnread ==> a.preimage()[0] == 105 && a.preimage().len() == 8,
{
    if let ContentView::Image { width, height, .. } = a {
        digest::lemma_le_bytes_len(width as nat, 8);
        digest::lemma_le_bytes_len(height as nat, 8);
    }
}

/// Texts with the same preimage are the same text.
pub proof fn law_texts_are_told_apart(a: Seq<char>, b: Seq<char>)
    requires
        ContentView::Text(a).preimage() == ContentView::Text(b).preimage(),
    ensures
        a == b,
{
    let x = ContentView::Text(a).preimage();
    let y = ContentView::Text(b).preimage();
    assert(x.skip(2) =~= encode_utf8(a));
    assert(y.skip(2) =~= encode_utf8(b));
    vstd::utf8::encode_utf8_decode_utf8(a);
    vstd::utf8::encode_utf8_decode_utf8(b);
}

/// Bitmaps with the same preimage have the same size and the same pixels.
pub proof fn law_images_are_told_apart(a: ContentView, b: ContentView)
    requires
        a is Image,
        b is Image,
        a.preimage() == b.preimage(),
    ensures
        a == b,
{
    if let ContentView::Image { width: wa, height: ha, rgba: ra } = a {
        if let ContentView::Image { width: wb, height: hb, rgba: rb } = b {
            digest::lemma_le_bytes_len(wa as nat, 8);
            digest::lemma_le_bytes_len(ha as nat, 8);
            digest::lemma_le_bytes_len(wb as nat, 8);
            digest::lemma_le_bytes_len(hb as nat, 8);
            let x = a.preimage();
            let y = b.preimage();
            assert(x.subrange(2, 10) =~= le_bytes(wa as nat, 8));
            assert(y.subrange(2, 10) =~= le_bytes(wb as nat, 8));
            assert(x.subrange(10, 18) =~= le_bytes(ha as nat, 8));
            assert(y.subrange(10, 18) =~= le_bytes(hb as nat, 8));
            assert(x.skip(18) =~= ra);
            assert(y.skip(18) =~= rb);
            assert(vstd::arithmetic::power::pow(256, 8) == 0x1_0000_0000_0000_0000) by {
                reveal(vstd::arithmetic::power::pow);
                assert(vstd::arithmetic::power::pow(256, 0) == 1);
                assert(vstd::arithmetic::power::pow(256, 1) == 256);
                assert(vstd::arithmetic::power::pow(256, 2) == 0x1_0000);
                assert(vstd::arithmetic::power::pow(256, 3) == 0x100_0000);
                assert(vstd::arithmetic::power::pow(256, 4) == 0x1_0000_0000);
                assert(vstd::arithmetic::power::pow(256, 5) == 0x100_0000_0000);
                assert(vstd::arithmetic::power::pow(256, 6) == 0x1_0000_0000_0000);
                assert(vstd::arithmetic::power::pow(256, 7) == 0x100_0000_0000_0000);
            }
            digest::lemma_le_bytes_injective(wa as nat, wb as nat, 8);
            digest::lemma_le_bytes_injective(ha as nat, hb as nat, 8);
        }
    }
}

/// No path of the list holds a zero byte.
pub open spec fn no_zero_byte(paths: Seq<FilePathView>) -> bool {
    forall|i: int, j: int|
        0 <= i < paths.len() && 0 <= j < paths[i].bytes().len() ==> #[trigger] paths[i].bytes()[j]
            != 0
}

/// File lists with the same preimage hold the same paths in the same order
/// (paths never hold a zero byte).
pub proof fn law_file_lists_are_told_apart(a: Seq<FilePathView>, b: Seq<FilePathView>)
    requires
        no_zero_byte(a),
        no_zero_byte(b),
        ContentView::Files(a).preimage() == ContentView::Files(b).preimage(),
    ensures
        a.len() == b.len(),
        forall|i: int| 0 <= i < a.len() ==> (#[trigger] a[i]).bytes() == b[i].bytes(),
{
    assert(ContentView::Files(a).preimage().skip(2) =~= path_bytes(a));
    assert(ContentView::Files(b).preimage().skip(2) =~= path_bytes(b));
    lemma_path_bytes(a, b);
}

proof fn lemma_path_bytes(a: Seq<FilePathView>, b: Seq<FilePathView>)
    requires
        no_zero_byte(a),
        no_zero_byte(b),
        path_bytes(a) == path_bytes(b),
    ensures
        a.len() == b.len(),
        forall|i: int| 0 <= i < a.len() ==> (#[trigger] a[i]).bytes() == b[i].bytes(),
    decreases a.len(),
{
    lemma_path_bytes_end(a);
    lemma_path_bytes_end(b);
    if a.len() > 0 && b.len() > 0 {
        let x = path_bytes(a);
        let na = a.last().bytes().len() as int;
        let nb = b.last().bytes().len() as int;
        let end = x.len() - 1;
        let pa = path_bytes(a.drop_last());
        let pb = path_bytes(b.drop_last());
        lemma_path_bytes_end(a.drop_last());
        lemma_path_bytes_end(b.drop_last());
        assert(pa.len() == end - na);
        assert(pb.len() == end - nb);
        if na < nb {
            // The byte just before a's last path ends a's second last path.
            assert(x[end - na - 1] == b.last().bytes()[nb - na - 1]);
            assert(b[b.len() - 1].bytes()[nb - na - 1] != 0);
            assert(pa.len() > 0);
            assert(x[pa.len() - 1] == pa[pa.len() - 1]);
            assert(false);
        }
        if nb < na {
            assert(x[end - nb - 1] == a.last().bytes()[na - nb - 1]);
            assert(a[a.len() - 1].bytes()[na - nb - 1] != 0);
            assert(pb.len() > 0);
            assert(x[pb.len() - 1] == pb[pb.len() - 1]);
            assert(false);
        }
        assert(x.subrange(end - na, end) =~= a.last().bytes());
        assert(x.subrange(end - nb, end) =~= b.last().bytes());
        assert(x.take(end - na) =~= pa);
        assert(x.take(end - nb) =~= pb);
        assert forall|i: int, j: int|
            0 <= i < a.drop_last().len() && 0 <= j < a.drop_last()[i].bytes().len() implies #[trigger] a.drop_last()[i].bytes()[j]
            != 0 by {
            assert(a[i].bytes()[j] != 0);
        }
        assert forall|i: int, j: int|
            0 <= i < b.drop_last().len() && 0 <= j < b.drop_last()[i].bytes().len() implies #[trigger] b.drop_last()[i].bytes()[j]
            != 0 by {
            assert(b[i].bytes()[j] != 0);
        }
        lemma_path_bytes(a.drop_last(), b.drop_last());
        assert forall|i: int| 0 <= i < a.len() implies (#[trigger] a[i]).bytes() == b[i].bytes() by {
            if i < a.len() - 1 {
                assert(a.drop_last()[i].bytes() == b.drop_last()[i].bytes());
            }
        }
    }
}

proof fn lemma_path_bytes_end(a: Seq<FilePathView>)
    ensures
        a.len() == 0 <==> path_bytes(a).len() == 0,
        a.len() > 0 ==> path_bytes(a).len() == path_bytes(a.drop_last()).len() + a.last().bytes().len()
            + 1 && path_bytes(a)[path_bytes(a).len() - 1] == 0,
{
}

/// What is read from the clipboard is files where there are any, else an image
/// that has pixels, else text; with none of them it is nothing.
pub proof fn law_files_before_image_before_text(
    files: Seq<FilePathView>,
    width: usize,
    height: usize,
    rgba: Seq<u8>,
    image: Option<(usize, usize, Seq<u8>)>,
    text: Option<Seq<char>>,
)
    ensures
        files.len() > 0 ==> classified(files, image, text) == Some(ContentView::Files(files)),
        width > 0 && height > 0 ==> classified(Seq::empty(), Some((width, height, rgba)), text)
            == Some(ContentView::Image { width, height, rgba }),
        (width == 0 || height == 0) && text is Some ==> classified(
            Seq::empty(),
            Some((width, height, rgba)),
            text,
        ) == Some(ContentView::Text(text->0)),
        (width == 0 || height == 0) && text is None ==> classified(
            Seq::empty(),
            Some((width, height, rgba)),
            text,
        ) is None,
        text is Some ==> classified(Seq::empty(), None, text) == Some(ContentView::Text(text->0)),
        classified(Seq::empty(), None, None) is None,
{
}

/// What the hash of content is taken of: a tag for the kind, then the text in
/// UTF-8, or the size and the pixels, or each path with a zero byte behind it.
pub proof fn law_hash_covers_the_content(
    t: Seq<char>,
    width: usize,
    height: usize,
    rgba: Seq<u8>,
    paths: Seq<FilePathView>,
    path: FilePathView,
)
    ensures
        ContentView::Text(t).preimage() == seq![0x74u8, 0x3a] + encode_utf8(t),
        (ContentView::Image { width, height, rgba }).preimage() == seq![0x69u8, 0x3a] + le_bytes(
            width as nat,
            8,
        ) + le_bytes(height as nat, 8) + rgba,
        ContentView::Files(Seq::empty()).preimage() == seq![0x66u8, 0x3a],
        ContentView::Files(paths.push(path)).preimage() == ContentView::Files(paths).preimage()
            + path.bytes() + seq![0u8],
        ContentView::Text(t).hash() == digest_hex(ContentView::Text(t).preimage()),
{
    assert(paths.push(path).drop_last() =~= paths);
    assert(ContentView::Files(Seq::empty()).preimage() =~= seq![0x66u8, 0x3a]);
    assert(ContentView::Files(paths.push(path)).preimage() =~= ContentView::Files(paths).preimage()
        + path.bytes() + seq![0u8]);
}

/// The kinds have the names that travel with them.
pub proof fn law_kind_names(content: ContentView)
    ensures
        content is Text ==> content.kind() == "text"@,
        content is Image || content is ImageUnread ==> content.kind() == "image"@,
        content is Files ==> content.kind() == "files"@,
{
}

} // verus!
