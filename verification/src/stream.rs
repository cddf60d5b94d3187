//! Raw byte streams: counted by declared length, hashed as they go by.

use vstd::prelude::*;
use crate::config::SYNC_STREAM_BUF;
use crate::digest::{self, absorbed, digest_hex};
use crate::filenames::lemma_decimal_injective;
use crate::paths::{self, joined_path};
use crate::sync::{SyncError, SyncErrorView, SYNC_FILES_DIR};
use crate::text::{self, decimal_text};

verus! {

/// A byte stream in progress. It is cut into parts of declared length; one
/// digest covers all of them.
pub struct BlobStream {
    remaining: u64,
    hasher: blake3::Hasher,
}

/// What a [`BlobStream`] stands for.
#[verifier::ext_equal]
pub struct StreamView {
    /// Bytes of the current part that are still missing
    pub remaining: u64,
    /// The bytes so far
    pub bytes: Seq<u8>,
}

impl View for BlobStream {
    type V = StreamView;

    closed spec fn view(&self) -> StreamView {
        StreamView { remaining: self.remaining, bytes: absorbed(self.hasher) }
    }
}

impl StreamView {
    /// How many bytes the next read or write may move.
    pub open spec fn want(self) -> int {
        if self.remaining <= SYNC_STREAM_BUF {
            self.remaining as int
        } else {
            SYNC_STREAM_BUF as int
        }
    }
}

impl BlobStream {
    /// A stream without a part.
    pub fn new() -> (r: BlobStream)
        ensures
            r@ == (StreamView { remaining: 0, bytes: Seq::empty() }),
    {
        BlobStream { remaining: 0, hasher: digest::hasher_new() }
    }

    /// Starts a part of the given length.
    pub fn begin(&mut self, bytes: u64)
        ensures
            final(self)@ == (StreamView { remaining: bytes, ..old(self)@ }),
    {
        self.remaining = bytes;
    }

    /// How many bytes the next read or write may move; none when the part is
    /// complete.
    pub fn want(&self) -> (r: usize)
        ensures
            r == self@.want(),
    {
        if self.remaining <= SYNC_STREAM_BUF as u64 {
            self.remaining as usize
        } else {
            SYNC_STREAM_BUF
        }
    }

    /// Takes a chunk in. An empty chunk while bytes are missing means that the
    /// source ended early: false, and nothing changes.
    pub fn take(&mut self, chunk: &[u8]) -> (r: bool)
        requires
            chunk@.len() <= old(self)@.want(),
        ensures
            r == (chunk@.len() > 0 || old(self)@.remaining == 0),
            final(self)@ == (StreamView {
                remaining: (old(self)@.remaining - chunk@.len()) as u64,
                bytes: old(self)@.bytes + chunk@,
            }),
    {
        if chunk.len() == 0 {
            proof {
                assert(self@.bytes + chunk@ =~= self@.bytes);
            }
            return self.remaining == 0;
        }
        digest::hasher_update(&mut self.hasher, chunk);
        self.remaining = self.remaining - chunk.len() as u64;
        true
    }

    /// The digest of the bytes so far.
    pub fn finish(&self) -> (r: String)
        ensures
            r@ == digest_hex(self@.bytes),
    {
        digest::hasher_hex(&self.hasher)
    }
}

/// However a block is cut into chunks, the digest is that of the block.
pub proof fn law_chunks_add_up(s: StreamView, a: Seq<u8>, b: Seq<u8>)
    ensures
        digest_hex((s.bytes + a) + b) == digest_hex(s.bytes + (a + b)),
{
    assert((s.bytes + a) + b =~= s.bytes + (a + b));
}

/// The error of a source that ended before its declared length.
pub fn ended_early() -> (r: SyncError)
    ensures
        r@ == SyncErrorView::Io("unexpected end of file"@),
{
    SyncError::Io("unexpected end of file".to_owned())
}

/// The error of a file that became shorter while it was sent.
pub fn file_shrank(path: &str) -> (r: SyncError)
    ensures
        r@ == SyncErrorView::Io("文件在发送途中变小: "@ + path@),
{
    SyncError::Io(text::join("文件在发送途中变小: ", path))
}

/// The directory of a batch: below the landing directory, named by the first
/// eight characters of a random id.
pub open spec fn batch_path(data_dir: Seq<char>, id: Seq<char>) -> Seq<char> {
    joined_path(joined_path(data_dir, SYNC_FILES_DIR@), id.take(8))
}

/// The directory of a batch.
pub fn batch_dir(data_dir: &str, id: &str) -> (r: String)
    requires
        id@.len() >= 8,
    ensures
        r@ == batch_path(data_dir@, id@),
{
    let chars = text::chars_of(id);
    let mut head: Vec<char> = Vec::new();
    let mut i: usize = 0;
    while i < 8
        invariant
            i <= 8,
            chars@ == id@,
            id@.len() >= 8,
            head@ == id@.take(i as int),
        decreases 8 - i,
    {
        head.push(chars[i]);
        proof {
            assert(id@.take(i as int + 1) =~= id@.take(i as int).push(id@[i as int]));
        }
        i = i + 1;
    }
    let name = text::string_of(head.as_slice());
    let landing = paths::join(data_dir, SYNC_FILES_DIR);
    paths::join(landing.as_str(), name.as_str())
}

/// The name of an incoming file before its content is verified.
pub fn part_name(index: usize) -> (r: String)
    ensures
        r@ == "recv-"@ + decimal_text(index as nat) + ".part"@,
{
    let number = text::decimal(index as u64);
    let head = text::join("recv-", number.as_str());
    text::join(head.as_str(), ".part")
}

/// Every part has a name of its own.
pub proof fn law_part_names_differ(a: nat, b: nat)
    requires
        "recv-"@ + decimal_text(a) + ".part"@ == "recv-"@ + decimal_text(b) + ".part"@,
    ensures
        a == b,
{
    let x = "recv-"@ + decimal_text(a) + ".part"@;
    let y = "recv-"@ + decimal_text(b) + ".part"@;
    let head = "recv-"@.len() as int;
    let tail = ".part"@.len() as int;
    assert(decimal_text(a) =~= x.subrange(head, x.len() - tail));
    assert(decimal_text(b) =~= y.subrange(head, y.len() - tail));
    lemma_decimal_injective(a, b);
}

/// A step moves no more than the buffer holds and no more than is missing, and
/// it moves something while anything is.
pub proof fn law_want_is_bounded(s: StreamView)
    ensures
        s.want() <= s.remaining,
        s.want() <= 1_048_576,
        s.remaining > 0 ==> s.want() > 0,
        s.remaining <= 1_048_576 ==> s.want() == s.remaining,
        s.remaining > 1_048_576 ==> s.want() == 1_048_576,
{
}

/// A batch lands below the landing directory, under the beginning of its ID.
pub proof fn law_batch_path(data_dir: Seq<char>, id: Seq<char>)
    requires
        data_dir.len() > 0,
        data_dir.last() != '/',
        id.len() >= 8,
    ensures
        batch_path(data_dir, id) == data_dir + "/sync-files/"@ + id.take(8),
{
    reveal_strlit("sync-files");
    reveal_strlit("/sync-files/");
    assert("/sync-files/"@ =~= seq!['/'] + "sync-files"@ + seq!['/']);
    assert("sync-files"@.len() == 10 && "sync-files"@.last() == 's');
    assert(batch_path(data_dir, id) =~= data_dir + "/sync-files/"@ + id.take(8));
}

} // verus!
