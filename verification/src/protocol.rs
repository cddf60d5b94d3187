//! The frame protocol of the control channel: a 4-byte big-endian length
//! followed by the body.

use vstd::prelude::*;
use crate::config::PROTOCOL_VERSION;
use crate::text::{self, opt_view};

verus! {

/// Largest body of a frame.
pub const MAX_FRAME_LEN: u32 = 1_048_576;

/// Content type of a text sync.
pub const CONTENT_TEXT: &'static str = "text";

/// Content type of an image offer.
pub const CONTENT_IMAGE: &'static str = "image";

/// Content type of a file offer.
pub const CONTENT_FILES: &'static str = "files";

/// The source is not paired.
pub const NOT_PAIRED: &'static str = "not_paired";

/// The payload exceeds the receiver's limit.
pub const TOO_LARGE: &'static str = "too_large";

/// The receiver has paused syncing.
pub const DISABLED: &'static str = "disabled";

/// The content type is unknown or switched off.
pub const UNSUPPORTED_TYPE: &'static str = "unsupported_type";

/// The byte stream does not have the announced digest.
pub const CHECKSUM_MISMATCH: &'static str = "checksum_mismatch";

/// The declared identity is not the one that the connection proves.
pub const IDENTITY_MISMATCH: &'static str = "identity_mismatch";

/// The protocol major differs.
pub const UNSUPPORTED_VERSION: &'static str = "unsupported_version";

/// Protocol errors.
#[derive(Debug, PartialEq, Eq)]
pub enum ProtocolError {
    /// The transport failed
    Io(String),
    /// The frame exceeds [`MAX_FRAME_LEN`]
    FrameTooLarge(u32),
    /// A message could not be encoded or decoded
    Codec(String),
    /// The protocol majors differ
    VersionMismatch {
        /// Peer version
        peer: String,
        /// Local version
        local: String,
    },
    /// A message arrived that does not fit the session
    Unexpected {
        /// Expected message type
        expected: String,
        /// Message type that arrived
        got: String,
    },
}

/// What a [`ProtocolError`] stands for.
#[verifier::ext_equal]
pub enum ProtocolErrorView {
    Io(Seq<char>),
    FrameTooLarge(u32),
    Codec(Seq<char>),
    VersionMismatch { peer: Seq<char>, local: Seq<char> },
    Unexpected { expected: Seq<char>, got: Seq<char> },
}

impl View for ProtocolError {
    type V = ProtocolErrorView;

    open spec fn view(&self) -> ProtocolErrorView {
        match *self {
            ProtocolError::Io(s) => ProtocolErrorView::Io(s@),
            ProtocolError::FrameTooLarge(n) => ProtocolErrorView::FrameTooLarge(n),
            ProtocolError::Codec(s) => ProtocolErrorView::Codec(s@),
            ProtocolError::VersionMismatch { peer, local } => ProtocolErrorView::VersionMismatch {
                peer: peer@,
                local: local@,
            },
            ProtocolError::Unexpected { expected, got } => ProtocolErrorView::Unexpected {
                expected: expected@,
                got: got@,
            },
        }
    }
}

impl ProtocolErrorView {
    /// The text shown for the error.
    pub open spec fn message(self) -> Seq<char> {
        match self {
            ProtocolErrorView::Io(s) => "IO 错误: "@ + s,
            ProtocolErrorView::FrameTooLarge(n) => "帧长度 "@ + text::decimal_text(n as nat)
                + " 字节超过上限 "@ + text::decimal_text(MAX_FRAME_LEN as nat),
            ProtocolErrorView::Codec(s) => "消息编解码失败: "@ + s,
            ProtocolErrorView::VersionMismatch { peer, local } => "协议版本不兼容: 对端 "@ + peer
                + ", 本机 "@ + local,
            ProtocolErrorView::Unexpected { expected, got } => "意外的消息: 期望 "@ + expected
                + ", 收到 "@ + got,
        }
    }
}

impl ProtocolError {
    /// The text shown for the error.
    pub fn message(&self) -> (r: String)
        ensures
            r@ == self@.message(),
    {
        let mut out = String::new();
        match self {
            ProtocolError::Io(s) => {
                out.append("IO 错误: ");
                out.append(s.as_str());
            },
            ProtocolError::FrameTooLarge(n) => {
                out.append("帧长度 ");
                out.append(text::decimal(*n as u64).as_str());
                out.append(" 字节超过上限 ");
                out.append(text::decimal(MAX_FRAME_LEN as u64).as_str());
            },
            ProtocolError::Codec(s) => {
                out.append("消息编解码失败: ");
                out.append(s.as_str());
            },
            ProtocolError::VersionMismatch { peer, local } => {
                out.append("协议版本不兼容: 对端 ");
                out.append(peer.as_str());
                out.append(", 本机 ");
                out.append(local.as_str());
            },
            ProtocolError::Unexpected { expected, got } => {
                out.append("意外的消息: 期望 ");
                out.append(expected.as_str());
                out.append(", 收到 ");
                out.append(got.as_str());
            },
        }
        proof {
            assert(out@ =~= self@.message());
        }
        out
    }
}

/// Device info, exchanged during the handshake.
#[derive(Debug, PartialEq, Eq)]
pub struct PeerInfo {
    /// Unique device ID
    pub device_id: String,
    /// Display name
    pub name: String,
    /// Certificate fingerprint
    pub fingerprint: String,
    /// Platform tag
    pub platform: String,
    /// OS version description
    pub os_version: Option<String>,
}

/// What a [`PeerInfo`] stands for.
#[verifier::ext_equal]
pub struct PeerInfoView {
    pub device_id: Seq<char>,
    pub name: Seq<char>,
    pub fingerprint: Seq<char>,
    pub platform: Seq<char>,
    pub os_version: Option<Seq<char>>,
}

impl View for PeerInfo {
    type V = PeerInfoView;

    open spec fn view(&self) -> PeerInfoView {
        PeerInfoView {
            device_id: self.device_id@,
            name: self.name@,
            fingerprint: self.fingerprint@,
            platform: self.platform@,
            os_version: opt_view(self.os_version),
        }
    }
}

impl Clone for PeerInfo {
    fn clone(&self) -> (r: Self)
        ensures
            r == *self,
    {
        PeerInfo {
            device_id: self.device_id.clone(),
            name: self.name.clone(),
            fingerprint: self.fingerprint.clone(),
            platform: self.platform.clone(),
            os_version: text::clone_opt(&self.os_version),
        }
    }
}

/// Whether two optional texts agree.
pub fn same_opt(a: &Option<String>, b: &Option<String>) -> (r: bool)
    ensures
        r == (opt_view(*a) == opt_view(*b)),
{
    match (a, b) {
        (Some(x), Some(y)) => text::same(x.as_str(), y.as_str()),
        (None, None) => true,
        _ => false,
    }
}

impl PeerInfo {
    /// Whether two infos agree in every field.
    pub fn same(&self, other: &PeerInfo) -> (r: bool)
        ensures
            r == (self@ == other@),
    {
        text::same(self.device_id.as_str(), other.device_id.as_str()) && text::same(
            self.name.as_str(),
            other.name.as_str(),
        ) && text::same(self.fingerprint.as_str(), other.fingerprint.as_str()) && text::same(
            self.platform.as_str(),
            other.platform.as_str(),
        ) && same_opt(&self.os_version, &other.os_version)
    }
}

/// Metadata of an image offer.
#[derive(Clone, Copy, Debug, PartialEq, Eq, Structural)]
pub struct ImageOfferMeta {
    /// Length of the byte stream that follows
    pub total_bytes: u64,
    /// Pixel width
    pub width: usize,
    /// Pixel height
    pub height: usize,
}

/// Metadata of a single file.
#[derive(Debug, PartialEq, Eq)]
pub struct FileMeta {
    /// File name
    pub name: String,
    /// Byte count
    pub bytes: u64,
}

/// What a [`FileMeta`] stands for.
#[verifier::ext_equal]
pub struct FileMetaView {
    pub name: Seq<char>,
    pub bytes: u64,
}

impl View for FileMeta {
    type V = FileMetaView;

    open spec fn view(&self) -> FileMetaView {
        FileMetaView { name: self.name@, bytes: self.bytes }
    }
}

impl Clone for FileMeta {
    fn clone(&self) -> (r: Self)
        ensures
            r == *self,
    {
        FileMeta { name: self.name.clone(), bytes: self.bytes }
    }
}

/// Metadata of a file offer.
#[derive(Debug, PartialEq, Eq)]
pub struct FilesOfferMeta {
    /// Length of the byte stream that follows
    pub total_bytes: u64,
    /// The files, in stream order
    pub files: Vec<FileMeta>,
}

/// Control channel message.
#[derive(Debug, PartialEq, Eq)]
pub enum ControlMessage {
    /// Session handshake
    Hello { version: String, info: PeerInfo },
    /// Handshake reply
    HelloAck { version: String, info: PeerInfo },
    /// Pairing request
    PairRequest,
    /// Pairing reply
    PairResponse { accepted: bool },
    /// Unpair notification
    Unpair,
    /// Clipboard text, or an offer of a byte stream
    ClipboardSync { seq: u64, timestamp_ms: u64, content_type: String, data: String },
    /// The offer was taken
    BlobAccept,
    /// End of a byte stream
    BlobFooter { hash: String },
    /// The sync was accepted
    SyncAck,
    /// The sync was refused
    SyncRejected { reason_code: String },
    /// Close the session
    Bye,
}

/// What a [`ControlMessage`] stands for.
#[verifier::ext_equal]
pub enum MessageView {
    Hello { version: Seq<char>, info: PeerInfoView },
    HelloAck { version: Seq<char>, info: PeerInfoView },
    PairRequest,
    PairResponse { accepted: bool },
    Unpair,
    ClipboardSync { seq: u64, timestamp_ms: u64, content_type: Seq<char>, data: Seq<char> },
    BlobAccept,
    BlobFooter { hash: Seq<char> },
    SyncAck,
    SyncRejected { reason_code: Seq<char> },
    Bye,
}

impl View for ControlMessage {
    type V = MessageView;

    open spec fn view(&self) -> MessageView {
        match *self {
            ControlMessage::Hello { version, info } => MessageView::Hello {
                version: version@,
                info: info@,
            },
            ControlMessage::HelloAck { version, info } => MessageView::HelloAck {
                version: version@,
                info: info@,
            },
            ControlMessage::PairRequest => MessageView::PairRequest,
            ControlMessage::PairResponse { accepted } => MessageView::PairResponse { accepted },
            ControlMessage::Unpair => MessageView::Unpair,
            ControlMessage::ClipboardSync { seq, timestamp_ms, content_type, data } => MessageView::ClipboardSync {
                seq,
                timestamp_ms,
                content_type: content_type@,
                data: data@,
            },
            ControlMessage::BlobAccept => MessageView::BlobAccept,
            ControlMessage::BlobFooter { hash } => MessageView::BlobFooter { hash: hash@ },
            ControlMessage::SyncAck => MessageView::SyncAck,
            ControlMessage::SyncRejected { reason_code } => MessageView::SyncRejected {
                reason_code: reason_code@,
            },
            ControlMessage::Bye => MessageView::Bye,
        }
    }
}

impl MessageView {
    /// The short name of the message type.
    pub open spec fn kind(self) -> Seq<char> {
        match self {
            MessageView::Hello { .. } => "hello"@,
            MessageView::HelloAck { .. } => "hello_ack"@,
            MessageView::PairRequest => "pair_request"@,
            MessageView::PairResponse { .. } => "pair_response"@,
            MessageView::Unpair => "unpair"@,
            MessageView::ClipboardSync { .. } => "clipboard_sync"@,
            MessageView::BlobAccept => "blob_accept"@,
            MessageView::BlobFooter { .. } => "blob_footer"@,
            MessageView::SyncAck => "sync_ack"@,
            MessageView::SyncRejected { .. } => "sync_rejected"@,
            MessageView::Bye => "bye"@,
        }
    }
}

impl ControlMessage {
    /// The short name of the message type.
    pub fn kind(&self) -> (r: &'static str)
        ensures
            r@ == self@.kind(),
    {
        match self {
            ControlMessage::Hello { .. } => "hello",
            ControlMessage::HelloAck { .. } => "hello_ack",
            ControlMessage::PairRequest => "pair_request",
            ControlMessage::PairResponse { .. } => "pair_response",
            ControlMessage::Unpair => "unpair",
            ControlMessage::ClipboardSync { .. } => "clipboard_sync",
            ControlMessage::BlobAccept => "blob_accept",
            ControlMessage::BlobFooter { .. } => "blob_footer",
            ControlMessage::SyncAck => "sync_ack",
            ControlMessage::SyncRejected { .. } => "sync_rejected",
            ControlMessage::Bye => "bye",
        }
    }
}

/// Whether two messages are of the same variant.
pub open spec fn same_variant(a: MessageView, b: MessageView) -> bool {
    match a {
        MessageView::Hello { .. } => b is Hello,
        MessageView::HelloAck { .. } => b is HelloAck,
        MessageView::PairRequest => b is PairRequest,
        MessageView::PairResponse { .. } => b is PairResponse,
        MessageView::Unpair => b is Unpair,
        MessageView::ClipboardSync { .. } => b is ClipboardSync,
        MessageView::BlobAccept => b is BlobAccept,
        MessageView::BlobFooter { .. } => b is BlobFooter,
        MessageView::SyncAck => b is SyncAck,
        MessageView::SyncRejected { .. } => b is SyncRejected,
        MessageView::Bye => b is Bye,
    }
}

/// The kinds tell the variants apart: two messages have the same kind exactly
/// when they are of the same variant.
pub proof fn law_kinds_tell_variants_apart(a: MessageView, b: MessageView)
    ensures
        a.kind() == b.kind() <==> same_variant(a, b),
{
    reveal_strlit("hello");
    reveal_strlit("hello_ack");
    reveal_strlit("pair_request");
    reveal_strlit("pair_response");
    reveal_strlit("unpair");
    reveal_strlit("clipboard_sync");
    reveal_strlit("blob_accept");
    reveal_strlit("blob_footer");
    reveal_strlit("sync_ack");
    reveal_strlit("sync_rejected");
    reveal_strlit("bye");
    assert("hello"@.len() == 5);
    assert("hello_ack"@.len() == 9);
    assert("pair_request"@.len() == 12);
    assert("pair_response"@.len() == 13);
    assert("unpair"@.len() == 6);
    assert("clipboard_sync"@.len() == 14);
    assert("blob_accept"@.len() == 11);
    assert("blob_footer"@.len() == 11);
    assert("sync_ack"@.len() == 8);
    assert("sync_rejected"@.len() == 13);
    assert("bye"@.len() == 3);
    assert("blob_accept"@[5] != "blob_footer"@[5]);
    assert("pair_response"@[0] != "sync_rejected"@[0]);
}

/// A length as four bytes, highest first.
pub open spec fn header_bytes(n: nat) -> Seq<u8> {
    seq![
        ((n / 0x100_0000) % 256) as u8,
        ((n / 0x1_0000) % 256) as u8,
        ((n / 0x100) % 256) as u8,
        (n % 256) as u8,
    ]
}

/// The length that four bytes, highest first, stand for.
pub open spec fn header_value(h: Seq<u8>) -> nat {
    (h[0] as nat) * 0x100_0000 + (h[1] as nat) * 0x1_0000 + (h[2] as nat) * 0x100 + (h[3] as nat)
}

/// The frame of a body.
pub open spec fn frame_of(body: Seq<u8>) -> Seq<u8> {
    header_bytes(body.len()) + body
}

/// Puts the length in front of an encoded message. A body over the limit is
/// refused before anything is sent.
pub fn encode_frame(body: &[u8]) -> (r: Result<Vec<u8>, ProtocolError>)
    ensures
        match r {
            Ok(frame) => body.len() <= MAX_FRAME_LEN && frame@ == frame_of(body@),
            Err(e) => body.len() > MAX_FRAME_LEN && e@ == ProtocolErrorView::FrameTooLarge(
                if body.len() > u32::MAX {
                    u32::MAX
                } else {
                    body.len() as u32
                },
            ),
        },
{
    let n: usize = body.len();
    if n > u32::MAX as usize {
        return Err(ProtocolError::FrameTooLarge(u32::MAX));
    }
    let len: u32 = n as u32;
    if len > MAX_FRAME_LEN {
        return Err(ProtocolError::FrameTooLarge(len));
    }
    let mut frame: Vec<u8> = Vec::new();
    frame.push(((len / 0x100_0000) % 256) as u8);
    frame.push(((len / 0x1_0000) % 256) as u8);
    frame.push(((len / 0x100) % 256) as u8);
    frame.push((len % 256) as u8);
    frame.extend_from_slice(body);
    proof {
        assert(frame@ =~= frame_of(body@));
    }
    Ok(frame)
}

/// Reads the length in front of a frame; an oversized frame is refused
/// without its body being read.
pub fn read_header(header: &[u8; 4]) -> (r: Result<u32, ProtocolError>)
    ensures
        match r {
            Ok(n) => n == header_value(header@) && n <= MAX_FRAME_LEN,
            Err(e) => header_value(header@) > MAX_FRAME_LEN && e@
                == ProtocolErrorView::FrameTooLarge(header_value(header@) as u32),
        },
{
    let len: u32 = (header[0] as u32) * 0x100_0000 + (header[1] as u32) * 0x1_0000 + (
    header[2] as u32) * 0x100 + (header[3] as u32);
    if len > MAX_FRAME_LEN {
        Err(ProtocolError::FrameTooLarge(len))
    } else {
        Ok(len)
    }
}

/// The header of a frame gives back the length of the body, and what follows
/// it is the body.
pub proof fn law_frame_round_trip(body: Seq<u8>)
    requires
        body.len() <= MAX_FRAME_LEN,
    ensures
        header_value(frame_of(body).take(4)) == body.len(),
        frame_of(body).skip(4) == body,
{
    let n = body.len();
    assert(frame_of(body).take(4) =~= header_bytes(n));
    assert(frame_of(body).skip(4) =~= body);
    assert(n == ((n / 0x100_0000) % 256) * 0x100_0000 + ((n / 0x1_0000) % 256) * 0x1_0000 + ((n
        / 0x100) % 256) * 0x100 + n % 256);
}

/// Two bodies with the same frame are the same body.
pub proof fn law_frame_injective(a: Seq<u8>, b: Seq<u8>)
    requires
        frame_of(a) == frame_of(b),
    ensures
        a == b,
{
    assert(frame_of(a).skip(4) =~= a);
    assert(frame_of(b).skip(4) =~= b);
}

/// The part of a version in front of the first dot.
pub open spec fn major(version: Seq<char>) -> Seq<char>
    decreases version.len(),
{
    if version.len() == 0 || version[0] == '.' {
        Seq::empty()
    } else {
        seq![version[0]] + major(version.drop_first())
    }
}

/// The part of a version in front of the first dot.
pub fn major_of(version: &str) -> (r: String)
    ensures
        r@ == major(version@),
{
    let chars: Vec<char> = text::chars_of(version);
    let mut out = String::new();
    let mut i: usize = 0;
    proof {
        assert(chars@.skip(0) =~= chars@);
        assert(out@ + major(chars@.skip(0)) =~= major(chars@));
    }
    while i < chars.len() && chars[i] != '.'
        invariant
            chars@ == version@,
            i <= chars.len(),
            out@ + major(chars@.skip(i as int)) == major(version@),
        decreases chars.len() - i,
    {
        proof {
            assert(chars@.skip(i as int).drop_first() =~= chars@.skip(i + 1));
            assert(out@ + (seq![chars@[i as int]] + major(chars@.skip(i + 1))) =~= out@.push(
                chars@[i as int],
            ) + major(chars@.skip(i + 1)));
        }
        out.push(chars[i]);
        i += 1;
    }
    proof {
        assert(major(chars@.skip(i as int)) =~= Seq::<char>::empty());
        assert(out@ + Seq::<char>::empty() =~= out@);
    }
    out
}

/// Whether a peer of that version can be talked to.
pub open spec fn compatible(peer: Seq<char>) -> bool {
    major(peer) == major(PROTOCOL_VERSION@)
}

/// Checks the version of a peer: the same major is compatible.
pub fn check_version(peer_version: &str) -> (r: Result<(), ProtocolError>)
    ensures
        match r {
            Ok(_) => compatible(peer_version@),
            Err(e) => !compatible(peer_version@) && e@ == (ProtocolErrorView::VersionMismatch {
                peer: peer_version@,
                local: PROTOCOL_VERSION@,
            }),
        },
{
    let theirs = major_of(peer_version);
    let ours = major_of(PROTOCOL_VERSION);
    if theirs == ours {
        Ok(())
    } else {
        Err(
            ProtocolError::VersionMismatch {
                peer: peer_version.to_owned(),
                local: PROTOCOL_VERSION.to_owned(),
            },
        )
    }
}

/// Any minor of the local major is compatible.
pub proof fn law_minor_is_free(minor: Seq<char>)
    ensures
        compatible("1."@ + minor),
{
    reveal_strlit("1.");
    reveal_strlit("1.1");
    let v = "1."@ + minor;
    let l = PROTOCOL_VERSION@;
    assert(v.drop_first()[0] == '.');
    assert(l.drop_first()[0] == '.');
    assert(major(v.drop_first()) =~= Seq::<char>::empty());
    assert(major(l.drop_first()) =~= Seq::<char>::empty());
}

proof fn lemma_major(head: Seq<char>, tail: Seq<char>)
    requires
        !head.contains('.'),
    ensures
        major(head) == head,
        major(head.push('.') + tail) == head,
    decreases head.len(),
{
    let v = head.push('.') + tail;
    if head.len() == 0 {
        assert(v[0] == '.');
        assert(head =~= Seq::<char>::empty());
    } else {
        let rest = head.drop_first();
        assert forall|i: int| 0 <= i < rest.len() implies rest[i] != '.' by {
            assert(rest[i] == head[i + 1]);
        }
        assert(head[0] != '.');
        lemma_major(rest, tail);
        assert(v[0] == head[0]);
        assert(v.drop_first() =~= rest.push('.') + tail);
        assert(seq![head[0]] + rest =~= head);
    }
}

/// The major is what stands in front of the first dot, and a peer can be talked
/// to exactly when its major is 1.
pub proof fn law_major_decides(head: Seq<char>, tail: Seq<char>)
    requires
        !head.contains('.'),
    ensures
        major(head) == head,
        major(head.push('.') + tail) == head,
        compatible(head) <==> head == seq!['1'],
        compatible(head.push('.') + tail) <==> head == seq!['1'],
{
    lemma_major(head, tail);
    reveal_strlit("1.1");
    let one = seq!['1'];
    assert("1.1"@ =~= one.push('.') + seq!['1']);
    assert(!one.contains('.'));
    lemma_major(one, seq!['1']);
}

/// The header is big-endian: a small length is in the last byte, and a further
/// byte moves the others up.
pub proof fn law_header_is_big_endian(n: nat, low: nat, body: Seq<u8>)
    requires
        n < 0x100_0000,
        low < 256,
    ensures
        header_bytes(low) == seq![0u8, 0u8, 0u8, low as u8],
        header_bytes(n * 256 + low) == header_bytes(n).skip(1).push(low as u8),
        header_value(header_bytes(n * 256 + low)) == n * 256 + low,
        frame_of(body) == header_bytes(body.len()) + body,
        frame_of(body).len() == body.len() + 4,
{
    let m = n * 256 + low;
    assert(m % 256 == low);
    assert((m / 0x100) % 256 == n % 256);
    assert((m / 0x1_0000) % 256 == (n / 0x100) % 256);
    assert((m / 0x100_0000) % 256 == (n / 0x1_0000) % 256);
    assert(header_bytes(m) =~= header_bytes(n).skip(1).push(low as u8));
    assert(header_bytes(low) =~= seq![0u8, 0u8, 0u8, low as u8]);
    assert(m == ((m / 0x100_0000) % 256) * 0x100_0000 + ((m / 0x1_0000) % 256) * 0x1_0000 + ((m
        / 0x100) % 256) * 0x100 + m % 256);
}

} // verus!
