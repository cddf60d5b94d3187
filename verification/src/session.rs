//! Control channel sessions: the dialing side, the Hello gate and the serving
//! side, as state machines over frames.

use vstd::prelude::*;
use crate::clipboard::{ContentView, FilePath, FilePathView};
use crate::config::{PAIR_DECISION_TIMEOUT, PROTOCOL_VERSION, REPLY_TIMEOUT};
use crate::digest::{self, digest_hex};
use crate::images;
use crate::protocol::{
    check_version, compatible, ControlMessage, FileMeta, FileMetaView, MessageView, PeerInfo,
    PeerInfoView, ProtocolError, ProtocolErrorView, CHECKSUM_MISMATCH, CONTENT_FILES, CONTENT_IMAGE,
    CONTENT_TEXT, NOT_PAIRED,
    IDENTITY_MISMATCH, UNSUPPORTED_TYPE, UNSUPPORTED_VERSION,
};
use crate::sync::{
    BlobOffer, EngineEvent, EngineEventView, EngineView, OfferDecision, OfferView, SyncEngine,
    SyncError, SyncErrorView, VerdictView,
};
use crate::text::{self, opt_view, views};

verus! {

/// The error of a message that does not fit.
pub open spec fn unexpected_view(expected: Seq<char>, got: MessageView) -> SyncErrorView {
    SyncErrorView::Protocol(ProtocolErrorView::Unexpected { expected, got: got.kind() })
}

/// The error of a message that does not fit.
pub fn unexpected(expected: &str, got: &ControlMessage) -> (r: SyncError)
    ensures
        r@ == unexpected_view(expected@, got@),
{
    SyncError::Protocol(
        ProtocolError::Unexpected { expected: expected.to_owned(), got: got.kind().to_owned() },
    )
}

/// What a dial is for.
#[derive(PartialEq, Eq, Structural, Clone, Copy, Debug)]
pub enum Errand {
    /// Deliver a text
    Sync,
    /// Offer a byte stream
    Blob,
    /// Ask for a pairing
    Pair,
    /// Tell that the pairing is gone
    Unpair,
}

/// What the dialing side waits for.
#[derive(PartialEq, Eq, Structural, Clone, Copy, Debug)]
pub enum DialPhase {
    /// The connection
    Connecting,
    /// The handshake reply
    Greeting,
    /// The reply to the request
    Reply,
    /// The end of the byte stream
    Streaming,
    /// The reply to the byte stream
    Verdict,
    /// Nothing any more
    Done,
}

/// The dialing side of a session.
pub struct Dialer {
    /// What the dial is for
    pub errand: Errand,
    /// The fingerprint that the peer has to declare
    pub expected: String,
    /// What the side waits for
    pub phase: DialPhase,
    /// What the peer declared
    pub remote: Option<PeerInfo>,
}

/// What a [`Dialer`] stands for.
#[verifier::ext_equal]
pub struct DialerView {
    pub errand: Errand,
    pub expected: Seq<char>,
    pub phase: DialPhase,
    pub remote: Option<PeerInfoView>,
}

impl View for Dialer {
    type V = DialerView;

    open spec fn view(&self) -> DialerView {
        DialerView {
            errand: self.errand,
            expected: self.expected@,
            phase: self.phase,
            remote: opt_view(self.remote),
        }
    }
}

/// What the dialing side is told.
#[derive(Debug, PartialEq, Eq)]
pub enum DialEvent {
    /// The connection is up
    Connected,
    /// A frame arrived
    Message(ControlMessage),
    /// The byte stream is sent; its digest
    Streamed(String),
    /// The wait timed out
    TimedOut,
    /// The transport failed
    Failed(SyncError),
}

/// What a [`DialEvent`] stands for.
#[verifier::ext_equal]
pub enum DialEventView {
    Connected,
    Message(MessageView),
    Streamed(Seq<char>),
    TimedOut,
    Failed(SyncErrorView),
}

impl View for DialEvent {
    type V = DialEventView;

    open spec fn view(&self) -> DialEventView {
        match *self {
            DialEvent::Connected => DialEventView::Connected,
            DialEvent::Message(m) => DialEventView::Message(m@),
            DialEvent::Streamed(h) => DialEventView::Streamed(h@),
            DialEvent::TimedOut => DialEventView::TimedOut,
            DialEvent::Failed(e) => DialEventView::Failed(e@),
        }
    }
}

/// What the dialing side does.
#[derive(Debug, PartialEq, Eq)]
pub enum DialAction {
    /// Send a frame and wait for the reply
    Send(ControlMessage),
    /// Send the prepared frame and wait for the reply
    SendPrepared,
    /// Send the byte stream
    Stream,
    /// Send a last frame, say goodbye and end well
    SendLast(ControlMessage),
    /// End; `bye` says goodbye first
    Finish { bye: bool, result: Result<Option<PeerInfo>, SyncError> },
    /// Nothing
    Ignore,
}

/// What a [`DialAction`] stands for.
#[verifier::ext_equal]
pub enum DialActionView {
    Send(MessageView),
    SendPrepared,
    Stream,
    SendLast(MessageView),
    Succeed { bye: bool, remote: Option<PeerInfoView> },
    Fail { bye: bool, error: SyncErrorView },
    Ignore,
}

impl View for DialAction {
    type V = DialActionView;

    open spec fn view(&self) -> DialActionView {
        match *self {
            DialAction::Send(m) => DialActionView::Send(m@),
            DialAction::SendPrepared => DialActionView::SendPrepared,
            DialAction::Stream => DialActionView::Stream,
            DialAction::SendLast(m) => DialActionView::SendLast(m@),
            DialAction::Finish { bye, result } => match result {
                Ok(remote) => DialActionView::Succeed { bye, remote: opt_view(remote) },
                Err(error) => DialActionView::Fail { bye, error: error@ },
            },
            DialAction::Ignore => DialActionView::Ignore,
        }
    }
}

/// What the handshake reply means: the peer's info, or the error. A refusal
/// surfaces with the reason that the peer gave.
pub open spec fn greeting(reply: MessageView, expected: Seq<char>) -> Result<PeerInfoView, SyncErrorView> {
    match reply {
        MessageView::HelloAck { version, info } => if !compatible(version) {
            Err(
                SyncErrorView::Protocol(
                    ProtocolErrorView::VersionMismatch { peer: version, local: PROTOCOL_VERSION@ },
                ),
            )
        } else if info.fingerprint != expected {
            Err(SyncErrorView::FingerprintMismatch)
        } else {
            Ok(info)
        },
        MessageView::SyncRejected { reason_code } => Err(SyncErrorView::Rejected(reason_code)),
        other => Err(unexpected_view("hello_ack"@, other)),
    }
}

/// Checks the handshake reply.
pub fn check_greeting(reply: ControlMessage, expected: &str) -> (r: Result<PeerInfo, SyncError>)
    ensures
        match greeting(reply@, expected@) {
            Ok(info) => r is Ok && r->Ok_0@ == info,
            Err(error) => r is Err && r->Err_0@ == error,
        },
{
    match reply {
        ControlMessage::HelloAck { version, info } => {
            match check_version(version.as_str()) {
                Err(e) => {
                    return Err(SyncError::Protocol(e));
                },
                Ok(_) => {},
            }
            if !text::same(info.fingerprint.as_str(), expected) {
                return Err(SyncError::FingerprintMismatch);
            }
            Ok(info)
        },
        ControlMessage::SyncRejected { reason_code } => Err(SyncError::Rejected(reason_code)),
        other => Err(unexpected("hello_ack", &other)),
    }
}

impl DialerView {
    /// The step that a timeout names.
    pub open spec fn step_name(self) -> Seq<char> {
        match (self.phase, self.errand) {
            (DialPhase::Greeting, _) => "hello_ack"@,
            (DialPhase::Reply, Errand::Sync) => "sync_reply"@,
            (DialPhase::Reply, Errand::Blob) => "blob_offer_reply"@,
            (DialPhase::Reply, Errand::Pair) => "pair_response"@,
            (DialPhase::Verdict, _) => "blob_final_reply"@,
            _ => "connect"@,
        }
    }

    /// The end of the session.
    pub open spec fn done(self) -> DialerView {
        DialerView { phase: DialPhase::Done, ..self }
    }

    /// What the reply to the request, or to the byte stream, means.
    pub open spec fn judged(self, reply: MessageView) -> DialActionView {
        match (self.errand, reply) {
            (Errand::Sync, MessageView::SyncAck) => DialActionView::Succeed { bye: true, remote: None },
            (Errand::Sync, MessageView::SyncRejected { reason_code }) => DialActionView::Fail {
                bye: true,
                error: SyncErrorView::Rejected(reason_code),
            },
            (Errand::Sync, other) => DialActionView::Fail {
                bye: true,
                error: unexpected_view("sync_ack"@, other),
            },
            (Errand::Blob, MessageView::SyncAck) => DialActionView::Succeed { bye: true, remote: None },
            (Errand::Blob, MessageView::SyncRejected { reason_code }) => DialActionView::Fail {
                bye: true,
                error: SyncErrorView::Rejected(reason_code),
            },
            (Errand::Blob, other) => DialActionView::Fail {
                bye: true,
                error: unexpected_view(
                    if self.phase == DialPhase::Verdict {
                        "sync_ack"@
                    } else {
                        "blob_accept"@
                    },
                    other,
                ),
            },
            (Errand::Pair, MessageView::PairResponse { accepted }) => if accepted {
                DialActionView::Succeed { bye: true, remote: self.remote }
            } else {
                DialActionView::Fail { bye: true, error: SyncErrorView::PairRejected }
            },
            (Errand::Pair, other) => DialActionView::Fail {
                bye: true,
                error: unexpected_view("pair_response"@, other),
            },
            (Errand::Unpair, _) => DialActionView::Ignore,
        }
    }

    /// One step of the dialing side.
    pub open spec fn step(self, local: PeerInfoView, event: DialEventView) -> (DialerView, DialActionView) {
        match (self.phase, event) {
            (DialPhase::Done, _) => (self, DialActionView::Ignore),
            (_, DialEventView::Failed(error)) => (
                self.done(),
                DialActionView::Fail {
                    bye: self.phase == DialPhase::Streaming || self.phase == DialPhase::Verdict,
                    error,
                },
            ),
            (_, DialEventView::TimedOut) => (
                self.done(),
                DialActionView::Fail {
                    bye: self.phase == DialPhase::Streaming || self.phase == DialPhase::Verdict,
                    error: SyncErrorView::Timeout(self.step_name()),
                },
            ),
            (DialPhase::Connecting, DialEventView::Connected) => (
                DialerView { phase: DialPhase::Greeting, ..self },
                DialActionView::Send(MessageView::Hello { version: PROTOCOL_VERSION@, info: local }),
            ),
            (DialPhase::Greeting, DialEventView::Message(reply)) => match greeting(
                reply,
                self.expected,
            ) {
                Err(error) => (self.done(), DialActionView::Fail { bye: false, error }),
                Ok(info) => {
                    let met = DialerView { phase: DialPhase::Reply, remote: Some(info), ..self };
                    match self.errand {
                        Errand::Sync => (met, DialActionView::SendPrepared),
                        Errand::Blob => (met, DialActionView::SendPrepared),
                        Errand::Pair => (met, DialActionView::Send(MessageView::PairRequest)),
                        Errand::Unpair => (
                            met.done(),
                            DialActionView::SendLast(MessageView::Unpair),
                        ),
                    }
                },
            },
            (DialPhase::Reply, DialEventView::Message(reply)) => if self.errand == Errand::Blob && reply
                == MessageView::BlobAccept {
                (DialerView { phase: DialPhase::Streaming, ..self }, DialActionView::Stream)
            } else {
                (self.done(), self.judged(reply))
            },
            (DialPhase::Streaming, DialEventView::Streamed(hash)) => (
                DialerView { phase: DialPhase::Verdict, ..self },
                DialActionView::Send(MessageView::BlobFooter { hash }),
            ),
            (DialPhase::Verdict, DialEventView::Message(reply)) => (self.done(), self.judged(reply)),
            _ => (self, DialActionView::Ignore),
        }
    }
}

impl Dialer {
    /// A dial to the peer of that fingerprint.
    pub fn new(errand: Errand, expected: String) -> (r: Dialer)
        ensures
            r@ == (DialerView {
                errand,
                expected: expected@,
                phase: DialPhase::Connecting,
                remote: None,
            }),
    {
        Dialer { errand, expected, phase: DialPhase::Connecting, remote: None }
    }

    /// How long to wait for the next frame: a person decides on a pairing.
    pub fn patience(&self) -> (r: u64)
        ensures
            r == (if self@.phase == DialPhase::Reply && self@.errand == Errand::Pair {
                PAIR_DECISION_TIMEOUT
            } else {
                REPLY_TIMEOUT
            }),
    {
        if self.phase == DialPhase::Reply && self.errand == Errand::Pair {
            PAIR_DECISION_TIMEOUT
        } else {
            REPLY_TIMEOUT
        }
    }

    fn step_name(&self) -> (r: &'static str)
        ensures
            r@ == self@.step_name(),
    {
        match (self.phase, self.errand) {
            (DialPhase::Greeting, _) => "hello_ack",
            (DialPhase::Reply, Errand::Sync) => "sync_reply",
            (DialPhase::Reply, Errand::Blob) => "blob_offer_reply",
            (DialPhase::Reply, Errand::Pair) => "pair_response",
            (DialPhase::Verdict, _) => "blob_final_reply",
            _ => "connect",
        }
    }

    fn judge(&self, reply: ControlMessage) -> (r: DialAction)
        requires
            self@.phase == DialPhase::Reply || self@.phase == DialPhase::Verdict,
            self@.errand == Errand::Blob && self@.phase == DialPhase::Reply ==> reply@
                != MessageView::BlobAccept,
        ensures
            r@ == self@.judged(reply@),
    {
        match self.errand {
            Errand::Sync => match reply {
                ControlMessage::SyncAck => DialAction::Finish { bye: true, result: Ok(None) },
                ControlMessage::SyncRejected { reason_code } => DialAction::Finish {
                    bye: true,
                    result: Err(SyncError::Rejected(reason_code)),
                },
                other => DialAction::Finish {
                    bye: true,
                    result: Err(unexpected("sync_ack", &other)),
                },
            },
            Errand::Blob => match reply {
                ControlMessage::SyncAck => DialAction::Finish { bye: true, result: Ok(None) },
                ControlMessage::SyncRejected { reason_code } => DialAction::Finish {
                    bye: true,
                    result: Err(SyncError::Rejected(reason_code)),
                },
                other => DialAction::Finish {
                    bye: true,
                    result: Err(
                        unexpected(
                            if self.phase == DialPhase::Verdict {
                                "sync_ack"
                            } else {
                                "blob_accept"
                            },
                            &other,
                        ),
                    ),
                },
            },
            Errand::Pair => match reply {
                ControlMessage::PairResponse { accepted } => {
                    if accepted {
                        let remote = match &self.remote {
                            Some(info) => Some(info.clone()),
                            None => None,
                        };
                        DialAction::Finish { bye: true, result: Ok(remote) }
                    } else {
                        DialAction::Finish { bye: true, result: Err(SyncError::PairRejected) }
                    }
                },
                other => DialAction::Finish {
                    bye: true,
                    result: Err(unexpected("pair_response", &other)),
                },
            },
            Errand::Unpair => DialAction::Ignore,
        }
    }

    /// One step of the dialing side.
    pub fn step(&mut self, local: &PeerInfo, event: DialEvent) -> (r: DialAction)
        ensures
            (final(self)@, r@) == old(self)@.step(local@, event@),
    {
        if self.phase == DialPhase::Done {
            return DialAction::Ignore;
        }
        match event {
            DialEvent::Failed(error) => {
                let bye = self.phase == DialPhase::Streaming || self.phase == DialPhase::Verdict;
                self.phase = DialPhase::Done;
                DialAction::Finish { bye, result: Err(error) }
            },
            DialEvent::TimedOut => {
                let bye = self.phase == DialPhase::Streaming || self.phase == DialPhase::Verdict;
                let error = SyncError::Timeout(self.step_name().to_owned());
                self.phase = DialPhase::Done;
                DialAction::Finish { bye, result: Err(error) }
            },
            DialEvent::Connected => {
                if self.phase != DialPhase::Connecting {
                    return DialAction::Ignore;
                }
                self.phase = DialPhase::Greeting;
                DialAction::Send(
                    ControlMessage::Hello {
                        version: PROTOCOL_VERSION.to_owned(),
                        info: local.clone(),
                    },
                )
            },
            DialEvent::Streamed(hash) => {
                if self.phase != DialPhase::Streaming {
                    return DialAction::Ignore;
                }
                self.phase = DialPhase::Verdict;
                DialAction::Send(ControlMessage::BlobFooter { hash })
            },
            DialEvent::Message(reply) => {
                match self.phase {
                    DialPhase::Greeting => match check_greeting(reply, self.expected.as_str()) {
                        Err(error) => {
                            self.phase = DialPhase::Done;
                            DialAction::Finish { bye: false, result: Err(error) }
                        },
                        Ok(info) => {
                            self.remote = Some(info);
                            self.phase = DialPhase::Reply;
                            match self.errand {
                                Errand::Sync => DialAction::SendPrepared,
                                Errand::Blob => DialAction::SendPrepared,
                                Errand::Pair => DialAction::Send(ControlMessage::PairRequest),
                                Errand::Unpair => {
                                    self.phase = DialPhase::Done;
                                    DialAction::SendLast(ControlMessage::Unpair)
                                },
                            }
                        },
                    },
                    DialPhase::Reply => {
                        let taken = match &reply {
                            ControlMessage::BlobAccept => true,
                            _ => false,
                        };
                        if self.errand == Errand::Blob && taken {
                            self.phase = DialPhase::Streaming;
                            return DialAction::Stream;
                        }
                        let action = self.judge(reply);
                        self.phase = DialPhase::Done;
                        action
                    },
                    DialPhase::Verdict => {
                        let action = self.judge(reply);
                        self.phase = DialPhase::Done;
                        action
                    },
                    _ => DialAction::Ignore,
                }
            },
        }
    }
}

/// Before the peer has declared the fingerprint that it was dialed for, nothing
/// but the greeting is sent.
pub proof fn law_nothing_is_sent_before_the_greeting(
    d: DialerView,
    local: PeerInfoView,
    event: DialEventView,
)
    requires
        d.phase == DialPhase::Connecting || d.phase == DialPhase::Greeting,
        d.step(local, event).1 is SendPrepared || d.step(local, event).1 is Stream || d.step(
            local,
            event,
        ).1 is SendLast || d.step(local, event).1 is Send,
    ensures
        d.step(local, event).1 == DialActionView::Send(
            MessageView::Hello { version: PROTOCOL_VERSION@, info: local },
        ) || (event matches DialEventView::Message(MessageView::HelloAck { version, info })
            && compatible(version) && info.fingerprint == d.expected),
{
}

/// A refusal at the greeting surfaces as the peer's reason.
pub proof fn law_refusal_at_the_greeting_surfaces(d: DialerView, local: PeerInfoView, code: Seq<char>)
    requires
        d.phase == DialPhase::Greeting,
    ensures
        d.step(local, DialEventView::Message(MessageView::SyncRejected { reason_code: code })).1
            == (DialActionView::Fail { bye: false, error: SyncErrorView::Rejected(code) }),
{
}

/// A dial ends once: after its end nothing more happens.
pub proof fn law_dial_ends_once(d: DialerView, local: PeerInfoView, event: DialEventView)
    requires
        d.phase == DialPhase::Done,
    ensures
        d.step(local, event) == (d, DialActionView::Ignore),
{
}

/// A dial ends well only on an acknowledgement, an accepted pairing or the
/// notice of an unpairing.
pub proof fn law_success_needs_an_answer(d: DialerView, local: PeerInfoView, event: DialEventView)
    requires
        d.step(local, event).1 is Succeed,
    ensures
        event == DialEventView::Message(MessageView::SyncAck) || event == DialEventView::Message(
            MessageView::PairResponse { accepted: true },
        ),
{
}

/// The outcome of the Hello gate.
#[derive(Debug, PartialEq, Eq)]
pub enum Gate {
    /// Let in; the reply goes out first
    Admit { reply: ControlMessage, remote: PeerInfo },
    /// Turned away; the answer, if any, goes out before the connection closes
    Refuse { answer: Option<ControlMessage>, error: SyncError },
}

/// What a [`Gate`] stands for.
#[verifier::ext_equal]
pub enum GateView {
    Admit { reply: MessageView, remote: PeerInfoView },
    Refuse { answer: Option<MessageView>, error: SyncErrorView },
}

impl View for Gate {
    type V = GateView;

    open spec fn view(&self) -> GateView {
        match *self {
            Gate::Admit { reply, remote } => GateView::Admit { reply: reply@, remote: remote@ },
            Gate::Refuse { answer, error } => GateView::Refuse {
                answer: opt_view(answer),
                error: error@,
            },
        }
    }
}

/// A refusal that the peer is told.
pub open spec fn refusal(code: Seq<char>, error: SyncErrorView) -> GateView {
    GateView::Refuse { answer: Some(MessageView::SyncRejected { reason_code: code }), error }
}

/// The Hello gate: the first frame has to be a greeting of a compatible
/// version, and the declared fingerprint has to be that of the certificate.
pub open spec fn gate(certificate: Option<Seq<char>>, first: MessageView, local: PeerInfoView) -> GateView {
    if certificate is None {
        refusal(IDENTITY_MISMATCH@, SyncErrorView::FingerprintMismatch)
    } else {
        match first {
            MessageView::Hello { version, info } => if !compatible(version) {
                refusal(
                    UNSUPPORTED_VERSION@,
                    SyncErrorView::Protocol(
                        ProtocolErrorView::VersionMismatch {
                            peer: version,
                            local: PROTOCOL_VERSION@,
                        },
                    ),
                )
            } else if certificate != Some(info.fingerprint) {
                refusal(IDENTITY_MISMATCH@, SyncErrorView::FingerprintMismatch)
            } else {
                GateView::Admit {
                    reply: MessageView::HelloAck { version: PROTOCOL_VERSION@, info: local },
                    remote: info,
                }
            },
            other => GateView::Refuse { answer: None, error: unexpected_view("hello"@, other) },
        }
    }
}

fn refuse(code: &str, error: SyncError) -> (r: Gate)
    ensures
        r@ == refusal(code@, error@),
{
    Gate::Refuse {
        answer: Some(ControlMessage::SyncRejected { reason_code: code.to_owned() }),
        error,
    }
}

/// Decides on an inbound connection by its certificate and its first frame.
pub fn open_gate(certificate: &Option<String>, first: ControlMessage, local: &PeerInfo) -> (r: Gate)
    ensures
        r@ == gate(opt_view(*certificate), first@, local@),
{
    match certificate {
        None => refuse(IDENTITY_MISMATCH, SyncError::FingerprintMismatch),
        Some(proved) => match first {
            ControlMessage::Hello { version, info } => {
                match check_version(version.as_str()) {
                    Err(e) => {
                        return refuse(UNSUPPORTED_VERSION, SyncError::Protocol(e));
                    },
                    Ok(_) => {},
                }
                if !text::same(proved.as_str(), info.fingerprint.as_str()) {
                    return refuse(IDENTITY_MISMATCH, SyncError::FingerprintMismatch);
                }
                Gate::Admit {
                    reply: ControlMessage::HelloAck {
                        version: PROTOCOL_VERSION.to_owned(),
                        info: local.clone(),
                    },
                    remote: info,
                }
            },
            other => Gate::Refuse { answer: None, error: unexpected("hello", &other) },
        },
    }
}

/// Nobody is let in under a fingerprint that the certificate does not prove.
pub proof fn law_gate_blocks_impersonation(
    certificate: Option<Seq<char>>,
    first: MessageView,
    local: PeerInfoView,
)
    ensures
        gate(certificate, first, local) matches GateView::Admit { remote, .. } ==> certificate == Some(
            remote.fingerprint,
        ),
{
}

/// The greeting of a device meets the entry of another and the reply meets the
/// greeting check, when the certificates are those of the declared
/// fingerprints.
pub proof fn law_handshake_completes(a: PeerInfoView, b: PeerInfoView)
    ensures
        ({
            let hello = MessageView::Hello { version: PROTOCOL_VERSION@, info: a };
            let ack = MessageView::HelloAck { version: PROTOCOL_VERSION@, info: b };
            &&& gate(Some(a.fingerprint), hello, b) == (GateView::Admit { reply: ack, remote: a })
            &&& greeting(ack, b.fingerprint) == Ok::<PeerInfoView, SyncErrorView>(b)
        }),
{
}

/// What the serving side waits for.
pub enum ServePhase {
    /// The next request
    Ready,
    /// The pairing decision
    Pairing,
    /// The parsed metadata of an offer
    Offer { timestamp_ms: u64 },
    /// The bytes of an image
    Image { timestamp_ms: u64 },
    /// The footer of an image
    ImageFooter { timestamp_ms: u64, png: Vec<u8> },
    /// The bytes of a batch
    Files { timestamp_ms: u64 },
    /// The footer of a batch
    FilesFooter { timestamp_ms: u64, hash: String },
    /// The final paths of a batch
    Landing { timestamp_ms: u64 },
    /// Nothing any more
    Closed,
}

/// What a [`ServePhase`] stands for.
#[verifier::ext_equal]
pub enum PhaseView {
    Ready,
    Pairing,
    Offer { timestamp_ms: u64 },
    Image { timestamp_ms: u64 },
    ImageFooter { timestamp_ms: u64, png: Seq<u8> },
    Files { timestamp_ms: u64 },
    FilesFooter { timestamp_ms: u64, hash: Seq<char> },
    Landing { timestamp_ms: u64 },
    Closed,
}

impl View for ServePhase {
    type V = PhaseView;

    open spec fn view(&self) -> PhaseView {
        match *self {
            ServePhase::Ready => PhaseView::Ready,
            ServePhase::Pairing => PhaseView::Pairing,
            ServePhase::Offer { timestamp_ms } => PhaseView::Offer { timestamp_ms },
            ServePhase::Image { timestamp_ms } => PhaseView::Image { timestamp_ms },
            ServePhase::ImageFooter { timestamp_ms, png } => PhaseView::ImageFooter {
                timestamp_ms,
                png: png@,
            },
            ServePhase::Files { timestamp_ms } => PhaseView::Files { timestamp_ms },
            ServePhase::FilesFooter { timestamp_ms, hash } => PhaseView::FilesFooter {
                timestamp_ms,
                hash: hash@,
            },
            ServePhase::Landing { timestamp_ms } => PhaseView::Landing { timestamp_ms },
            ServePhase::Closed => PhaseView::Closed,
        }
    }
}

/// What the serving side is told.
#[derive(Debug, PartialEq, Eq)]
pub enum ServeEvent {
    /// A frame arrived
    Message(ControlMessage),
    /// The pairing request was decided
    PairDecided(bool),
    /// The metadata of the offer; nothing when it is malformed
    OfferParsed(Option<BlobOffer>),
    /// The bytes of the image
    ImageReceived(Vec<u8>),
    /// The batch arrived; its digest
    FilesReceived(String),
    /// The final paths of the batch; nothing when naming them failed
    Landed(Option<Vec<FilePath>>),
    /// The connection is gone or went silent
    Lost,
}

/// What a [`ServeEvent`] stands for.
#[verifier::ext_equal]
pub enum ServeEventView {
    Message(MessageView),
    PairDecided(bool),
    OfferParsed(Option<OfferView>),
    ImageReceived(Seq<u8>),
    FilesReceived(Seq<char>),
    Landed(Option<Seq<FilePathView>>),
    Lost,
}

impl View for ServeEvent {
    type V = ServeEventView;

    open spec fn view(&self) -> ServeEventView {
        match *self {
            ServeEvent::Message(m) => ServeEventView::Message(m@),
            ServeEvent::PairDecided(b) => ServeEventView::PairDecided(b),
            ServeEvent::OfferParsed(o) => ServeEventView::OfferParsed(opt_view(o)),
            ServeEvent::ImageReceived(b) => ServeEventView::ImageReceived(b@),
            ServeEvent::FilesReceived(h) => ServeEventView::FilesReceived(h@),
            ServeEvent::Landed(p) => ServeEventView::Landed(
                match p {
                    Some(paths) => Some(views(paths@)),
                    None => None,
                },
            ),
            ServeEvent::Lost => ServeEventView::Lost,
        }
    }
}

/// What the serving side does.
#[derive(Debug, PartialEq, Eq)]
pub enum ServeAction {
    /// Wait for the next frame
    Read,
    /// Send a frame and wait for the next one
    Reply(ControlMessage),
    /// Have the pairing request decided
    DecidePair,
    /// Parse the metadata of an offer
    ParseOffer { image: bool, data: String },
    /// Accept the offer and receive an image of that length
    ReceiveImage(u64),
    /// Accept the offer and receive the files of the manifest
    ReceiveFiles(Vec<FileMeta>),
    /// Give the files of the batch their final names
    LandFiles,
    /// Drop the batch, then send a frame
    DropAndReply(ControlMessage),
    /// Drop the batch, then close
    DropAndClose,
    /// Close
    Close,
    /// Nothing
    Ignore,
}

/// What a [`ServeAction`] stands for.
#[verifier::ext_equal]
pub enum ServeActionView {
    Read,
    Reply(MessageView),
    DecidePair,
    ParseOffer { image: bool, data: Seq<char> },
    ReceiveImage(u64),
    ReceiveFiles(Seq<FileMetaView>),
    LandFiles,
    DropAndReply(MessageView),
    DropAndClose,
    Close,
    Ignore,
}

impl View for ServeAction {
    type V = ServeActionView;

    open spec fn view(&self) -> ServeActionView {
        match *self {
            ServeAction::Read => ServeActionView::Read,
            ServeAction::Reply(m) => ServeActionView::Reply(m@),
            ServeAction::DecidePair => ServeActionView::DecidePair,
            ServeAction::ParseOffer { image, data } => ServeActionView::ParseOffer {
                image,
                data: data@,
            },
            ServeAction::ReceiveImage(n) => ServeActionView::ReceiveImage(n),
            ServeAction::ReceiveFiles(f) => ServeActionView::ReceiveFiles(views(f@)),
            ServeAction::LandFiles => ServeActionView::LandFiles,
            ServeAction::DropAndReply(m) => ServeActionView::DropAndReply(m@),
            ServeAction::DropAndClose => ServeActionView::DropAndClose,
            ServeAction::Close => ServeActionView::Close,
            ServeAction::Ignore => ServeActionView::Ignore,
        }
    }
}

/// The serving side after a step.
#[verifier::ext_equal]
pub struct Served {
    pub phase: PhaseView,
    pub engine: EngineView,
    pub event: Option<EngineEventView>,
    pub action: ServeActionView,
}

/// A refusal with its reason.
pub open spec fn rejected(code: Seq<char>) -> MessageView {
    MessageView::SyncRejected { reason_code: code }
}

/// A step that only acts.
pub open spec fn acts(phase: PhaseView, engine: EngineView, action: ServeActionView) -> Served {
    Served { phase, engine, event: None, action }
}

/// A clipboard frame: text is judged at once, an offer has its metadata parsed
/// first.
pub open spec fn served_sync(
    e: EngineView,
    remote: PeerInfoView,
    timestamp_ms: u64,
    kind: Seq<char>,
    data: Seq<char>,
    now: u64,
) -> Served {
    if kind == CONTENT_IMAGE@ || kind == CONTENT_FILES@ {
        acts(
            PhaseView::Offer { timestamp_ms },
            e,
            ServeActionView::ParseOffer { image: kind == CONTENT_IMAGE@, data },
        )
    } else {
        let content = ContentView::Text(data);
        match e.text_verdict(remote.fingerprint, timestamp_ms, kind, data) {
            VerdictView::Reject(code) => acts(
                PhaseView::Ready,
                e,
                ServeActionView::Reply(rejected(code)),
            ),
            VerdictView::Stale => acts(
                PhaseView::Ready,
                e,
                ServeActionView::Reply(MessageView::SyncAck),
            ),
            VerdictView::Accept => Served {
                phase: PhaseView::Ready,
                engine: e.registering(content.hash(), now),
                event: Some(e.apply_event(content, remote, timestamp_ms)),
                action: ServeActionView::Reply(MessageView::SyncAck),
            },
        }
    }
}

/// An offer with its metadata.
pub open spec fn served_offer(
    e: EngineView,
    remote: PeerInfoView,
    timestamp_ms: u64,
    offer: Option<OfferView>,
) -> Served {
    match offer {
        None => acts(PhaseView::Closed, e, ServeActionView::Close),
        Some(o) => match e.offer_verdict(remote.fingerprint, timestamp_ms, o) {
            VerdictView::Reject(code) => acts(
                PhaseView::Ready,
                e,
                ServeActionView::Reply(rejected(code)),
            ),
            VerdictView::Stale => acts(
                PhaseView::Ready,
                e,
                ServeActionView::Reply(MessageView::SyncAck),
            ),
            VerdictView::Accept => match o {
                OfferView::Image { total_bytes } => acts(
                    PhaseView::Image { timestamp_ms },
                    e,
                    ServeActionView::ReceiveImage(total_bytes),
                ),
                OfferView::Files { files, .. } => acts(
                    PhaseView::Files { timestamp_ms },
                    e,
                    ServeActionView::ReceiveFiles(files),
                ),
            },
        },
    }
}

/// The footer of an image: the bytes have to have the announced digest and to
/// be a picture.
pub open spec fn served_image(
    e: EngineView,
    remote: PeerInfoView,
    timestamp_ms: u64,
    png: Seq<u8>,
    footer: MessageView,
    now: u64,
) -> Served {
    match footer {
        MessageView::BlobFooter { hash } => if hash != digest_hex(png) {
            acts(PhaseView::Ready, e, ServeActionView::Reply(rejected(CHECKSUM_MISMATCH@)))
        } else {
            match images::decoded(png) {
                None => acts(
                    PhaseView::Ready,
                    e,
                    ServeActionView::Reply(rejected(UNSUPPORTED_TYPE@)),
                ),
                Some(image) => {
                    let content = ContentView::Image {
                        width: image.0 as usize,
                        height: image.1 as usize,
                        rgba: image.2,
                    };
                    Served {
                        phase: PhaseView::Ready,
                        engine: e.registering(content.hash(), now),
                        event: Some(e.apply_event(content, remote, timestamp_ms)),
                        action: ServeActionView::Reply(MessageView::SyncAck),
                    }
                },
            }
        },
        _ => acts(PhaseView::Closed, e, ServeActionView::Close),
    }
}

/// The footer of a batch.
pub open spec fn served_batch(e: EngineView, timestamp_ms: u64, actual: Seq<char>, footer: MessageView) -> Served {
    match footer {
        MessageView::BlobFooter { hash } => if hash != actual {
            acts(PhaseView::Ready, e, ServeActionView::DropAndReply(rejected(CHECKSUM_MISMATCH@)))
        } else {
            acts(PhaseView::Landing { timestamp_ms }, e, ServeActionView::LandFiles)
        },
        _ => acts(PhaseView::Closed, e, ServeActionView::DropAndClose),
    }
}

/// The batch under its final paths.
pub open spec fn served_landing(
    e: EngineView,
    remote: PeerInfoView,
    timestamp_ms: u64,
    paths: Option<Seq<FilePathView>>,
    now: u64,
) -> Served {
    match paths {
        None => acts(
            PhaseView::Ready,
            e,
            ServeActionView::DropAndReply(rejected(UNSUPPORTED_TYPE@)),
        ),
        Some(list) => {
            let content = ContentView::Files(list);
            Served {
                phase: PhaseView::Ready,
                engine: e.registering(content.hash(), now),
                event: Some(e.apply_event(content, remote, timestamp_ms)),
                action: ServeActionView::Reply(MessageView::SyncAck),
            }
        },
    }
}

/// One step of the serving side. A step for which the side does not wait is
/// ignored; a lost connection closes it, and a batch that is not complete is
/// dropped.
pub open spec fn served(
    phase: PhaseView,
    e: EngineView,
    remote: PeerInfoView,
    event: ServeEventView,
    now: u64,
) -> Served {
    match (phase, event) {
        (PhaseView::Closed, _) => acts(phase, e, ServeActionView::Ignore),
        (PhaseView::Files { .. }, ServeEventView::Lost) => acts(
            PhaseView::Closed,
            e,
            ServeActionView::DropAndClose,
        ),
        (PhaseView::FilesFooter { .. }, ServeEventView::Lost) => acts(
            PhaseView::Closed,
            e,
            ServeActionView::DropAndClose,
        ),
        (_, ServeEventView::Lost) => acts(PhaseView::Closed, e, ServeActionView::Close),
        (PhaseView::Ready, ServeEventView::Message(MessageView::PairRequest)) => acts(
            PhaseView::Pairing,
            e,
            ServeActionView::DecidePair,
        ),
        (
            PhaseView::Ready,
            ServeEventView::Message(
                MessageView::ClipboardSync { seq, timestamp_ms, content_type, data },
            ),
        ) => served_sync(e, remote, timestamp_ms, content_type, data, now),
        (PhaseView::Ready, ServeEventView::Message(MessageView::Unpair)) => Served {
            phase: PhaseView::Ready,
            engine: e.unpaired(remote.fingerprint),
            event: if e.paired.dom().contains(remote.fingerprint) {
                Some(EngineEventView::Unpaired { fingerprint: remote.fingerprint })
            } else {
                None
            },
            action: ServeActionView::Read,
        },
        (PhaseView::Ready, ServeEventView::Message(_)) => acts(
            PhaseView::Closed,
            e,
            ServeActionView::Close,
        ),
        (PhaseView::Pairing, ServeEventView::PairDecided(accepted)) => acts(
            PhaseView::Ready,
            e,
            ServeActionView::Reply(MessageView::PairResponse { accepted }),
        ),
        (PhaseView::Offer { timestamp_ms }, ServeEventView::OfferParsed(offer)) => served_offer(
            e,
            remote,
            timestamp_ms,
            offer,
        ),
        (PhaseView::Image { timestamp_ms }, ServeEventView::ImageReceived(png)) => acts(
            PhaseView::ImageFooter { timestamp_ms, png },
            e,
            ServeActionView::Read,
        ),
        (PhaseView::ImageFooter { timestamp_ms, png }, ServeEventView::Message(footer)) => served_image(
            e,
            remote,
            timestamp_ms,
            png,
            footer,
            now,
        ),
        (PhaseView::Files { timestamp_ms }, ServeEventView::FilesReceived(hash)) => acts(
            PhaseView::FilesFooter { timestamp_ms, hash },
            e,
            ServeActionView::Read,
        ),
        (PhaseView::FilesFooter { timestamp_ms, hash }, ServeEventView::Message(footer)) => served_batch(
            e,
            timestamp_ms,
            hash,
            footer,
        ),
        (PhaseView::Landing { timestamp_ms }, ServeEventView::Landed(paths)) => served_landing(
            e,
            remote,
            timestamp_ms,
            paths,
            now,
        ),
        _ => acts(phase, e, ServeActionView::Ignore),
    }
}

/// The serving side of a session behind its entry check.
pub struct Session {
    remote: PeerInfo,
    phase: ServePhase,
}

impl Session {
    /// The peer that was let in.
    pub closed spec fn remote_view(self) -> PeerInfoView {
        self.remote@
    }

    /// What the side waits for.
    pub closed spec fn phase_view(self) -> PhaseView {
        self.phase@
    }

    /// A session with a peer that was let in.
    pub fn new(remote: PeerInfo) -> (r: Session)
        ensures
            r.remote_view() == remote@,
            r.phase_view() == PhaseView::Ready,
    {
        Session { remote, phase: ServePhase::Ready }
    }

    /// The peer that was let in.
    pub fn remote(&self) -> (r: PeerInfo)
        ensures
            r@ == self.remote_view(),
    {
        self.remote.clone()
    }

    fn reject(code: &str) -> (r: ControlMessage)
        ensures
            r@ == rejected(code@),
    {
        ControlMessage::SyncRejected { reason_code: code.to_owned() }
    }

    fn on_sync(
        &mut self,
        engine: &mut SyncEngine,
        timestamp_ms: u64,
        kind: String,
        data: String,
        now: u64,
    ) -> (r: (Option<EngineEvent>, ServeAction))
        requires
            old(engine).wf(),
            old(self).phase_view() == PhaseView::Ready,
        ensures
            final(engine).wf(),
            final(self).remote_view() == old(self).remote_view(),
            ({
                let s = served_sync(
                    old(engine)@,
                    old(self).remote_view(),
                    timestamp_ms,
                    kind@,
                    data@,
                    now,
                );
                final(self).phase_view() == s.phase && final(engine)@ == s.engine && opt_view(r.0)
                    == s.event && r.1@ == s.action
            }),
    {
        let image = text::same(kind.as_str(), CONTENT_IMAGE);
        if image || text::same(kind.as_str(), CONTENT_FILES) {
            self.phase = ServePhase::Offer { timestamp_ms };
            return (None, ServeAction::ParseOffer { image, data });
        }
        match engine.accept_sync(&self.remote, timestamp_ms, kind.as_str(), data, now) {
            Ok(event) => (event, ServeAction::Reply(ControlMessage::SyncAck)),
            Err(code) => (None, ServeAction::Reply(Session::reject(code))),
        }
    }

    fn on_offer(&mut self, engine: &SyncEngine, timestamp_ms: u64, offer: Option<BlobOffer>) -> (r: ServeAction)
        requires
            engine.wf(),
        ensures
            final(self).remote_view() == old(self).remote_view(),
            ({
                let s = served_offer(
                    engine@,
                    old(self).remote_view(),
                    timestamp_ms,
                    opt_view(offer),
                );
                final(self).phase_view() == s.phase && engine@ == s.engine && s.event is None && r@
                    == s.action
            }),
    {
        match offer {
            None => {
                self.phase = ServePhase::Closed;
                ServeAction::Close
            },
            Some(o) => match engine.decide_blob_offer(&self.remote, timestamp_ms, &o) {
                OfferDecision::Reject(code) => {
                    self.phase = ServePhase::Ready;
                    ServeAction::Reply(Session::reject(code))
                },
                OfferDecision::Stale => {
                    self.phase = ServePhase::Ready;
                    ServeAction::Reply(ControlMessage::SyncAck)
                },
                OfferDecision::Accept => match o {
                    BlobOffer::Image(meta) => {
                        self.phase = ServePhase::Image { timestamp_ms };
                        ServeAction::ReceiveImage(meta.total_bytes)
                    },
                    BlobOffer::Files(meta) => {
                        self.phase = ServePhase::Files { timestamp_ms };
                        ServeAction::ReceiveFiles(meta.files)
                    },
                },
            },
        }
    }

    /// One step of the serving side: what it does next, and the event to emit
    /// first.
    pub fn step(&mut self, engine: &mut SyncEngine, event: ServeEvent, now: u64) -> (r: (
        Option<EngineEvent>,
        ServeAction,
    ))
        requires
            old(engine).wf(),
        ensures
            final(engine).wf(),
            final(self).remote_view() == old(self).remote_view(),
            ({
                let s = served(
                    old(self).phase_view(),
                    old(engine)@,
                    old(self).remote_view(),
                    event@,
                    now,
                );
                final(self).phase_view() == s.phase && final(engine)@ == s.engine && opt_view(r.0)
                    == s.event && r.1@ == s.action
            }),
    {
        let mut phase = ServePhase::Closed;
        std::mem::swap(&mut phase, &mut self.phase);
        match event {
            ServeEvent::Lost => match phase {
                ServePhase::Closed => (None, ServeAction::Ignore),
                ServePhase::Files { .. } => (None, ServeAction::DropAndClose),
                ServePhase::FilesFooter { .. } => (None, ServeAction::DropAndClose),
                _ => (None, ServeAction::Close),
            },
            ServeEvent::Message(message) => match phase {
                ServePhase::Ready => match message {
                    ControlMessage::PairRequest => {
                        self.phase = ServePhase::Pairing;
                        (None, ServeAction::DecidePair)
                    },
                    ControlMessage::ClipboardSync { seq: _, timestamp_ms, content_type, data } => {
                        self.phase = ServePhase::Ready;
                        self.on_sync(engine, timestamp_ms, content_type, data, now)
                    },
                    ControlMessage::Unpair => {
                        self.phase = ServePhase::Ready;
                        (engine.remove_paired(self.remote.fingerprint.as_str()), ServeAction::Read)
                    },
                    _ => (None, ServeAction::Close),
                },
                ServePhase::ImageFooter { timestamp_ms, png } => match message {
                    ControlMessage::BlobFooter { hash } => {
                        self.phase = ServePhase::Ready;
                        let actual = digest::digest(png.as_slice());
                        if !text::same(hash.as_str(), actual.as_str()) {
                            return (None, ServeAction::Reply(Session::reject(CHECKSUM_MISMATCH)));
                        }
                        match engine.finish_blob_image(&self.remote, timestamp_ms, &png, now) {
                            Ok(e) => (Some(e), ServeAction::Reply(ControlMessage::SyncAck)),
                            Err(code) => (None, ServeAction::Reply(Session::reject(code))),
                        }
                    },
                    _ => (None, ServeAction::Close),
                },
                ServePhase::FilesFooter { timestamp_ms, hash: actual } => match message {
                    ControlMessage::BlobFooter { hash } => {
                        if !text::same(hash.as_str(), actual.as_str()) {
                            self.phase = ServePhase::Ready;
                            return (
                                None,
                                ServeAction::DropAndReply(Session::reject(CHECKSUM_MISMATCH)),
                            );
                        }
                        self.phase = ServePhase::Landing { timestamp_ms };
                        (None, ServeAction::LandFiles)
                    },
                    _ => (None, ServeAction::DropAndClose),
                },
                other => {
                    self.phase = other;
                    (None, ServeAction::Ignore)
                },
            },
            ServeEvent::PairDecided(accepted) => match phase {
                ServePhase::Pairing => {
                    self.phase = ServePhase::Ready;
                    (None, ServeAction::Reply(ControlMessage::PairResponse { accepted }))
                },
                other => {
                    self.phase = other;
                    (None, ServeAction::Ignore)
                },
            },
            ServeEvent::OfferParsed(offer) => match phase {
                ServePhase::Offer { timestamp_ms } => (
                    None,
                    self.on_offer(engine, timestamp_ms, offer),
                ),
                other => {
                    self.phase = other;
                    (None, ServeAction::Ignore)
                },
            },
            ServeEvent::ImageReceived(png) => match phase {
                ServePhase::Image { timestamp_ms } => {
                    self.phase = ServePhase::ImageFooter { timestamp_ms, png };
                    (None, ServeAction::Read)
                },
                other => {
                    self.phase = other;
                    (None, ServeAction::Ignore)
                },
            },
            ServeEvent::FilesReceived(hash) => match phase {
                ServePhase::Files { timestamp_ms } => {
                    self.phase = ServePhase::FilesFooter { timestamp_ms, hash };
                    (None, ServeAction::Read)
                },
                other => {
                    self.phase = other;
                    (None, ServeAction::Ignore)
                },
            },
            ServeEvent::Landed(paths) => match phase {
                ServePhase::Landing { timestamp_ms } => {
                    self.phase = ServePhase::Ready;
                    match paths {
                        None => (
                            None,
                            ServeAction::DropAndReply(Session::reject(UNSUPPORTED_TYPE)),
                        ),
                        Some(list) => {
                            let e = engine.finish_blob_files(&self.remote, timestamp_ms, list, now);
                            (Some(e), ServeAction::Reply(ControlMessage::SyncAck))
                        },
                    }
                },
                other => {
                    self.phase = other;
                    (None, ServeAction::Ignore)
                },
            },
        }
    }
}

/// Content whose digest differs from the announced one changes nothing and is
/// reported to nobody but the sender.
pub proof fn law_checksum_mismatch_is_dropped(
    phase: PhaseView,
    e: EngineView,
    remote: PeerInfoView,
    hash: Seq<char>,
    now: u64,
)
    requires
        match phase {
            PhaseView::ImageFooter { png, .. } => hash != digest_hex(png),
            PhaseView::FilesFooter { hash: actual, .. } => hash != actual,
            _ => false,
        },
    ensures
        ({
            let s = served(
                phase,
                e,
                remote,
                ServeEventView::Message(MessageView::BlobFooter { hash }),
                now,
            );
            &&& s.engine == e
            &&& s.event is None
            &&& s.action == ServeActionView::Reply(rejected(CHECKSUM_MISMATCH@)) || s.action
                == ServeActionView::DropAndReply(rejected(CHECKSUM_MISMATCH@))
        }),
{
}

/// A step reports content only as the answer to a text, to a matching footer or
/// to a named batch, and always with an acknowledgement.
pub proof fn law_applied_content_is_acknowledged(
    phase: PhaseView,
    e: EngineView,
    remote: PeerInfoView,
    event: ServeEventView,
    now: u64,
)
    requires
        served(phase, e, remote, event, now).event is Some,
        event != ServeEventView::Message(MessageView::Unpair),
    ensures
        served(phase, e, remote, event, now).action == ServeActionView::Reply(MessageView::SyncAck),
        served(phase, e, remote, event, now).phase == PhaseView::Ready,
{
}

/// A peer that is not paired gets a refusal for text and offers, and changes
/// nothing.
pub proof fn law_stranger_is_refused(
    e: EngineView,
    remote: PeerInfoView,
    seq: u64,
    timestamp_ms: u64,
    data: Seq<char>,
    offer: OfferView,
    now: u64,
)
    requires
        !e.paired.dom().contains(remote.fingerprint),
        e.recv_enabled,
    ensures
        ({
            let text = ServeEventView::Message(
                MessageView::ClipboardSync {
                    seq,
                    timestamp_ms,
                    content_type: CONTENT_TEXT@,
                    data,
                },
            );
            served(PhaseView::Ready, e, remote, text, now) == acts(
                PhaseView::Ready,
                e,
                ServeActionView::Reply(rejected(NOT_PAIRED@)),
            )
        }),
        served(
            PhaseView::Offer { timestamp_ms },
            e,
            remote,
            ServeEventView::OfferParsed(Some(offer)),
            now,
        ) == acts(PhaseView::Ready, e, ServeActionView::Reply(rejected(NOT_PAIRED@))),
{
    reveal_strlit("text");
    reveal_strlit("image");
    reveal_strlit("files");
    assert(CONTENT_TEXT@.len() == 4 && CONTENT_IMAGE@.len() == 5 && CONTENT_FILES@.len() == 5);
}

/// The two sides agree: what the serving side answers to an acceptable text is
/// what the dialing side takes for success.
pub proof fn law_accepted_text_ends_well(
    e: EngineView,
    d: DialerView,
    remote: PeerInfoView,
    local: PeerInfoView,
    seq: u64,
    timestamp_ms: u64,
    data: Seq<char>,
    now: u64,
)
    requires
        d.errand == Errand::Sync,
        d.phase == DialPhase::Reply,
        e.text_verdict(remote.fingerprint, timestamp_ms, CONTENT_TEXT@, data) is Accept,
    ensures
        ({
            let text = ServeEventView::Message(
                MessageView::ClipboardSync {
                    seq,
                    timestamp_ms,
                    content_type: CONTENT_TEXT@,
                    data,
                },
            );
            let s = served(PhaseView::Ready, e, remote, text, now);
            &&& s.event == Some(e.apply_event(ContentView::Text(data), remote, timestamp_ms))
            &&& s.action matches ServeActionView::Reply(reply) && d.step(
                local,
                DialEventView::Message(reply),
            ).1 == (DialActionView::Succeed { bye: true, remote: None })
        }),
{
    reveal_strlit("text");
    reveal_strlit("image");
    reveal_strlit("files");
    assert(CONTENT_TEXT@.len() == 4 && CONTENT_IMAGE@.len() == 5 && CONTENT_FILES@.len() == 5);
}

/// A batch that the connection did not complete is dropped.
pub proof fn law_broken_batch_is_dropped(
    phase: PhaseView,
    e: EngineView,
    remote: PeerInfoView,
    now: u64,
)
    requires
        phase is Files || phase is FilesFooter,
    ensures
        served(phase, e, remote, ServeEventView::Lost, now) == acts(
            PhaseView::Closed,
            e,
            ServeActionView::DropAndClose,
        ),
{
}

/// After the end of a session nothing more happens.
pub proof fn law_closed_session_is_silent(
    e: EngineView,
    remote: PeerInfoView,
    event: ServeEventView,
    now: u64,
)
    ensures
        served(PhaseView::Closed, e, remote, event, now) == acts(
            PhaseView::Closed,
            e,
            ServeActionView::Ignore,
        ),
{
}

/// A dial to that fingerprint before anything has happened.
pub open spec fn fresh_dial(errand: Errand, expected: Seq<char>) -> DialerView {
    DialerView { errand, expected, phase: DialPhase::Connecting, remote: None }
}

/// A dial whose greeting was answered by a compatible peer of the fingerprint
/// that it was meant for.
pub open spec fn greeted(
    errand: Errand,
    expected: Seq<char>,
    local: PeerInfoView,
    version: Seq<char>,
    info: PeerInfoView,
) -> (DialerView, DialActionView) {
    fresh_dial(errand, expected).step(local, DialEventView::Connected).0.step(
        local,
        DialEventView::Message(MessageView::HelloAck { version, info }),
    )
}

/// Every dial begins with a greeting that tells the version and who is calling.
/// The answer is believed only when the version is compatible and the peer
/// declares the fingerprint that was dialed; then the errand goes out.
pub proof fn law_dial_greets_first(
    errand: Errand,
    expected: Seq<char>,
    local: PeerInfoView,
    version: Seq<char>,
    info: PeerInfoView,
)
    ensures
        fresh_dial(errand, expected).step(local, DialEventView::Connected).1
            == DialActionView::Send(MessageView::Hello { version: "1.1"@, info: local }),
        compatible(version) && info.fingerprint == expected ==> ({
            let (met, action) = greeted(errand, expected, local, version, info);
            &&& met.remote == Some(info)
            &&& met.expected == expected && met.errand == errand
            &&& errand == Errand::Sync || errand == Errand::Blob ==> action
                == DialActionView::SendPrepared && met.phase == DialPhase::Reply
            &&& errand == Errand::Pair ==> action == DialActionView::Send(MessageView::PairRequest)
                && met.phase == DialPhase::Reply
            &&& errand == Errand::Unpair ==> action == DialActionView::SendLast(MessageView::Unpair)
                && met.phase == DialPhase::Done
        }),
        !compatible(version) ==> greeted(errand, expected, local, version, info).1 == (
        DialActionView::Fail {
            bye: false,
            error: SyncErrorView::Protocol(
                ProtocolErrorView::VersionMismatch { peer: version, local: "1.1"@ },
            ),
        }),
        compatible(version) && info.fingerprint != expected ==> greeted(
            errand,
            expected,
            local,
            version,
            info,
        ).1 == (DialActionView::Fail { bye: false, error: SyncErrorView::FingerprintMismatch }),
        !compatible(version) || info.fingerprint != expected ==> greeted(
            errand,
            expected,
            local,
            version,
            info,
        ).0.phase == DialPhase::Done,
{
}

/// A text that was sent is delivered when the peer acknowledges it, and refused
/// with the reason that the peer gives; either way the dial is over.
pub proof fn law_text_delivery_ends_with_the_reply(
    expected: Seq<char>,
    local: PeerInfoView,
    version: Seq<char>,
    info: PeerInfoView,
    code: Seq<char>,
)
    requires
        compatible(version),
        info.fingerprint == expected,
    ensures
        ({
            let met = greeted(Errand::Sync, expected, local, version, info).0;
            let acked = met.step(local, DialEventView::Message(MessageView::SyncAck));
            let refused = met.step(
                local,
                DialEventView::Message(MessageView::SyncRejected { reason_code: code }),
            );
            &&& acked.1 == (DialActionView::Succeed { bye: true, remote: None })
            &&& acked.0.phase == DialPhase::Done
            &&& refused.1 == (DialActionView::Fail { bye: true, error: SyncErrorView::Rejected(code) })
            &&& refused.0.phase == DialPhase::Done
        }),
{
}

/// A byte stream goes out only after the offer was accepted; behind it goes the
/// digest of what was sent, and only then the peer has the last word. An offer that
/// is acknowledged or refused at once is over without a stream.
pub proof fn law_stream_follows_an_accepted_offer(
    expected: Seq<char>,
    local: PeerInfoView,
    version: Seq<char>,
    info: PeerInfoView,
    hash: Seq<char>,
    code: Seq<char>,
)
    requires
        compatible(version),
        info.fingerprint == expected,
    ensures
        ({
            let met = greeted(Errand::Blob, expected, local, version, info).0;
            let ack = DialEventView::Message(MessageView::SyncAck);
            let no = DialEventView::Message(MessageView::SyncRejected { reason_code: code });
            let fail = DialActionView::Fail { bye: true, error: SyncErrorView::Rejected(code) };
            let (open, first) = met.step(local, DialEventView::Message(MessageView::BlobAccept));
            let (sent, second) = open.step(local, DialEventView::Streamed(hash));
            &&& first == DialActionView::Stream
            &&& second == DialActionView::Send(MessageView::BlobFooter { hash })
            &&& sent.step(local, ack).1 == (DialActionView::Succeed { bye: true, remote: None })
            &&& sent.step(local, no).1 == fail
            &&& met.step(local, ack).1 == (DialActionView::Succeed { bye: true, remote: None })
            &&& met.step(local, no).1 == fail
            &&& open.step(local, ack).1 == DialActionView::Ignore
            &&& sent.step(local, ack).0.phase == DialPhase::Done
        }),
{
}

/// A pairing that the peer accepts ends with what the peer declared; one that
/// it declines ends with that.
pub proof fn law_pairing_ends_with_the_decision(
    expected: Seq<char>,
    local: PeerInfoView,
    version: Seq<char>,
    info: PeerInfoView,
    accepted: bool,
)
    requires
        compatible(version),
        info.fingerprint == expected,
    ensures
        ({
            let met = greeted(Errand::Pair, expected, local, version, info).0;
            let (end, action) = met.step(
                local,
                DialEventView::Message(MessageView::PairResponse { accepted }),
            );
            &&& accepted ==> action == (DialActionView::Succeed { bye: true, remote: Some(info) })
            &&& !accepted ==> action == (DialActionView::Fail {
                bye: true,
                error: SyncErrorView::PairRejected,
            })
            &&& end.phase == DialPhase::Done
        }),
{
}

/// A failure of the transport ends the dial with its error, and a wait that
/// takes too long ends it with the name of what was waited for. Whoever was
/// dialed, and for what, does not change on the way.
pub proof fn law_dial_failures_are_told(
    d: DialerView,
    local: PeerInfoView,
    event: DialEventView,
    error: SyncErrorView,
)
    ensures
        d.step(local, event).0.errand == d.errand,
        d.step(local, event).0.expected == d.expected,
        d.phase != DialPhase::Done ==> ({
            let broken = d.step(local, DialEventView::Failed(error));
            let late = d.step(local, DialEventView::TimedOut);
            let opened = d.phase == DialPhase::Streaming || d.phase == DialPhase::Verdict;
            &&& broken.1 == (DialActionView::Fail { bye: opened, error })
            &&& broken.0.phase == DialPhase::Done && late.0.phase == DialPhase::Done
            &&& late.1 is Fail && late.1->Fail_bye == opened
            &&& d.phase == DialPhase::Greeting ==> late.1->error == SyncErrorView::Timeout(
                "hello_ack"@,
            )
            &&& d.phase == DialPhase::Reply && d.errand == Errand::Sync ==> late.1->error
                == SyncErrorView::Timeout("sync_reply"@)
            &&& d.phase == DialPhase::Reply && d.errand == Errand::Blob ==> late.1->error
                == SyncErrorView::Timeout("blob_offer_reply"@)
            &&& d.phase == DialPhase::Reply && d.errand == Errand::Pair ==> late.1->error
                == SyncErrorView::Timeout("pair_response"@)
            &&& d.phase == DialPhase::Verdict ==> late.1->error == SyncErrorView::Timeout(
                "blob_final_reply"@,
            )
            &&& d.phase == DialPhase::Connecting ==> late.1->error == SyncErrorView::Timeout(
                "connect"@,
            )
        }),
{
}

/// A reply of the wrong kind ends the dial with what was expected and what came.
pub proof fn law_wrong_reply_ends_the_dial(d: DialerView, local: PeerInfoView, reply: MessageView)
    ensures
        d.phase == DialPhase::Greeting && !(reply is HelloAck) && !(reply is SyncRejected) ==> d.step(
            local,
            DialEventView::Message(reply),
        ).1 == (DialActionView::Fail {
            bye: false,
            error: SyncErrorView::Protocol(
                ProtocolErrorView::Unexpected { expected: "hello_ack"@, got: reply.kind() },
            ),
        }),
        d.phase == DialPhase::Reply && d.errand == Errand::Sync && !(reply is SyncAck) && !(
        reply is SyncRejected) ==> d.step(local, DialEventView::Message(reply)).1 == (
        DialActionView::Fail {
            bye: true,
            error: SyncErrorView::Protocol(
                ProtocolErrorView::Unexpected { expected: "sync_ack"@, got: reply.kind() },
            ),
        }),
        d.phase == DialPhase::Reply && d.errand == Errand::Blob && !(reply is SyncAck) && !(
        reply is SyncRejected) && !(reply is BlobAccept) ==> d.step(
            local,
            DialEventView::Message(reply),
        ).1 == (DialActionView::Fail {
            bye: true,
            error: SyncErrorView::Protocol(
                ProtocolErrorView::Unexpected { expected: "blob_accept"@, got: reply.kind() },
            ),
        }),
        d.phase == DialPhase::Reply && d.errand == Errand::Pair && !(reply is PairResponse) ==> d.step(
            local,
            DialEventView::Message(reply),
        ).1 == (DialActionView::Fail {
            bye: true,
            error: SyncErrorView::Protocol(
                ProtocolErrorView::Unexpected { expected: "pair_response"@, got: reply.kind() },
            ),
        }),
{
}

/// Who is let in: exactly a peer that greets in a compatible version and declares
/// the fingerprint of its certificate. The reply tells the own version and who
/// answers. Every other greeting is refused with its reason, and something that
/// is no greeting is not answered.
pub proof fn law_who_is_let_in(
    certificate: Option<Seq<char>>,
    version: Seq<char>,
    info: PeerInfoView,
    other: MessageView,
    local: PeerInfoView,
)
    ensures
        ({
            let hello = MessageView::Hello { version, info };
            let g = gate(certificate, hello, local);
            &&& compatible(version) && certificate == Some(info.fingerprint) ==> g == (
            GateView::Admit {
                reply: MessageView::HelloAck { version: "1.1"@, info: local },
                remote: info,
            })
            &&& certificate is None ==> g == (GateView::Refuse {
                answer: Some(MessageView::SyncRejected { reason_code: "identity_mismatch"@ }),
                error: SyncErrorView::FingerprintMismatch,
            })
            &&& certificate is Some && !compatible(version) ==> g == (GateView::Refuse {
                answer: Some(MessageView::SyncRejected { reason_code: "unsupported_version"@ }),
                error: SyncErrorView::Protocol(
                    ProtocolErrorView::VersionMismatch { peer: version, local: "1.1"@ },
                ),
            })
            &&& compatible(version) && certificate != Some(info.fingerprint) ==> g == (
            GateView::Refuse {
                answer: Some(MessageView::SyncRejected { reason_code: "identity_mismatch"@ }),
                error: SyncErrorView::FingerprintMismatch,
            })
        }),
        !(other is Hello) ==> gate(certificate, other, local) is Refuse,
        !(other is Hello) && certificate is Some ==> gate(certificate, other, local)->answer is None,
{
}

/// A text is answered as the engine decides. One that is turned down gets the
/// reason and changes nothing, a stale one is acknowledged and changes nothing, an
/// accepted one is acknowledged, registered as an echo to come, and handed on with
/// its sender and its time.
pub proof fn law_text_is_answered(
    e: EngineView,
    remote: PeerInfoView,
    seq: u64,
    timestamp_ms: u64,
    kind: Seq<char>,
    data: Seq<char>,
    now: u64,
)
    requires
        kind != "image"@,
        kind != "files"@,
    ensures
        ({
            let s = served(
                PhaseView::Ready,
                e,
                remote,
                ServeEventView::Message(
                    MessageView::ClipboardSync { seq, timestamp_ms, content_type: kind, data },
                ),
                now,
            );
            let v = e.text_verdict(remote.fingerprint, timestamp_ms, kind, data);
            &&& s.phase == PhaseView::Ready
            &&& v matches VerdictView::Reject(code) ==> s.action == ServeActionView::Reply(
                MessageView::SyncRejected { reason_code: code },
            ) && s.engine == e && s.event is None
            &&& v is Stale ==> s.action == ServeActionView::Reply(MessageView::SyncAck) && s.engine
                == e && s.event is None
            &&& v is Accept ==> {
                &&& s.action == ServeActionView::Reply(MessageView::SyncAck)
                &&& s.event == Some(
                    EngineEventView::ApplyRemote {
                        content: ContentView::Text(data),
                        from: remote,
                        timestamp_ms,
                        hash: ContentView::Text(data).hash(),
                    },
                )
                &&& s.engine.echo == crate::echo::pushed(
                    e.echo,
                    ContentView::Text(data).hash(),
                    now,
                )
                &&& (EngineView { echo: e.echo, ..s.engine }) == e
            }
        }),
{
}

/// What the serving side waits for once an offer of that kind was parsed.
pub open spec fn offered(
    e: EngineView,
    remote: PeerInfoView,
    seq: u64,
    timestamp_ms: u64,
    kind: Seq<char>,
    data: Seq<char>,
    offer: OfferView,
    now: u64,
) -> Served {
    let asked = served(
        PhaseView::Ready,
        e,
        remote,
        ServeEventView::Message(
            MessageView::ClipboardSync { seq, timestamp_ms, content_type: kind, data },
        ),
        now,
    );
    served(asked.phase, asked.engine, remote, ServeEventView::OfferParsed(Some(offer)), now)
}

/// The metadata of an offer is parsed before anything is decided; what does not
/// parse closes the session.
pub proof fn law_offer_is_parsed_first(
    e: EngineView,
    remote: PeerInfoView,
    seq: u64,
    timestamp_ms: u64,
    data: Seq<char>,
    now: u64,
    image: bool,
)
    ensures
        ({
            let kind = if image {
                "image"@
            } else {
                "files"@
            };
            let s = served(
                PhaseView::Ready,
                e,
                remote,
                ServeEventView::Message(
                    MessageView::ClipboardSync { seq, timestamp_ms, content_type: kind, data },
                ),
                now,
            );
            let bad = served(s.phase, e, remote, ServeEventView::OfferParsed(None), now);
            &&& s.action == (ServeActionView::ParseOffer { image, data })
            &&& s.engine == e && s.event is None
            &&& bad.phase == PhaseView::Closed && bad.action == ServeActionView::Close && bad.engine
                == e && bad.event is None
        }),
{
    reveal_strlit("image");
    reveal_strlit("files");
    assert("image"@[0] == 'i' && "files"@[0] == 'f');
}

/// An accepted image is received in full, checked against the announced digest
/// and decoded; then it is handed on with its own pixels, its sender and the
/// time of the offer. What does not decode is refused and changes nothing.
pub proof fn law_accepted_image_arrives(
    e: EngineView,
    remote: PeerInfoView,
    seq: u64,
    timestamp_ms: u64,
    data: Seq<char>,
    total_bytes: u64,
    png: Seq<u8>,
    now: u64,
)
    requires
        e.offer_verdict(remote.fingerprint, timestamp_ms, OfferView::Image { total_bytes }) is Accept,
    ensures
        ({
            let a = offered(
                e,
                remote,
                seq,
                timestamp_ms,
                "image"@,
                data,
                OfferView::Image { total_bytes },
                now,
            );
            let b = served(a.phase, e, remote, ServeEventView::ImageReceived(png), now);
            let c = served(
                b.phase,
                e,
                remote,
                ServeEventView::Message(MessageView::BlobFooter { hash: digest_hex(png) }),
                now,
            );
            &&& a.action == ServeActionView::ReceiveImage(total_bytes) && a.engine == e
            &&& b.action == ServeActionView::Read && b.engine == e && b.event is None
            &&& c.phase == PhaseView::Ready
            &&& images::decoded(png) is None ==> c.engine == e && c.event is None && c.action
                == ServeActionView::Reply(
                MessageView::SyncRejected { reason_code: "unsupported_type"@ },
            )
            &&& images::decoded(png) matches Some(image) ==> {
                let content = ContentView::Image {
                    width: image.0 as usize,
                    height: image.1 as usize,
                    rgba: image.2,
                };
                &&& c.action == ServeActionView::Reply(MessageView::SyncAck)
                &&& c.event == Some(
                    EngineEventView::ApplyRemote {
                        content,
                        from: remote,
                        timestamp_ms,
                        hash: content.hash(),
                    },
                )
                &&& c.engine.echo == crate::echo::pushed(e.echo, content.hash(), now)
                &&& (EngineView { echo: e.echo, ..c.engine }) == e
            }
        }),
{
    reveal_strlit("image");
    reveal_strlit("files");
    assert("image"@[0] == 'i' && "files"@[0] == 'f');
}

/// An accepted batch is received as its manifest lists it, checked against the
/// announced digest and given its final names; then it is handed on with its
/// sender and the time of the offer. A batch that cannot be named is dropped
/// and refused.
pub proof fn law_accepted_batch_arrives(
    e: EngineView,
    remote: PeerInfoView,
    seq: u64,
    timestamp_ms: u64,
    data: Seq<char>,
    offer: OfferView,
    hash: Seq<char>,
    paths: Seq<FilePathView>,
    now: u64,
)
    requires
        offer is Files,
        e.offer_verdict(remote.fingerprint, timestamp_ms, offer) is Accept,
    ensures
        ({
            let a = offered(e, remote, seq, timestamp_ms, "files"@, data, offer, now);
            let b = served(a.phase, e, remote, ServeEventView::FilesReceived(hash), now);
            let c = served(
                b.phase,
                e,
                remote,
                ServeEventView::Message(MessageView::BlobFooter { hash }),
                now,
            );
            let d = served(c.phase, e, remote, ServeEventView::Landed(Some(paths)), now);
            let lost = served(c.phase, e, remote, ServeEventView::Landed(None), now);
            let content = ContentView::Files(paths);
            &&& a.action == ServeActionView::ReceiveFiles(offer->files) && a.engine == e
            &&& b.action == ServeActionView::Read && b.engine == e && b.event is None
            &&& c.action == ServeActionView::LandFiles && c.engine == e && c.event is None
            &&& d.phase == PhaseView::Ready
            &&& d.action == ServeActionView::Reply(MessageView::SyncAck)
            &&& d.event == Some(
                EngineEventView::ApplyRemote {
                    content,
                    from: remote,
                    timestamp_ms,
                    hash: content.hash(),
                },
            )
            &&& d.engine.echo == crate::echo::pushed(e.echo, content.hash(), now)
            &&& (EngineView { echo: e.echo, ..d.engine }) == e
            &&& lost.engine == e && lost.event is None && lost.phase == PhaseView::Ready
            &&& lost.action == ServeActionView::DropAndReply(
                MessageView::SyncRejected { reason_code: "unsupported_type"@ },
            )
        }),
{
    reveal_strlit("image");
    reveal_strlit("files");
    assert("image"@[0] == 'i' && "files"@[0] == 'f');
}

/// An offer that the engine refuses is answered with the reason, and one that
/// is stale is acknowledged; neither has anything received.
pub proof fn law_refused_offer_is_answered(
    e: EngineView,
    remote: PeerInfoView,
    timestamp_ms: u64,
    offer: OfferView,
    now: u64,
)
    ensures
        ({
            let s = served(
                PhaseView::Offer { timestamp_ms },
                e,
                remote,
                ServeEventView::OfferParsed(Some(offer)),
                now,
            );
            let v = e.offer_verdict(remote.fingerprint, timestamp_ms, offer);
            &&& s.engine == e && s.event is None
            &&& v matches VerdictView::Reject(code) ==> s.phase == PhaseView::Ready && s.action
                == ServeActionView::Reply(MessageView::SyncRejected { reason_code: code })
            &&& v is Stale ==> s.phase == PhaseView::Ready && s.action == ServeActionView::Reply(
                MessageView::SyncAck,
            )
        }),
{
}

/// A pairing request is put to a decision, and the decision is the answer; the
/// session itself changes no pairing. The notice of an unpairing removes the
/// pairing of the peer that sent it, and is reported when there was one.
pub proof fn law_pairing_requests_are_answered(
    e: EngineView,
    remote: PeerInfoView,
    accepted: bool,
    now: u64,
)
    ensures
        ({
            let a = served(
                PhaseView::Ready,
                e,
                remote,
                ServeEventView::Message(MessageView::PairRequest),
                now,
            );
            let b = served(a.phase, e, remote, ServeEventView::PairDecided(accepted), now);
            let u = served(
                PhaseView::Ready,
                e,
                remote,
                ServeEventView::Message(MessageView::Unpair),
                now,
            );
            &&& a.action == ServeActionView::DecidePair && a.engine == e && a.event is None
            &&& b.action == ServeActionView::Reply(MessageView::PairResponse { accepted })
            &&& b.engine == e && b.event is None && b.phase == PhaseView::Ready
            &&& u.phase == PhaseView::Ready && u.action == ServeActionView::Read
            &&& !u.engine.paired.dom().contains(remote.fingerprint)
            &&& e.paired.dom().contains(remote.fingerprint) ==> u.event == Some(
                EngineEventView::Unpaired { fingerprint: remote.fingerprint },
            )
            &&& !e.paired.dom().contains(remote.fingerprint) ==> u.event is None
        }),
{
}

/// What does not belong closes the session or is ignored, and changes nothing:
/// a frame that is no request, a frame in place of a footer, a lost connection,
/// a report that nobody waits for.
pub proof fn law_what_does_not_belong_changes_nothing(
    phase: PhaseView,
    e: EngineView,
    remote: PeerInfoView,
    message: MessageView,
    accepted: bool,
    now: u64,
)
    ensures
        !(message is PairRequest) && !(message is ClipboardSync) && !(message is Unpair) ==> served(
            PhaseView::Ready,
            e,
            remote,
            ServeEventView::Message(message),
            now,
        ) == acts(PhaseView::Closed, e, ServeActionView::Close),
        phase is ImageFooter && !(message is BlobFooter) ==> served(
            phase,
            e,
            remote,
            ServeEventView::Message(message),
            now,
        ) == acts(PhaseView::Closed, e, ServeActionView::Close),
        phase is FilesFooter && !(message is BlobFooter) ==> served(
            phase,
            e,
            remote,
            ServeEventView::Message(message),
            now,
        ) == acts(PhaseView::Closed, e, ServeActionView::DropAndClose),
        served(phase, e, remote, ServeEventView::Lost, now).engine == e,
        served(phase, e, remote, ServeEventView::Lost, now).event is None,
        served(phase, e, remote, ServeEventView::Lost, now).phase == PhaseView::Closed,
        phase is Ready || phase is Pairing || phase is Offer || phase is Image || phase is ImageFooter
            || phase is Landing ==> served(phase, e, remote, ServeEventView::Lost, now).action
            == ServeActionView::Close,
        !(phase is Pairing) ==> served(
            phase,
            e,
            remote,
            ServeEventView::PairDecided(accepted),
            now,
        ) == acts(phase, e, ServeActionView::Ignore),
        acts(phase, e, ServeActionView::Ignore).event is None,
        acts(phase, e, ServeActionView::Ignore).engine == e,
{
}

} // verus!
