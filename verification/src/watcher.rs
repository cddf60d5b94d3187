//! The clipboard watcher: which system query comes next, and which change is
//! reported.

use vstd::prelude::*;
use crate::clipboard::{plain_event, ClipboardContent, ClipboardEvent, ContentView, EventView};
use crate::text::{self, opt_view, views};

verus! {

/// What the watcher waits for.
#[derive(PartialEq, Eq, Structural, Clone, Copy, Debug)]
pub enum Phase {
    /// The next tick
    Idle,
    /// The change stamp
    Stamp,
    /// Whether the content is marked as concealed
    Concealed,
    /// Whether an image is present
    Probe,
    /// The content
    Content,
}

/// The watcher between two system queries.
pub struct Watcher {
    /// The platform has a cheap change stamp
    pub stamped: bool,
    /// The stamp seen last
    pub last_stamp: Option<i64>,
    /// Hash of the content reported or seen last
    pub last_hash: Option<String>,
    /// The content present at startup has been taken as the baseline
    pub primed: bool,
    /// What the watcher waits for
    pub phase: Phase,
}

/// What a [`Watcher`] stands for.
#[verifier::ext_equal]
pub struct WatcherView {
    pub stamped: bool,
    pub last_stamp: Option<i64>,
    pub last_hash: Option<Seq<char>>,
    pub primed: bool,
    pub phase: Phase,
}

impl View for Watcher {
    type V = WatcherView;

    open spec fn view(&self) -> WatcherView {
        WatcherView {
            stamped: self.stamped,
            last_stamp: self.last_stamp,
            last_hash: opt_view(self.last_hash),
            primed: self.primed,
            phase: self.phase,
        }
    }
}

/// What the watcher is told.
#[derive(Debug, PartialEq, Eq)]
pub enum WatchEvent {
    /// The poll interval went by; `reset` asks to forget the last hash
    Tick { reset: bool },
    /// The change stamp
    Stamp(Option<i64>),
    /// The concealed marker, and whether images are to be read
    Concealed { concealed: bool, read_images: bool },
    /// Whether an image is present, and the time
    Probe { has_image: bool, now_ms: u64 },
    /// What was read (nothing when the read failed), with its hash, the type
    /// snapshot and the time
    Content { read: Option<(ClipboardContent, String)>, types: Vec<String>, now_ms: u64 },
}

/// What a [`WatchEvent`] stands for.
#[verifier::ext_equal]
pub enum WatchEventView {
    Tick { reset: bool },
    Stamp(Option<i64>),
    Concealed { concealed: bool, read_images: bool },
    Probe { has_image: bool, now_ms: u64 },
    Content { read: Option<(ContentView, Seq<char>)>, types: Seq<Seq<char>>, now_ms: u64 },
}

impl View for WatchEvent {
    type V = WatchEventView;

    open spec fn view(&self) -> WatchEventView {
        match *self {
            WatchEvent::Tick { reset } => WatchEventView::Tick { reset },
            WatchEvent::Stamp(s) => WatchEventView::Stamp(s),
            WatchEvent::Concealed { concealed, read_images } => WatchEventView::Concealed {
                concealed,
                read_images,
            },
            WatchEvent::Probe { has_image, now_ms } => WatchEventView::Probe { has_image, now_ms },
            WatchEvent::Content { read, types, now_ms } => WatchEventView::Content {
                read: match read {
                    Some(pair) => Some((pair.0@, pair.1@)),
                    None => None,
                },
                types: views(types@),
                now_ms,
            },
        }
    }
}

/// What the watcher asks for.
#[derive(Debug, PartialEq, Eq)]
pub enum WatchAction {
    /// Wait for the next tick
    Wait,
    /// Read the change stamp
    ReadStamp,
    /// Look for the concealed marker
    CheckConcealed,
    /// Look for an image without reading it
    ProbeImage,
    /// Read and classify the content
    ReadContent,
    /// Read text only
    ReadText,
    /// Report a change
    Emit(ClipboardEvent),
}

/// What a [`WatchAction`] stands for.
#[verifier::ext_equal]
pub enum WatchActionView {
    Wait,
    ReadStamp,
    CheckConcealed,
    ProbeImage,
    ReadContent,
    ReadText,
    Emit(EventView),
}

impl View for WatchAction {
    type V = WatchActionView;

    open spec fn view(&self) -> WatchActionView {
        match *self {
            WatchAction::Wait => WatchActionView::Wait,
            WatchAction::ReadStamp => WatchActionView::ReadStamp,
            WatchAction::CheckConcealed => WatchActionView::CheckConcealed,
            WatchAction::ProbeImage => WatchActionView::ProbeImage,
            WatchAction::ReadContent => WatchActionView::ReadContent,
            WatchAction::ReadText => WatchActionView::ReadText,
            WatchAction::Emit(e) => WatchActionView::Emit(e@),
        }
    }
}

impl WatcherView {
    /// Back to waiting for a tick, with the given last hash.
    pub open spec fn rest(self, last_hash: Option<Seq<char>>) -> WatcherView {
        WatcherView { last_hash, primed: true, phase: Phase::Idle, ..self }
    }

    /// How the content is read on this platform.
    pub open spec fn read_action(self) -> WatchActionView {
        if self.stamped {
            WatchActionView::ReadContent
        } else {
            WatchActionView::ReadText
        }
    }

    /// One step of the watcher. An event that the watcher does not wait for
    /// changes nothing.
    pub open spec fn step(self, event: WatchEventView) -> (WatcherView, WatchActionView) {
        match (self.phase, event) {
            (Phase::Idle, WatchEventView::Tick { reset }) => {
                let last_hash = if reset {
                    None
                } else {
                    self.last_hash
                };
                if self.stamped {
                    (
                        WatcherView { last_hash, phase: Phase::Stamp, ..self },
                        WatchActionView::ReadStamp,
                    )
                } else {
                    (
                        WatcherView { last_hash, phase: Phase::Concealed, ..self },
                        WatchActionView::CheckConcealed,
                    )
                }
            },
            (Phase::Stamp, WatchEventView::Stamp(now)) => if now == self.last_stamp {
                (WatcherView { phase: Phase::Idle, ..self }, WatchActionView::Wait)
            } else {
                (
                    WatcherView { last_stamp: now, phase: Phase::Concealed, ..self },
                    WatchActionView::CheckConcealed,
                )
            },
            (Phase::Concealed, WatchEventView::Concealed { concealed, read_images }) => if concealed {
                (self.rest(None), WatchActionView::Wait)
            } else if self.stamped && !read_images {
                (WatcherView { phase: Phase::Probe, ..self }, WatchActionView::ProbeImage)
            } else {
                (WatcherView { phase: Phase::Content, ..self }, self.read_action())
            },
            (Phase::Probe, WatchEventView::Probe { has_image, now_ms }) => if !has_image {
                (WatcherView { phase: Phase::Content, ..self }, self.read_action())
            } else if self.primed {
                (
                    self.rest(None),
                    WatchActionView::Emit(
                        plain_event(
                            ContentView::ImageUnread,
                            ContentView::ImageUnread.hash(),
                            now_ms,
                        ),
                    ),
                )
            } else {
                (self.rest(None), WatchActionView::Wait)
            },
            (Phase::Content, WatchEventView::Content { read, types, now_ms }) => match read {
                None => (
                    self.rest(
                        if self.primed {
                            self.last_hash
                        } else {
                            None
                        },
                    ),
                    WatchActionView::Wait,
                ),
                Some((content, hash)) => if !self.primed || self.last_hash == Some(hash) {
                    (self.rest(Some(hash)), WatchActionView::Wait)
                } else {
                    (
                        self.rest(Some(hash)),
                        WatchActionView::Emit(
                            EventView {
                                pasteboard_types: types,
                                ..plain_event(content, hash, now_ms)
                            },
                        ),
                    )
                },
            },
            _ => (self, WatchActionView::Wait),
        }
    }
}

impl Watcher {
    /// A watcher at startup. The content that is already there becomes the
    /// baseline and is not reported.
    pub fn new(stamped: bool, stamp: Option<i64>) -> (r: (Watcher, WatchAction))
        ensures
            r.0@ == (WatcherView {
                stamped,
                last_stamp: stamp,
                last_hash: None,
                primed: false,
                phase: Phase::Concealed,
            }),
            r.1@ == WatchActionView::CheckConcealed,
    {
        (
            Watcher {
                stamped,
                last_stamp: stamp,
                last_hash: None,
                primed: false,
                phase: Phase::Concealed,
            },
            WatchAction::CheckConcealed,
        )
    }

    fn read_action(&self) -> (r: WatchAction)
        ensures
            r@ == self@.read_action(),
    {
        if self.stamped {
            WatchAction::ReadContent
        } else {
            WatchAction::ReadText
        }
    }

    fn rest(&mut self, last_hash: Option<String>)
        ensures
            final(self)@ == old(self)@.rest(opt_view(last_hash)),
    {
        self.last_hash = last_hash;
        self.primed = true;
        self.phase = Phase::Idle;
    }

    /// One step: takes what the last query brought and says which query comes
    /// next, or which change is to be reported.
    pub fn step(&mut self, event: WatchEvent) -> (r: WatchAction)
        ensures
            (final(self)@, r@) == old(self)@.step(event@),
    {
        match event {
            WatchEvent::Tick { reset } => {
                if self.phase != Phase::Idle {
                    return WatchAction::Wait;
                }
                if reset {
                    self.last_hash = None;
                }
                if self.stamped {
                    self.phase = Phase::Stamp;
                    WatchAction::ReadStamp
                } else {
                    self.phase = Phase::Concealed;
                    WatchAction::CheckConcealed
                }
            },
            WatchEvent::Stamp(now) => {
                if self.phase != Phase::Stamp {
                    return WatchAction::Wait;
                }
                let unchanged = match (now, self.last_stamp) {
                    (Some(a), Some(b)) => a == b,
                    (None, None) => true,
                    _ => false,
                };
                if unchanged {
                    self.phase = Phase::Idle;
                    WatchAction::Wait
                } else {
                    self.last_stamp = now;
                    self.phase = Phase::Concealed;
                    WatchAction::CheckConcealed
                }
            },
            WatchEvent::Concealed { concealed, read_images } => {
                if self.phase != Phase::Concealed {
                    return WatchAction::Wait;
                }
                if concealed {
                    self.rest(None);
                    WatchAction::Wait
                } else if self.stamped && !read_images {
                    self.phase = Phase::Probe;
                    WatchAction::ProbeImage
                } else {
                    self.phase = Phase::Content;
                    self.read_action()
                }
            },
            WatchEvent::Probe { has_image, now_ms } => {
                if self.phase != Phase::Probe {
                    return WatchAction::Wait;
                }
                if !has_image {
                    self.phase = Phase::Content;
                    self.read_action()
                } else {
                    let report = self.primed;
                    self.rest(None);
                    if report {
                        let content = ClipboardContent::ImageUnread;
                        let hash = content.hash();
                        WatchAction::Emit(ClipboardEvent::new(content, hash, now_ms))
                    } else {
                        WatchAction::Wait
                    }
                }
            },
            WatchEvent::Content { read, types, now_ms } => {
                if self.phase != Phase::Content {
                    return WatchAction::Wait;
                }
                match read {
                    None => {
                        if self.primed {
                            self.phase = Phase::Idle;
                        } else {
                            self.rest(None);
                        }
                        WatchAction::Wait
                    },
                    Some(pair) => {
                        let (content, hash) = pair;
                        let seen = match &self.last_hash {
                            Some(h) => text::same(h.as_str(), hash.as_str()),
                            None => false,
                        };
                        let report = self.primed && !seen;
                        self.rest(Some(hash.clone()));
                        if report {
                            let mut out = ClipboardEvent::new(content, hash, now_ms);
                            out.pasteboard_types = types;
                            WatchAction::Emit(out)
                        } else {
                            WatchAction::Wait
                        }
                    },
                }
            },
        }
    }
}

/// Content whose hash is the last one is not reported again.
pub proof fn law_unchanged_content_is_silent(
    w: WatcherView,
    content: ContentView,
    hash: Seq<char>,
    types: Seq<Seq<char>>,
    now_ms: u64,
)
    requires
        w.phase == Phase::Content,
        w.last_hash == Some(hash),
    ensures
        w.step(WatchEventView::Content { read: Some((content, hash)), types, now_ms }).1
            == WatchActionView::Wait,
{
}

impl WatcherView {
    /// The watcher when it has found that there is something to look at: no
    /// marker, and no image that is left unread.
    pub open spec fn reading(self, read_images: bool) -> WatcherView {
        let a = self.step(WatchEventView::Concealed { concealed: false, read_images }).0;
        if self.stamped && !read_images {
            a.step(WatchEventView::Probe { has_image: false, now_ms: 0 }).0
        } else {
            a
        }
    }

    /// The watcher after some ticks on which the change stamp stayed the same.
    pub open spec fn quiet(self, ticks: nat) -> WatcherView
        decreases ticks,
    {
        if ticks == 0 {
            self
        } else {
            let before = self.quiet((ticks - 1) as nat);
            before.step(WatchEventView::Tick { reset: false }).0.step(
                WatchEventView::Stamp(before.last_stamp),
            ).0
        }
    }
}

/// After a reset the same content is reported once more: at once where there
/// is no change stamp, and with the next new stamp where there is one, however
/// many ticks bring the old stamp in between.
pub proof fn law_reset_reports_again(
    w: WatcherView,
    ticks: nat,
    stamp: Option<i64>,
    read_images: bool,
    content: ContentView,
    hash: Seq<char>,
    types: Seq<Seq<char>>,
    now_ms: u64,
)
    requires
        w.phase == Phase::Idle,
        w.primed,
        w.stamped ==> stamp != w.last_stamp,
    ensures
        ({
            let reset = w.step(WatchEventView::Tick { reset: true }).0;
            let read = WatchEventView::Content { read: Some((content, hash)), types, now_ms };
            let report = WatchActionView::Emit(
                EventView { pasteboard_types: types, ..plain_event(content, hash, now_ms) },
            );
            let found = if w.stamped {
                reset.step(WatchEventView::Stamp(stamp)).0
            } else {
                reset
            };
            let waited = reset.step(WatchEventView::Stamp(w.last_stamp)).0.quiet(ticks);
            let later = waited.step(WatchEventView::Tick { reset: false }).0.step(
                WatchEventView::Stamp(stamp),
            ).0;
            &&& found.reading(read_images).step(read).1 == report
            &&& w.stamped ==> later.reading(read_images).step(read).1 == report
        }),
{
    if w.stamped {
        let idle = w.step(WatchEventView::Tick { reset: true }).0.step(
            WatchEventView::Stamp(w.last_stamp),
        ).0;
        lemma_quiet_changes_nothing(idle, ticks);
    }
}

proof fn lemma_quiet_changes_nothing(w: WatcherView, ticks: nat)
    requires
        w.stamped,
        w.phase == Phase::Idle,
    ensures
        w.quiet(ticks) == w,
    decreases ticks,
{
    if ticks > 0 {
        lemma_quiet_changes_nothing(w, (ticks - 1) as nat);
    }
}

/// What was on the clipboard at startup is never reported: until the baseline
/// is taken no step reports a change.
pub proof fn law_startup_content_is_silent(w: WatcherView, event: WatchEventView)
    requires
        !w.primed,
    ensures
        w.step(event).1 !is Emit,
{
}

/// Concealed content is never read: the marker sends the watcher back to
/// waiting and leaves nothing to compare with.
pub proof fn law_concealed_is_not_read(w: WatcherView, read_images: bool)
    requires
        w.phase == Phase::Concealed,
    ensures
        ({
            let (after, action) = w.step(
                WatchEventView::Concealed { concealed: true, read_images },
            );
            action == WatchActionView::Wait && after.phase == Phase::Idle && after.last_hash is None
        }),
{
}

/// A skipped image never stands in the way of the next copy: after it there is
/// no hash left to compare with.
pub proof fn law_unread_image_leaves_no_baseline(w: WatcherView, now_ms: u64)
    requires
        w.phase == Phase::Probe,
    ensures
        w.step(WatchEventView::Probe { has_image: true, now_ms }).0.last_hash is None,
{
}

/// Content that was not there before is reported, with its hash, its types and
/// the time, and nothing held back; from then on it is the content to compare
/// with.
pub proof fn law_new_content_is_reported(
    w: WatcherView,
    content: ContentView,
    hash: Seq<char>,
    types: Seq<Seq<char>>,
    now_ms: u64,
)
    requires
        w.phase == Phase::Content,
        w.primed,
        w.last_hash != Some(hash),
    ensures
        ({
            let read = WatchEventView::Content { read: Some((content, hash)), types, now_ms };
            let (after, action) = w.step(read);
            &&& action == WatchActionView::Emit(
                EventView {
                    content,
                    hash,
                    timestamp_ms: now_ms,
                    pasteboard_types: types,
                    suppress_broadcast: false,
                    suppress_record: false,
                    broadcast_files_excluded: Seq::empty(),
                    record_files_excluded: Seq::empty(),
                },
            )
            &&& after.last_hash == Some(hash)
            &&& after.phase == Phase::Idle && after.primed
            &&& after.last_stamp == w.last_stamp && after.stamped == w.stamped
        }),
{
}

/// The first content that is read is the baseline: it is not reported, and the
/// same content read again is not reported either.
pub proof fn law_baseline_is_silent(
    w: WatcherView,
    content: ContentView,
    hash: Seq<char>,
    types: Seq<Seq<char>>,
    now_ms: u64,
)
    requires
        w.phase == Phase::Content,
        !w.primed,
    ensures
        ({
            let read = WatchEventView::Content { read: Some((content, hash)), types, now_ms };
            let (after, action) = w.step(read);
            let again = WatcherView { phase: Phase::Content, ..after };
            &&& action == WatchActionView::Wait
            &&& after.primed && after.phase == Phase::Idle && after.last_hash == Some(hash)
            &&& again.step(read).1 == WatchActionView::Wait
        }),
{
}

/// A tick has the change stamp read where there is one, and the marker looked
/// for where there is none. The last hash is forgotten when that is asked for and
/// not otherwise.
pub proof fn law_tick_starts_a_round(w: WatcherView, reset: bool)
    requires
        w.phase == Phase::Idle,
    ensures
        ({
            let (after, action) = w.step(WatchEventView::Tick { reset });
            &&& w.stamped ==> action == WatchActionView::ReadStamp && after.phase == Phase::Stamp
            &&& !w.stamped ==> action == WatchActionView::CheckConcealed && after.phase
                == Phase::Concealed
            &&& reset ==> after.last_hash is None
            &&& !reset ==> after.last_hash == w.last_hash
            &&& after.last_stamp == w.last_stamp && after.primed == w.primed && after.stamped
                == w.stamped
        }),
{
}

/// A stamp that has not changed ends the round and leaves everything as it was;
/// a new one is remembered and has the round go on.
pub proof fn law_stamp_decides_the_round(w: WatcherView, now: Option<i64>)
    requires
        w.phase == Phase::Stamp,
    ensures
        ({
            let (after, action) = w.step(WatchEventView::Stamp(now));
            &&& now == w.last_stamp ==> action == WatchActionView::Wait && after == (WatcherView {
                phase: Phase::Idle,
                ..w
            })
            &&& now != w.last_stamp ==> action == WatchActionView::CheckConcealed && after == (
            WatcherView { phase: Phase::Concealed, last_stamp: now, ..w })
        }),
{
}

/// Content without the marker is read: in full where there is a change stamp and
/// images are wanted, after a look for an image where they are not, and as text
/// where there is no stamp.
pub proof fn law_open_content_is_read(w: WatcherView, read_images: bool, now_ms: u64)
    ensures
        w.phase == Phase::Concealed ==> ({
            let (after, action) = w.step(
                WatchEventView::Concealed { concealed: false, read_images },
            );
            &&& w.stamped && read_images ==> action == WatchActionView::ReadContent
            &&& w.stamped && !read_images ==> action == WatchActionView::ProbeImage
            &&& !w.stamped ==> action == WatchActionView::ReadText
            &&& w.stamped && !read_images ==> after.phase == Phase::Probe
            &&& !w.stamped || read_images ==> after.phase == Phase::Content
            &&& after.last_hash == w.last_hash && after.primed == w.primed && after.last_stamp
                == w.last_stamp
        }),
        w.phase == Phase::Probe ==> ({
            let (after, action) = w.step(WatchEventView::Probe { has_image: false, now_ms });
            &&& w.stamped ==> action == WatchActionView::ReadContent
            &&& after.phase == Phase::Content
            &&& after.last_hash == w.last_hash && after.primed == w.primed
        }),
{
}

/// An image that is not to be read is reported as such, unless it was there at
/// the start.
pub proof fn law_unread_image_is_reported(w: WatcherView, now_ms: u64)
    requires
        w.phase == Phase::Probe,
    ensures
        ({
            let (after, action) = w.step(WatchEventView::Probe { has_image: true, now_ms });
            &&& w.primed ==> action is Emit && action->Emit_0.content is ImageUnread
                && action->Emit_0.timestamp_ms == now_ms && !action->Emit_0.suppress_broadcast
                && !action->Emit_0.suppress_record
            &&& !w.primed ==> action == WatchActionView::Wait
            &&& after.primed && after.phase == Phase::Idle && after.last_hash is None
        }),
{
}

/// A read that fails reports nothing and forgets nothing.
pub proof fn law_failed_read_forgets_nothing(w: WatcherView, types: Seq<Seq<char>>, now_ms: u64)
    requires
        w.phase == Phase::Content,
    ensures
        ({
            let (after, action) = w.step(WatchEventView::Content { read: None, types, now_ms });
            &&& action == WatchActionView::Wait
            &&& after.phase == Phase::Idle && after.primed
            &&& w.primed ==> after.last_hash == w.last_hash
            &&& after.last_stamp == w.last_stamp
        }),
{
}

/// An answer that was not asked for changes nothing.
pub proof fn law_answers_come_in_turn(w: WatcherView, event: WatchEventView)
    requires
        event is Tick ==> w.phase != Phase::Idle,
        event is Stamp ==> w.phase != Phase::Stamp,
        event is Concealed ==> w.phase != Phase::Concealed,
        event is Probe ==> w.phase != Phase::Probe,
        event is Content ==> w.phase != Phase::Content,
    ensures
        w.step(event) == (w, WatchActionView::Wait),
{
}

} // verus!
