//! Echo registrations: the hashes of remote writes that will come back as
//! clipboard changes.

use vstd::prelude::*;
use crate::config::{ECHO_RECENT_CAP, ECHO_TTL};
use crate::text::{self, views};

verus! {

/// One registration.
pub struct Echo {
    /// Hash of the written content
    pub hash: String,
    /// When it was registered (Unix milliseconds)
    pub at: u64,
}

/// What an [`Echo`] stands for.
#[verifier::ext_equal]
pub struct EchoView {
    pub hash: Seq<char>,
    pub at: u64,
}

impl View for Echo {
    type V = EchoView;

    open spec fn view(&self) -> EchoView {
        EchoView { hash: self.hash@, at: self.at }
    }
}

/// The registrations, oldest first.
pub struct EchoTable {
    entries: Vec<Echo>,
}

impl View for EchoTable {
    type V = Seq<EchoView>;

    closed spec fn view(&self) -> Seq<EchoView> {
        views(self.entries@)
    }
}

/// Whether a registration made at `at` is an orphan by now. A clock that went
/// backwards makes nothing an orphan.
pub open spec fn expired(at: u64, now: u64) -> bool {
    now > at && now - at > ECHO_TTL
}

/// The registrations that are not orphans.
pub open spec fn pruned(s: Seq<EchoView>, now: u64) -> Seq<EchoView> {
    s.filter(|e: EchoView| !expired(e.at, now))
}

/// Whether the hash is registered.
pub open spec fn registered(s: Seq<EchoView>, hash: Seq<char>) -> bool {
    exists|i: int| 0 <= i < s.len() && (#[trigger] s[i]).hash == hash
}

/// The registrations after one more remote write: a hash is registered once,
/// and the oldest registration makes room when there are too many.
pub open spec fn pushed(s: Seq<EchoView>, hash: Seq<char>, now: u64) -> Seq<EchoView> {
    let live = pruned(s, now);
    if registered(live, hash) {
        live
    } else {
        let room = if live.len() >= ECHO_RECENT_CAP {
            live.drop_first()
        } else {
            live
        };
        room.push(EchoView { hash, at: now })
    }
}

/// Whether a clipboard change with that hash is an echo.
pub open spec fn is_echo(s: Seq<EchoView>, hash: Seq<char>, now: u64) -> bool {
    registered(pruned(s, now), hash)
}

/// The registrations after a clipboard change with that hash: its registration
/// is used up.
pub open spec fn taken(s: Seq<EchoView>, hash: Seq<char>, now: u64) -> Seq<EchoView> {
    pruned(s, now).filter(|e: EchoView| e.hash != hash)
}

/// No hash is registered twice.
pub open spec fn hashes_unique(s: Seq<EchoView>) -> bool {
    forall|i: int, j: int|
        0 <= i < s.len() && 0 <= j < s.len() && (#[trigger] s[i]).hash == (#[trigger] s[j]).hash ==> i
            == j
}

/// Filtering keeps hashes unique and never adds registrations.
pub proof fn lemma_filter(s: Seq<EchoView>, p: spec_fn(EchoView) -> bool)
    requires
        hashes_unique(s),
    ensures
        hashes_unique(s.filter(p)),
        s.filter(p).len() <= s.len(),
        forall|i: int| 0 <= i < s.filter(p).len() ==> s.contains(#[trigger] s.filter(p)[i]),
        forall|i: int| 0 <= i < s.filter(p).len() ==> p(#[trigger] s.filter(p)[i]),
        forall|i: int| 0 <= i < s.len() && p(#[trigger] s[i]) ==> s.filter(p).contains(s[i]),
    decreases s.len(),
{
    reveal(Seq::filter);
    if s.len() > 0 {
        let init = s.drop_last();
        assert forall|i: int, j: int|
            0 <= i < init.len() && 0 <= j < init.len() && (#[trigger] init[i]).hash == (
            #[trigger] init[j]).hash implies i == j by {
            assert(s[i].hash == s[j].hash);
        }
        lemma_filter(init, p);
        let f = init.filter(p);
        let g = s.filter(p);
        assert forall|i: int| 0 <= i < g.len() implies s.contains(#[trigger] g[i]) by {
            if i < f.len() {
                assert(g[i] == f[i]);
                assert(init.contains(f[i]));
                let k = choose|k: int| 0 <= k < init.len() && init[k] == f[i];
                assert(s[k] == g[i]);
            } else {
                assert(s[s.len() - 1] == g[i]);
            }
        }
        assert forall|i: int| 0 <= i < g.len() implies p(#[trigger] g[i]) by {
            if i < f.len() {
                assert(g[i] == f[i]);
            }
        }
        assert forall|i: int, j: int|
            0 <= i < g.len() && 0 <= j < g.len() && (#[trigger] g[i]).hash == (#[trigger] g[j]).hash implies i
            == j by {
            if i < f.len() && j < f.len() {
                assert(g[i] == f[i]);
                assert(g[j] == f[j]);
            } else if i < f.len() {
                assert(init.contains(f[i]));
                let k = choose|k: int| 0 <= k < init.len() && init[k] == f[i];
                assert(s[k].hash == s[s.len() - 1].hash);
            } else if j < f.len() {
                assert(init.contains(f[j]));
                let k = choose|k: int| 0 <= k < init.len() && init[k] == f[j];
                assert(s[k].hash == s[s.len() - 1].hash);
            }
        }
        assert forall|i: int| 0 <= i < s.len() && p(#[trigger] s[i]) implies g.contains(s[i]) by {
            if i < init.len() {
                assert(init[i] == s[i]);
                assert(f.contains(s[i]));
                let k = choose|k: int| 0 <= k < f.len() && f[k] == s[i];
                assert(g[k] == s[i]);
            } else {
                assert(g[g.len() - 1] == s[i]);
            }
        }
    }
}

impl EchoTable {
    /// No hash is registered twice, and there are never too many.
    pub closed spec fn wf(self) -> bool {
        hashes_unique(views(self.entries@)) && self.entries@.len() <= ECHO_RECENT_CAP
    }

    /// What [`EchoTable::wf`] says of the registrations.
    pub proof fn lemma_wf(self)
        requires
            self.wf(),
        ensures
            hashes_unique(self@),
            self@.len() <= ECHO_RECENT_CAP,
    {
    }

    /// No registrations.
    pub fn new() -> (r: EchoTable)
        ensures
            r.wf(),
            r@ == Seq::<EchoView>::empty(),
    {
        let r = EchoTable { entries: Vec::new() };
        proof {
            assert(r@ =~= Seq::<EchoView>::empty());
        }
        r
    }

    /// Reclaims orphans.
    pub fn prune_echo(&mut self, now: u64)
        requires
            old(self).wf(),
        ensures
            final(self).wf(),
            final(self)@ == pruned(old(self)@, now),
    {
        let ghost all = self@;
        let ghost p = |e: EchoView| !expired(e.at, now);
        let mut out: Vec<Echo> = Vec::new();
        let mut i: usize = 0;
        proof {
            reveal(Seq::filter);
            assert(views(out@) =~= all.take(0).filter(p));
        }
        while i < self.entries.len()
            invariant
                i <= self.entries@.len(),
                all == views(self.entries@),
                p == (|e: EchoView| !expired(e.at, now)),
                views(out@) == all.take(i as int).filter(p),
            decreases self.entries@.len() - i,
        {
            let at: u64 = self.entries[i].at;
            proof {
                reveal(Seq::filter);
                assert(all.take(i + 1).drop_last() =~= all.take(i as int));
                assert(all.take(i + 1).last() == self.entries@[i as int]@);
            }
            if !(now > at && now - at > ECHO_TTL) {
                let ghost before = out@;
                out.push(Echo { hash: self.entries[i].hash.clone(), at: at });
                proof {
                    assert(views(out@) =~= views(before).push(self.entries@[i as int]@));
                }
            }
            i += 1;
        }
        proof {
            assert(all.take(i as int) =~= all);
            lemma_filter(all, p);
            assert(views(out@).len() == out@.len());
        }
        self.entries = out;
    }

    fn has(&self, hash: &str) -> (r: bool)
        ensures
            r == registered(self@, hash@),
    {
        let mut i: usize = 0;
        while i < self.entries.len()
            invariant
                i <= self.entries@.len(),
                forall|j: int| 0 <= j < i ==> (#[trigger] self@[j]).hash != hash@,
            decreases self.entries@.len() - i,
        {
            if text::same(self.entries[i].hash.as_str(), hash) {
                proof {
                    assert(self@[i as int].hash == hash@);
                }
                return true;
            }
            i += 1;
        }
        false
    }

    /// Registers the hash of one remote write.
    pub fn push_echo(&mut self, hash: String, now: u64)
        requires
            old(self).wf(),
        ensures
            final(self).wf(),
            final(self)@ == pushed(old(self)@, hash@, now),
    {
        self.prune_echo(now);
        if self.has(hash.as_str()) {
            return;
        }
        let ghost live = self@;
        if self.entries.len() >= ECHO_RECENT_CAP {
            let ghost before = self.entries@;
            let _oldest = self.entries.remove(0);
            proof {
                assert(views(self.entries@) =~= live.drop_first());
            }
        }
        let ghost room = self@;
        let ghost before = self.entries@;
        self.entries.push(Echo { hash: hash, at: now });
        proof {
            assert(views(self.entries@) =~= room.push(EchoView { hash: hash@, at: now }));
            assert forall|i: int, j: int|
                0 <= i < self@.len() && 0 <= j < self@.len() && (#[trigger] self@[i]).hash == (
                #[trigger] self@[j]).hash implies i == j by {
                let shift: int = if live.len() >= ECHO_RECENT_CAP {
                    1
                } else {
                    0
                };
                if i < room.len() {
                    assert(live[i + shift] == room[i]);
                    assert(room[i].hash == self@[i].hash);
                }
                if j < room.len() {
                    assert(live[j + shift] == room[j]);
                    assert(room[j].hash == self@[j].hash);
                }
            }
        }
    }

    /// Uses a registration up: true when the change is an echo.
    pub fn take_echo(&mut self, hash: &str, now: u64) -> (r: bool)
        requires
            old(self).wf(),
        ensures
            final(self).wf(),
            r == is_echo(old(self)@, hash@, now),
            final(self)@ == taken(old(self)@, hash@, now),
    {
        self.prune_echo(now);
        let ghost all = self@;
        let ghost p = |e: EchoView| e.hash != hash@;
        let mut out: Vec<Echo> = Vec::new();
        let mut found: bool = false;
        let mut i: usize = 0;
        proof {
            reveal(Seq::filter);
            assert(views(out@) =~= all.take(0).filter(p));
        }
        while i < self.entries.len()
            invariant
                i <= self.entries@.len(),
                all == views(self.entries@),
                p == (|e: EchoView| e.hash != hash@),
                views(out@) == all.take(i as int).filter(p),
                found == exists|j: int| 0 <= j < i && (#[trigger] all[j]).hash == hash@,
            decreases self.entries@.len() - i,
        {
            proof {
                reveal(Seq::filter);
                assert(all.take(i + 1).drop_last() =~= all.take(i as int));
                assert(all.take(i + 1).last() == self.entries@[i as int]@);
                assert(all[i as int] == self.entries@[i as int]@);
            }
            if text::same(self.entries[i].hash.as_str(), hash) {
                found = true;
            } else {
                let ghost before = out@;
                out.push(Echo { hash: self.entries[i].hash.clone(), at: self.entries[i].at });
                proof {
                    assert(views(out@) =~= views(before).push(self.entries@[i as int]@));
                }
            }
            i += 1;
        }
        proof {
            assert(all.take(i as int) =~= all);
            lemma_filter(all, p);
            assert(views(out@).len() == out@.len());
        }
        self.entries = out;
        found
    }
}

/// A write that was registered is recognised when it comes back in time.
pub proof fn law_registered_write_is_echo(s: Seq<EchoView>, hash: Seq<char>, now: u64, later: u64)
    requires
        hashes_unique(s),
        !registered(pruned(s, now), hash),
        !expired(now, later),
    ensures
        is_echo(pushed(s, hash, now), hash, later),
{
    let t = pushed(s, hash, now);
    let p = |e: EchoView| !expired(e.at, later);
    lemma_pushed_unique(s, hash, now);
    lemma_filter(t, p);
    assert(t[t.len() - 1] == EchoView { hash, at: now });
    assert(t.filter(p).contains(t[t.len() - 1]));
    let k = choose|k: int| 0 <= k < t.filter(p).len() && t.filter(p)[k] == t[t.len() - 1];
    assert(pruned(t, later)[k].hash == hash);
}

/// Registering keeps hashes unique.
pub proof fn lemma_pushed_unique(s: Seq<EchoView>, hash: Seq<char>, now: u64)
    requires
        hashes_unique(s),
    ensures
        hashes_unique(pushed(s, hash, now)),
        pushed(s, hash, now).len() <= pruned(s, now).len() + 1,
{
    lemma_filter(s, |e: EchoView| !expired(e.at, now));
    let live = pruned(s, now);
    if !registered(live, hash) {
        let shift: int = if live.len() >= ECHO_RECENT_CAP {
            1
        } else {
            0
        };
        let t = pushed(s, hash, now);
        assert forall|i: int, j: int|
            0 <= i < t.len() && 0 <= j < t.len() && (#[trigger] t[i]).hash == (#[trigger] t[j]).hash implies i
            == j by {
            if i < t.len() - 1 {
                assert(t[i] == live[i + shift]);
            }
            if j < t.len() - 1 {
                assert(t[j] == live[j + shift]);
            }
        }
    }
}

/// What can happen to the registrations.
#[verifier::ext_equal]
pub enum EchoStep {
    /// A remote write is registered
    Registered { hash: Seq<char>, at: u64 },
    /// A clipboard change uses a registration up, or a failed write takes it
    /// back
    Taken { hash: Seq<char>, at: u64 },
}

impl EchoStep {
    /// The hash that the step is about.
    pub open spec fn hash(self) -> Seq<char> {
        match self {
            EchoStep::Registered { hash, .. } => hash,
            EchoStep::Taken { hash, .. } => hash,
        }
    }

    /// When the step happens.
    pub open spec fn at(self) -> u64 {
        match self {
            EchoStep::Registered { at, .. } => at,
            EchoStep::Taken { at, .. } => at,
        }
    }
}

/// The registrations after some steps.
pub open spec fn stepped(s: Seq<EchoView>, steps: Seq<EchoStep>) -> Seq<EchoView>
    decreases steps.len(),
{
    if steps.len() == 0 {
        s
    } else {
        let before = stepped(s, steps.drop_last());
        match steps.last() {
            EchoStep::Registered { hash, at } => pushed(before, hash, at),
            EchoStep::Taken { hash, at } => taken(before, hash, at),
        }
    }
}

/// How many of the steps register another hash.
pub open spec fn others(steps: Seq<EchoStep>, hash: Seq<char>) -> nat
    decreases steps.len(),
{
    if steps.len() == 0 {
        0
    } else {
        others(steps.drop_last(), hash) + (if steps.last() is Registered && steps.last().hash() != hash {
            1nat
        } else {
            0
        })
    }
}

/// Whether the hash has a registration of that time with at most `behind`
/// registrations after it.
spec fn stands(s: Seq<EchoView>, hash: Seq<char>, at: u64, behind: nat) -> bool {
    exists|i: int| 0 <= i < s.len() && #[trigger] s[i] == (EchoView { hash, at }) && s.len() - 1 - i <= behind
}

proof fn lemma_filter_keeps_standing(
    s: Seq<EchoView>,
    p: spec_fn(EchoView) -> bool,
    hash: Seq<char>,
    at: u64,
    behind: nat,
)
    requires
        stands(s, hash, at, behind),
        p(EchoView { hash, at }),
    ensures
        stands(s.filter(p), hash, at, behind),
    decreases s.len(),
{
    reveal(Seq::filter);
    let e = EchoView { hash, at };
    let i = choose|i: int| 0 <= i < s.len() && #[trigger] s[i] == e && s.len() - 1 - i <= behind;
    let init = s.drop_last();
    let f = s.filter(p);
    if i == s.len() - 1 {
        assert(f[f.len() - 1] == e);
    } else {
        let fewer = (behind - 1) as nat;
        assert(init[i] == e);
        lemma_filter_keeps_standing(init, p, hash, at, fewer);
        let g = init.filter(p);
        let k = choose|k: int| 0 <= k < g.len() && #[trigger] g[k] == e && g.len() - 1 - k <= fewer;
        assert(f[k] == e);
    }
}

proof fn lemma_standing_is_registered(s: Seq<EchoView>, hash: Seq<char>, at: u64, behind: nat)
    requires
        stands(s, hash, at, behind),
    ensures
        registered(s, hash),
{
    let i = choose|i: int|
        0 <= i < s.len() && #[trigger] s[i] == (EchoView { hash, at }) && s.len() - 1 - i <= behind;
    assert(s[i].hash == hash);
}

proof fn lemma_steps_keep_standing(
    s: Seq<EchoView>,
    steps: Seq<EchoStep>,
    hash: Seq<char>,
    now: u64,
    ahead: nat,
)
    requires
        stands(s, hash, now, ahead),
        ahead + others(steps, hash) < ECHO_RECENT_CAP,
        forall|i: int|
            0 <= i < steps.len() ==> !expired(now, (#[trigger] steps[i]).at()) && (steps[i] is Taken
                ==> steps[i].hash() != hash),
    ensures
        stands(stepped(s, steps), hash, now, ahead + others(steps, hash)),
    decreases steps.len(),
{
    if steps.len() > 0 {
        let init = steps.drop_last();
        let step = steps.last();
        let e = EchoView { hash, at: now };
        let behind = ahead + others(init, hash);
        assert forall|i: int| 0 <= i < init.len() implies !expired(now, (#[trigger] init[i]).at()) && (
        init[i] is Taken ==> init[i].hash() != hash) by {
            assert(init[i] == steps[i]);
        }
        assert(steps[steps.len() - 1] == step);
        lemma_steps_keep_standing(s, init, hash, now, ahead);
        let t = stepped(s, init);
        let live = pruned(t, step.at());
        lemma_filter_keeps_standing(t, |x: EchoView| !expired(x.at, step.at()), hash, now, behind);
        match step {
            EchoStep::Taken { hash: gone, at } => {
                lemma_filter_keeps_standing(live, |x: EchoView| x.hash != gone, hash, now, behind);
            },
            EchoStep::Registered { hash: fresh, at } => {
                if fresh == hash {
                    lemma_standing_is_registered(live, hash, now, behind);
                } else {
                    let i = choose|i: int|
                        0 <= i < live.len() && #[trigger] live[i] == e && live.len() - 1 - i <= behind;
                    let after = pushed(t, fresh, at);
                    if registered(live, fresh) {
                        assert(after[i] == e);
                    } else if live.len() >= ECHO_RECENT_CAP {
                        assert(after[i - 1] == e);
                    } else {
                        assert(after[i] == e);
                    }
                }
            },
        }
    }
}

/// A registration counts as long as it has not expired, whatever happens
/// meanwhile to others: it is pushed out only by as many newer registrations as
/// the table has room for.
pub proof fn law_registration_outlives_others(
    s: Seq<EchoView>,
    place: int,
    steps: Seq<EchoStep>,
    later: u64,
)
    requires
        0 <= place < s.len(),
        s.len() - 1 - place + others(steps, s[place].hash) < ECHO_RECENT_CAP,
        forall|i: int|
            0 <= i < steps.len() ==> !expired(s[place].at, (#[trigger] steps[i]).at()) && (steps[i] is Taken
                ==> steps[i].hash() != s[place].hash),
        !expired(s[place].at, later),
    ensures
        is_echo(stepped(s, steps), s[place].hash, later),
{
    let hash = s[place].hash;
    let at = s[place].at;
    let ahead = (s.len() - 1 - place) as nat;
    assert(s[place] == EchoView { hash, at });
    assert(stands(s, hash, at, ahead));
    lemma_steps_keep_standing(s, steps, hash, at, ahead);
    let t = stepped(s, steps);
    let behind = ahead + others(steps, hash);
    lemma_filter_keeps_standing(t, |x: EchoView| !expired(x.at, later), hash, at, behind);
    lemma_standing_is_registered(pruned(t, later), hash, at, behind);
}

/// A write that was registered is recognised when it comes back in time,
/// whatever lands in between: other writes, fewer than the table has room for,
/// further writes of the same content, and changes that use other
/// registrations up.
pub proof fn law_write_among_others_is_echo(
    s: Seq<EchoView>,
    hash: Seq<char>,
    now: u64,
    steps: Seq<EchoStep>,
    later: u64,
)
    requires
        !registered(pruned(s, now), hash),
        others(steps, hash) < ECHO_RECENT_CAP,
        forall|i: int|
            0 <= i < steps.len() ==> !expired(now, (#[trigger] steps[i]).at()) && (steps[i] is Taken
                ==> steps[i].hash() != hash),
        !expired(now, later),
    ensures
        is_echo(stepped(pushed(s, hash, now), steps), hash, later),
{
    let first = pushed(s, hash, now);
    assert(first[first.len() - 1] == EchoView { hash, at: now });
    law_registration_outlives_others(first, first.len() - 1, steps, later);
}

proof fn lemma_filter_registers_nothing(s: Seq<EchoView>, p: spec_fn(EchoView) -> bool, hash: Seq<char>)
    requires
        forall|i: int| 0 <= i < s.len() && (#[trigger] s[i]).hash == hash ==> !p(s[i]),
    ensures
        !registered(s.filter(p), hash),
    decreases s.len(),
{
    reveal(Seq::filter);
    if s.len() > 0 {
        let init = s.drop_last();
        assert forall|i: int| 0 <= i < init.len() && (#[trigger] init[i]).hash == hash implies !p(init[i]) by {
            assert(init[i] == s[i]);
        }
        lemma_filter_registers_nothing(init, p, hash);
        let f = s.filter(p);
        assert(s[s.len() - 1] == s.last());
        assert forall|i: int| 0 <= i < f.len() implies (#[trigger] f[i]).hash != hash by {
            if i < init.filter(p).len() {
                assert(f[i] == init.filter(p)[i]);
            }
        }
    }
}

proof fn lemma_steps_register_nothing(s: Seq<EchoView>, steps: Seq<EchoStep>, hash: Seq<char>)
    requires
        !registered(s, hash),
        forall|i: int| 0 <= i < steps.len() && (#[trigger] steps[i]) is Registered ==> steps[i].hash() != hash,
    ensures
        !registered(stepped(s, steps), hash),
    decreases steps.len(),
{
    if steps.len() > 0 {
        let init = steps.drop_last();
        let step = steps.last();
        assert forall|i: int| 0 <= i < init.len() && (#[trigger] init[i]) is Registered implies init[i].hash()
            != hash by {
            assert(init[i] == steps[i]);
        }
        assert(steps[steps.len() - 1] == step);
        lemma_steps_register_nothing(s, init, hash);
        let t = stepped(s, init);
        let live = pruned(t, step.at());
        lemma_filter_registers_nothing(t, |x: EchoView| !expired(x.at, step.at()), hash);
        match step {
            EchoStep::Taken { hash: gone, at } => {
                lemma_filter_registers_nothing(live, |x: EchoView| x.hash != gone, hash);
            },
            EchoStep::Registered { hash: fresh, at } => {
                let after = pushed(t, fresh, at);
                let shift: int = if live.len() >= ECHO_RECENT_CAP {
                    1
                } else {
                    0
                };
                assert forall|i: int| 0 <= i < after.len() implies (#[trigger] after[i]).hash != hash by {
                    if registered(live, fresh) {
                        assert(after[i] == live[i]);
                    } else if i < after.len() - 1 {
                        assert(after[i] == live[i + shift]);
                    }
                }
            },
        }
    }
}

/// A registration is used up once: until the content is written again, every
/// change with the same hash is a genuine copy.
pub proof fn law_echo_is_consumed_once(
    s: Seq<EchoView>,
    hash: Seq<char>,
    now: u64,
    steps: Seq<EchoStep>,
    later: u64,
)
    requires
        forall|i: int| 0 <= i < steps.len() && (#[trigger] steps[i]) is Registered ==> steps[i].hash() != hash,
    ensures
        !is_echo(stepped(taken(s, hash, now), steps), hash, later),
{
    lemma_filter_registers_nothing(pruned(s, now), |e: EchoView| e.hash != hash, hash);
    lemma_steps_register_nothing(taken(s, hash, now), steps, hash);
    let t = stepped(taken(s, hash, now), steps);
    lemma_filter_registers_nothing(t, |x: EchoView| !expired(x.at, later), hash);
}

/// Registering the same hash twice leaves one registration: two peers that
/// send the same text cannot make a later genuine copy disappear.
pub proof fn law_duplicate_registration_is_one(s: Seq<EchoView>, hash: Seq<char>, now: u64)
    requires
        hashes_unique(s),
    ensures
        pushed(pushed(s, hash, now), hash, now) == pushed(s, hash, now),
{
    let t = pushed(s, hash, now);
    let live = pruned(s, now);
    let p = |e: EchoView| !expired(e.at, now);
    lemma_filter(s, p);
    lemma_pushed_unique(s, hash, now);
    assert forall|i: int| 0 <= i < t.len() implies p(#[trigger] t[i]) by {
        let shift: int = if !registered(live, hash) && live.len() >= ECHO_RECENT_CAP {
            1
        } else {
            0
        };
        if i < t.len() - 1 || registered(live, hash) {
            assert(t[i] == live[i + shift]);
            assert(p(s.filter(p)[i + shift]));
        }
    }
    lemma_filter_all(t, p);
    if !registered(live, hash) {
        assert(t[t.len() - 1].hash == hash);
    }
}

proof fn lemma_filter_all(s: Seq<EchoView>, p: spec_fn(EchoView) -> bool)
    requires
        forall|i: int| 0 <= i < s.len() ==> p(#[trigger] s[i]),
    ensures
        s.filter(p) == s,
    decreases s.len(),
{
    reveal(Seq::filter);
    if s.len() > 0 {
        lemma_filter_all(s.drop_last(), p);
        assert(s.drop_last().push(s.last()) =~= s);
    }
}

/// An orphan does not swallow a genuine copy: a registration that is too old
/// counts for nothing.
pub proof fn law_orphan_expires(s: Seq<EchoView>, hash: Seq<char>, now: u64)
    requires
        hashes_unique(s),
        forall|i: int| 0 <= i < s.len() && (#[trigger] s[i]).hash == hash ==> expired(s[i].at, now),
    ensures
        !is_echo(s, hash, now),
{
    let p = |e: EchoView| !expired(e.at, now);
    lemma_filter(s, p);
    assert forall|i: int| 0 <= i < pruned(s, now).len() implies (#[trigger] pruned(s, now)[i]).hash
        != hash by {
        assert(s.contains(s.filter(p)[i]));
        let k = choose|k: int| 0 <= k < s.len() && s[k] == s.filter(p)[i];
        assert(p(s.filter(p)[i]));
        assert(s[k].hash == pruned(s, now)[i].hash);
    }
}

/// A clock that jumps backwards reclaims nothing.
pub proof fn law_clock_jump_keeps_registrations(s: Seq<EchoView>, now: u64)
    requires
        forall|i: int| 0 <= i < s.len() ==> now <= (#[trigger] s[i]).at,
    ensures
        pruned(s, now) == s,
{
    lemma_filter_all(s, |e: EchoView| !expired(e.at, now));
}

/// Taking back a registration that was just made restores the live
/// registrations, unless the registration had pushed the oldest one out.
pub proof fn law_cancel_undoes_registration(s: Seq<EchoView>, hash: Seq<char>, now: u64)
    requires
        hashes_unique(s),
        !registered(pruned(s, now), hash),
        pruned(s, now).len() < ECHO_RECENT_CAP,
    ensures
        taken(pushed(s, hash, now), hash, now) == pruned(s, now),
{
    let live = pruned(s, now);
    let t = pushed(s, hash, now);
    let p = |e: EchoView| !expired(e.at, now);
    let q = |e: EchoView| e.hash != hash;
    lemma_filter(s, p);
    assert forall|i: int| 0 <= i < t.len() implies p(#[trigger] t[i]) by {
        if i < live.len() {
            assert(t[i] == live[i]);
            assert(p(s.filter(p)[i]));
        }
    }
    lemma_filter_all(t, p);
    assert forall|i: int| 0 <= i < live.len() implies q(#[trigger] live[i]) by {}
    lemma_filter_all(live, q);
    reveal(Seq::filter);
    assert(t.drop_last() =~= live);
    assert(t.last().hash == hash);
}

proof fn lemma_filter_is(s: Seq<EchoView>, p: spec_fn(EchoView) -> bool, e: EchoView)
    ensures
        s.filter(p).contains(e) <==> s.contains(e) && p(e),
{
    let f = s.filter(p);
    if s.contains(e) && p(e) {
        let i = choose|i: int| 0 <= i < s.len() && s[i] == e;
        s.lemma_filter_contains(p, i);
    }
    if f.contains(e) {
        let j = choose|j: int| 0 <= j < f.len() && f[j] == e;
        s.lemma_filter_pred(p, j);
        s.lemma_filter_contains_rev(p, e);
    }
}

/// A change is an echo exactly when its hash was registered and the registration
/// is not older than four seconds.
pub proof fn law_echo_needs_a_recent_registration(s: Seq<EchoView>, hash: Seq<char>, now: u64)
    ensures
        is_echo(s, hash, now) <==> exists|i: int|
            0 <= i < s.len() && (#[trigger] s[i]).hash == hash && now <= s[i].at + 4_000,
{
    let p = |e: EchoView| !expired(e.at, now);
    let live = pruned(s, now);
    if is_echo(s, hash, now) {
        let k = choose|k: int| 0 <= k < live.len() && (#[trigger] live[k]).hash == hash;
        lemma_filter_is(s, p, live[k]);
        assert(live.contains(live[k]));
        let i = choose|i: int| 0 <= i < s.len() && s[i] == live[k];
        assert(s[i].hash == hash && now <= s[i].at + 4_000);
    }
    if exists|i: int| 0 <= i < s.len() && (#[trigger] s[i]).hash == hash && now <= s[i].at + 4_000 {
        let i = choose|i: int|
            0 <= i < s.len() && (#[trigger] s[i]).hash == hash && now <= s[i].at + 4_000;
        lemma_filter_is(s, p, s[i]);
        assert(s.contains(s[i]));
        let k = choose|k: int| 0 <= k < live.len() && live[k] == s[i];
        assert(live[k].hash == hash);
    }
}

/// Using a registration up leaves every other recent one, and nothing else.
pub proof fn law_only_the_echo_is_used_up(
    s: Seq<EchoView>,
    hash: Seq<char>,
    now: u64,
    e: EchoView,
)
    ensures
        taken(s, hash, now).contains(e) <==> s.contains(e) && e.hash != hash && now <= e.at + 4_000,
{
    lemma_filter_is(s, |e: EchoView| !expired(e.at, now), e);
    lemma_filter_is(pruned(s, now), |e: EchoView| e.hash != hash, e);
}

/// A write is registered with its time and goes last. While there is room every
/// recent registration stays; in a full table the first one goes and the
/// others stay. A hash that is registered keeps the time that it has.
pub proof fn law_registering_makes_room(s: Seq<EchoView>, hash: Seq<char>, now: u64, e: EchoView)
    ensures
        ({
            let live = pruned(s, now);
            let after = pushed(s, hash, now);
            &&& live.contains(e) <==> s.contains(e) && now <= e.at + 4_000
            &&& is_echo(s, hash, now) ==> after == live
            &&& !is_echo(s, hash, now) ==> {
                &&& after.last() == (EchoView { hash, at: now })
                &&& live.len() < 8 ==> after.drop_last() == live
                &&& live.len() >= 8 ==> after.drop_last() == live.skip(1)
            }
            &&& s.len() <= 8 ==> after.len() <= 8
        }),
{
    let p = |e: EchoView| !expired(e.at, now);
    lemma_filter_is(s, p, e);
    s.lemma_filter_len(p);
    let live = pruned(s, now);
    let after = pushed(s, hash, now);
    if !registered(live, hash) {
        if live.len() < 8 {
            assert(after.drop_last() =~= live);
        } else {
            assert(after.drop_last() =~= live.skip(1));
        }
    }
}

} // verus!
