//! The pairing set: the devices whose syncs are accepted.

use vstd::prelude::*;
use crate::order::{self, text_less, Ranked};
use crate::paths;
use crate::protocol::{PeerInfo, PeerInfoView};
use crate::table::Table;
use crate::text::{self, views};

verus! {

/// File that the pairing set is kept in.
pub const PAIRED_FILE: &'static str = "paired.json";

/// One pairing.
#[derive(Debug, PartialEq, Eq)]
pub struct PairedPeer {
    /// Certificate fingerprint of the peer: the key
    pub fingerprint: String,
    /// Device ID of the peer
    pub device_id: String,
    /// Display name at pairing time
    pub name: String,
    /// When the pairing was made (Unix milliseconds)
    pub paired_at_ms: u64,
}

/// What a [`PairedPeer`] stands for.
#[verifier::ext_equal]
pub struct PairedPeerView {
    pub fingerprint: Seq<char>,
    pub device_id: Seq<char>,
    pub name: Seq<char>,
    pub paired_at_ms: u64,
}

impl View for PairedPeer {
    type V = PairedPeerView;

    open spec fn view(&self) -> PairedPeerView {
        PairedPeerView {
            fingerprint: self.fingerprint@,
            device_id: self.device_id@,
            name: self.name@,
            paired_at_ms: self.paired_at_ms,
        }
    }
}

impl Clone for PairedPeer {
    fn clone(&self) -> (r: Self)
        ensures
            r == *self,
    {
        PairedPeer {
            fingerprint: self.fingerprint.clone(),
            device_id: self.device_id.clone(),
            name: self.name.clone(),
            paired_at_ms: self.paired_at_ms,
        }
    }
}

impl PairedPeerView {
    /// List order: by name, then by fingerprint.
    pub open spec fn listed_before(self, other: PairedPeerView) -> bool {
        text_less(self.name, other.name) || (self.name == other.name && text_less(
            self.fingerprint,
            other.fingerprint,
        ))
    }
}

impl Ranked for PairedPeer {
    open spec fn rank_less(&self, other: &Self) -> bool {
        self@.listed_before(other@)
    }

    proof fn lemma_rank(a: &Self, b: &Self, c: &Self) {
        order::lemma_text_order(a.name@, b.name@, c.name@);
        order::lemma_text_order(b.name@, a.name@, c.name@);
        order::lemma_text_order(b.name@, c.name@, a.name@);
        order::lemma_text_order(c.name@, b.name@, a.name@);
        order::lemma_text_order(a.name@, c.name@, b.name@);
        order::lemma_text_order(a.name@, a.name@, a.name@);
        order::lemma_text_order(a.fingerprint@, b.fingerprint@, c.fingerprint@);
    }

    fn is_less(&self, other: &Self) -> (r: bool) {
        order::is_text_less(self.name.as_str(), other.name.as_str()) || (text::same(
            self.name.as_str(),
            other.name.as_str(),
        ) && order::is_text_less(self.fingerprint.as_str(), other.fingerprint.as_str()))
    }
}

/// The pairing that a handshake leaves behind.
pub open spec fn pairing_of(info: PeerInfoView, now_ms: u64) -> PairedPeerView {
    PairedPeerView {
        fingerprint: info.fingerprint,
        device_id: info.device_id,
        name: info.name,
        paired_at_ms: now_ms,
    }
}

/// The set that a list of records makes: of two records for one fingerprint
/// the later one stays.
pub open spec fn collected(list: Seq<PairedPeerView>) -> Map<Seq<char>, PairedPeerView>
    decreases list.len(),
{
    if list.len() == 0 {
        Map::empty()
    } else {
        collected(list.drop_last()).insert(list.last().fingerprint, list.last())
    }
}

/// `list` holds every pairing of the set once, in list order.
pub open spec fn listing_of(
    set: Map<Seq<char>, PairedPeerView>,
    list: Seq<PairedPeerView>,
) -> bool {
    &&& forall|i: int|
        0 <= i < list.len() ==> set.dom().contains((#[trigger] list[i]).fingerprint)
            && set[list[i].fingerprint] == list[i]
    &&& forall|k: Seq<char>| #[trigger]
        set.dom().contains(k) ==> exists|i: int| 0 <= i < list.len() && (#[trigger] list[i]).fingerprint == k
    &&& forall|i: int, j: int|
        0 <= i < j < list.len() ==> (#[trigger] list[i]).listed_before(#[trigger] list[j])
}

/// The pairing set.
pub struct PairedStore {
    path: String,
    map: Table<PairedPeer>,
}

impl View for PairedStore {
    type V = Map<Seq<char>, PairedPeerView>;

    closed spec fn view(&self) -> Map<Seq<char>, PairedPeerView> {
        self.map@.map_values(|p: PairedPeer| p@)
    }
}

impl PairedStore {
    /// Every record stands under its own fingerprint.
    pub closed spec fn wf(self) -> bool {
        &&& self.map.wf()
        &&& forall|k: Seq<char>| #[trigger]
            self.map@.dom().contains(k) ==> self.map@[k].fingerprint@ == k
    }

    /// Where the set is kept.
    pub closed spec fn file(self) -> Seq<char> {
        self.path@
    }

    /// A record stands under its own fingerprint.
    pub proof fn law_record_stands_under_its_fingerprint(self, k: Seq<char>)
        requires
            self.wf(),
            self@.dom().contains(k),
        ensures
            self@[k].fingerprint == k,
    {
        assert(self.map@.dom().contains(k));
    }

    /// The set from what was read back: no records when the file is missing or
    /// cannot be parsed.
    pub fn load(dir: &str, records: Option<Vec<PairedPeer>>) -> (r: PairedStore)
        ensures
            r.wf(),
            r.file() == paths::joined_path(dir@, PAIRED_FILE@),
            r@ == match records {
                Some(list) => collected(views(list@)),
                None => Map::empty(),
            },
    {
        let mut store = PairedStore { path: paths::join(dir, PAIRED_FILE), map: Table::new() };
        proof {
            assert(store@ =~= Map::empty());
        }
        match records {
            None => store,
            Some(list) => {
                let ghost all = views(list@);
                let mut i: usize = 0;
                proof {
                    assert(all.take(0) =~= Seq::empty());
                }
                while i < list.len()
                    invariant
                        i <= list.len(),
                        all == views(list@),
                        store.wf(),
                        store.file() == paths::joined_path(dir@, PAIRED_FILE@),
                        store@ == collected(all.take(i as int)),
                    decreases list.len() - i,
                {
                    proof {
                        assert(all.take(i + 1).drop_last() =~= all.take(i as int));
                        assert(all.take(i + 1).last() == list@[i as int]@);
                    }
                    store.put(list[i].clone());
                    i += 1;
                }
                proof {
                    assert(all.take(i as int) =~= all);
                }
                store
            },
        }
    }

    fn put(&mut self, record: PairedPeer)
        requires
            old(self).wf(),
        ensures
            final(self).wf(),
            final(self)@ == old(self)@.insert(record.fingerprint@, record@),
            final(self).file() == old(self).file(),
    {
        let ghost before = self.map@;
        self.map.insert(record.fingerprint.clone(), record);
        proof {
            assert(self@ =~= before.map_values(|p: PairedPeer| p@).insert(
                record.fingerprint@,
                record@,
            ));
        }
    }

    /// Whether the fingerprint is paired.
    pub fn contains(&self, fingerprint: &str) -> (r: bool)
        requires
            self.wf(),
        ensures
            r == self@.dom().contains(fingerprint@),
    {
        self.map.contains(fingerprint)
    }

    /// Where the set is kept.
    pub fn path(&self) -> (r: String)
        ensures
            r@ == self.file(),
    {
        self.path.clone()
    }

    /// Writes one pairing; an earlier one of the same device is replaced.
    pub fn insert(&mut self, info: &PeerInfo, now_ms: u64)
        requires
            old(self).wf(),
        ensures
            final(self).wf(),
            final(self)@ == old(self)@.insert(info@.fingerprint, pairing_of(info@, now_ms)),
            final(self).file() == old(self).file(),
    {
        self.put(
            PairedPeer {
                fingerprint: info.fingerprint.clone(),
                device_id: info.device_id.clone(),
                name: info.name.clone(),
                paired_at_ms: now_ms,
            },
        );
    }

    /// Removes one pairing; says whether it was there.
    pub fn remove(&mut self, fingerprint: &str) -> (r: bool)
        requires
            old(self).wf(),
        ensures
            final(self).wf(),
            final(self)@ == old(self)@.remove(fingerprint@),
            r == old(self)@.dom().contains(fingerprint@),
            final(self).file() == old(self).file(),
    {
        let ghost before = self.map@;
        let gone = self.map.remove(fingerprint);
        proof {
            assert(self@ =~= before.map_values(|p: PairedPeer| p@).remove(fingerprint@));
        }
        gone.is_some()
    }

    /// Every pairing, by name and then by fingerprint.
    pub fn list(&self) -> (r: Vec<PairedPeer>)
        requires
            self.wf(),
        ensures
            listing_of(self@, views(r@)),
    {
        let mut all: Vec<PairedPeer> = Vec::new();
        let mut i: usize = 0;
        while i < self.map.len()
            invariant
                i <= self.map.rows().len(),
                all.len() == i,
                forall|j: int| 0 <= j < i ==> #[trigger] all@[j] == self.map.rows()[j].value,
            decreases self.map.rows().len() - i,
        {
            let row = self.map.row(i);
            all.push(row.value.clone());
            i += 1;
        }
        let places: Vec<usize> = order::sorted_places(&all);
        let mut out: Vec<PairedPeer> = Vec::new();
        let mut k: usize = 0;
        while k < places.len()
            invariant
                k <= places.len(),
                order::stable_order(all@, places@),
                out.len() == k,
                forall|j: int| 0 <= j < k ==> #[trigger] out@[j] == all@[places@[j] as int],
            decreases places.len() - k,
        {
            let at: usize = places[k];
            out.push(all[at].clone());
            k += 1;
        }
        proof {
            self.map.lemma_rows();
            let rows = self.map.rows();
            let list = views(out@);
            assert forall|a: int| 0 <= a < list.len() implies self@.dom().contains(
                (#[trigger] list[a]).fingerprint,
            ) && self@[list[a].fingerprint] == list[a] by {
                let row = rows[places@[a] as int];
                assert(out@[a] == row.value);
                assert(self.map@.dom().contains(row.key@));
                assert(row.value.fingerprint@ == row.key@);
            }
            assert forall|key: Seq<char>| #[trigger] self@.dom().contains(key) implies exists|a: int|
                0 <= a < list.len() && (#[trigger] list[a]).fingerprint == key by {
                assert(self.map@.dom().contains(key));
                let p = crate::table::place(rows, key);
                assert(rows[p].key@ == key);
                assert(places@.contains(p as usize));
                let a = choose|a: int| 0 <= a < places@.len() && places@[a] == p as usize;
                assert(out@[a] == rows[p].value);
                assert(list[a].fingerprint == key);
            }
            assert forall|a: int, b: int| 0 <= a < b < list.len() implies (#[trigger] list[a]).listed_before(
                #[trigger] list[b],
            ) by {
                let pa = places@[a] as int;
                let pb = places@[b] as int;
                assert(order::precedes(all@, pa, pb));
                assert(out@[a] == all@[pa]);
                assert(out@[b] == all@[pb]);
                order::lemma_precedes_distinct(all@, pa, pb);
                if !all@[pa]@.listed_before(all@[pb]@) {
                    order::lemma_text_order(all@[pa].name@, all@[pb].name@, all@[pa].name@);
                    order::lemma_text_order(
                        all@[pa].fingerprint@,
                        all@[pb].fingerprint@,
                        all@[pa].fingerprint@,
                    );
                    assert(rows[pa].key@ == rows[pb].key@);
                    assert(false);
                }
            }
        }
        out
    }
}

/// A pairing that was written is there, with the name and the time it was
/// written with, and one that was removed is not; nothing else changes.
pub proof fn law_insert_then_remove(
    set: Map<Seq<char>, PairedPeerView>,
    info: PeerInfoView,
    now_ms: u64,
    other: Seq<char>,
)
    requires
        other != info.fingerprint,
    ensures
        ({
            let added = set.insert(info.fingerprint, pairing_of(info, now_ms));
            let removed = added.remove(info.fingerprint);
            &&& added.dom().contains(info.fingerprint)
            &&& added[info.fingerprint] == pairing_of(info, now_ms)
            &&& !removed.dom().contains(info.fingerprint)
            &&& added.dom().contains(other) == set.dom().contains(other)
            &&& removed.dom().contains(other) == set.dom().contains(other)
        }),
{
}

/// Writing the list of a set out and reading it back gives the set.
pub proof fn law_list_reloads(set: Map<Seq<char>, PairedPeerView>, list: Seq<PairedPeerView>)
    requires
        listing_of(set, list),
    ensures
        collected(list) =~= set,
{
    lemma_collected(list);
    assert forall|i: int, j: int|
        0 <= i < list.len() && 0 <= j < list.len() && (#[trigger] list[i]).fingerprint == (
        #[trigger] list[j]).fingerprint implies list[i] == list[j] by {
        assert(set[list[i].fingerprint] == list[i]);
        assert(set[list[j].fingerprint] == list[j]);
    }
    assert forall|k: Seq<char>| #[trigger] collected(list).dom().contains(k) == set.dom().contains(k) by {
        if set.dom().contains(k) {
            let i = choose|i: int| 0 <= i < list.len() && (#[trigger] list[i]).fingerprint == k;
            assert(list[i].fingerprint == k);
        }
    }
}

proof fn lemma_collected(list: Seq<PairedPeerView>)
    ensures
        forall|k: Seq<char>| #[trigger]
            collected(list).dom().contains(k) ==> exists|i: int|
                0 <= i < list.len() && (#[trigger] list[i]).fingerprint == k && collected(list)[k] == list[i],
        forall|i: int|
            0 <= i < list.len() ==> collected(list).dom().contains((#[trigger] list[i]).fingerprint),
    decreases list.len(),
{
    if list.len() > 0 {
        let before = list.drop_last();
        lemma_collected(before);
        assert forall|k: Seq<char>| #[trigger] collected(list).dom().contains(k) implies exists|i: int|
            0 <= i < list.len() && (#[trigger] list[i]).fingerprint == k && collected(list)[k] == list[i] by {
            if k == list.last().fingerprint {
                assert(list[list.len() - 1].fingerprint == k);
            } else {
                assert(collected(before).dom().contains(k));
                let i = choose|i: int|
                    0 <= i < before.len() && (#[trigger] before[i]).fingerprint == k && collected(before)[k]
                        == before[i];
                assert(list[i].fingerprint == k);
            }
        }
        assert forall|i: int| 0 <= i < list.len() implies collected(list).dom().contains(
            (#[trigger] list[i]).fingerprint,
        ) by {
            if i < before.len() {
                assert(before[i] == list[i]);
                assert(collected(before).dom().contains(before[i].fingerprint));
            }
        }
    }
}

/// A pairing remembers the fingerprint, the device, the name and the time.
pub proof fn law_pairing_remembers(info: PeerInfoView, now_ms: u64)
    ensures
        pairing_of(info, now_ms).fingerprint == info.fingerprint,
        pairing_of(info, now_ms).device_id == info.device_id,
        pairing_of(info, now_ms).name == info.name,
        pairing_of(info, now_ms).paired_at_ms == now_ms,
{
}

/// Reading records back takes every one of them in; of two for one fingerprint
/// the later one counts.
pub proof fn law_later_record_counts(
    list: Seq<PairedPeerView>,
    record: PairedPeerView,
    other: Seq<char>,
)
    ensures
        collected(Seq::empty()).dom() == Set::<Seq<char>>::empty(),
        collected(list.push(record)).dom().contains(record.fingerprint),
        collected(list.push(record))[record.fingerprint] == record,
        other != record.fingerprint ==> collected(list.push(record)).dom().contains(other)
            == collected(list).dom().contains(other),
        other != record.fingerprint && collected(list).dom().contains(other) ==> collected(
            list.push(record),
        )[other] == collected(list)[other],
{
    assert(list.push(record).drop_last() =~= list);
    assert(collected(Seq::empty()).dom() =~= Set::<Seq<char>>::empty());
}

/// The list is by name, and by fingerprint where the names are the same; no two
/// records tie.
pub proof fn law_list_is_by_name(a: PairedPeerView, b: PairedPeerView)
    ensures
        text_less(a.name, b.name) ==> a.listed_before(b) && !b.listed_before(a),
        a.name == b.name ==> a.listed_before(b) == text_less(a.fingerprint, b.fingerprint),
        a.fingerprint != b.fingerprint ==> a.listed_before(b) || b.listed_before(a),
        !a.listed_before(a),
{
    order::lemma_text_order(a.name, b.name, a.name);
    order::lemma_text_order(a.name, a.name, a.name);
    order::lemma_text_order(a.fingerprint, b.fingerprint, a.fingerprint);
    order::lemma_text_order(a.fingerprint, a.fingerprint, a.fingerprint);
}

} // verus!
