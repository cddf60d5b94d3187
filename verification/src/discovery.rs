//! Peer discovery: the node registry that merges the mDNS and the UDP channel.

use vstd::prelude::*;
use crate::config::PEER_PROBE_INTERVAL;
use crate::protocol::{PeerInfo, PeerInfoView};
use crate::table::Table;
use crate::text::{self, views};

verus! {

/// mDNS service type.
pub const MDNS_SERVICE_TYPE: &'static str = "_lanecho._tcp.local.";

/// An IP address as a number.
#[derive(PartialEq, Eq, Structural, Clone, Copy, Debug)]
pub enum Address {
    /// IPv4, highest octet first
    V4(u32),
    /// IPv6, highest segment first
    V6(u128),
}

impl Address {
    /// The loopback network 127.0.0.0/8, or the address ::1.
    pub open spec fn loopback(self) -> bool {
        match self {
            Address::V4(n) => n / 0x100_0000 == 127,
            Address::V6(n) => n == 1,
        }
    }

    /// The IPv6 link-local network fe80::/10.
    pub open spec fn link_local(self) -> bool {
        match self {
            Address::V4(_) => false,
            Address::V6(n) => 0xfe80_0000_0000_0000_0000_0000_0000_0000 <= n
                <= 0xfebf_ffff_ffff_ffff_ffff_ffff_ffff_ffff,
        }
    }

    /// How late the address is tried: loopback after the rest, and IPv6 after
    /// IPv4.
    pub open spec fn dial_rank(self) -> int {
        (if self.loopback() {
            2int
        } else {
            0
        }) + (if self is V4 {
            0int
        } else {
            1
        })
    }

    /// Whether the address is a loopback address.
    pub fn is_loopback(&self) -> (r: bool)
        ensures
            r == self.loopback(),
    {
        match self {
            Address::V4(n) => *n / 0x100_0000 == 127,
            Address::V6(n) => *n == 1,
        }
    }
}

/// Whether the address is an IPv6 link-local address: without a scope it
/// cannot be dialed.
pub fn is_link_local_v6(ip: &Address) -> (r: bool)
    ensures
        r == ip.link_local(),
{
    match ip {
        Address::V4(_) => false,
        Address::V6(n) => 0xfe80_0000_0000_0000_0000_0000_0000_0000 <= *n && *n
            <= 0xfebf_ffff_ffff_ffff_ffff_ffff_ffff_ffff,
    }
}

/// The addresses of one dial rank that can be dialed, in the given order.
pub open spec fn of_rank(all: Seq<Address>, rank: int) -> Seq<Address> {
    all.filter(|a: Address| !a.link_local() && a.dial_rank() == rank)
}

/// The addresses that can be dialed, by dial rank; within a rank the given
/// order stays.
pub open spec fn normalized(all: Seq<Address>) -> Seq<Address> {
    of_rank(all, 0) + of_rank(all, 1) + of_rank(all, 2) + of_rank(all, 3)
}

/// Whether the addresses stand in the order in which they are tried:
/// loopback after the rest, and in either group IPv6 after IPv4.
pub open spec fn in_dial_order(all: Seq<Address>) -> bool {
    forall|i: int, j: int|
        0 <= i <= j < all.len() ==> (#[trigger] all[i]).dial_rank() <= (#[trigger] all[j]).dial_rank()
}

/// Whether the addresses are a node's: there is one, none is link-local, and
/// they stand in dial order.
pub open spec fn are_dialable(all: Seq<Address>) -> bool {
    &&& all.len() > 0
    &&& forall|i: int| 0 <= i < all.len() ==> !(#[trigger] all[i]).link_local()
    &&& in_dial_order(all)
}

/// The addresses of a list with those of a second list that are not there yet
/// behind them.
pub open spec fn merged(known: Seq<Address>, new: Seq<Address>) -> Seq<Address>
    decreases new.len(),
{
    if new.len() == 0 {
        known
    } else {
        let before = merged(known, new.drop_last());
        if before.contains(new.last()) {
            before
        } else {
            before.push(new.last())
        }
    }
}

fn push_rank(out: &mut Vec<Address>, all: &Vec<Address>, loopback: bool, v4: bool)
    ensures
        final(out)@ == old(out)@ + of_rank(
            all@,
            (if loopback {
                2int
            } else {
                0
            }) + (if v4 {
                0int
            } else {
                1
            }),
        ),
{
    let ghost rank = (if loopback {
        2int
    } else {
        0
    }) + (if v4 {
        0int
    } else {
        1
    });
    let ghost p = |a: Address| !a.link_local() && a.dial_rank() == rank;
    let ghost head = out@;
    let mut i: usize = 0;
    proof {
        reveal(Seq::filter);
        assert(out@ =~= head + all@.take(0).filter(p));
    }
    while i < all.len()
        invariant
            i <= all.len(),
            p == (|a: Address| !a.link_local() && a.dial_rank() == rank),
            rank == (if loopback {
                2int
            } else {
                0
            }) + (if v4 {
                0int
            } else {
                1
            }),
            out@ == head + all@.take(i as int).filter(p),
        decreases all.len() - i,
    {
        let a: Address = all[i];
        let is_v4 = match a {
            Address::V4(_) => true,
            Address::V6(_) => false,
        };
        proof {
            reveal(Seq::filter);
            assert(all@.take(i + 1).drop_last() =~= all@.take(i as int));
            assert(all@.take(i + 1).last() == a);
        }
        if !is_link_local_v6(&a) && a.is_loopback() == loopback && is_v4 == v4 {
            proof {
                assert(p(a));
                assert(head + all@.take(i as int).filter(p).push(a) =~= (head + all@.take(
                    i as int,
                ).filter(p)).push(a));
            }
            out.push(a);
        } else {
            proof {
                assert(!p(a));
            }
        }
        i += 1;
    }
    proof {
        assert(all@.take(i as int) =~= all@);
    }
}

/// Drops the addresses that cannot be dialed and puts non-loopback IPv4 first.
/// The result may be empty.
pub fn normalize_addrs(all: &Vec<Address>) -> (r: Vec<Address>)
    ensures
        r@ == normalized(all@),
{
    let mut out: Vec<Address> = Vec::new();
    push_rank(&mut out, all, false, true);
    push_rank(&mut out, all, false, false);
    push_rank(&mut out, all, true, true);
    push_rank(&mut out, all, true, false);
    proof {
        assert(out@ =~= normalized(all@));
    }
    out
}

fn contains_addr(all: &Vec<Address>, a: Address) -> (r: bool)
    ensures
        r == all@.contains(a),
{
    let mut i: usize = 0;
    while i < all.len()
        invariant
            i <= all.len(),
            forall|j: int| 0 <= j < i ==> all@[j] != a,
        decreases all.len() - i,
    {
        if all[i] == a {
            return true;
        }
        i += 1;
    }
    false
}

fn merge_addrs(known: &Vec<Address>, new: &Vec<Address>) -> (r: Vec<Address>)
    ensures
        r@ == merged(known@, new@),
{
    let mut out: Vec<Address> = Vec::new();
    let mut k: usize = 0;
    while k < known.len()
        invariant
            k <= known.len(),
            out@ == known@.take(k as int),
        decreases known.len() - k,
    {
        proof {
            assert(known@.take(k + 1) =~= known@.take(k as int).push(known@[k as int]));
        }
        out.push(known[k]);
        k += 1;
    }
    let mut i: usize = 0;
    proof {
        assert(known@.take(k as int) =~= known@);
        assert(new@.take(0) =~= Seq::<Address>::empty());
    }
    while i < new.len()
        invariant
            i <= new.len(),
            out@ == merged(known@, new@.take(i as int)),
        decreases new.len() - i,
    {
        proof {
            assert(new@.take(i + 1).drop_last() =~= new@.take(i as int));
            assert(new@.take(i + 1).last() == new@[i as int]);
        }
        if !contains_addr(&out, new[i]) {
            out.push(new[i]);
        }
        i += 1;
    }
    proof {
        assert(new@.take(i as int) =~= new@);
    }
    out
}

fn same_addrs(a: &Vec<Address>, b: &Vec<Address>) -> (r: bool)
    ensures
        r == (a@ == b@),
{
    if a.len() != b.len() {
        return false;
    }
    let mut i: usize = 0;
    while i < a.len()
        invariant
            i <= a.len(),
            a.len() == b.len(),
            forall|j: int| 0 <= j < i ==> a@[j] == b@[j],
        decreases a.len() - i,
    {
        if a[i] != b[i] {
            return false;
        }
        i += 1;
    }
    proof {
        assert(a@ =~= b@);
    }
    true
}

/// An online node.
#[derive(Debug, PartialEq, Eq)]
pub struct Peer {
    /// Device info
    pub info: PeerInfo,
    /// Candidate addresses, in the order in which they are tried
    pub addrs: Vec<Address>,
    /// TCP port
    pub port: u16,
}

/// What a [`Peer`] stands for.
#[verifier::ext_equal]
pub struct PeerView {
    pub info: PeerInfoView,
    pub addrs: Seq<Address>,
    pub port: u16,
}

impl View for Peer {
    type V = PeerView;

    open spec fn view(&self) -> PeerView {
        PeerView { info: self.info@, addrs: self.addrs@, port: self.port }
    }
}

impl Peer {
    /// A copy of the node.
    pub fn duplicate(&self) -> (r: Peer)
        ensures
            r@ == self@,
    {
        let addrs: Vec<Address> = self.addrs.clone();
        proof {
            assert(addrs@ =~= self.addrs@);
        }
        Peer { info: self.info.clone(), addrs: addrs, port: self.port }
    }

    /// Whether two nodes agree in every field.
    pub fn same(&self, other: &Peer) -> (r: bool)
        ensures
            r == (self@ == other@),
    {
        self.info.same(&other.info) && same_addrs(&self.addrs, &other.addrs) && self.port
            == other.port
    }
}

/// A node came or went.
#[derive(Debug, PartialEq, Eq)]
pub enum PeerEvent {
    /// The node came online, or its info changed
    Up(Peer),
    /// The node with that fingerprint went offline
    Down(String),
}

/// What a [`PeerEvent`] stands for.
#[verifier::ext_equal]
pub enum PeerEventView {
    Up(PeerView),
    Down(Seq<char>),
}

impl View for PeerEvent {
    type V = PeerEventView;

    open spec fn view(&self) -> PeerEventView {
        match *self {
            PeerEvent::Up(p) => PeerEventView::Up(p@),
            PeerEvent::Down(f) => PeerEventView::Down(f@),
        }
    }
}

/// The channel that a sighting came from.
#[derive(PartialEq, Eq, Structural, Clone, Copy, Debug)]
pub enum PeerSource {
    /// mDNS browsing: no heartbeat while the service stays up
    Mdns,
    /// UDP multicast: one heartbeat per period
    Udp,
}

/// A node inside the registry. Liveness is tracked per channel.
pub struct PeerState {
    /// The node
    pub peer: Peer,
    /// The last UDP heartbeat (monotonic milliseconds)
    pub last_udp: Option<u64>,
    /// The mDNS service is up
    pub mdns_alive: bool,
    /// The last liveness probe (monotonic milliseconds)
    pub last_probe: Option<u64>,
}

/// What a [`PeerState`] stands for.
#[verifier::ext_equal]
pub struct PeerStateView {
    pub peer: PeerView,
    pub last_udp: Option<u64>,
    pub mdns_alive: bool,
    pub last_probe: Option<u64>,
}

impl View for PeerState {
    type V = PeerStateView;

    open spec fn view(&self) -> PeerStateView {
        PeerStateView {
            peer: self.peer@,
            last_udp: self.last_udp,
            mdns_alive: self.mdns_alive,
            last_probe: self.last_probe,
        }
    }
}

/// Whether more than `limit` went by since `at`; a clock that went backwards
/// counts as nothing gone by.
pub open spec fn older_than(at: Option<u64>, now: u64, limit: u64) -> bool {
    match at {
        None => true,
        Some(t) => now > t && now - t > limit,
    }
}

fn is_older_than(at: Option<u64>, now: u64, limit: u64) -> (r: bool)
    ensures
        r == older_than(at, now, limit),
{
    match at {
        None => true,
        Some(t) => now > t && now - t > limit,
    }
}

impl PeerStateView {
    /// No UDP heartbeat within the limit.
    pub open spec fn udp_silent(self, now: u64, timeout: u64) -> bool {
        older_than(self.last_udp, now, timeout)
    }

    /// Dead on both channels.
    pub open spec fn dead(self, now: u64, timeout: u64) -> bool {
        !self.mdns_alive && self.udp_silent(now, timeout)
    }

    /// Alive over mDNS alone, and not probed for a while.
    pub open spec fn suspicious(self, now: u64, timeout: u64) -> bool {
        self.mdns_alive && self.udp_silent(now, timeout) && older_than(
            self.last_probe,
            now,
            PEER_PROBE_INTERVAL,
        )
    }

    /// The node after a sweep that keeps it.
    pub open spec fn swept(self, now: u64, timeout: u64) -> PeerStateView {
        if self.suspicious(now, timeout) {
            PeerStateView { last_probe: Some(now), ..self }
        } else {
            self
        }
    }
}

/// The nodes by fingerprint.
pub type Nodes = Map<Seq<char>, PeerStateView>;

/// The node after a sighting: its addresses join those that are known, and a
/// channel only ever adds liveness.
pub open spec fn sighted(
    known: Option<PeerStateView>,
    peer: PeerView,
    source: PeerSource,
    now: u64,
) -> PeerStateView {
    let addrs = match known {
        Some(s) => normalized(merged(s.peer.addrs, peer.addrs)),
        None => normalized(peer.addrs),
    };
    PeerStateView {
        peer: PeerView { addrs, ..peer },
        last_udp: if source == PeerSource::Udp {
            Some(now)
        } else {
            match known {
                Some(s) => s.last_udp,
                None => None,
            }
        },
        mdns_alive: source == PeerSource::Mdns || match known {
            Some(s) => s.mdns_alive,
            None => false,
        },
        last_probe: match known {
            Some(s) => s.last_probe,
            None => Some(now),
        },
    }
}

/// The node of a fingerprint.
pub open spec fn lookup(nodes: Nodes, fingerprint: Seq<char>) -> Option<PeerStateView> {
    if nodes.dom().contains(fingerprint) {
        Some(nodes[fingerprint])
    } else {
        None
    }
}

/// Whether a sighting is used: not of this device itself, and with an address
/// that can be dialed.
pub open spec fn usable(nodes: Nodes, own: Seq<char>, peer: PeerView, source: PeerSource, now: u64) -> bool {
    peer.info.fingerprint != own && sighted(
        lookup(nodes, peer.info.fingerprint),
        peer,
        source,
        now,
    ).peer.addrs.len() > 0
}

/// The nodes after a sighting.
pub open spec fn upserted(nodes: Nodes, own: Seq<char>, peer: PeerView, source: PeerSource, now: u64) -> Nodes {
    if usable(nodes, own, peer, source, now) {
        nodes.insert(
            peer.info.fingerprint,
            sighted(lookup(nodes, peer.info.fingerprint), peer, source, now),
        )
    } else {
        nodes
    }
}

/// The report of a sighting: only when the node is new or its info changed.
pub open spec fn upsert_report(
    nodes: Nodes,
    own: Seq<char>,
    peer: PeerView,
    source: PeerSource,
    now: u64,
) -> Option<PeerEventView> {
    let known = lookup(nodes, peer.info.fingerprint);
    let next = sighted(known, peer, source, now).peer;
    if !usable(nodes, own, peer, source, now) {
        None
    } else if known is Some && known->0.peer == next {
        None
    } else {
        Some(PeerEventView::Up(next))
    }
}

/// The report of a removal: only when the node was there.
pub open spec fn removal_report(nodes: Nodes, fingerprint: Seq<char>) -> Option<PeerEventView> {
    if nodes.dom().contains(fingerprint) {
        Some(PeerEventView::Down(fingerprint))
    } else {
        None
    }
}

/// The nodes after the mDNS service of one of them went away: it stays while
/// its UDP heartbeat is fresh.
pub open spec fn mdns_lost(nodes: Nodes, fingerprint: Seq<char>, timeout: u64, now: u64) -> Nodes {
    let s = nodes[fingerprint];
    if s.udp_silent(now, timeout) {
        nodes.remove(fingerprint)
    } else {
        nodes.insert(fingerprint, PeerStateView { mdns_alive: false, ..s })
    }
}

/// The nodes after a sweep.
pub open spec fn swept(nodes: Nodes, timeout: u64, now: u64) -> Nodes {
    Map::new(
        |k: Seq<char>| nodes.dom().contains(k) && !nodes[k].dead(now, timeout),
        |k: Seq<char>| nodes[k].swept(now, timeout),
    )
}

/// `list` names every key of the predicate once.
pub open spec fn names_exactly(list: Seq<Seq<char>>, p: spec_fn(Seq<char>) -> bool) -> bool {
    &&& forall|k: Seq<char>| p(k) <==> #[trigger] list.contains(k)
    &&& list.no_duplicates()
}

/// The fingerprints of nodes.
pub open spec fn fingerprints(peers: Seq<PeerView>) -> Seq<Seq<char>> {
    peers.map_values(|p: PeerView| p.info.fingerprint)
}

/// Whether a node may stand under a key.
pub open spec fn valid_node(s: PeerStateView, k: Seq<char>, own: Seq<char>) -> bool {
    &&& s.peer.info.fingerprint == k
    &&& k != own
    &&& are_dialable(s.peer.addrs)
}

/// Whether every node stands under its fingerprint, can be dialed, and is not
/// this device.
pub open spec fn valid_nodes(nodes: Nodes, own: Seq<char>) -> bool {
    forall|k: Seq<char>| #[trigger] nodes.dom().contains(k) ==> valid_node(nodes[k], k, own)
}

/// The node registry.
pub struct Registry {
    self_fingerprint: String,
    peers: Table<PeerState>,
}

impl View for Registry {
    type V = Nodes;

    closed spec fn view(&self) -> Nodes {
        self.peers@.map_values(|s: PeerState| s@)
    }
}

impl Registry {
    /// Every node stands under its own fingerprint, can be dialed, and is not
    /// this device.
    pub closed spec fn wf(self) -> bool {
        &&& self.peers.wf()
        &&& forall|k: Seq<char>| #[trigger]
            self.peers@.dom().contains(k) ==> self.peers@[k].peer.info.fingerprint@ == k && k
                != self.self_fingerprint@ && are_dialable(self.peers@[k].peer.addrs@)
    }

    /// The fingerprint of this device.
    pub closed spec fn own(self) -> Seq<char> {
        self.self_fingerprint@
    }

    /// This device is never among the nodes, every node stands under its
    /// fingerprint, has an address, none of its addresses is link-local, and
    /// they stand in dial order.
    pub proof fn law_nodes(self, k: Seq<char>)
        requires
            self.wf(),
            self@.dom().contains(k),
        ensures
            k != self.own(),
            self@[k].peer.info.fingerprint == k,
            self@[k].peer.addrs.len() > 0,
            forall|i: int|
                0 <= i < self@[k].peer.addrs.len() ==> !(#[trigger] self@[k].peer.addrs[i]).link_local(),
            in_dial_order(self@[k].peer.addrs),
            valid_nodes(self@, self.own()),
    {
        assert forall|j: Seq<char>| #[trigger] self@.dom().contains(j) implies valid_node(
            self@[j],
            j,
            self.own(),
        ) by {
            assert(self.peers@.dom().contains(j));
            assert(self@[j] == self.peers@[j]@);
        }
    }

    /// A registry without nodes.
    pub fn new(self_fingerprint: String) -> (r: Registry)
        ensures
            r.wf(),
            r.own() == self_fingerprint@,
            r@ == Map::<Seq<char>, PeerStateView>::empty(),
    {
        let r = Registry { self_fingerprint, peers: Table::new() };
        proof {
            assert(r@ =~= Map::<Seq<char>, PeerStateView>::empty());
        }
        r
    }

    /// The fingerprint of this device.
    pub fn own_fingerprint(&self) -> (r: String)
        ensures
            r@ == self.own(),
    {
        self.self_fingerprint.clone()
    }

    /// Takes a sighting in; reports the node when it is new or changed.
    pub fn upsert(&mut self, peer: Peer, source: PeerSource, now: u64) -> (r: Option<PeerEvent>)
        requires
            old(self).wf(),
        ensures
            final(self).wf(),
            final(self).own() == old(self).own(),
            final(self)@ == upserted(old(self)@, old(self).own(), peer@, source, now),
            text::opt_view(r) == upsert_report(old(self)@, old(self).own(), peer@, source, now),
    {
        if text::same(peer.info.fingerprint.as_str(), self.self_fingerprint.as_str()) {
            return None;
        }
        let ghost nodes = self@;
        let fingerprint = peer.info.fingerprint.clone();
        let known = self.peers.get(fingerprint.as_str());
        let addrs: Vec<Address> = match known {
            Some(state) => {
                let all: Vec<Address> = merge_addrs(&state.peer.addrs, &peer.addrs);
                normalize_addrs(&all)
            },
            None => normalize_addrs(&peer.addrs),
        };
        if addrs.len() == 0 {
            return None;
        }
        proof {
            let all = match lookup(nodes, peer.info.fingerprint@) {
                Some(s) => merged(s.peer.addrs, peer.addrs@),
                None => peer.addrs@,
            };
            law_normalized_addresses_can_be_dialed(all);
        }
        let next = Peer { info: peer.info, addrs: addrs, port: peer.port };
        let (changed, last_udp, mdns_alive, last_probe) = match known {
            Some(state) => (
                !state.peer.same(&next),
                state.last_udp,
                state.mdns_alive,
                state.last_probe,
            ),
            None => (true, None, false, Some(now)),
        };
        let udp = match source {
            PeerSource::Udp => Some(now),
            PeerSource::Mdns => last_udp,
        };
        let mdns = match source {
            PeerSource::Udp => mdns_alive,
            PeerSource::Mdns => true,
        };
        let report = if changed {
            Some(PeerEvent::Up(next.duplicate()))
        } else {
            None
        };
        let ghost before = self.peers@;
        let state = PeerState { peer: next, last_udp: udp, mdns_alive: mdns, last_probe };
        self.peers.insert(fingerprint, state);
        proof {
            assert(self@ =~= nodes.insert(peer.info.fingerprint@, state@));
        }
        report
    }

    /// Removes a node; reports it when it was there.
    pub fn remove(&mut self, fingerprint: &str) -> (r: Option<PeerEvent>)
        requires
            old(self).wf(),
        ensures
            final(self).wf(),
            final(self).own() == old(self).own(),
            final(self)@ == old(self)@.remove(fingerprint@),
            text::opt_view(r) == removal_report(old(self)@, fingerprint@),
    {
        let ghost nodes = self@;
        let gone = self.peers.remove(fingerprint);
        proof {
            assert(self@ =~= nodes.remove(fingerprint@));
        }
        if gone.is_some() {
            Some(PeerEvent::Down(fingerprint.to_owned()))
        } else {
            None
        }
    }

    /// The mDNS service of a device went away. Which node is meant when two
    /// declare one device ID is left open.
    pub fn mdns_removed(&mut self, device_id: &str, timeout: u64, now: u64) -> (r: Option<PeerEvent>)
        requires
            old(self).wf(),
        ensures
            final(self).wf(),
            final(self).own() == old(self).own(),
            (forall|k: Seq<char>| #[trigger]
                old(self)@.dom().contains(k) ==> old(self)@[k].peer.info.device_id != device_id@) ==> (
            r is None && final(self)@ == old(self)@),
            (exists|k: Seq<char>| #[trigger]
                old(self)@.dom().contains(k) && old(self)@[k].peer.info.device_id == device_id@) ==> (
            exists|k: Seq<char>| #[trigger]
                old(self)@.dom().contains(k) && old(self)@[k].peer.info.device_id == device_id@ && final(self)@ == mdns_lost(old(self)@, k, timeout, now) && text::opt_view(r) == (if old(self)@[k].udp_silent(
                    now,
                    timeout,
                ) {
                    Some(PeerEventView::Down(k))
                } else {
                    None
                })),
    {
        let ghost nodes = self@;
        proof {
            self.peers.lemma_rows();
        }
        let mut i: usize = 0;
        while i < self.peers.len()
            invariant
                i <= self.peers.rows().len(),
                self.wf(),
                self@ == nodes,
                self.own() == old(self).own(),
                nodes == old(self)@,
                forall|j: int|
                    0 <= j < i ==> (#[trigger] self.peers.rows()[j]).value.peer.info.device_id@ != device_id@,
            decreases self.peers.rows().len() - i,
        {
            proof {
                self.peers.lemma_rows();
            }
            let row = self.peers.row(i);
            if text::same(row.value.peer.info.device_id.as_str(), device_id) {
                let key = row.key.clone();
                let ghost k = key@;
                proof {
                    assert(self.peers@.dom().contains(k));
                    assert(nodes.dom().contains(k));
                    assert(nodes[k] == row.value@);
                }
                if is_older_than(row.value.last_udp, now, timeout) {
                    return self.remove(key.as_str());
                }
                let next = PeerState {
                    peer: row.value.peer.duplicate(),
                    last_udp: row.value.last_udp,
                    mdns_alive: false,
                    last_probe: row.value.last_probe,
                };
                self.peers.set(i, next);
                proof {
                    assert(self@ =~= nodes.insert(k, next@));
                    assert(self@ == mdns_lost(nodes, k, timeout, now));
                }
                return None;
            }
            i += 1;
        }
        proof {
            self.peers.lemma_rows();
            assert forall|k: Seq<char>| #[trigger] nodes.dom().contains(k) implies nodes[k].peer.info.device_id
                != device_id@ by {
                assert(self.peers@.dom().contains(k));
                let p = crate::table::place(self.peers.rows(), k);
                assert(self.peers.rows()[p].value == self.peers@[k]);
            }
        }
        None
    }

    /// Drops the nodes that are dead on both channels and picks those that
    /// need a liveness probe. A node that is alive over mDNS is never dropped.
    pub fn sweep(&mut self, timeout: u64, now: u64) -> (r: (Vec<Peer>, Vec<PeerEvent>))
        requires
            old(self).wf(),
        ensures
            final(self).wf(),
            final(self).own() == old(self).own(),
            final(self)@ == swept(old(self)@, timeout, now),
            names_exactly(
                fingerprints(views(r.0@)),
                |k: Seq<char>| old(self)@.dom().contains(k) && old(self)@[k].suspicious(now, timeout),
            ),
            forall|i: int|
                0 <= i < r.0@.len() ==> (#[trigger] r.0@[i])@ == old(self)@[r.0@[i]@.info.fingerprint].peer,
            forall|i: int| 0 <= i < r.1@.len() ==> (#[trigger] r.1@[i])@ is Down,
            names_exactly(
                views(r.1@).map_values(|e: PeerEventView| e->Down_0),
                |k: Seq<char>| old(self)@.dom().contains(k) && old(self)@[k].dead(now, timeout),
            ),
    {
        let ghost nodes = self@;
        let probes: Vec<Peer> = self.suspects(timeout, now);
        let dead: Vec<String> = self.casualties(timeout, now);
        self.stamp(timeout, now);
        let ghost stamped = self@;
        let mut events: Vec<PeerEvent> = Vec::new();
        let mut d: usize = 0;
        proof {
            assert forall|a: int| 0 <= a < dead@.len() implies stamped.dom().contains((#[trigger] dead@[a])@) by {
                assert(views(dead@)[a] == dead@[a]@);
                assert(views(dead@).contains(dead@[a]@));
            }
            assert forall|a: int, b: int| 0 <= a < b < dead@.len() implies (#[trigger] dead@[a])@ != (
            #[trigger] dead@[b])@ by {
                assert(views(dead@)[a] != views(dead@)[b]);
            }
        }
        while d < dead.len()
            invariant
                d <= dead.len(),
                self.wf(),
                self.own() == old(self).own(),
                events@.len() == d,
                forall|a: int| 0 <= a < d ==> (#[trigger] events@[a])@ == PeerEventView::Down(dead@[a]@),
                forall|a: int| 0 <= a < dead@.len() ==> stamped.dom().contains((#[trigger] dead@[a])@),
                forall|a: int, b: int|
                    0 <= a < b < dead@.len() ==> (#[trigger] dead@[a])@ != (#[trigger] dead@[b])@,
                forall|k: Seq<char>| #[trigger]
                    self@.dom().contains(k) <==> stamped.dom().contains(k) && forall|a: int|
                        0 <= a < d ==> (#[trigger] dead@[a])@ != k,
                forall|k: Seq<char>| #[trigger] self@.dom().contains(k) ==> self@[k] == stamped[k],
            decreases dead.len() - d,
        {
            let ghost before = self@;
            proof {
                assert(before.dom().contains(dead@[d as int]@));
            }
            let down = self.remove(dead[d].as_str());
            match down {
                Some(e) => events.push(e),
                None => {},
            }
            d += 1;
        }
        proof {
            let df = views(events@).map_values(|e: PeerEventView| e->Down_0);
            assert forall|a: int| 0 <= a < df.len() implies df[a] == views(dead@)[a] by {
                assert(events@[a]@ == PeerEventView::Down(dead@[a]@));
            }
            assert(df =~= views(dead@));
            assert forall|k: Seq<char>| #[trigger] self@.dom().contains(k) == (nodes.dom().contains(k)
                && !nodes[k].dead(now, timeout)) by {
                if nodes.dom().contains(k) {
                    if nodes[k].dead(now, timeout) {
                        assert(views(dead@).contains(k));
                        let a = choose|a: int| 0 <= a < views(dead@).len() && views(dead@)[a] == k;
                        assert(dead@[a]@ == k);
                    } else {
                        assert forall|a: int| 0 <= a < dead@.len() implies (#[trigger] dead@[a])@ != k by {
                            assert(views(dead@)[a] == dead@[a]@);
                            assert(views(dead@).contains(dead@[a]@));
                        }
                    }
                }
            }
            assert(self@ =~= swept(nodes, timeout, now));
        }
        (probes, events)
    }

    /// The nodes that need a liveness probe.
    fn suspects(&self, timeout: u64, now: u64) -> (r: Vec<Peer>)
        requires
            self.wf(),
        ensures
            names_exactly(
                fingerprints(views(r@)),
                |k: Seq<char>| self@.dom().contains(k) && self@[k].suspicious(now, timeout),
            ),
            forall|i: int| 0 <= i < r@.len() ==> (#[trigger] r@[i])@ == self@[r@[i]@.info.fingerprint].peer,
    {
        let mut out: Vec<Peer> = Vec::new();
        let mut i: usize = 0;
        let ghost rows = self.peers.rows();
        let ghost mut at: Seq<int> = Seq::empty();
        while i < self.peers.len()
            invariant
                rows == self.peers.rows(),
                i <= rows.len(),
                at.len() == out@.len(),
                forall|a: int|
                    0 <= a < at.len() ==> 0 <= #[trigger] at[a] < i && rows[at[a]].value@.suspicious(now, timeout)
                        && out@[a]@ == rows[at[a]].value.peer@,
                forall|a: int, b: int| 0 <= a < b < at.len() ==> #[trigger] at[a] < #[trigger] at[b],
                forall|j: int|
                    0 <= j < i && (#[trigger] rows[j]).value@.suspicious(now, timeout) ==> at.contains(j),
            decreases rows.len() - i,
        {
            let row = self.peers.row(i);
            let ghost at0 = at;
            if row.value.mdns_alive && is_older_than(row.value.last_udp, now, timeout) && is_older_than(
                row.value.last_probe,
                now,
                PEER_PROBE_INTERVAL,
            ) {
                out.push(row.value.peer.duplicate());
                proof {
                    at = at.push(i as int);
                    assert(at[at0.len() as int] == i);
                }
            }
            proof {
                assert forall|j: int|
                    0 <= j < i + 1 && (#[trigger] rows[j]).value@.suspicious(now, timeout) implies at.contains(j) by {
                    if j < i {
                        assert(at0.contains(j));
                        let a = choose|a: int| 0 <= a < at0.len() && at0[a] == j;
                        assert(at[a] == j);
                    }
                }
            }
            i += 1;
        }
        proof {
            self.peers.lemma_rows();
            let f = fingerprints(views(out@));
            assert forall|j: int| 0 <= j < rows.len() implies (#[trigger] rows[j]).value.peer.info.fingerprint@
                == rows[j].key@ && self@.dom().contains(rows[j].key@) && self@[rows[j].key@] == rows[j].value@ by {
                assert(self.peers@.dom().contains(rows[j].key@));
            }
            let p = |k: Seq<char>| self@.dom().contains(k) && self@[k].suspicious(now, timeout);
            assert forall|k: Seq<char>| p(k) <==> #[trigger] f.contains(k) by {
                if p(k) {
                    assert(self.peers@.dom().contains(k));
                    let j = crate::table::place(rows, k);
                    assert(rows[j].key@ == k);
                    assert(at.contains(j));
                    let a = choose|a: int| 0 <= a < at.len() && at[a] == j;
                    assert(f[a] == k);
                }
                if f.contains(k) {
                    let a = choose|a: int| 0 <= a < f.len() && f[a] == k;
                    assert(rows[at[a]].key@ == k);
                }
            }
            assert forall|a: int, b: int| 0 <= a < f.len() && 0 <= b < f.len() && a != b implies f[a] != f[b] by {
                if f[a] == f[b] {
                    assert(rows[at[a]].key@ == rows[at[b]].key@);
                    assert(at[a] == at[b]);
                }
            }
            assert forall|a: int| 0 <= a < out@.len() implies (#[trigger] out@[a])@
                == self@[out@[a]@.info.fingerprint].peer by {
                assert(self@[rows[at[a]].key@] == rows[at[a]].value@);
            }
        }
        out
    }

    /// The fingerprints of the nodes that are dead on both channels.
    fn casualties(&self, timeout: u64, now: u64) -> (r: Vec<String>)
        requires
            self.wf(),
        ensures
            names_exactly(
                views(r@),
                |k: Seq<char>| self@.dom().contains(k) && self@[k].dead(now, timeout),
            ),
    {
        let mut out: Vec<String> = Vec::new();
        let mut i: usize = 0;
        let ghost rows = self.peers.rows();
        let ghost mut at: Seq<int> = Seq::empty();
        while i < self.peers.len()
            invariant
                rows == self.peers.rows(),
                i <= rows.len(),
                at.len() == out@.len(),
                forall|a: int|
                    0 <= a < at.len() ==> 0 <= #[trigger] at[a] < i && rows[at[a]].value@.dead(now, timeout)
                        && out@[a]@ == rows[at[a]].key@,
                forall|a: int, b: int| 0 <= a < b < at.len() ==> #[trigger] at[a] < #[trigger] at[b],
                forall|j: int| 0 <= j < i && (#[trigger] rows[j]).value@.dead(now, timeout) ==> at.contains(j),
            decreases rows.len() - i,
        {
            let row = self.peers.row(i);
            let ghost at0 = at;
            if !row.value.mdns_alive && is_older_than(row.value.last_udp, now, timeout) {
                out.push(row.key.clone());
                proof {
                    at = at.push(i as int);
                    assert(at[at0.len() as int] == i);
                }
            }
            proof {
                assert forall|j: int| 0 <= j < i + 1 && (#[trigger] rows[j]).value@.dead(now, timeout) implies at.contains(
                    j,
                ) by {
                    if j < i {
                        assert(at0.contains(j));
                        let a = choose|a: int| 0 <= a < at0.len() && at0[a] == j;
                        assert(at[a] == j);
                    }
                }
            }
            i += 1;
        }
        proof {
            self.peers.lemma_rows();
            let f = views(out@);
            assert forall|j: int| 0 <= j < rows.len() implies self@.dom().contains((#[trigger] rows[j]).key@)
                && self@[rows[j].key@] == rows[j].value@ by {
                assert(self.peers@.dom().contains(rows[j].key@));
            }
            let p = |k: Seq<char>| self@.dom().contains(k) && self@[k].dead(now, timeout);
            assert forall|k: Seq<char>| p(k) <==> #[trigger] f.contains(k) by {
                if p(k) {
                    assert(self.peers@.dom().contains(k));
                    let j = crate::table::place(rows, k);
                    assert(rows[j].key@ == k);
                    assert(at.contains(j));
                    let a = choose|a: int| 0 <= a < at.len() && at[a] == j;
                    assert(f[a] == k);
                }
                if f.contains(k) {
                    let a = choose|a: int| 0 <= a < f.len() && f[a] == k;
                    assert(rows[at[a]].key@ == k);
                }
            }
            assert forall|a: int, b: int| 0 <= a < f.len() && 0 <= b < f.len() && a != b implies f[a] != f[b] by {
                if f[a] == f[b] {
                    assert(rows[at[a]].key@ == rows[at[b]].key@);
                    assert(at[a] == at[b]);
                }
            }
        }
        out
    }

    /// Notes the time of the probes that are due.
    fn stamp(&mut self, timeout: u64, now: u64)
        requires
            old(self).wf(),
        ensures
            final(self).wf(),
            final(self).own() == old(self).own(),
            forall|k: Seq<char>| #[trigger] final(self)@.dom().contains(k) <==> old(self)@.dom().contains(k),
            forall|k: Seq<char>| #[trigger]
                final(self)@.dom().contains(k) ==> final(self)@[k] == old(self)@[k].swept(now, timeout),
    {
        let ghost nodes = self@;
        let ghost rows0 = self.peers.rows();
        let mut i: usize = 0;
        proof {
            self.peers.lemma_rows();
        }
        while i < self.peers.len()
            invariant
                self.wf(),
                self.own() == old(self).own(),
                self.peers.rows().len() == rows0.len(),
                i <= rows0.len(),
                forall|j: int|
                    0 <= j < rows0.len() ==> (#[trigger] self.peers.rows()[j]).key@ == rows0[j].key@,
                forall|j: int|
                    0 <= j < i ==> (#[trigger] self.peers.rows()[j]).value@ == rows0[j].value@.swept(now, timeout),
                forall|j: int|
                    i <= j < rows0.len() ==> (#[trigger] self.peers.rows()[j]).value@ == rows0[j].value@,
            decreases rows0.len() - i,
        {
            let row = self.peers.row(i);
            proof {
                self.peers.lemma_rows();
                assert(self.peers@.dom().contains(row.key@));
            }
            if row.value.mdns_alive && is_older_than(row.value.last_udp, now, timeout) && is_older_than(
                row.value.last_probe,
                now,
                PEER_PROBE_INTERVAL,
            ) {
                let next = PeerState {
                    peer: row.value.peer.duplicate(),
                    last_udp: row.value.last_udp,
                    mdns_alive: row.value.mdns_alive,
                    last_probe: Some(now),
                };
                self.peers.set(i, next);
            }
            i += 1;
        }
        proof {
            self.peers.lemma_rows();
            let rows = self.peers.rows();
            assert forall|k: Seq<char>| #[trigger] self@.dom().contains(k) <==> nodes.dom().contains(k) by {
                if nodes.dom().contains(k) {
                    let p = crate::table::place(rows0, k);
                    assert(rows0[p].key@ == k);
                    assert(rows[p].key@ == k);
                }
                if self@.dom().contains(k) {
                    let p = crate::table::place(rows, k);
                    assert(rows[p].key@ == k);
                    assert(rows0[p].key@ == k);
                }
            }
            assert forall|k: Seq<char>| #[trigger] self@.dom().contains(k) implies self@[k] == nodes[k].swept(
                now,
                timeout,
            ) by {
                let p = crate::table::place(rows, k);
                assert(rows[p].key@ == k);
                assert(rows0[p].key@ == k);
            }
        }
    }

    /// Whether the UDP heartbeat of a node is within the limit.
    pub fn udp_fresh(&self, fingerprint: &str, timeout: u64, now: u64) -> (r: bool)
        requires
            self.wf(),
        ensures
            r == (self@.dom().contains(fingerprint@) && !self@[fingerprint@].udp_silent(now, timeout)),
    {
        match self.peers.get(fingerprint) {
            Some(state) => !is_older_than(state.last_udp, now, timeout),
            None => false,
        }
    }

    /// Applies a failed probe: the node goes unless its UDP heartbeat came
    /// back meanwhile.
    pub fn probe_failed(&mut self, fingerprint: &str, timeout: u64, now: u64) -> (r: Option<PeerEvent>)
        requires
            old(self).wf(),
        ensures
            final(self).wf(),
            final(self).own() == old(self).own(),
            ({
                let nodes = old(self)@;
                let goes = nodes.dom().contains(fingerprint@) && nodes[fingerprint@].udp_silent(
                    now,
                    timeout,
                );
                &&& final(self)@ == (if goes {
                    nodes.remove(fingerprint@)
                } else {
                    nodes
                })
                &&& text::opt_view(r) == (if goes {
                    Some(PeerEventView::Down(fingerprint@))
                } else {
                    None
                })
            }),
    {
        match self.peers.get(fingerprint) {
            None => None,
            Some(state) => {
                if !is_older_than(state.last_udp, now, timeout) {
                    return None;
                }
                self.remove(fingerprint)
            },
        }
    }

    /// The nodes that are online, each once.
    pub fn snapshot(&self) -> (r: Vec<Peer>)
        requires
            self.wf(),
        ensures
            names_exactly(fingerprints(views(r@)), |k: Seq<char>| self@.dom().contains(k)),
            forall|i: int| 0 <= i < r@.len() ==> (#[trigger] r@[i])@ == self@[r@[i]@.info.fingerprint].peer,
    {
        let mut out: Vec<Peer> = Vec::new();
        let mut i: usize = 0;
        let ghost rows = self.peers.rows();
        while i < self.peers.len()
            invariant
                rows == self.peers.rows(),
                i <= rows.len(),
                out@.len() == i,
                forall|j: int| 0 <= j < i ==> (#[trigger] out@[j])@ == rows[j].value.peer@,
            decreases rows.len() - i,
        {
            out.push(self.peers.row(i).value.peer.duplicate());
            i += 1;
        }
        proof {
            self.peers.lemma_rows();
            let f = fingerprints(views(out@));
            assert forall|j: int| 0 <= j < rows.len() implies (#[trigger] rows[j]).value.peer.info.fingerprint@
                == rows[j].key@ && self@.dom().contains(rows[j].key@) && self@[rows[j].key@] == rows[j].value@ by {
                assert(self.peers@.dom().contains(rows[j].key@));
            }
            assert forall|k: Seq<char>| self@.dom().contains(k) <==> #[trigger] f.contains(k) by {
                if self@.dom().contains(k) {
                    assert(self.peers@.dom().contains(k));
                    let p = crate::table::place(rows, k);
                    assert(rows[p].key@ == k);
                    assert(out@[p]@ == rows[p].value.peer@);
                    assert(f[p] == k);
                }
                if f.contains(k) {
                    let a = choose|a: int| 0 <= a < f.len() && f[a] == k;
                    assert(out@[a]@ == rows[a].value.peer@);
                }
            }
            assert forall|a: int, b: int| 0 <= a < f.len() && 0 <= b < f.len() && a != b implies f[a] != f[b] by {
                assert(out@[a]@ == rows[a].value.peer@);
                assert(out@[b]@ == rows[b].value.peer@);
                if f[a] == f[b] {
                    assert(rows[a].key@ == rows[b].key@);
                }
            }
            assert forall|j: int| 0 <= j < out@.len() implies (#[trigger] out@[j])@
                == self@[out@[j]@.info.fingerprint].peer by {
                assert(out@[j]@ == rows[j].value.peer@);
                assert(self@[rows[j].key@] == rows[j].value@);
            }
        }
        out
    }

    /// The node of a fingerprint.
    pub fn find(&self, fingerprint: &str) -> (r: Option<Peer>)
        requires
            self.wf(),
        ensures
            text::opt_view(r) == (if self@.dom().contains(fingerprint@) {
                Some(self@[fingerprint@].peer)
            } else {
                None
            }),
    {
        match self.peers.get(fingerprint) {
            Some(state) => Some(state.peer.duplicate()),
            None => None,
        }
    }
}

/// Normalized addresses can all be dialed and stand in dial order.
pub proof fn law_normalized_addresses_can_be_dialed(all: Seq<Address>)
    ensures
        forall|i: int| 0 <= i < normalized(all).len() ==> !(#[trigger] normalized(all)[i]).link_local(),
        in_dial_order(normalized(all)),
{
    let list = normalized(all);
    let n0 = of_rank(all, 0).len();
    let n1 = n0 + of_rank(all, 1).len();
    let n2 = n1 + of_rank(all, 2).len();
    assert forall|i: int| 0 <= i < list.len() implies !(#[trigger] list[i]).link_local() && list[i].dial_rank()
        == (if i < n0 {
        0int
    } else if i < n1 {
        1
    } else if i < n2 {
        2
    } else {
        3
    }) by {
        lemma_of_rank(all, 0);
        lemma_of_rank(all, 1);
        lemma_of_rank(all, 2);
        lemma_of_rank(all, 3);
        if i < n0 {
            assert(list[i] == of_rank(all, 0)[i]);
        } else if i < n1 {
            assert(list[i] == of_rank(all, 1)[i - n0]);
        } else if i < n2 {
            assert(list[i] == of_rank(all, 2)[i - n1]);
        } else {
            assert(list[i] == of_rank(all, 3)[i - n2]);
        }
    }
}

proof fn lemma_of_rank(all: Seq<Address>, rank: int)
    ensures
        forall|i: int|
            0 <= i < of_rank(all, rank).len() ==> !(#[trigger] of_rank(all, rank)[i]).link_local()
                && of_rank(all, rank)[i].dial_rank() == rank,
{
    let p = |a: Address| !a.link_local() && a.dial_rank() == rank;
    assert forall|i: int| 0 <= i < of_rank(all, rank).len() implies !(#[trigger] of_rank(all, rank)[i]).link_local()
        && of_rank(all, rank)[i].dial_rank() == rank by {
        all.lemma_filter_pred(p, i);
    }
}

/// A second sighting of the same node, on whichever channel, changes nothing
/// but its liveness and is not reported: a heartbeat never makes the address
/// list jitter.
pub proof fn law_repeated_sighting_is_silent(
    nodes: Nodes,
    own: Seq<char>,
    peer: PeerView,
    first: PeerSource,
    then: PeerSource,
    now: u64,
    later: u64,
)
    ensures
        ({
            let once = upserted(nodes, own, peer, first, now);
            let twice = upserted(once, own, peer, then, later);
            &&& upsert_report(once, own, peer, then, later) is None
            &&& twice.dom() == once.dom()
            &&& forall|k: Seq<char>| #[trigger] once.dom().contains(k) ==> twice[k].peer == once[k].peer
        }),
{
    let known = lookup(nodes, peer.info.fingerprint);
    let once = upserted(nodes, own, peer, first, now);
    let twice = upserted(once, own, peer, then, later);
    if usable(nodes, own, peer, first, now) {
        let all = match known {
            Some(s) => merged(s.peer.addrs, peer.addrs),
            None => peer.addrs,
        };
        assert forall|i: int| 0 <= i < peer.addrs.len() implies all.contains(#[trigger] peer.addrs[i]) by {
            if known is Some {
                lemma_merged_holds(known->0.peer.addrs, peer.addrs, i);
            }
        }
        lemma_addresses_settle(all, peer.addrs);
        let state = sighted(known, peer, first, now);
        assert(once.dom().contains(peer.info.fingerprint));
        assert(once[peer.info.fingerprint] == state);
        assert(lookup(once, peer.info.fingerprint) == Some(state));
        assert(state.peer.addrs == normalized(all));
        assert(sighted(Some(state), peer, then, later).peer.addrs == state.peer.addrs);
        assert(sighted(Some(state), peer, then, later).peer == state.peer);
    }
    assert(twice.dom() =~= once.dom());
}

/// A sighting keeps the nodes valid, takes no node and no known address away,
/// leaves every other node alone, and reports the node that is then stored
/// exactly when it is new or differs from what was stored before.
pub proof fn law_sighting_adds(nodes: Nodes, own: Seq<char>, peer: PeerView, source: PeerSource, now: u64)
    requires
        valid_nodes(nodes, own),
    ensures
        ({
            let f = peer.info.fingerprint;
            let after = upserted(nodes, own, peer, source, now);
            &&& valid_nodes(after, own)
            &&& forall|k: Seq<char>, a: Address|
                nodes.dom().contains(k) && #[trigger] nodes[k].peer.addrs.contains(a) ==> after.dom().contains(k)
                    && after[k].peer.addrs.contains(a)
            &&& forall|k: Seq<char>|
                k != f && #[trigger] nodes.dom().contains(k) ==> after.dom().contains(k) && after[k] == nodes[k]
            &&& forall|k: Seq<char>| k != f && #[trigger] after.dom().contains(k) ==> nodes.dom().contains(k)
            &&& upsert_report(nodes, own, peer, source, now) == (if after.dom().contains(f) && !(
            nodes.dom().contains(f) && nodes[f].peer == after[f].peer) {
                Some(PeerEventView::Up(after[f].peer))
            } else {
                None
            })
        }),
{
    let f = peer.info.fingerprint;
    let known = lookup(nodes, f);
    let after = upserted(nodes, own, peer, source, now);
    let all = match known {
        Some(s) => merged(s.peer.addrs, peer.addrs),
        None => peer.addrs,
    };
    law_normalized_addresses_can_be_dialed(all);
    assert forall|k: Seq<char>, a: Address|
        nodes.dom().contains(k) && #[trigger] nodes[k].peer.addrs.contains(a) implies after.dom().contains(k)
        && after[k].peer.addrs.contains(a) by {
        if k == f && usable(nodes, own, peer, source, now) {
            let list = nodes[f].peer.addrs;
            let i = choose|i: int| 0 <= i < list.len() && list[i] == a;
            assert(valid_node(nodes[f], f, own));
            assert(!list[i].link_local());
            lemma_merged_keeps(list, peer.addrs, i);
            lemma_normalized_holds(all, a);
        }
    }
}

proof fn lemma_merged_keeps(known: Seq<Address>, new: Seq<Address>, i: int)
    requires
        0 <= i < known.len(),
    ensures
        merged(known, new).contains(known[i]),
    decreases new.len(),
{
    if new.len() > 0 {
        let before = merged(known, new.drop_last());
        lemma_merged_keeps(known, new.drop_last(), i);
        let k = choose|k: int| 0 <= k < before.len() && before[k] == known[i];
        assert(merged(known, new)[k] == known[i]);
    }
}

/// Merging addresses that went into a normalized list gives the same list.
proof fn lemma_addresses_settle(all: Seq<Address>, new: Seq<Address>)
    requires
        forall|i: int| 0 <= i < new.len() ==> all.contains(#[trigger] new[i]),
    ensures
        normalized(merged(normalized(all), new)) == normalized(all),
{
    let list = normalized(all);
    assert forall|i: int| 0 <= i < new.len() implies list.contains(#[trigger] new[i])
        || new[i].link_local() by {
        assert(all.contains(new[i]));
        if !new[i].link_local() {
            lemma_normalized_holds(all, new[i]);
        }
    }
    lemma_merge_adds_link_local(list, new);
    let m = merged(list, new);
    let tail = m.skip(list.len() as int);
    assert(m =~= m.take(list.len() as int) + tail);
    assert forall|i: int| 0 <= i < tail.len() implies (#[trigger] tail[i]).link_local() by {
        assert(tail[i] == m[list.len() + i]);
    }
    lemma_normalized_ignores(list, tail);
    law_normalizing_is_idempotent(all);
}

proof fn lemma_merged_holds(known: Seq<Address>, new: Seq<Address>, i: int)
    requires
        0 <= i < new.len(),
    ensures
        merged(known, new).contains(new[i]),
    decreases new.len(),
{
    let before = merged(known, new.drop_last());
    let after = merged(known, new);
    if i < new.len() - 1 {
        lemma_merged_holds(known, new.drop_last(), i);
        assert(before.contains(new[i]));
        let k = choose|k: int| 0 <= k < before.len() && before[k] == new[i];
        assert(after[k] == new[i]);
    } else if !before.contains(new.last()) {
        assert(after[after.len() - 1] == new[i]);
    }
}

proof fn lemma_normalized_holds(all: Seq<Address>, a: Address)
    requires
        all.contains(a),
        !a.link_local(),
    ensures
        normalized(all).contains(a),
{
    let k = choose|k: int| 0 <= k < all.len() && all[k] == a;
    let r = a.dial_rank();
    let p = |x: Address| !x.link_local() && x.dial_rank() == r;
    all.lemma_filter_contains(p, k);
    let part = of_rank(all, r);
    assert(part.contains(a));
    let j = choose|j: int| 0 <= j < part.len() && part[j] == a;
    let n0 = of_rank(all, 0).len();
    let n1 = of_rank(all, 1).len();
    let n2 = of_rank(all, 2).len();
    if r == 0 {
        assert(normalized(all)[j] == a);
    } else if r == 1 {
        assert(normalized(all)[n0 + j] == a);
    } else if r == 2 {
        assert(normalized(all)[n0 + n1 + j] == a);
    } else {
        assert(normalized(all)[n0 + n1 + n2 + j] == a);
    }
}

proof fn lemma_merge_adds_link_local(list: Seq<Address>, new: Seq<Address>)
    requires
        forall|i: int| 0 <= i < new.len() ==> list.contains(#[trigger] new[i]) || new[i].link_local(),
    ensures
        merged(list, new).len() >= list.len(),
        merged(list, new).take(list.len() as int) == list,
        forall|i: int| list.len() <= i < merged(list, new).len() ==> (#[trigger] merged(list, new)[i]).link_local(),
    decreases new.len(),
{
    if new.len() == 0 {
        assert(list.take(list.len() as int) =~= list);
    } else {
        let init = new.drop_last();
        assert forall|i: int| 0 <= i < init.len() implies list.contains(#[trigger] init[i])
            || init[i].link_local() by {
            assert(list.contains(new[i]) || new[i].link_local());
        }
        lemma_merge_adds_link_local(list, init);
        let before = merged(list, init);
        let last = new[new.len() - 1];
        assert(list.contains(last) || last.link_local());
        if list.contains(last) {
            let k = choose|k: int| 0 <= k < list.len() && list[k] == last;
            assert(before.take(list.len() as int)[k] == last);
            assert(before[k] == last);
        }
        assert(merged(list, new).take(list.len() as int) =~= before.take(list.len() as int));
    }
}

proof fn lemma_normalized_ignores(list: Seq<Address>, tail: Seq<Address>)
    requires
        forall|i: int| 0 <= i < tail.len() ==> (#[trigger] tail[i]).link_local(),
    ensures
        normalized(list + tail) == normalized(list),
{
    lemma_rank_ignores(list, tail, 0);
    lemma_rank_ignores(list, tail, 1);
    lemma_rank_ignores(list, tail, 2);
    lemma_rank_ignores(list, tail, 3);
}

proof fn lemma_rank_ignores(list: Seq<Address>, tail: Seq<Address>, rank: int)
    requires
        forall|i: int| 0 <= i < tail.len() ==> (#[trigger] tail[i]).link_local(),
    ensures
        of_rank(list + tail, rank) == of_rank(list, rank),
{
    let p = |a: Address| !a.link_local() && a.dial_rank() == rank;
    Seq::filter_distributes_over_add(list, tail, p);
    lemma_filter_none(tail, p);
    assert(of_rank(list, rank) + Seq::<Address>::empty() =~= of_rank(list, rank));
}

proof fn lemma_filter_none(s: Seq<Address>, p: spec_fn(Address) -> bool)
    requires
        forall|i: int| 0 <= i < s.len() ==> !p(#[trigger] s[i]),
    ensures
        s.filter(p) == Seq::<Address>::empty(),
    decreases s.len(),
{
    reveal(Seq::filter);
    if s.len() > 0 {
        assert(!p(s[s.len() - 1]));
        lemma_filter_none(s.drop_last(), p);
    }
}

proof fn lemma_filter_every(s: Seq<Address>, p: spec_fn(Address) -> bool)
    requires
        forall|i: int| 0 <= i < s.len() ==> p(#[trigger] s[i]),
    ensures
        s.filter(p) == s,
    decreases s.len(),
{
    reveal(Seq::filter);
    if s.len() > 0 {
        assert(p(s[s.len() - 1]));
        lemma_filter_every(s.drop_last(), p);
        assert(s.drop_last().push(s.last()) =~= s);
    }
}

proof fn lemma_rank_of_rank(all: Seq<Address>, q: int, r: int)
    ensures
        of_rank(of_rank(all, q), r) == (if q == r {
            of_rank(all, r)
        } else {
            Seq::empty()
        }),
{
    lemma_of_rank(all, q);
    let p = |a: Address| !a.link_local() && a.dial_rank() == r;
    if q == r {
        lemma_filter_every(of_rank(all, q), p);
    } else {
        lemma_filter_none(of_rank(all, q), p);
    }
}

proof fn lemma_rank_of_normalized(all: Seq<Address>, r: int)
    requires
        0 <= r < 4,
    ensures
        of_rank(normalized(all), r) == of_rank(all, r),
{
    let p = |a: Address| !a.link_local() && a.dial_rank() == r;
    let a0 = of_rank(all, 0);
    let a1 = of_rank(all, 1);
    let a2 = of_rank(all, 2);
    let a3 = of_rank(all, 3);
    Seq::filter_distributes_over_add(a0, a1, p);
    Seq::filter_distributes_over_add(a0 + a1, a2, p);
    Seq::filter_distributes_over_add(a0 + a1 + a2, a3, p);
    lemma_rank_of_rank(all, 0, r);
    lemma_rank_of_rank(all, 1, r);
    lemma_rank_of_rank(all, 2, r);
    lemma_rank_of_rank(all, 3, r);
    assert(of_rank(normalized(all), r) =~= of_rank(all, r));
}

/// Normalizing a normalized list changes nothing.
pub proof fn law_normalizing_is_idempotent(all: Seq<Address>)
    ensures
        normalized(normalized(all)) == normalized(all),
{
    lemma_rank_of_normalized(all, 0);
    lemma_rank_of_normalized(all, 1);
    lemma_rank_of_normalized(all, 2);
    lemma_rank_of_normalized(all, 3);
}

/// This device is never taken in.
pub proof fn law_self_is_filtered(nodes: Nodes, own: Seq<char>, peer: PeerView, source: PeerSource, now: u64)
    requires
        peer.info.fingerprint == own,
    ensures
        upserted(nodes, own, peer, source, now) == nodes,
        upsert_report(nodes, own, peer, source, now) is None,
{
}

/// A sighting never takes liveness away.
pub proof fn law_sighting_keeps_liveness(
    known: PeerStateView,
    peer: PeerView,
    source: PeerSource,
    now: u64,
)
    ensures
        known.mdns_alive ==> sighted(Some(known), peer, source, now).mdns_alive,
        known.last_udp is Some ==> sighted(Some(known), peer, source, now).last_udp is Some,
{
}

/// A node that is alive over mDNS survives every sweep.
pub proof fn law_mdns_node_survives_sweep(nodes: Nodes, k: Seq<char>, timeout: u64, now: u64)
    requires
        nodes.dom().contains(k),
        nodes[k].mdns_alive,
    ensures
        swept(nodes, timeout, now).dom().contains(k),
        swept(nodes, timeout, now)[k].peer == nodes[k].peer,
{
}

/// A node is reported for a probe at most once per probe interval: right after
/// a sweep that reported it, it is no longer due.
pub proof fn law_probe_is_throttled(s: PeerStateView, timeout: u64, now: u64, later: u64)
    requires
        s.suspicious(now, timeout),
        later <= now + PEER_PROBE_INTERVAL,
    ensures
        !s.swept(now, timeout).suspicious(later, timeout),
{
}

/// Removing a node twice reports it once.
pub proof fn law_removal_reports_once(nodes: Nodes, k: Seq<char>)
    ensures
        removal_report(nodes.remove(k), k) is None,
        nodes.remove(k).remove(k) == nodes.remove(k),
{
    assert(nodes.remove(k).remove(k) =~= nodes.remove(k));
}

/// A list of addresses that is already normalized keeps its order, and
/// merging addresses that are already there adds nothing.
pub proof fn law_merge_of_known_is_stable(known: Seq<Address>, new: Seq<Address>)
    requires
        forall|i: int| 0 <= i < new.len() ==> known.contains(#[trigger] new[i]),
    ensures
        merged(known, new) == known,
    decreases new.len(),
{
    if new.len() > 0 {
        assert forall|i: int| 0 <= i < new.drop_last().len() implies known.contains(
            #[trigger] new.drop_last()[i],
        ) by {
            assert(known.contains(new[i]));
        }
        law_merge_of_known_is_stable(known, new.drop_last());
        assert(known.contains(new[new.len() - 1]));
    }
}

/// After a usable UDP sighting, whether or not the node was known, the time of
/// its last heartbeat is that of the sighting: a sweep that comes no later than
/// the timeout after it keeps the node and asks for no probe.
pub proof fn law_heartbeat_keeps_a_node_online(
    nodes: Nodes,
    own: Seq<char>,
    peer: PeerView,
    at: u64,
    timeout: u64,
    later: u64,
)
    requires
        usable(nodes, own, peer, PeerSource::Udp, at),
        later <= at + timeout,
    ensures
        ({
            let f = peer.info.fingerprint;
            let after = upserted(nodes, own, peer, PeerSource::Udp, at);
            &&& after.dom().contains(f)
            &&& after[f].last_udp == Some(at)
            &&& swept(after, timeout, later).dom().contains(f)
            &&& swept(after, timeout, later)[f] == after[f]
            &&& !after[f].dead(later, timeout)
            &&& !after[f].suspicious(later, timeout)
        }),
{
}

/// A node that is heard over UDP alone goes with the first sweep later than the
/// timeout after its last heartbeat.
pub proof fn law_silent_node_goes(nodes: Nodes, k: Seq<char>, at: u64, timeout: u64, later: u64)
    requires
        nodes.dom().contains(k),
        !nodes[k].mdns_alive,
        nodes[k].last_udp == Some(at),
        later > at + timeout,
    ensures
        nodes[k].dead(later, timeout),
        !swept(nodes, timeout, later).dom().contains(k),
{
}

/// A sweep changes nothing of a node that it keeps but the time of its probe,
/// and it brings no node in.
pub proof fn law_sweep_keeps_what_it_keeps(nodes: Nodes, k: Seq<char>, timeout: u64, now: u64)
    ensures
        ({
            let after = swept(nodes, timeout, now);
            &&& after.dom().contains(k) ==> nodes.dom().contains(k)
            &&& after.dom().contains(k) ==> after[k].peer == nodes[k].peer && after[k].last_udp == nodes[k].last_udp
                && after[k].mdns_alive == nodes[k].mdns_alive
            &&& after.dom().contains(k) ==> after[k].last_probe == nodes[k].last_probe || after[k].last_probe
                == Some(now)
            &&& nodes.dom().contains(k) && !after.dom().contains(k) ==> !nodes[k].mdns_alive
        }),
{
}

/// A probe is due exactly for a node that is up over mDNS, whose UDP heartbeat
/// is missing or overdue, and that was not probed within the last half minute;
/// the sweep notes its time.
pub proof fn law_probe_is_due(nodes: Nodes, k: Seq<char>, timeout: u64, now: u64)
    requires
        nodes.dom().contains(k),
    ensures
        ({
            let s = nodes[k];
            let heard = s.last_udp is Some && now <= s.last_udp->0 + timeout;
            let probed = s.last_probe is Some && now <= s.last_probe->0 + 30_000;
            &&& s.suspicious(now, timeout) <==> s.mdns_alive && !heard && !probed
            &&& s.dead(now, timeout) <==> !s.mdns_alive && !heard
            &&& s.suspicious(now, timeout) ==> swept(nodes, timeout, now).dom().contains(k) && swept(
                nodes,
                timeout,
                now,
            )[k].last_probe == Some(now)
            &&& s.mdns_alive && !s.suspicious(now, timeout) ==> swept(nodes, timeout, now)[k] == s
        }),
{
}

/// A sighting stores what the node says of itself and the port, and adds
/// liveness on its own channel only. A new node counts as just probed, a known
/// one keeps the time of its probe.
pub proof fn law_sighting_is_stored(
    known: Option<PeerStateView>,
    peer: PeerView,
    source: PeerSource,
    now: u64,
)
    ensures
        ({
            let s = sighted(known, peer, source, now);
            &&& s.peer.info == peer.info
            &&& s.peer.port == peer.port
            &&& source == PeerSource::Udp ==> s.last_udp == Some(now)
            &&& source == PeerSource::Mdns ==> s.mdns_alive
            &&& known is None && source == PeerSource::Mdns ==> s.last_udp is None
            &&& known is None && source == PeerSource::Udp ==> !s.mdns_alive
            &&& known is Some && source == PeerSource::Mdns ==> s.last_udp == known->0.last_udp
            &&& known is Some && source == PeerSource::Udp ==> s.mdns_alive == known->0.mdns_alive
            &&& known is None ==> s.last_probe == Some(now)
            &&& known is Some ==> s.last_probe == known->0.last_probe
        }),
{
}

/// The stored addresses are those known before and those sighted now, as far
/// as they can be dialed: none is lost and none is made up.
pub proof fn law_sighting_joins_addresses(
    known: Option<PeerStateView>,
    peer: PeerView,
    source: PeerSource,
    now: u64,
    a: Address,
)
    ensures
        sighted(known, peer, source, now).peer.addrs.contains(a) <==> !a.link_local() && (peer.addrs.contains(a)
            || (known is Some && known->0.peer.addrs.contains(a))),
{
    let all = match known {
        Some(s) => merged(s.peer.addrs, peer.addrs),
        None => peer.addrs,
    };
    if known is Some {
        lemma_merged_members(known->0.peer.addrs, peer.addrs, a);
    }
    if all.contains(a) && !a.link_local() {
        lemma_normalized_holds(all, a);
    }
    if normalized(all).contains(a) {
        lemma_normalized_members(all, a);
    }
}

proof fn lemma_merged_members(known: Seq<Address>, new: Seq<Address>, a: Address)
    ensures
        merged(known, new).contains(a) <==> known.contains(a) || new.contains(a),
    decreases new.len(),
{
    if known.contains(a) {
        let i = choose|i: int| 0 <= i < known.len() && known[i] == a;
        lemma_merged_keeps(known, new, i);
    }
    if new.contains(a) {
        let i = choose|i: int| 0 <= i < new.len() && new[i] == a;
        lemma_merged_holds(known, new, i);
    }
    if merged(known, new).contains(a) && new.len() > 0 {
        let init = new.drop_last();
        lemma_merged_members(known, init, a);
        let before = merged(known, init);
        let k = choose|k: int| 0 <= k < merged(known, new).len() && merged(known, new)[k] == a;
        if k < before.len() {
            assert(before[k] == a);
            if init.contains(a) {
                let j = choose|j: int| 0 <= j < init.len() && init[j] == a;
                assert(new[j] == a);
            }
        } else {
            assert(new[new.len() - 1] == a);
        }
    }
}

proof fn lemma_normalized_members(all: Seq<Address>, a: Address)
    requires
        normalized(all).contains(a),
    ensures
        all.contains(a),
        !a.link_local(),
{
    law_normalized_addresses_can_be_dialed(all);
    let list = normalized(all);
    let i = choose|i: int| 0 <= i < list.len() && list[i] == a;
    let n0 = of_rank(all, 0).len();
    let n1 = n0 + of_rank(all, 1).len();
    let n2 = n1 + of_rank(all, 2).len();
    let r: int = if i < n0 {
        0
    } else if i < n1 {
        1
    } else if i < n2 {
        2
    } else {
        3
    };
    let from: int = if i < n0 {
        0
    } else if i < n1 {
        n0 as int
    } else if i < n2 {
        n1 as int
    } else {
        n2 as int
    };
    assert(of_rank(all, r)[i - from] == a);
    assert(of_rank(all, r).contains(a));
    all.lemma_filter_contains_rev(|x: Address| !x.link_local() && x.dial_rank() == r, a);
}

/// A sighting is used exactly when it is not of this device and leaves the node
/// with an address that can be dialed.
pub proof fn law_sighting_needs_an_address(
    nodes: Nodes,
    own: Seq<char>,
    peer: PeerView,
    source: PeerSource,
    now: u64,
)
    requires
        valid_nodes(nodes, own),
    ensures
        usable(nodes, own, peer, source, now) <==> peer.info.fingerprint != own && (nodes.dom().contains(
            peer.info.fingerprint,
        ) || exists|i: int| 0 <= i < peer.addrs.len() && !(#[trigger] peer.addrs[i]).link_local()),
        !usable(nodes, own, peer, source, now) ==> upserted(nodes, own, peer, source, now) == nodes
            && upsert_report(nodes, own, peer, source, now) is None,
        usable(nodes, own, peer, source, now) ==> upserted(nodes, own, peer, source, now).dom().contains(
            peer.info.fingerprint,
        ),
{
    let f = peer.info.fingerprint;
    let known = lookup(nodes, f);
    let stored = sighted(known, peer, source, now).peer.addrs;
    if stored.len() > 0 {
        law_sighting_joins_addresses(known, peer, source, now, stored[0]);
        assert(stored.contains(stored[0]));
        if !nodes.dom().contains(f) {
            let i = choose|i: int| 0 <= i < peer.addrs.len() && peer.addrs[i] == stored[0];
            assert(!peer.addrs[i].link_local());
        }
    }
    if nodes.dom().contains(f) {
        let a = nodes[f].peer.addrs[0];
        assert(valid_node(nodes[f], f, own));
        assert(nodes[f].peer.addrs.contains(a));
        law_sighting_joins_addresses(known, peer, source, now, a);
    }
    if exists|i: int| 0 <= i < peer.addrs.len() && !(#[trigger] peer.addrs[i]).link_local() {
        let i = choose|i: int| 0 <= i < peer.addrs.len() && !(#[trigger] peer.addrs[i]).link_local();
        assert(peer.addrs.contains(peer.addrs[i]));
        law_sighting_joins_addresses(known, peer, source, now, peer.addrs[i]);
    }
}

/// When the mDNS service of a node goes away, the node goes with it unless its
/// UDP heartbeat is within the timeout; then it only loses that channel. Every
/// other node stays as it is.
pub proof fn law_lost_service(nodes: Nodes, k: Seq<char>, timeout: u64, now: u64, other: Seq<char>)
    requires
        nodes.dom().contains(k),
        other != k,
    ensures
        ({
            let after = mdns_lost(nodes, k, timeout, now);
            let heard = nodes[k].last_udp is Some && now <= nodes[k].last_udp->0 + timeout;
            &&& after.dom().contains(k) <==> heard
            &&& heard ==> !after[k].mdns_alive && after[k].peer == nodes[k].peer && after[k].last_udp
                == nodes[k].last_udp && after[k].last_probe == nodes[k].last_probe
            &&& after.dom().contains(other) <==> nodes.dom().contains(other)
            &&& nodes.dom().contains(other) ==> after[other] == nodes[other]
        }),
{
}

/// Loopback is the network 127.0.0.0/8 and the address ::1; link-local is the
/// IPv6 network fe80::/10.
pub proof fn law_address_classes(n: u32, m: u128)
    ensures
        Address::V4(n).loopback() <==> 0x7f00_0000 <= n <= 0x7fff_ffff,
        Address::V6(m).loopback() <==> m == 1,
        !Address::V4(n).link_local(),
        Address::V6(m).link_local() <==> m / 0x40_0000_0000_0000_0000_0000_0000_0000 == 0x3fa,
{
}

/// Addresses are tried in this order: IPv4, IPv6, and last the loopback ones,
/// IPv4 first again.
pub proof fn law_dial_order(a: Address, b: Address)
    ensures
        !a.loopback() && b.loopback() ==> a.dial_rank() < b.dial_rank(),
        a.loopback() == b.loopback() && a is V4 && b is V6 ==> a.dial_rank() < b.dial_rank(),
        a.loopback() == b.loopback() && (a is V4 <==> b is V4) ==> a.dial_rank() == b.dial_rank(),
{
}

/// Normalizing loses no address that can be dialed and adds none.
pub proof fn law_normalizing_keeps_addresses(all: Seq<Address>, a: Address)
    ensures
        normalized(all).contains(a) <==> all.contains(a) && !a.link_local(),
{
    if all.contains(a) && !a.link_local() {
        lemma_normalized_holds(all, a);
    }
    if normalized(all).contains(a) {
        lemma_normalized_members(all, a);
    }
}

} // verus!
