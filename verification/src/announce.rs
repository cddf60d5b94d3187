//! The discovery service: what is broadcast, and what a packet does.

use vstd::prelude::*;
use crate::config::{PEER_TIMEOUT, STALL_JUMP};
use crate::discovery::{
    normalize_addrs, normalized, removal_report, upsert_report, upserted, Address, Nodes, Peer,
    PeerEvent, PeerEventView, PeerSource, PeerView, Registry, MDNS_SERVICE_TYPE,
};
use crate::protocol::{PeerInfo, PeerInfoView};
use crate::text::{self, opt_view, trimmed_end};

verus! {

/// A text without dots at its end.
pub open spec fn without_dots(s: Seq<char>) -> Seq<char> {
    trimmed_end(s, |c: char| c == '.')
}

/// The instance name in an mDNS full name: the device ID. Nothing when the
/// name is not one of this service.
pub open spec fn instance_part(fullname: Seq<char>) -> Option<Seq<char>> {
    if text::has_suffix(fullname, MDNS_SERVICE_TYPE@) {
        Some(without_dots(fullname.take(fullname.len() - MDNS_SERVICE_TYPE@.len())))
    } else {
        None
    }
}

/// The instance name in an mDNS full name.
pub fn instance_of(fullname: &str) -> (r: Option<String>)
    ensures
        opt_view(r) == instance_part(fullname@),
{
    match text::strip_suffix(fullname, MDNS_SERVICE_TYPE) {
        None => None,
        Some(rest) => {
            let mut chars: Vec<char> = text::chars_of(rest.as_str());
            while chars.len() > 0 && chars[chars.len() - 1] == '.'
                invariant
                    without_dots(chars@) == without_dots(rest@),
                decreases chars.len(),
            {
                proof {
                    assert(chars@.last() == '.');
                }
                chars.pop();
            }
            Some(text::string_of(chars.as_slice()))
        },
    }
}

/// The full mDNS name of a device.
pub open spec fn fullname_of(device_id: Seq<char>) -> Seq<char> {
    device_id + "."@ + MDNS_SERVICE_TYPE@
}

/// The full mDNS name of a device.
pub fn mdns_fullname(device_id: &str) -> (r: String)
    ensures
        r@ == fullname_of(device_id@),
{
    let mut out = device_id.to_owned();
    out.append(".");
    out.append(MDNS_SERVICE_TYPE);
    out
}

/// The device ID is read back from the full name (device IDs do not end in a
/// dot).
pub proof fn law_fullname_names_the_device(device_id: Seq<char>)
    requires
        device_id.len() > 0 ==> device_id.last() != '.',
    ensures
        instance_part(fullname_of(device_id)) == Some(device_id),
{
    reveal_strlit(".");
    let full = fullname_of(device_id);
    let n = full.len() - MDNS_SERVICE_TYPE@.len();
    assert(full.skip(n) =~= MDNS_SERVICE_TYPE@);
    assert(full.take(n) =~= device_id.push('.'));
    assert(device_id.push('.').drop_last() =~= device_id);
    let drop = |c: char| c == '.';
    assert(drop('.'));
    assert(trimmed_end(device_id, drop) == device_id);
    assert(trimmed_end(device_id.push('.'), drop) == device_id);
}

/// The properties of an mDNS record that name a device; a property that the
/// record lacks is absent.
#[derive(Debug, PartialEq, Eq)]
pub struct MdnsProperties {
    /// Device ID
    pub id: Option<String>,
    /// Display name
    pub name: Option<String>,
    /// Certificate fingerprint
    pub fp: Option<String>,
    /// Platform tag
    pub platform: Option<String>,
    /// OS version description
    pub osv: Option<String>,
}

/// The properties that announce a device.
pub fn mdns_properties(info: &PeerInfo) -> (r: MdnsProperties)
    ensures
        opt_view(r.id) == Some(info@.device_id),
        opt_view(r.name) == Some(info@.name),
        opt_view(r.fp) == Some(info@.fingerprint),
        opt_view(r.platform) == Some(info@.platform),
        opt_view(r.osv) == info@.os_version,
{
    MdnsProperties {
        id: Some(info.device_id.clone()),
        name: Some(info.name.clone()),
        fp: Some(info.fingerprint.clone()),
        platform: Some(info.platform.clone()),
        osv: text::clone_opt(&info.os_version),
    }
}

/// The node that a resolved record stands for: nothing when a property is
/// missing or no address can be dialed.
pub open spec fn resolved(
    id: Option<Seq<char>>,
    name: Option<Seq<char>>,
    fp: Option<Seq<char>>,
    platform: Option<Seq<char>>,
    osv: Option<Seq<char>>,
    addrs: Seq<Address>,
    port: u16,
) -> Option<PeerView> {
    if id is Some && name is Some && fp is Some && platform is Some && normalized(addrs).len() > 0 {
        Some(
            PeerView {
                info: PeerInfoView {
                    device_id: id->0,
                    name: name->0,
                    fingerprint: fp->0,
                    platform: platform->0,
                    os_version: osv,
                },
                addrs: normalized(addrs),
                port,
            },
        )
    } else {
        None
    }
}

/// Builds the node from a resolved mDNS record.
pub fn peer_from_mdns(props: MdnsProperties, addrs: &Vec<Address>, port: u16) -> (r: Option<Peer>)
    ensures
        opt_view(r) == resolved(
            opt_view(props.id),
            opt_view(props.name),
            opt_view(props.fp),
            opt_view(props.platform),
            opt_view(props.osv),
            addrs@,
            port,
        ),
{
    let usable: Vec<Address> = normalize_addrs(addrs);
    if usable.len() == 0 {
        return None;
    }
    match (props.id, props.name, props.fp, props.platform) {
        (Some(device_id), Some(name), Some(fingerprint), Some(platform)) => Some(
            Peer {
                info: PeerInfo { device_id, name, fingerprint, platform, os_version: props.osv },
                addrs: usable,
                port,
            },
        ),
        _ => None,
    }
}

/// What a device announces is what a peer reads.
pub proof fn law_announced_info_is_resolved(info: PeerInfoView, addrs: Seq<Address>, port: u16)
    requires
        normalized(addrs).len() > 0,
    ensures
        resolved(
            Some(info.device_id),
            Some(info.name),
            Some(info.fingerprint),
            Some(info.platform),
            info.os_version,
            addrs,
            port,
        ) == Some(PeerView { info, addrs: normalized(addrs), port }),
{
}

/// Kind of a UDP packet.
#[derive(PartialEq, Eq, Structural, Clone, Copy, Debug)]
pub enum AnnounceKind {
    /// Periodic broadcast
    Announce,
    /// Unicast reply to a broadcast
    Response,
    /// Going offline
    Goodbye,
}

/// The encoded packets of the UDP channel; an empty packet is not sent.
#[derive(Debug, PartialEq, Eq)]
pub struct UdpPackets {
    /// Periodic broadcast
    pub announce: Vec<u8>,
    /// Unicast reply to a broadcast
    pub response: Vec<u8>,
    /// Going offline
    pub goodbye: Vec<u8>,
}

/// What [`UdpPackets`] stand for.
#[verifier::ext_equal]
pub struct PacketsView {
    pub announce: Seq<u8>,
    pub response: Seq<u8>,
    pub goodbye: Seq<u8>,
}

impl View for UdpPackets {
    type V = PacketsView;

    open spec fn view(&self) -> PacketsView {
        PacketsView {
            announce: self.announce@,
            response: self.response@,
            goodbye: self.goodbye@,
        }
    }
}

/// Packets that are never sent.
pub open spec fn silence() -> PacketsView {
    PacketsView { announce: Seq::empty(), response: Seq::empty(), goodbye: Seq::empty() }
}

impl UdpPackets {
    /// The packet set of an identity: passive mode only receives, so every
    /// packet stays empty.
    pub fn encode(announce: Vec<u8>, response: Vec<u8>, goodbye: Vec<u8>, passive: bool) -> (r: UdpPackets)
        ensures
            r@ == (if passive {
                silence()
            } else {
                PacketsView { announce: announce@, response: response@, goodbye: goodbye@ }
            }),
    {
        if passive {
            let r = UdpPackets { announce: Vec::new(), response: Vec::new(), goodbye: Vec::new() };
            proof {
                assert(r@ =~= silence());
            }
            return r;
        }
        UdpPackets { announce, response, goodbye }
    }
}

fn copy_bytes(v: &Vec<u8>) -> (r: Vec<u8>)
    ensures
        r@ == v@,
{
    let out: Vec<u8> = v.clone();
    proof {
        assert(out@ =~= v@);
    }
    out
}

/// What the channels are to do.
#[derive(Debug, PartialEq, Eq)]
pub enum Broadcast {
    /// Send a packet to the multicast group
    Send(Vec<u8>),
    /// Register the mDNS service of the current identity
    Register,
    /// Unregister the mDNS service of that name
    Unregister(String),
    /// Stop the mDNS daemon
    Stop,
}

/// What a [`Broadcast`] stands for.
#[verifier::ext_equal]
pub enum BroadcastView {
    Send(Seq<u8>),
    Register,
    Unregister(Seq<char>),
    Stop,
}

impl View for Broadcast {
    type V = BroadcastView;

    open spec fn view(&self) -> BroadcastView {
        match *self {
            Broadcast::Send(b) => BroadcastView::Send(b@),
            Broadcast::Register => BroadcastView::Register,
            Broadcast::Unregister(n) => BroadcastView::Unregister(n@),
            Broadcast::Stop => BroadcastView::Stop,
        }
    }
}

/// Discovery errors.
#[derive(Debug, PartialEq, Eq)]
pub enum DiscoveryError {
    /// Neither channel could be set up
    AllChannelsFailed,
    /// The UDP channel failed
    Io(String),
    /// The mDNS channel failed
    Mdns(String),
}

/// The discovery service: the registry and the broadcast side.
pub struct DiscoveryService {
    registry: Registry,
    info: PeerInfo,
    tcp_port: u16,
    passive: bool,
    packets: UdpPackets,
    has_udp: bool,
    has_mdns: bool,
    fullname: Option<String>,
}

/// What the broadcast side of a [`DiscoveryService`] stands for.
#[verifier::ext_equal]
pub struct ServiceView {
    pub own: Seq<char>,
    pub nodes: Nodes,
    pub info: PeerInfoView,
    pub tcp_port: u16,
    pub passive: bool,
    pub packets: PacketsView,
    pub has_udp: bool,
    pub has_mdns: bool,
    pub fullname: Option<Seq<char>>,
}

impl View for DiscoveryService {
    type V = ServiceView;

    closed spec fn view(&self) -> ServiceView {
        ServiceView {
            own: self.registry.own(),
            nodes: self.registry@,
            info: self.info@,
            tcp_port: self.tcp_port,
            passive: self.passive,
            packets: self.packets@,
            has_udp: self.has_udp,
            has_mdns: self.has_mdns,
            fullname: opt_view(self.fullname),
        }
    }
}

/// One packet, unless it is empty or there is no channel for it.
pub open spec fn sends(up: bool, packet: Seq<u8>, times: nat) -> Seq<BroadcastView> {
    if up && packet.len() > 0 {
        Seq::new(times, |i: int| BroadcastView::Send(packet))
    } else {
        Seq::empty()
    }
}

/// The withdrawal of a registration that was made.
pub open spec fn withdrawals(s: ServiceView) -> Seq<BroadcastView> {
    if s.has_mdns && s.fullname is Some {
        seq![BroadcastView::Unregister(s.fullname->0)]
    } else {
        Seq::empty()
    }
}

/// A registration, where there is a channel for it.
pub open spec fn registrations(s: ServiceView) -> Seq<BroadcastView> {
    if s.has_mdns {
        seq![BroadcastView::Register]
    } else {
        Seq::empty()
    }
}

impl ServiceView {
    /// What a packet of the UDP channel does: the service after it, what is
    /// reported, and the reply to the sender. Packets of this device are ignored.
    pub open spec fn received(
        self,
        kind: AnnounceKind,
        info: PeerInfoView,
        tcp_port: u16,
        source: Address,
        now: u64,
    ) -> (ServiceView, Option<PeerEventView>, Option<Seq<u8>>) {
        let peer = PeerView { info, addrs: seq![source], port: tcp_port };
        if info.fingerprint == self.own {
            (self, None, None)
        } else if kind == AnnounceKind::Goodbye {
            (
                ServiceView { nodes: self.nodes.remove(info.fingerprint), ..self },
                removal_report(self.nodes, info.fingerprint),
                None,
            )
        } else {
            (
                ServiceView {
                    nodes: upserted(self.nodes, self.own, peer, PeerSource::Udp, now),
                    ..self
                },
                upsert_report(self.nodes, self.own, peer, PeerSource::Udp, now),
                if kind == AnnounceKind::Announce && self.packets.response.len() > 0 {
                    Some(self.packets.response)
                } else {
                    None
                },
            )
        }
    }

    /// What follows a probe that did not find the node.
    pub open spec fn concluded(self, fingerprint: Seq<char>, device_id: Seq<char>, now: u64) -> ConclusionView {
        if self.nodes.dom().contains(fingerprint) && !self.nodes[fingerprint].udp_silent(
            now,
            PEER_TIMEOUT,
        ) {
            ConclusionView::Keep
        } else if self.has_mdns {
            ConclusionView::Verify(fullname_of(device_id))
        } else {
            ConclusionView::Drop
        }
    }

    /// What goes out when the service ends.
    pub open spec fn farewell(self) -> Seq<BroadcastView> {
        sends(self.has_udp, self.packets.goodbye, 2) + withdrawals(self) + (if self.has_mdns {
            seq![BroadcastView::Stop]
        } else {
            Seq::empty()
        })
    }

    /// What goes out when the display identity changes.
    pub open spec fn renewal(self, packets: PacketsView) -> Seq<BroadcastView> {
        if self.passive {
            Seq::empty()
        } else {
            sends(self.has_udp, packets.announce, 1) + registrations(self)
        }
    }

    /// The service after the switch to or from passive mode, given the
    /// encoded packets of its identity.
    pub open spec fn switched(self, passive: bool, packets: PacketsView) -> ServiceView {
        if self.passive == passive {
            self
        } else if passive {
            ServiceView {
                passive,
                packets: silence(),
                fullname: if self.has_mdns {
                    None
                } else {
                    self.fullname
                },
                ..self
            }
        } else {
            ServiceView { passive, packets, ..self }
        }
    }

    /// What goes out on the switch: the goodbye twice, then the withdrawal; or
    /// the registration, then one announcement.
    pub open spec fn switch_actions(self, passive: bool, packets: PacketsView) -> Seq<BroadcastView> {
        if self.passive == passive {
            Seq::empty()
        } else if passive {
            sends(self.has_udp, self.packets.goodbye, 2) + withdrawals(self)
        } else {
            registrations(self) + sends(self.has_udp, packets.announce, 1)
        }
    }
}

fn push_sends(out: &mut Vec<Broadcast>, up: bool, packet: &Vec<u8>, twice: bool)
    ensures
        text::views(final(out)@) == text::views(old(out)@) + sends(
            up,
            packet@,
            if twice {
                2
            } else {
                1
            },
        ),
{
    let ghost before = text::views(out@);
    if up && packet.len() > 0 {
        out.push(Broadcast::Send(copy_bytes(packet)));
        if twice {
            out.push(Broadcast::Send(copy_bytes(packet)));
        }
    }
    proof {
        assert(text::views(out@) =~= before + sends(
            up,
            packet@,
            if twice {
                2
            } else {
                1
            },
        ));
    }
}

impl DiscoveryService {
    /// The registry is well formed, and it belongs to the identity that is
    /// broadcast.
    pub closed spec fn wf(self) -> bool {
        &&& self.registry.wf()
        &&& self.passive ==> self.packets@ == silence()
    }

    /// A passive service has nothing to send.
    pub proof fn law_passive_is_silent(self)
        requires
            self.wf(),
            self@.passive,
        ensures
            self@.packets == silence(),
    {
    }

    /// The service once its channels are set up. Either channel is enough;
    /// only the failure of both is an error.
    pub fn new(
        info: PeerInfo,
        tcp_port: u16,
        passive: bool,
        packets: UdpPackets,
        has_udp: bool,
        has_mdns: bool,
        fullname: Option<String>,
    ) -> (r: Result<DiscoveryService, DiscoveryError>)
        ensures
            match r {
                Ok(s) => (has_udp || has_mdns) && s.wf() && s@ == (ServiceView {
                    own: info@.fingerprint,
                    nodes: Map::empty(),
                    info: info@,
                    tcp_port,
                    passive,
                    packets: if passive {
                        silence()
                    } else {
                        packets@
                    },
                    has_udp,
                    has_mdns,
                    fullname: opt_view(fullname),
                }),
                Err(e) => !has_udp && !has_mdns && e is AllChannelsFailed,
            },
    {
        if !has_udp && !has_mdns {
            return Err(DiscoveryError::AllChannelsFailed);
        }
        let packets = UdpPackets::encode(
            packets.announce,
            packets.response,
            packets.goodbye,
            passive,
        );
        Ok(
            DiscoveryService {
                registry: Registry::new(info.fingerprint.clone()),
                info,
                tcp_port,
                passive,
                packets,
                has_udp,
                has_mdns,
                fullname,
            },
        )
    }

    /// The identity that is broadcast.
    pub fn info(&self) -> (r: PeerInfo)
        ensures
            r@ == self@.info,
    {
        self.info.clone()
    }

    /// The TCP port that is broadcast.
    pub fn tcp_port(&self) -> (r: u16)
        ensures
            r == self@.tcp_port,
    {
        self.tcp_port
    }

    /// The announcement that a heartbeat sends, if any.
    pub fn heartbeat(&self) -> (r: Option<Vec<u8>>)
        ensures
            opt_view(r) == (if self@.packets.announce.len() > 0 {
                Some(self@.packets.announce)
            } else {
                None
            }),
    {
        if self.packets.announce.len() > 0 {
            Some(copy_bytes(&self.packets.announce))
        } else {
            None
        }
    }

    /// Handles one packet of the UDP channel: the report of what it changed,
    /// and the reply to the sender, if any. Packets of this device are
    /// ignored.
    pub fn on_packet(
        &mut self,
        kind: AnnounceKind,
        info: PeerInfo,
        tcp_port: u16,
        source: Address,
        now: u64,
    ) -> (r: (Option<PeerEvent>, Option<Vec<u8>>))
        requires
            old(self).wf(),
        ensures
            final(self).wf(),
            (final(self)@, opt_view(r.0), opt_view(r.1)) == old(self)@.received(
                kind,
                info@,
                tcp_port,
                source,
                now,
            ),
    {
        let own = self.registry.own_fingerprint();
        if text::same(info.fingerprint.as_str(), own.as_str()) {
            return (None, None);
        }
        match kind {
            AnnounceKind::Goodbye => (self.registry.remove(info.fingerprint.as_str()), None),
            _ => {
                let mut addrs: Vec<Address> = Vec::new();
                addrs.push(source);
                proof {
                    assert(addrs@ =~= seq![source]);
                }
                let peer = Peer { info, addrs, port: tcp_port };
                let report = self.registry.upsert(peer, PeerSource::Udp, now);
                let reply = if kind == AnnounceKind::Announce && self.packets.response.len() > 0 {
                    Some(copy_bytes(&self.packets.response))
                } else {
                    None
                };
                (report, reply)
            },
        }
    }

    /// A resolved mDNS record came in.
    pub fn on_resolved(&mut self, peer: Peer, now: u64) -> (r: Option<PeerEvent>)
        requires
            old(self).wf(),
        ensures
            final(self).wf(),
            final(self)@ == (ServiceView {
                nodes: upserted(old(self)@.nodes, old(self)@.own, peer@, PeerSource::Mdns, now),
                ..old(self)@
            }),
            opt_view(r) == upsert_report(
                old(self)@.nodes,
                old(self)@.own,
                peer@,
                PeerSource::Mdns,
                now,
            ),
    {
        self.registry.upsert(peer, PeerSource::Mdns, now)
    }

    /// The registry, for the sweep and the probes.
    pub fn registry(&mut self) -> (r: &mut Registry)
        requires
            old(self).wf(),
        ensures
            r.wf(),
            r.own() == old(self)@.own,
            r@ == old(self)@.nodes,
            final(r).wf() && final(r).own() == r.own() ==> final(self).wf() && final(self)@ == (
            ServiceView { nodes: final(r)@, ..old(self)@ }),
    {
        &mut self.registry
    }

    /// Switches passive mode; `packets` are those of the identity.
    pub fn set_passive(&mut self, passive: bool, packets: UdpPackets) -> (r: Vec<Broadcast>)
        requires
            old(self).wf(),
        ensures
            final(self).wf(),
            final(self)@ == old(self)@.switched(passive, packets@),
            text::views(r@) == old(self)@.switch_actions(passive, packets@),
    {
        let mut out: Vec<Broadcast> = Vec::new();
        proof {
            assert(text::views(out@) =~= Seq::<BroadcastView>::empty());
        }
        if self.passive == passive {
            return out;
        }
        let ghost s = self@;
        self.passive = passive;
        if passive {
            push_sends(&mut out, self.has_udp, &self.packets.goodbye, true);
            self.packets = UdpPackets::encode(Vec::new(), Vec::new(), Vec::new(), true);
            let ghost head = text::views(out@);
            if self.has_mdns {
                let mut name: Option<String> = None;
                std::mem::swap(&mut name, &mut self.fullname);
                match name {
                    Some(n) => out.push(Broadcast::Unregister(n)),
                    None => {},
                }
            }
            proof {
                assert(text::views(out@) =~= head + withdrawals(s));
                assert(text::views(out@) =~= s.switch_actions(passive, packets@));
            }
        } else {
            if self.has_mdns {
                out.push(Broadcast::Register);
            }
            proof {
                assert(text::views(out@) =~= registrations(s));
            }
            push_sends(&mut out, self.has_udp, &packets.announce, false);
            self.packets = packets;
        }
        out
    }

    /// Takes a new display identity over; `packets` are those of it. The
    /// fingerprint is the root of the identity and stays.
    pub fn update_info(&mut self, info: PeerInfo, packets: UdpPackets) -> (r: Vec<Broadcast>)
        requires
            old(self).wf(),
        ensures
            final(self).wf(),
            final(self)@ == (ServiceView {
                info: info@,
                packets: if old(self)@.passive {
                    silence()
                } else {
                    packets@
                },
                ..old(self)@
            }),
            text::views(r@) == old(self)@.renewal(packets@),
    {
        let mut out: Vec<Broadcast> = Vec::new();
        proof {
            assert(text::views(out@) =~= Seq::<BroadcastView>::empty());
        }
        self.info = info;
        if self.passive {
            return out;
        }
        push_sends(&mut out, self.has_udp, &packets.announce, false);
        let ghost head = text::views(out@);
        if self.has_mdns {
            out.push(Broadcast::Register);
        }
        proof {
            assert(head =~= sends(old(self)@.has_udp, packets@.announce, 1));
            assert(text::views(out@) =~= head + registrations(old(self)@));
        }
        self.packets = packets;
        out
    }

    /// Notes the name that a registration was made under.
    pub fn registered(&mut self, fullname: String)
        requires
            old(self).wf(),
        ensures
            final(self).wf(),
            final(self)@ == (ServiceView { fullname: Some(fullname@), ..old(self)@ }),
    {
        self.fullname = Some(fullname);
    }

    /// Going offline: the goodbye twice, then the withdrawal and the end of
    /// the daemon.
    pub fn shutdown(&mut self) -> (r: Vec<Broadcast>)
        requires
            old(self).wf(),
        ensures
            final(self).wf(),
            final(self)@ == (ServiceView {
                fullname: if old(self)@.has_mdns {
                    None
                } else {
                    old(self)@.fullname
                },
                ..old(self)@
            }),
            text::views(r@) == old(self)@.farewell(),
    {
        let ghost s = self@;
        let mut out: Vec<Broadcast> = Vec::new();
        proof {
            assert(text::views(out@) =~= Seq::<BroadcastView>::empty());
        }
        push_sends(&mut out, self.has_udp, &self.packets.goodbye, true);
        let ghost head = text::views(out@);
        if self.has_mdns {
            let mut name: Option<String> = None;
            std::mem::swap(&mut name, &mut self.fullname);
            match name {
                Some(n) => out.push(Broadcast::Unregister(n)),
                None => {},
            }
            out.push(Broadcast::Stop);
        }
        proof {
            assert(head =~= sends(s.has_udp, s.packets.goodbye, 2));
            assert(text::views(out@) =~= head + withdrawals(s) + (if s.has_mdns {
                seq![BroadcastView::Stop]
            } else {
                Seq::empty()
            }));
        }
        out
    }

    /// The nodes that are online.
    pub fn peers(&self) -> (r: Vec<Peer>)
        requires
            self.wf(),
        ensures
            crate::discovery::names_exactly(
                crate::discovery::fingerprints(text::views(r@)),
                |k: Seq<char>| self@.nodes.dom().contains(k),
            ),
            forall|i: int|
                0 <= i < r@.len() ==> (#[trigger] r@[i])@ == self@.nodes[r@[i]@.info.fingerprint].peer,
    {
        let list: Vec<Peer> = self.registry.snapshot();
        proof {
            assert(self.registry@ == self@.nodes);
            let f = crate::discovery::fingerprints(text::views(list@));
            let p = |k: Seq<char>| self@.nodes.dom().contains(k);
            let q = |k: Seq<char>| self.registry@.dom().contains(k);
            assert forall|k: Seq<char>| p(k) <==> #[trigger] f.contains(k) by {
                assert(q(k) <==> f.contains(k));
            }
        }
        list
    }

    /// The node of a fingerprint.
    pub fn peer_by_fingerprint(&self, fingerprint: &str) -> (r: Option<Peer>)
        requires
            self.wf(),
        ensures
            opt_view(r) == (if self@.nodes.dom().contains(fingerprint@) {
                Some(self@.nodes[fingerprint@].peer)
            } else {
                None
            }),
    {
        self.registry.find(fingerprint)
    }

    /// What follows a probe that did not find the node at any of its
    /// addresses.
    pub fn conclude_probe(&self, fingerprint: &str, device_id: &str, now: u64) -> (r: ProbeConclusion)
        requires
            self.wf(),
        ensures
            r@ == self@.concluded(fingerprint@, device_id@, now),
    {
        if self.registry.udp_fresh(fingerprint, PEER_TIMEOUT, now) {
            ProbeConclusion::Keep
        } else if self.has_mdns {
            ProbeConclusion::Verify(mdns_fullname(device_id))
        } else {
            ProbeConclusion::Drop
        }
    }
}

/// What follows a probe that did not find the node.
#[derive(Debug, PartialEq, Eq)]
pub enum ProbeConclusion {
    /// Its UDP heartbeat came back meanwhile
    Keep,
    /// Have the mDNS daemon verify its record of that name
    Verify(String),
    /// Remove it
    Drop,
}

/// What a [`ProbeConclusion`] stands for.
#[verifier::ext_equal]
pub enum ConclusionView {
    Keep,
    Verify(Seq<char>),
    Drop,
}

impl View for ProbeConclusion {
    type V = ConclusionView;

    open spec fn view(&self) -> ConclusionView {
        match *self {
            ProbeConclusion::Keep => ConclusionView::Keep,
            ProbeConclusion::Verify(n) => ConclusionView::Verify(n@),
            ProbeConclusion::Drop => ConclusionView::Drop,
        }
    }
}

/// Whether a probe found the node itself: a connection alone proves nothing,
/// the certificate has to be the node's.
pub fn probe_found(found: &Option<String>, expected: &str) -> (r: bool)
    ensures
        r == (opt_view(*found) == Some(expected@)),
{
    match found {
        Some(fp) => text::same(fp.as_str(), expected),
        None => false,
    }
}

/// Whether the gap between two wall clock readings exceeds that of the
/// monotonic clock so much that the system slept.
pub fn resumed_from_sleep(wall_gap_ms: u64, mono_gap_ms: u64) -> (r: bool)
    ensures
        r == (wall_gap_ms - mono_gap_ms >= STALL_JUMP),
{
    wall_gap_ms.saturating_sub(mono_gap_ms) >= STALL_JUMP
}

/// A packet of this device changes nothing and is not answered.
pub proof fn law_own_packets_are_ignored(
    s: ServiceView,
    kind: AnnounceKind,
    info: PeerInfoView,
    tcp_port: u16,
    source: Address,
    now: u64,
)
    requires
        info.fingerprint == s.own,
    ensures
        s.received(kind, info, tcp_port, source, now).0 == s,
        s.received(kind, info, tcp_port, source, now).1 is None,
        s.received(kind, info, tcp_port, source, now).2 is None,
{
}

/// An announcement, and a reply to one, bring the sender online at the address
/// that the packet came from and at the port that it names. An announcement is
/// answered, unless there is nothing to answer with; a reply never is.
pub proof fn law_packet_brings_the_sender_online(
    s: ServiceView,
    kind: AnnounceKind,
    info: PeerInfoView,
    tcp_port: u16,
    source: Address,
    now: u64,
)
    requires
        info.fingerprint != s.own,
        kind != AnnounceKind::Goodbye,
    ensures
        ({
            let (after, report, reply) = s.received(kind, info, tcp_port, source, now);
            let peer = PeerView { info, addrs: seq![source], port: tcp_port };
            &&& after.nodes == upserted(s.nodes, s.own, peer, PeerSource::Udp, now)
            &&& report == upsert_report(s.nodes, s.own, peer, PeerSource::Udp, now)
            &&& (ServiceView { nodes: s.nodes, ..after }) == s
            &&& kind == AnnounceKind::Response ==> reply is None
            &&& kind == AnnounceKind::Announce && s.packets.response.len() > 0 ==> reply == Some(
                s.packets.response,
            )
            &&& s.packets.response.len() == 0 ==> reply is None
        }),
{
}

/// A goodbye takes the sender offline at once, and nobody else; it is not
/// answered.
pub proof fn law_goodbye_takes_the_sender_offline(
    s: ServiceView,
    info: PeerInfoView,
    tcp_port: u16,
    source: Address,
    now: u64,
    other: Seq<char>,
)
    requires
        info.fingerprint != s.own,
    ensures
        ({
            let (after, report, reply) = s.received(
                AnnounceKind::Goodbye,
                info,
                tcp_port,
                source,
                now,
            );
            &&& !after.nodes.dom().contains(info.fingerprint)
            &&& other != info.fingerprint ==> after.nodes.dom().contains(other)
                == s.nodes.dom().contains(other)
            &&& other != info.fingerprint && s.nodes.dom().contains(other) ==> after.nodes[other]
                == s.nodes[other]
            &&& s.nodes.dom().contains(info.fingerprint) ==> report == Some(
                PeerEventView::Down(info.fingerprint),
            )
            &&& !s.nodes.dom().contains(info.fingerprint) ==> report is None
            &&& reply is None
            &&& (ServiceView { nodes: s.nodes, ..after }) == s
        }),
{
}

/// Going passive says goodbye twice and withdraws the registration; from then on
/// there is nothing to send. Coming back registers and announces. A switch to
/// where the service is does nothing. The nodes stay either way.
pub proof fn law_switching(s: ServiceView, packets: PacketsView)
    ensures
        s.passive ==> s.switched(true, packets) == s && s.switch_actions(true, packets).len() == 0,
        !s.passive ==> s.switched(false, packets) == s && s.switch_actions(false, packets).len()
            == 0,
        !s.passive ==> ({
            let after = s.switched(true, packets);
            let out = s.switch_actions(true, packets);
            &&& after.passive
            &&& after.packets.announce.len() == 0 && after.packets.response.len() == 0
                && after.packets.goodbye.len() == 0
            &&& s.has_mdns ==> after.fullname is None
            &&& after.nodes == s.nodes && after.own == s.own && after.info == s.info
                && after.tcp_port == s.tcp_port && after.has_udp == s.has_udp && after.has_mdns
                == s.has_mdns
            &&& s.has_udp && s.packets.goodbye.len() > 0 && s.has_mdns && s.fullname is Some ==> out
                == seq![
                BroadcastView::Send(s.packets.goodbye),
                BroadcastView::Send(s.packets.goodbye),
                BroadcastView::Unregister(s.fullname->0),
            ]
            &&& s.has_udp && s.packets.goodbye.len() > 0 && !s.has_mdns ==> out == seq![
                BroadcastView::Send(s.packets.goodbye),
                BroadcastView::Send(s.packets.goodbye),
            ]
            &&& !s.has_udp && s.has_mdns && s.fullname is Some ==> out == seq![
                BroadcastView::Unregister(s.fullname->0),
            ]
        }),
        s.passive ==> ({
            let after = s.switched(false, packets);
            let out = s.switch_actions(false, packets);
            &&& !after.passive && after.packets == packets
            &&& (ServiceView { passive: s.passive, packets: s.packets, ..after }) == s
            &&& s.has_mdns && s.has_udp && packets.announce.len() > 0 ==> out == seq![
                BroadcastView::Register,
                BroadcastView::Send(packets.announce),
            ]
            &&& s.has_mdns && !s.has_udp ==> out == seq![BroadcastView::Register]
            &&& !s.has_mdns && s.has_udp && packets.announce.len() > 0 ==> out == seq![
                BroadcastView::Send(packets.announce),
            ]
        }),
{
}

/// The service ends with two goodbyes, the withdrawal of what it had registered
/// and the end of the daemon, as far as there are channels for them.
pub proof fn law_farewell(s: ServiceView)
    ensures
        s.has_udp && s.packets.goodbye.len() > 0 && s.has_mdns && s.fullname is Some ==> s.farewell()
            == seq![
            BroadcastView::Send(s.packets.goodbye),
            BroadcastView::Send(s.packets.goodbye),
            BroadcastView::Unregister(s.fullname->0),
            BroadcastView::Stop,
        ],
        s.has_udp && s.packets.goodbye.len() > 0 && !s.has_mdns ==> s.farewell() == seq![
            BroadcastView::Send(s.packets.goodbye),
            BroadcastView::Send(s.packets.goodbye),
        ],
        !s.has_udp && s.has_mdns && s.fullname is Some ==> s.farewell() == seq![
            BroadcastView::Unregister(s.fullname->0),
            BroadcastView::Stop,
        ],
        s.packets.goodbye.len() == 0 && s.has_mdns && s.fullname is None ==> s.farewell() == seq![
            BroadcastView::Stop,
        ],
{
}

/// A new name is announced at once, unless the service is passive.
pub proof fn law_new_name_is_announced(s: ServiceView, packets: PacketsView)
    ensures
        s.passive ==> s.renewal(packets).len() == 0,
        !s.passive && s.has_udp && packets.announce.len() > 0 && s.has_mdns ==> s.renewal(packets)
            == seq![BroadcastView::Send(packets.announce), BroadcastView::Register],
        !s.passive && s.has_udp && packets.announce.len() > 0 && !s.has_mdns ==> s.renewal(packets)
            == seq![BroadcastView::Send(packets.announce)],
        !s.passive && !s.has_udp && s.has_mdns ==> s.renewal(packets) == seq![
            BroadcastView::Register,
        ],
{
}

/// A probe that fails drops a node only when its heartbeat is gone too, and where
/// there is an mDNS channel only after its record was verified.
pub proof fn law_failed_probe_is_not_the_last_word(
    s: ServiceView,
    fingerprint: Seq<char>,
    device_id: Seq<char>,
    now: u64,
)
    ensures
        s.nodes.dom().contains(fingerprint) && !s.nodes[fingerprint].udp_silent(now, 15_000)
            ==> s.concluded(fingerprint, device_id, now) is Keep,
        s.nodes.dom().contains(fingerprint) && s.nodes[fingerprint].udp_silent(now, 15_000)
            && s.has_mdns ==> s.concluded(fingerprint, device_id, now) == ConclusionView::Verify(
            fullname_of(device_id),
        ),
        s.nodes.dom().contains(fingerprint) && s.nodes[fingerprint].udp_silent(now, 15_000)
            && !s.has_mdns ==> s.concluded(fingerprint, device_id, now) is Drop,
{
}

/// A record without one of its properties, or without an address that can be
/// dialed, stands for no node.
pub proof fn law_incomplete_record_is_no_node(
    id: Option<Seq<char>>,
    name: Option<Seq<char>>,
    fp: Option<Seq<char>>,
    platform: Option<Seq<char>>,
    osv: Option<Seq<char>>,
    addrs: Seq<Address>,
    port: u16,
)
    ensures
        id is None || name is None || fp is None || platform is None ==> resolved(
            id,
            name,
            fp,
            platform,
            osv,
            addrs,
            port,
        ) is None,
        normalized(addrs).len() == 0 ==> resolved(id, name, fp, platform, osv, addrs, port) is None,
{
}

/// The full name of a device is its ID in front of the service type; a name of
/// another service names no device.
pub proof fn law_fullname(device_id: Seq<char>, fullname: Seq<char>)
    ensures
        fullname_of(device_id) == device_id + "._lanecho._tcp.local."@,
        (forall|x: Seq<char>| fullname != #[trigger] (x + "_lanecho._tcp.local."@)) ==> instance_part(
            fullname,
        ) is None,
{
    reveal_strlit(".");
    reveal_strlit("_lanecho._tcp.local.");
    reveal_strlit("._lanecho._tcp.local.");
    assert("."@ + "_lanecho._tcp.local."@ =~= "._lanecho._tcp.local."@);
    assert(fullname_of(device_id) =~= device_id + "._lanecho._tcp.local."@);
    if text::has_suffix(fullname, MDNS_SERVICE_TYPE@) {
        let n = fullname.len() - MDNS_SERVICE_TYPE@.len();
        assert(fullname =~= fullname.take(n) + MDNS_SERVICE_TYPE@);
    }
}

} // verus!
