//! What the board learns from mDNS responses on the wire: which other PDMX
//! controllers exist, their host names and addresses, and whether FPP is
//! answering. Every lookup in a packet is bounds-checked; a bad packet
//! teaches nothing.
use vstd::prelude::*;
use crate::dns::{read_name, read_name_spec, for_each_record, packet_records, RecordView, views};
use crate::mdns::{TYPE_A, TYPE_PTR, TYPE_SRV, service_type, fpp_host, instance_label, instance_label_spec};
use crate::text::{eq_ignore_case, eq_ignore_ascii_case, copy_bytes};

verus! {

/// Most peers remembered.
pub const MAX_PEERS: usize = 8;
/// Longest peer name kept.
pub const PEER_NAME_LEN: usize = 32;
/// A peer (or FPP) not heard from for this long is gone (ms).
pub const SEEN_TTL_MS: u64 = 20000;

/// Another PDMX controller on the network.
#[derive(Clone, Debug)]
pub struct Peer {
    /// "PDMX Controller A1B2"
    pub instance: Vec<u8>,
    /// "pdmx-a1b2.local"; empty until its SRV record has been seen.
    pub host: Vec<u8>,
    pub ip: Option<[u8; 4]>,
    last_seen: u64,
}

/// A peer as the specifications see it.
pub struct PeerView {
    pub instance: Seq<u8>,
    pub host: Seq<u8>,
    pub ip: Option<[u8; 4]>,
    pub last_seen: u64,
}

pub closed spec fn peer_view(p: Peer) -> PeerView {
    PeerView { instance: p.instance@, host: p.host@, ip: p.ip, last_seen: p.last_seen }
}

impl Peer {
    /// When the peer was last heard from (ms).
    pub fn last_seen(&self) -> (t: u64)
        ensures
            t == self.seen_at(),
    {
        self.last_seen
    }

    /// Its instance label.
    pub fn instance_name(&self) -> (r: &[u8])
        ensures
            r@ == peer_view(*self).instance,
    {
        self.instance.as_slice()
    }

    /// Its host name; empty until its SRV record has been seen.
    pub fn host_name(&self) -> (r: &[u8])
        ensures
            r@ == peer_view(*self).host,
    {
        self.host.as_slice()
    }

    /// Its address, once an A record for its host has been seen.
    pub fn address(&self) -> (r: Option<[u8; 4]>)
        ensures
            r == peer_view(*self).ip,
    {
        self.ip
    }

    pub closed spec fn seen_at(self) -> u64 {
        self.last_seen
    }
}

/// Peers and FPP as heard on the network.
pub struct Discovery {
    peers: Vec<Peer>,
    fpp_ip: Option<[u8; 4]>,
    fpp_seen: Option<u64>,
}

/// Everything the discovery knows.
pub struct DiscoveryView {
    pub peers: Seq<PeerView>,
    pub fpp_ip: Option<[u8; 4]>,
    pub fpp_seen: Option<u64>,
}

/// The first peer named exactly `label`.
pub open spec fn peer_index_from(ps: Seq<PeerView>, label: Seq<u8>, from: int) -> Option<int>
    decreases ps.len() - from,
{
    if from < 0 || from >= ps.len() {
        None
    } else if ps[from].instance == label {
        Some(from)
    } else {
        peer_index_from(ps, label, from + 1)
    }
}

proof fn lemma_peer_index(ps: Seq<PeerView>, label: Seq<u8>, from: int)
    requires
        0 <= from,
    ensures
        peer_index_from(ps, label, from) matches Some(i) ==> from <= i < ps.len() && ps[i].instance == label,
    decreases ps.len() - from,
{
    if from < ps.len() && ps[from].instance != label {
        lemma_peer_index(ps, label, from + 1);
    }
}

/// The peer called `label`, added if there is room (and the name fits),
/// marked as seen at `now`; and its index.
pub open spec fn touch_spec(ps: Seq<PeerView>, label: Seq<u8>, now: u64) -> (Seq<PeerView>, Option<int>) {
    match peer_index_from(ps, label, 0) {
        Some(i) => (ps.update(i, PeerView { last_seen: now, ..ps[i] }), Some(i)),
        None => if label.len() > PEER_NAME_LEN || ps.len() >= MAX_PEERS {
            (ps, None)
        } else {
            (ps.push(PeerView { instance: label, host: Seq::empty(), ip: None, last_seen: now }), Some(ps.len() as int))
        },
    }
}

/// What one record teaches about who exists and their host names: a PTR
/// for the service names an instance, an SRV gives an instance's host.
/// The board's own instance is skipped.
pub open spec fn learn_names(p: Seq<u8>, own: Seq<u8>, now: u64, ps: Seq<PeerView>, r: RecordView) -> Seq<PeerView> {
    if r.rtype == TYPE_PTR && eq_ignore_case(r.name, service_type()) {
        match read_name_spec(p, r.at) {
            None => ps,
            Some((_, target)) => match instance_label_spec(target) {
                Some(l) => if l != own { touch_spec(ps, l, now).0 } else { ps },
                None => ps,
            },
        }
    } else if r.rtype == TYPE_SRV && r.len > 6 {
        match instance_label_spec(r.name) {
            Some(l) => if l == own {
                ps
            } else {
                match read_name_spec(p, r.at + 6) {
                    None => ps,
                    Some((_, target)) => {
                        let (ps2, idx) = touch_spec(ps, l, now);
                        match idx {
                            Some(i) => ps2.update(
                                i,
                                PeerView { host: if target.len() <= PEER_NAME_LEN { target } else { Seq::empty() }, ..ps2[i] },
                            ),
                            None => ps2,
                        }
                    },
                }
            },
            None => ps,
        }
    } else {
        ps
    }
}

pub open spec fn learn_all_names(p: Seq<u8>, own: Seq<u8>, now: u64, ps: Seq<PeerView>, recs: Seq<RecordView>) -> Seq<PeerView>
    decreases recs.len(),
{
    if recs.len() == 0 {
        ps
    } else {
        learn_all_names(p, own, now, learn_names(p, own, now, ps, recs[0]), recs.drop_first())
    }
}

/// What one A record teaches: FPP's address, and the address of any peer
/// whose host name it is.
pub open spec fn learn_address(p: Seq<u8>, now: u64, d: DiscoveryView, r: RecordView) -> DiscoveryView {
    if r.rtype == TYPE_A && r.len == 4 {
        let ip = [p[r.at], p[r.at + 1], p[r.at + 2], p[r.at + 3]];
        let d1 = if eq_ignore_case(r.name, fpp_host()) {
            DiscoveryView { fpp_ip: Some(ip), fpp_seen: Some(now), ..d }
        } else {
            d
        };
        DiscoveryView {
            peers: Seq::new(
                d1.peers.len(),
                |k: int|
                    if eq_ignore_case(d1.peers[k].host, r.name) {
                        PeerView { ip: Some(ip), ..d1.peers[k] }
                    } else {
                        d1.peers[k]
                    },
            ),
            ..d1
        }
    } else {
        d
    }
}

pub open spec fn learn_all_addresses(p: Seq<u8>, now: u64, d: DiscoveryView, recs: Seq<RecordView>) -> DiscoveryView
    decreases recs.len(),
{
    if recs.len() == 0 {
        d
    } else {
        learn_all_addresses(p, now, learn_address(p, now, d, recs[0]), recs.drop_first())
    }
}

/// What a response packet teaches: first who exists and their host names,
/// then host addresses, so the order records were listed in does not matter.
pub open spec fn apply_response_spec(p: Seq<u8>, own: Seq<u8>, d: DiscoveryView, now: u64) -> DiscoveryView {
    let recs = packet_records(p).0;
    let d1 = DiscoveryView { peers: learn_all_names(p, own, now, d.peers, recs), ..d };
    learn_all_addresses(p, now, d1, recs)
}

fn bytes_equal(a: &[u8], b: &[u8]) -> (r: bool)
    ensures
        r == (a@ == b@),
{
    if a.len() != b.len() {
        return false;
    }
    let mut i: usize = 0;
    while i < a.len()
        invariant
            a@.len() == b@.len(),
            i <= a@.len(),
            forall|j: int| 0 <= j < i ==> a@[j] == b@[j],
        decreases a@.len() - i,
    {
        if a[i] != b[i] {
            return false;
        }
        i = i + 1;
    }
    proof {
        assert(a@ =~= b@);
    }
    true
}

/// Every time remembered is at most `now`.
pub open spec fn seen_by(d: DiscoveryView, now: u64) -> bool {
    &&& forall|i: int| 0 <= i < d.peers.len() ==> (#[trigger] d.peers[i]).last_seen <= now
    &&& d.fpp_seen matches Some(s) ==> s <= now
}

/// Whether a peer was heard from less than SEEN_TTL_MS before `now`.
pub open spec fn fresh(p: PeerView, now: u64) -> bool {
    now - p.last_seen < SEEN_TTL_MS
}

proof fn lemma_touch_seen(ps: Seq<PeerView>, label: Seq<u8>, now: u64)
    requires
        forall|i: int| 0 <= i < ps.len() ==> (#[trigger] ps[i]).last_seen <= now,
    ensures
        forall|i: int| 0 <= i < touch_spec(ps, label, now).0.len() ==> (#[trigger] touch_spec(ps, label, now).0[i]).last_seen <= now,
        touch_spec(ps, label, now).1 matches Some(i) ==> 0 <= i < touch_spec(ps, label, now).0.len(),
{
    lemma_peer_index(ps, label, 0);
}

proof fn lemma_names_seen(p: Seq<u8>, own: Seq<u8>, now: u64, ps: Seq<PeerView>, recs: Seq<RecordView>)
    requires
        forall|i: int| 0 <= i < ps.len() ==> (#[trigger] ps[i]).last_seen <= now,
    ensures
        forall|i: int| 0 <= i < learn_all_names(p, own, now, ps, recs).len() ==> (#[trigger] learn_all_names(p, own, now, ps, recs)[i]).last_seen <= now,
    decreases recs.len(),
{
    if recs.len() > 0 {
        let r = recs[0];
        let next = learn_names(p, own, now, ps, r);
        assert forall|i: int| 0 <= i < next.len() implies (#[trigger] next[i]).last_seen <= now by {
            if r.rtype == TYPE_PTR && eq_ignore_case(r.name, service_type()) {
                match read_name_spec(p, r.at) {
                    None => {},
                    Some((_, target)) => match instance_label_spec(target) {
                        Some(l) => { lemma_touch_seen(ps, l, now); },
                        None => {},
                    },
                }
            } else if r.rtype == TYPE_SRV && r.len > 6 {
                match instance_label_spec(r.name) {
                    Some(l) => { lemma_touch_seen(ps, l, now); },
                    None => {},
                }
            }
        }
        lemma_names_seen(p, own, now, next, recs.drop_first());
    }
}

proof fn lemma_addresses_seen(p: Seq<u8>, now: u64, d: DiscoveryView, recs: Seq<RecordView>)
    requires
        seen_by(d, now),
    ensures
        seen_by(learn_all_addresses(p, now, d, recs), now),
    decreases recs.len(),
{
    if recs.len() > 0 {
        let next = learn_address(p, now, d, recs[0]);
        assert(seen_by(next, now));
        lemma_addresses_seen(p, now, next, recs.drop_first());
    }
}

/// Learning from a response at `now` keeps every remembered time at most `now`.
pub proof fn lemma_apply_seen(p: Seq<u8>, own: Seq<u8>, d: DiscoveryView, now: u64)
    requires
        seen_by(d, now),
    ensures
        seen_by(apply_response_spec(p, own, d, now), now),
{
    let recs = packet_records(p).0;
    lemma_names_seen(p, own, now, d.peers, recs);
    let d1 = DiscoveryView { peers: learn_all_names(p, own, now, d.peers, recs), ..d };
    lemma_addresses_seen(p, now, d1, recs);
}

/// FPP's address while it has answered less than SEEN_TTL_MS before `now`.
pub open spec fn fpp_ip_spec(d: DiscoveryView, now: u64) -> Option<[u8; 4]> {
    match d.fpp_seen {
        Some(seen) => if now - seen < SEEN_TTL_MS { d.fpp_ip } else { None },
        None => None,
    }
}

/// Forgets the peers and FPP once they have gone quiet for SEEN_TTL_MS.
pub open spec fn prune_spec(d: DiscoveryView, now: u64) -> DiscoveryView {
    let stale_fpp = d.fpp_seen matches Some(s) && now - s >= SEEN_TTL_MS;
    DiscoveryView {
        peers: d.peers.filter(|p: PeerView| fresh(p, now)),
        fpp_ip: if stale_fpp { None } else { d.fpp_ip },
        fpp_seen: if stale_fpp { None } else { d.fpp_seen },
    }
}

impl Discovery {
    pub closed spec fn view(self) -> DiscoveryView {
        DiscoveryView { peers: self.peers@.map_values(|p: Peer| peer_view(p)), fpp_ip: self.fpp_ip, fpp_seen: self.fpp_seen }
    }

    /// Nobody heard from yet.
    pub fn new() -> (d: Discovery)
        ensures
            seen_by(d.view(), 0),
            d.view().peers.len() == 0,
            d.view().fpp_ip is None,
            d.view().fpp_seen is None,
    {
        Discovery { peers: Vec::new(), fpp_ip: None, fpp_seen: None }
    }

    /// The peer called `label`, added if there's room, and marked as just
    /// seen; its index (see `touch_spec`).
    pub fn touch(&mut self, label: &[u8], now: u64) -> (r: Option<usize>)
        ensures
            final(self).view().peers == touch_spec(old(self).view().peers, label@, now).0,
            r matches Some(i) ==> touch_spec(old(self).view().peers, label@, now).1 == Some(i as int),
            r is None ==> touch_spec(old(self).view().peers, label@, now).1 is None,
            final(self).view().fpp_ip == old(self).view().fpp_ip,
            final(self).view().fpp_seen == old(self).view().fpp_seen,
    {
        let ghost ps = self.view().peers;
        let mut i: usize = 0;
        while i < self.peers.len()
            invariant
                ps == self.view().peers,
                i <= self.peers@.len(),
                peer_index_from(ps, label@, 0) == peer_index_from(ps, label@, i as int),
                self.fpp_ip == old(self).fpp_ip,
                self.fpp_seen == old(self).fpp_seen,
                ps == old(self).view().peers,
            decreases self.peers@.len() - i,
        {
            if bytes_equal(self.peers[i].instance.as_slice(), label) {
                proof {
                    assert(ps[i as int] == peer_view(self.peers@[i as int]));
                    assert(ps[i as int].instance == label@);
                }
                let old_peer = &self.peers[i];
                let updated = Peer {
                    instance: copy_bytes(old_peer.instance.as_slice()),
                    host: copy_bytes(old_peer.host.as_slice()),
                    ip: old_peer.ip,
                    last_seen: now,
                };
                self.peers.set(i, updated);
                proof {
                    assert(self.view().peers =~= ps.update(i as int, PeerView { last_seen: now, ..ps[i as int] }));
                }
                return Some(i);
            }
            i = i + 1;
        }
        if label.len() > PEER_NAME_LEN || self.peers.len() >= MAX_PEERS {
            return None;
        }
        let peer = Peer { instance: copy_bytes(label), host: Vec::new(), ip: None, last_seen: now };
        self.peers.push(peer);
        proof {
            assert(self.view().peers =~= ps.push(PeerView { instance: label@, host: Seq::empty(), ip: None, last_seen: now }));
        }
        Some(self.peers.len() - 1)
    }

    /// Learns from a response packet, ours or someone else's (see
    /// `apply_response_spec`); `own_instance` is the board's own instance label.
    pub fn apply_response(&mut self, packet: &[u8], own_instance: &[u8], now: u64)
        requires
            packet@.len() <= 0x1000_0000,
        ensures
            final(self).view() == apply_response_spec(packet@, own_instance@, old(self).view(), now),
            seen_by(old(self).view(), now) ==> seen_by(final(self).view(), now),
    {
        proof {
            if seen_by(self.view(), now) {
                lemma_apply_seen(packet@, own_instance@, self.view(), now);
            }
        }
        let ghost p = packet@;
        let ghost d0 = self.view();
        let (recs, _) = for_each_record(packet);
        let ghost rv = views(recs@);
        proof {
            assert(rv.skip(0) =~= rv);
        }
        let mut i: usize = 0;
        while i < recs.len()
            invariant
                p == packet@,
                p.len() <= 0x1000_0000,
                rv == views(recs@),
                rv == packet_records(p).0,
                i <= recs@.len(),
                forall|k: int| 0 <= k < recs@.len() ==> (#[trigger] recs@[k]).at + recs@[k].len <= p.len(),
                learn_all_names(p, own_instance@, now, d0.peers, rv) == learn_all_names(
                    p,
                    own_instance@,
                    now,
                    self.view().peers,
                    rv.skip(i as int),
                ),
                self.view().fpp_ip == d0.fpp_ip,
                self.view().fpp_seen == d0.fpp_seen,
            decreases recs@.len() - i,
        {
            let rec = &recs[i];
            let ghost before = self.view().peers;
            proof {
                assert(rv.skip(i as int)[0] == rv[i as int]);
                assert(rv.skip(i as int).drop_first() =~= rv.skip(i as int + 1));
            }
            self.learn_names_from(packet, own_instance, now, rec);
            i = i + 1;
        }
        proof {
            assert(rv.skip(recs@.len() as int) =~= Seq::<RecordView>::empty());
        }
        let ghost d1 = self.view();
        proof {
            assert(d1 == DiscoveryView { peers: learn_all_names(p, own_instance@, now, d0.peers, rv), ..d0 });
        }
        let mut j: usize = 0;
        while j < recs.len()
            invariant
                p == packet@,
                rv == views(recs@),
                j <= recs@.len(),
                forall|k: int| 0 <= k < recs@.len() ==> (#[trigger] recs@[k]).at + recs@[k].len <= p.len(),
                learn_all_addresses(p, now, d1, rv) == learn_all_addresses(p, now, self.view(), rv.skip(j as int)),
            decreases recs@.len() - j,
        {
            let rec = &recs[j];
            proof {
                assert(rv.skip(j as int)[0] == rv[j as int]);
                assert(rv.skip(j as int).drop_first() =~= rv.skip(j as int + 1));
            }
            self.learn_address_from(packet, now, rec);
            j = j + 1;
        }
        proof {
            assert(rv.skip(recs@.len() as int) =~= Seq::<RecordView>::empty());
        }
    }

    fn learn_names_from(&mut self, packet: &[u8], own_instance: &[u8], now: u64, rec: &crate::dns::Record)
        requires
            rec.at + rec.len <= packet@.len(),
            packet@.len() <= 0x1000_0000,
        ensures
            final(self).view().peers == learn_names(packet@, own_instance@, now, old(self).view().peers, crate::dns::record_view(*rec)),
            final(self).view().fpp_ip == old(self).view().fpp_ip,
            final(self).view().fpp_seen == old(self).view().fpp_seen,
    {
        if rec.rtype == TYPE_PTR && eq_ignore_ascii_case(rec.name.as_slice(), "_pdmx._tcp.local".as_bytes()) {
            let target = match read_name(packet, rec.at) {
                None => return,
                Some((_, t)) => t,
            };
            match instance_label(target.as_slice()) {
                Some(label) => {
                    if !bytes_equal(label, own_instance) {
                        let _ = self.touch(label, now);
                    }
                },
                None => {},
            }
        } else if rec.rtype == TYPE_SRV && rec.len > 6 {
            let label = match instance_label(rec.name.as_slice()) {
                None => return,
                Some(l) => l,
            };
            if bytes_equal(label, own_instance) {
                return;
            }
            let target = match read_name(packet, rec.at + 6) {
                None => return,
                Some((_, t)) => t,
            };
            let ghost ps = self.view().peers;
            match self.touch(label, now) {
                Some(i) => {
                    proof {
                        lemma_peer_index(ps, label@, 0);
                        assert(i < self.view().peers.len());
                        assert(self.view().peers.len() == self.peers@.len());
                    }
                    let old_peer = &self.peers[i];
                    let host = if target.len() <= PEER_NAME_LEN { target } else { Vec::new() };
                    let updated = Peer {
                        instance: copy_bytes(old_peer.instance.as_slice()),
                        host,
                        ip: old_peer.ip,
                        last_seen: old_peer.last_seen,
                    };
                    let ghost ps2 = self.view().peers;
                    self.peers.set(i, updated);
                    proof {
                        let (_, t) = read_name_spec(packet@, rec.at + 6)->0;
                        assert(self.view().peers =~= ps2.update(
                            i as int,
                            PeerView { host: if t.len() <= PEER_NAME_LEN { t } else { Seq::empty() }, ..ps2[i as int] },
                        ));
                    }
                },
                None => {},
            }
        }
    }

    fn learn_address_from(&mut self, packet: &[u8], now: u64, rec: &crate::dns::Record)
        requires
            rec.at + rec.len <= packet@.len(),
        ensures
            final(self).view() == learn_address(packet@, now, old(self).view(), crate::dns::record_view(*rec)),
    {
        if rec.rtype != TYPE_A || rec.len != 4 {
            return;
        }
        let ip = [packet[rec.at], packet[rec.at + 1], packet[rec.at + 2], packet[rec.at + 3]];
        if eq_ignore_ascii_case(rec.name.as_slice(), "fpp.local".as_bytes()) {
            self.fpp_ip = Some(ip);
            self.fpp_seen = Some(now);
        }
        let ghost d1 = self.view();
        let mut k: usize = 0;
        while k < self.peers.len()
            invariant
                k <= self.peers@.len(),
                self.peers@.len() == d1.peers.len(),
                self.fpp_ip == d1.fpp_ip,
                self.fpp_seen == d1.fpp_seen,
                forall|m: int|
                    0 <= m < d1.peers.len() ==> #[trigger] peer_view(self.peers@[m]) == if m < k && eq_ignore_case(
                        d1.peers[m].host,
                        rec.name@,
                    ) {
                        PeerView { ip: Some(ip), ..d1.peers[m] }
                    } else {
                        d1.peers[m]
                    },
            decreases self.peers@.len() - k,
        {
            let ghost before = self.peers@;
            if eq_ignore_ascii_case(self.peers[k].host.as_slice(), rec.name.as_slice()) {
                let old_peer = &self.peers[k];
                let updated = Peer {
                    instance: copy_bytes(old_peer.instance.as_slice()),
                    host: copy_bytes(old_peer.host.as_slice()),
                    ip: Some(ip),
                    last_seen: old_peer.last_seen,
                };
                self.peers.set(k, updated);
            }
            proof {
                assert(peer_view(before[k as int]) == d1.peers[k as int]);
                assert forall|m: int| 0 <= m < d1.peers.len() implies #[trigger] peer_view(self.peers@[m]) == if m < k + 1 && eq_ignore_case(
                    d1.peers[m].host,
                    rec.name@,
                ) {
                    PeerView { ip: Some(ip), ..d1.peers[m] }
                } else {
                    d1.peers[m]
                } by {
                    if m != k {
                        assert(self.peers@[m] == before[m]);
                    }
                }
            }
            k = k + 1;
        }
        proof {
            assert(self.view().peers =~= learn_address(packet@, now, old(self).view(), crate::dns::record_view(*rec)).peers);
        }
    }
}

impl Discovery {
    /// Whether nothing was heard later than `now` (the clock has not gone
    /// backwards since).
    pub fn heard_before(&self, now: u64) -> (r: bool)
        ensures
            r == seen_by(self.view(), now),
    {
        let ghost ps = self.view().peers;
        let mut i: usize = 0;
        while i < self.peers.len()
            invariant
                ps == self.view().peers,
                i <= self.peers@.len(),
                forall|k: int| 0 <= k < i ==> (#[trigger] ps[k]).last_seen <= now,
            decreases self.peers@.len() - i,
        {
            proof {
                assert(ps[i as int] == peer_view(self.peers@[i as int]));
            }
            if self.peers[i].last_seen > now {
                return false;
            }
            i = i + 1;
        }
        match self.fpp_seen {
            Some(s) => s <= now,
            None => true,
        }
    }

    /// Other PDMX controllers heard from less than SEEN_TTL_MS before `now`.
    pub fn peers(&self, now: u64) -> (r: Vec<Peer>)
        requires
            seen_by(self.view(), now),
        ensures
            r@.map_values(|p: Peer| peer_view(p)) == self.view().peers.filter(|p: PeerView| fresh(p, now)),
    {
        let ghost ps = self.view().peers;
        let mut out: Vec<Peer> = Vec::new();
        let mut i: usize = 0;
        while i < self.peers.len()
            invariant
                ps == self.view().peers,
                seen_by(self.view(), now),
                i <= self.peers@.len(),
                out@.map_values(|p: Peer| peer_view(p)) == ps.take(i as int).filter(|p: PeerView| fresh(p, now)),
            decreases self.peers@.len() - i,
        {
            let p = &self.peers[i];
            proof {
                assert(ps[i as int] == peer_view(self.peers@[i as int]));
                assert(ps.take(i as int + 1).drop_last() =~= ps.take(i as int));
                assert(ps.take(i as int + 1).last() == ps[i as int]);
                reveal_with_fuel(Seq::filter, 1);
                assert(ps[i as int].last_seen <= now);
            }
            if now - p.last_seen < SEEN_TTL_MS {
                let c = Peer {
                    instance: copy_bytes(p.instance.as_slice()),
                    host: copy_bytes(p.host.as_slice()),
                    ip: p.ip,
                    last_seen: p.last_seen,
                };
                let ghost before = out@;
                out.push(c);
                proof {
                    assert(out@.map_values(|p: Peer| peer_view(p)) =~= before.map_values(|p: Peer| peer_view(p)).push(ps[i as int]));
                }
            }
            i = i + 1;
        }
        proof {
            assert(ps.take(ps.len() as int) =~= ps);
        }
        out
    }

    /// FPP's address, if it has answered less than SEEN_TTL_MS before `now`.
    pub fn fpp_ip(&self, now: u64) -> (r: Option<[u8; 4]>)
        requires
            seen_by(self.view(), now),
        ensures
            r == fpp_ip_spec(self.view(), now),
    {
        match self.fpp_seen {
            Some(seen) => if now - seen < SEEN_TTL_MS { self.fpp_ip } else { None },
            None => None,
        }
    }

    /// Drops what has gone quiet so its slot can be reused (see `prune_spec`).
    pub fn prune(&mut self, now: u64)
        requires
            seen_by(old(self).view(), now),
        ensures
            final(self).view() == prune_spec(old(self).view(), now),
            seen_by(final(self).view(), now),
    {
        let ghost ps = self.view().peers;
        let mut old_peers: Vec<Peer> = Vec::new();
        std::mem::swap(&mut old_peers, &mut self.peers);
        let mut i: usize = 0;
        while i < old_peers.len()
            invariant
                ps == old_peers@.map_values(|p: Peer| peer_view(p)),
                forall|k: int| 0 <= k < ps.len() ==> (#[trigger] ps[k]).last_seen <= now,
                i <= old_peers@.len(),
                self.peers@.map_values(|p: Peer| peer_view(p)) == ps.take(i as int).filter(|p: PeerView| fresh(p, now)),
                self.fpp_ip == old(self).fpp_ip,
                self.fpp_seen == old(self).fpp_seen,
            decreases old_peers@.len() - i,
        {
            let p = &old_peers[i];
            proof {
                assert(ps[i as int] == peer_view(old_peers@[i as int]));
                assert(ps.take(i as int + 1).drop_last() =~= ps.take(i as int));
                assert(ps.take(i as int + 1).last() == ps[i as int]);
                reveal_with_fuel(Seq::filter, 1);
                assert(ps[i as int].last_seen <= now);
            }
            if now - p.last_seen < SEEN_TTL_MS {
                let c = Peer {
                    instance: copy_bytes(p.instance.as_slice()),
                    host: copy_bytes(p.host.as_slice()),
                    ip: p.ip,
                    last_seen: p.last_seen,
                };
                let ghost before = self.peers@;
                self.peers.push(c);
                proof {
                    assert(self.peers@.map_values(|p: Peer| peer_view(p)) =~= before.map_values(|p: Peer| peer_view(p)).push(ps[i as int]));
                }
            }
            i = i + 1;
        }
        proof {
            assert(ps.take(ps.len() as int) =~= ps);
        }
        let stale = match self.fpp_seen {
            Some(seen) => now - seen >= SEEN_TTL_MS,
            None => false,
        };
        if stale {
            self.fpp_seen = None;
            self.fpp_ip = None;
        }
        proof {
            let kept = ps.filter(|p: PeerView| fresh(p, now));
            assert forall|k: int| 0 <= k < kept.len() implies (#[trigger] kept[k]).last_seen <= now by {
                assert(kept.contains(kept[k]));
                ps.lemma_filter_contains_rev(|p: PeerView| fresh(p, now), kept[k]);
            }
        }
    }
}

/// After pruning, every peer still listed was heard from less than
/// SEEN_TTL_MS ago, and FPP is remembered only while it is answering.
pub proof fn law_prune_keeps_only_fresh(d: DiscoveryView, now: u64)
    requires
        seen_by(d, now),
    ensures
        forall|i: int| 0 <= i < prune_spec(d, now).peers.len() ==> fresh(#[trigger] prune_spec(d, now).peers[i], now),
        prune_spec(d, now).fpp_seen matches Some(s) ==> now - s < SEEN_TTL_MS,
{
    let kept = prune_spec(d, now).peers;
    assert forall|i: int| 0 <= i < kept.len() implies fresh(#[trigger] kept[i], now) by {
        d.peers.lemma_filter_pred(|p: PeerView| fresh(p, now), i);
    }
}

proof fn lemma_peer_index_found(ps: Seq<PeerView>, label: Seq<u8>, from: int, k: int)
    requires
        0 <= from <= k < ps.len(),
        ps[k].instance == label,
    ensures
        peer_index_from(ps, label, from) is Some,
    decreases k - from,
{
    if ps[from].instance != label {
        lemma_peer_index_found(ps, label, from + 1, k);
    }
}

/// Hearing from a peer marks it as seen now. A peer already known keeps
/// its place, name, host and address and gets `now` as its last-seen time,
/// and the list keeps its length; a new one is added at the end (when there
/// is room and its name fits), seen `now`, with no host or address yet.
/// No other peer changes.
pub proof fn law_touch_marks_seen(ps: Seq<PeerView>, label: Seq<u8>, now: u64)
    ensures
        ({
            let (qs, idx) = touch_spec(ps, label, now);
            &&& idx matches Some(i) ==> {
                &&& 0 <= i < qs.len()
                &&& qs[i].instance == label
                &&& qs[i].last_seen == now
                &&& forall|j: int| 0 <= j < qs.len() && j != i ==> qs[j] == ps[j]
            }
            &&& (exists|k: int| 0 <= k < ps.len() && #[trigger] ps[k].instance == label) ==> {
                &&& qs.len() == ps.len()
                &&& idx matches Some(i) && qs[i] == (PeerView { last_seen: now, ..ps[i] })
            }
            &&& !(exists|k: int| 0 <= k < ps.len() && #[trigger] ps[k].instance == label) ==> {
                &&& (label.len() <= PEER_NAME_LEN && ps.len() < MAX_PEERS) ==> {
                    &&& qs == ps.push(PeerView { instance: label, host: Seq::empty(), ip: None, last_seen: now })
                    &&& idx == Some(ps.len() as int)
                }
                &&& (label.len() > PEER_NAME_LEN || ps.len() >= MAX_PEERS) ==> qs == ps && idx is None
            }
        }),
{
    lemma_peer_index(ps, label, 0);
    if exists|k: int| 0 <= k < ps.len() && #[trigger] ps[k].instance == label {
        let k = choose|k: int| 0 <= k < ps.len() && #[trigger] ps[k].instance == label;
        lemma_peer_index_found(ps, label, 0, k);
    } else {
        if let Some(i) = peer_index_from(ps, label, 0) {
            assert(ps[i].instance == label);
        }
    }
}

} // verus!
