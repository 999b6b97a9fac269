//! The decisions of the mDNS task, one event at a time: a packet arrived, a
//! `.local` lookup was asked for, or the timer fired. The task itself only
//! waits, sends what these functions hand back and signals the lookup result.
use vstd::prelude::*;
use vstd::utf8::encode_utf8;
use crate::dns::{MAX_NAME, packet_records};
use crate::mdns::{
    Names, TYPE_A, TYPE_PTR, build_query, answer_query, find_a_record, fits, query_bytes,
    question_views, query_response, first_a, service_type, fpp_host,
};
use crate::discovery::{Discovery, DiscoveryView, seen_by, prune_spec, fpp_ip_spec, apply_response_spec};
use crate::text::copy_bytes;

verus! {

/// Queries sent for one lookup before it is answered with "not found".
pub const QUERY_ATTEMPTS: u8 = 3;
/// Time between two queries of one lookup.
pub const QUERY_INTERVAL_MS: u64 = 1000;
/// How often to ask who is out there once FPP has answered.
pub const BROWSE_INTERVAL_MS: u64 = 5000;
/// How often to ask until FPP has answered.
pub const BROWSE_INTERVAL_NO_FPP_MS: u64 = 1000;
/// Room for one outgoing packet.
pub const TX_CAP: usize = 512;
/// The last instant from which the task can still schedule its next browse.
pub const LATEST_MS: u64 = 18446744073709546615;

/// `s` without its trailing dots.
pub open spec fn trim_dots(s: Seq<u8>) -> Seq<u8>
    decreases s.len(),
{
    if s.len() > 0 && s.last() == 0x2eu8 {
        trim_dots(s.drop_last())
    } else {
        s
    }
}

/// The name a lookup of `host` asks for: `host` without trailing dots, or
/// `None` when that is longer than MAX_NAME bytes.
pub fn resolve_request(host: &str) -> (r: Option<Vec<u8>>)
    ensures
        r matches Some(n) ==> n@ == trim_dots(encode_utf8(host@)),
        r is None <==> trim_dots(encode_utf8(host@)).len() > MAX_NAME,
{
    let b = host.as_bytes();
    let ghost full = b@;
    let mut end: usize = b.len();
    proof {
        assert(full.take(full.len() as int) =~= full);
    }
    loop
        invariant
            end <= full.len(),
            full == b@,
            trim_dots(full) == trim_dots(full.take(end as int)),
        ensures
            trim_dots(full) == full.take(end as int),
        decreases end,
    {
        if end == 0 {
            proof {
                assert(full.take(0) =~= Seq::<u8>::empty());
            }
            break;
        }
        if b[end - 1] != 0x2eu8 {
            break;
        }
        proof {
            assert(full.take(end as int).drop_last() =~= full.take(end as int - 1));
        }
        end = end - 1;
    }
    if end > MAX_NAME {
        return None;
    }
    let mut name: Vec<u8> = Vec::new();
    let mut i: usize = 0;
    while i < end
        invariant
            i <= end,
            end <= b@.len(),
            name@ == b@.take(i as int),
        decreases end - i,
    {
        name.push(b[i]);
        proof {
            assert(b@.take(i as int + 1) =~= b@.take(i as int).push(b@[i as int]));
        }
        i = i + 1;
    }
    Some(name)
}

/// A lookup in flight.
pub struct Pending {
    pub name: Vec<u8>,
    pub sent: u8,
    pub next_at: u64,
}

pub struct PendingView {
    pub name: Seq<u8>,
    pub sent: u8,
    pub next_at: u64,
}

pub open spec fn pending_view(p: Option<Pending>) -> Option<PendingView> {
    match p {
        Some(p) => Some(PendingView { name: p.name@, sent: p.sent, next_at: p.next_at }),
        None => None,
    }
}

pub open spec fn bytes_view(o: Option<Vec<u8>>) -> Option<Seq<u8>> {
    match o {
        Some(b) => Some(b@),
        None => None,
    }
}

/// One timer tick for the lookup in flight: the new lookup state, whether a
/// query goes out, and whether the lookup ends unanswered.
pub open spec fn tick_pending(p: Option<PendingView>, now: u64) -> (Option<PendingView>, bool, bool) {
    match p {
        Some(v) => if v.next_at <= now {
            if v.sent >= QUERY_ATTEMPTS {
                (None, false, true)
            } else {
                (Some(PendingView { sent: (v.sent + 1) as u8, next_at: (now + QUERY_INTERVAL_MS) as u64, ..v }), true, false)
            }
        } else {
            (p, false, false)
        },
        None => (None, false, false),
    }
}

/// The browse query: the service type (PTR) and FPP's host name (A).
pub open spec fn browse_questions() -> Seq<(Seq<u8>, u16)> {
    seq![(service_type(), TYPE_PTR), (fpp_host(), TYPE_A)]
}

/// When the task next has timed work to do.
pub open spec fn wake_spec(pending: Option<PendingView>, next_browse: u64) -> u64 {
    match pending {
        Some(p) => if p.next_at < next_browse { p.next_at } else { next_browse },
        None => next_browse,
    }
}

/// What a received packet calls for.
pub enum PacketReply {
    /// It answered the lookup in flight with this address.
    Resolved([u8; 4]),
    /// It asked for something of ours: send this back.
    Answer(Vec<u8>),
    /// Nothing to do.
    Silent,
}

/// What a timer tick calls for, in sending order.
pub struct TimerActions {
    /// The lookup in flight ends unanswered.
    pub gave_up: bool,
    /// A query for the lookup in flight.
    pub query: Option<Vec<u8>>,
    /// The periodic browse query.
    pub browse: Option<Vec<u8>>,
}

/// The task's own state between events.
pub struct MdnsTask {
    pub pending: Option<Pending>,
    pub next_browse: u64,
}

impl MdnsTask {
    /// Nothing in flight; the first browse is due at once.
    pub fn new(now: u64) -> (t: MdnsTask)
        ensures
            t.pending is None,
            t.next_browse == now,
    {
        MdnsTask { pending: None, next_browse: now }
    }

    /// The instant to wait for when no packet or request comes first.
    pub fn wake(&self) -> (t: u64)
        ensures
            t == wake_spec(pending_view(self.pending), self.next_browse),
    {
        match &self.pending {
            Some(p) => if p.next_at < self.next_browse { p.next_at } else { self.next_browse },
            None => self.next_browse,
        }
    }

    /// A lookup of `name` was asked for: it replaces any lookup in flight and
    /// its first query is due at once.
    pub fn on_request(&mut self, name: Vec<u8>, now: u64)
        ensures
            pending_view(final(self).pending) == Some(PendingView { name: name@, sent: 0, next_at: now }),
            final(self).next_browse == old(self).next_browse,
    {
        self.pending = Some(Pending { name, sent: 0, next_at: now });
    }

    /// A packet arrived: learn from it, resolve the lookup in flight if it
    /// carries the address, else answer it if it asks for something of ours.
    pub fn on_packet(
        &mut self,
        disc: &mut Discovery,
        packet: &[u8],
        own_instance: &[u8],
        names: &Names,
        ip: [u8; 4],
        now: u64,
    ) -> (r: PacketReply)
        requires
            packet@.len() <= 0x1000_0000,
        ensures
            final(disc).view() == apply_response_spec(packet@, own_instance@, old(disc).view(), now),
            final(self).next_browse == old(self).next_browse,
            pending_view(final(self).pending) == lookup_step(
                pending_view(old(self).pending),
                LookupEvent::Packet(packet@),
            ).0,
            (match r {
                PacketReply::Resolved(a) => Some(Some(a)),
                _ => None::<Option<[u8; 4]>>,
            }) == lookup_step(pending_view(old(self).pending), LookupEvent::Packet(packet@)).1,
            match pending_view(old(self).pending) {
                Some(p) if first_a(packet@, packet_records(packet@).0, p.name) is Some => {
                    &&& r == PacketReply::Resolved(first_a(packet@, packet_records(packet@).0, p.name)->0)
                    &&& final(self).pending is None
                },
                _ => {
                    &&& pending_view(final(self).pending) == pending_view(old(self).pending)
                    &&& r matches PacketReply::Answer(b) ==> query_response(packet@, *names, ip, TX_CAP as nat) == Some(b@)
                    &&& r is Silent <==> query_response(packet@, *names, ip, TX_CAP as nat) is None
                    &&& !(r is Resolved)
                },
            },
    {
        disc.apply_response(packet, own_instance, now);
        let found = match &self.pending {
            Some(p) => find_a_record(packet, p.name.as_slice()),
            None => None,
        };
        match found {
            Some(a) => {
                self.pending = None;
                return PacketReply::Resolved(a);
            },
            None => {},
        }
        match answer_query(packet, names, ip, TX_CAP) {
            Some(b) => PacketReply::Answer(b),
            None => PacketReply::Silent,
        }
    }

    /// The timer fired: query again for the lookup in flight (or give it up
    /// after QUERY_ATTEMPTS queries), and browse when that is due, asking for
    /// unicast replies until FPP has answered.
    pub fn on_timer(&mut self, disc: &mut Discovery, now: u64) -> (r: TimerActions)
        requires
            now <= LATEST_MS,
            seen_by(old(disc).view(), now),
        ensures
            pending_view(final(self).pending) == tick_pending(pending_view(old(self).pending), now).0,
            r.gave_up == tick_pending(pending_view(old(self).pending), now).2,
            pending_view(final(self).pending) == lookup_step(pending_view(old(self).pending), LookupEvent::Tick(now)).0,
            r.gave_up <==> lookup_step(pending_view(old(self).pending), LookupEvent::Tick(now)).1 == Some(
                None::<[u8; 4]>,
            ),
            r.query is Some ==> lookup_step(pending_view(old(self).pending), LookupEvent::Tick(now)).2 == seq![now],
            bytes_view(r.query) == if tick_pending(pending_view(old(self).pending), now).1 {
                fits(query_bytes(seq![(old(self).pending->0.name@, TYPE_A)], false), TX_CAP as nat)
            } else {
                None
            },
            old(self).next_browse <= now ==> {
                &&& final(disc).view() == prune_spec(old(disc).view(), now)
                &&& bytes_view(r.browse) == fits(
                    query_bytes(browse_questions(), fpp_ip_spec(old(disc).view(), now) is None),
                    TX_CAP as nat,
                )
                &&& final(self).next_browse == now + if fpp_ip_spec(prune_spec(old(disc).view(), now), now) is Some {
                    BROWSE_INTERVAL_MS
                } else {
                    BROWSE_INTERVAL_NO_FPP_MS
                }
            },
            now < old(self).next_browse ==> {
                &&& final(disc).view() == old(disc).view()
                &&& r.browse is None
                &&& final(self).next_browse == old(self).next_browse
            },
            seen_by(final(disc).view(), now),
    {
        let mut gave_up = false;
        let mut query: Option<Vec<u8>> = None;
        let due = match &self.pending {
            Some(p) => p.next_at <= now,
            None => false,
        };
        if due {
            let p = self.pending.take().unwrap();
            if p.sent >= QUERY_ATTEMPTS {
                gave_up = true;
            } else {
                let mut qs: Vec<(Vec<u8>, u16)> = Vec::new();
                qs.push((copy_bytes(p.name.as_slice()), TYPE_A));
                proof {
                    assert(question_views(qs@) =~= seq![(p.name@, TYPE_A)]);
                }
                query = build_query(&qs, false, TX_CAP);
                self.pending = Some(Pending { name: p.name, sent: p.sent + 1, next_at: now + QUERY_INTERVAL_MS });
            }
        }
        let mut browse: Option<Vec<u8>> = None;
        if self.next_browse <= now {
            let fpp_known = disc.fpp_ip(now).is_some();
            let mut qs: Vec<(Vec<u8>, u16)> = Vec::new();
            qs.push((copy_bytes("_pdmx._tcp.local".as_bytes()), TYPE_PTR));
            qs.push((copy_bytes("fpp.local".as_bytes()), TYPE_A));
            proof {
                assert(question_views(qs@) =~= browse_questions());
            }
            browse = build_query(&qs, !fpp_known, TX_CAP);
            disc.prune(now);
            let interval = if disc.fpp_ip(now).is_some() { BROWSE_INTERVAL_MS } else { BROWSE_INTERVAL_NO_FPP_MS };
            self.next_browse = now + interval;
        }
        TimerActions { gave_up, query, browse }
    }
}

/// A lookup that nothing answers, with the timer firing whenever a query is
/// due, sends exactly QUERY_ATTEMPTS queries, one per QUERY_INTERVAL_MS, and
/// ends unanswered QUERY_ATTEMPTS * QUERY_INTERVAL_MS after it was asked for.
pub proof fn law_unanswered_lookup_gives_up(name: Seq<u8>, t0: u64)
    requires
        t0 + 3 * QUERY_INTERVAL_MS <= u64::MAX,
    ensures
        ({
            let s1 = tick_pending(Some(PendingView { name, sent: 0, next_at: t0 }), t0);
            let s2 = tick_pending(s1.0, (t0 + QUERY_INTERVAL_MS) as u64);
            let s3 = tick_pending(s2.0, (t0 + 2 * QUERY_INTERVAL_MS) as u64);
            let s4 = tick_pending(s3.0, (t0 + 3 * QUERY_INTERVAL_MS) as u64);
            &&& s1.1 && !s1.2
            &&& s2.1 && !s2.2
            &&& s3.1 && !s3.2
            &&& !s4.1 && s4.2 && s4.0 is None
        }),
{
}

/// However the timer fires, a lookup never sends more than QUERY_ATTEMPTS
/// queries, never sends one before it is due, and keeps its name.
pub proof fn law_lookup_queries_bounded(p: PendingView, now: u64)
    requires
        p.sent <= QUERY_ATTEMPTS,
        now <= LATEST_MS,
    ensures
        tick_pending(Some(p), now).0 matches Some(q) ==> q.sent <= QUERY_ATTEMPTS && q.name == p.name,
        tick_pending(Some(p), now).1 ==> p.sent < QUERY_ATTEMPTS && p.next_at <= now,
        now < p.next_at ==> tick_pending(Some(p), now) == (Some(p), false, false),
{
}

/// Something that reaches the lookup in flight: a received packet, or the
/// timer firing at a given time.
pub enum LookupEvent {
    Packet(Seq<u8>),
    Tick(u64),
}

/// One event for the lookup in flight (as `on_packet` and `on_timer` treat
/// it): the lookup after it, the outcome if the lookup ends (`Some(addr)`
/// answered, `None` given up), and the times of the queries it sent.
pub open spec fn lookup_step(p: Option<PendingView>, e: LookupEvent) -> (
    Option<PendingView>,
    Option<Option<[u8; 4]>>,
    Seq<u64>,
) {
    match e {
        LookupEvent::Packet(b) => match p {
            Some(v) => match first_a(b, packet_records(b).0, v.name) {
                Some(a) => (None, Some(Some(a)), Seq::empty()),
                None => (p, None, Seq::empty()),
            },
            None => (p, None, Seq::empty()),
        },
        LookupEvent::Tick(now) => {
            let t = tick_pending(p, now);
            (t.0, if t.2 { Some(None) } else { None }, if t.1 { seq![now] } else { Seq::empty() })
        },
    }
}

/// A run of events for a lookup, up to the event that ends it: the lookup
/// left, its outcome if it ended, and the times its queries went out.
pub open spec fn run_lookup(p: Option<PendingView>, evs: Seq<LookupEvent>) -> (
    Option<PendingView>,
    Option<Option<[u8; 4]>>,
    Seq<u64>,
)
    decreases evs.len(),
{
    if evs.len() == 0 {
        (p, None, Seq::empty())
    } else {
        let (p1, out, q) = lookup_step(p, evs[0]);
        if out is Some {
            (p1, out, q)
        } else {
            let (p2, out2, q2) = run_lookup(p1, evs.drop_first());
            (p2, out2, q + q2)
        }
    }
}

/// Whether `e` is a packet carrying an A record for `name` with address `a`.
pub open spec fn answers(e: LookupEvent, name: Seq<u8>, a: [u8; 4]) -> bool {
    match e {
        LookupEvent::Packet(b) => first_a(b, packet_records(b).0, name) == Some(a),
        LookupEvent::Tick(_) => false,
    }
}

/// Every timer tick of `evs` comes at or before LATEST_MS.
pub open spec fn ticks_in_range(evs: Seq<LookupEvent>) -> bool {
    forall|k: int| 0 <= k < evs.len() ==> (#[trigger] evs[k] matches LookupEvent::Tick(t) ==> t <= LATEST_MS)
}

proof fn lemma_run_lookup(v: PendingView, evs: Seq<LookupEvent>)
    requires
        v.sent <= QUERY_ATTEMPTS,
        ticks_in_range(evs),
    ensures
        ({
            let (p, out, qs) = run_lookup(Some(v), evs);
            &&& v.sent + qs.len() <= QUERY_ATTEMPTS
            &&& qs.len() > 0 ==> qs[0] >= v.next_at
            &&& forall|i: int| 0 <= i < qs.len() - 1 ==> qs[i + 1] >= #[trigger] qs[i] + QUERY_INTERVAL_MS
            &&& out is None ==> (p matches Some(w) && w.name == v.name && w.sent == v.sent + qs.len())
            &&& out == Some(None::<[u8; 4]>) ==> v.sent + qs.len() == QUERY_ATTEMPTS
            &&& out matches Some(Some(a)) ==> exists|k: int| 0 <= k < evs.len() && #[trigger] answers(evs[k], v.name, a)
        }),
    decreases evs.len(),
{
    if evs.len() > 0 {
        let (p1, out, q) = lookup_step(Some(v), evs[0]);
        if out is None {
            let rest = evs.drop_first();
            assert forall|k: int| 0 <= k < rest.len() implies (#[trigger] rest[k] matches LookupEvent::Tick(t) ==> t <= LATEST_MS) by {
                assert(rest[k] == evs[k + 1]);
            }
            let w = p1->0;
            lemma_run_lookup(w, rest);
            let (p2, out2, q2) = run_lookup(p1, rest);
            if let LookupEvent::Tick(now) = evs[0] {
                assert(now <= LATEST_MS);
            }
            assert(run_lookup(Some(v), evs) == (p2, out2, q + q2));
            if let Some(Some(a)) = out2 {
                let k = choose|k: int| 0 <= k < rest.len() && #[trigger] answers(rest[k], w.name, a);
                assert(evs[k + 1] == rest[k]);
            }
            assert forall|i: int| 0 <= i < (q + q2).len() - 1 implies (q + q2)[i + 1] >= #[trigger] (q + q2)[i]
                + QUERY_INTERVAL_MS by {
                if q.len() == 1 && i == 0 {
                    assert((q + q2)[1] == q2[0]);
                } else if q.len() == 1 {
                    assert((q + q2)[i] == q2[i - 1]);
                    assert((q + q2)[i + 1] == q2[(i - 1) + 1]);
                } else {
                    assert((q + q2)[i] == q2[i]);
                    assert((q + q2)[i + 1] == q2[i + 1]);
                }
            }
        } else {
            if let Some(Some(a)) = out {
                assert(answers(evs[0], v.name, a));
            }
        }
    }
}

/// What becomes of a lookup of `name` asked for at `t0`, whatever packets
/// arrive and whenever the timer fires: it sends at most QUERY_ATTEMPTS
/// queries, none before `t0` and each at least QUERY_INTERVAL_MS after the
/// one before; it ends with an address only when a packet carried an A
/// record for `name` with that address, and unanswered only after all
/// QUERY_ATTEMPTS queries went out. With no answer and the timer firing
/// whenever a query is due, it sends its queries at `t0`, `t0` +
/// QUERY_INTERVAL_MS and `t0` + 2 * QUERY_INTERVAL_MS and gives up at `t0` +
/// 3 * QUERY_INTERVAL_MS; a packet answering it first ends it with its address.
pub proof fn law_lookup_outcome(name: Seq<u8>, t0: u64, evs: Seq<LookupEvent>)
    requires
        ticks_in_range(evs),
    ensures
        ({
            let (p, out, qs) = run_lookup(Some(PendingView { name, sent: 0, next_at: t0 }), evs);
            &&& qs.len() <= QUERY_ATTEMPTS
            &&& qs.len() > 0 ==> qs[0] >= t0
            &&& forall|i: int| 0 <= i < qs.len() - 1 ==> qs[i + 1] >= #[trigger] qs[i] + QUERY_INTERVAL_MS
            &&& out == Some(None::<[u8; 4]>) ==> qs.len() == QUERY_ATTEMPTS
            &&& out matches Some(Some(a)) ==> exists|k: int| 0 <= k < evs.len() && #[trigger] answers(evs[k], name, a)
            &&& out is None ==> (p matches Some(w) && w.name == name)
        }),
        t0 + 3 * QUERY_INTERVAL_MS <= LATEST_MS && evs == seq![
            LookupEvent::Tick(t0),
            LookupEvent::Tick((t0 + QUERY_INTERVAL_MS) as u64),
            LookupEvent::Tick((t0 + 2 * QUERY_INTERVAL_MS) as u64),
            LookupEvent::Tick((t0 + 3 * QUERY_INTERVAL_MS) as u64),
        ] ==> run_lookup(Some(PendingView { name, sent: 0, next_at: t0 }), evs) == (
            None::<PendingView>,
            Some(None::<[u8; 4]>),
            seq![t0, (t0 + QUERY_INTERVAL_MS) as u64, (t0 + 2 * QUERY_INTERVAL_MS) as u64],
        ),
        evs.len() > 0 && (evs[0] matches LookupEvent::Packet(b) && first_a(b, packet_records(b).0, name) is Some)
            ==> run_lookup(Some(PendingView { name, sent: 0, next_at: t0 }), evs).1 == Some(
            first_a(evs[0]->Packet_0, packet_records(evs[0]->Packet_0).0, name),
        ),
{
    lemma_run_lookup(PendingView { name, sent: 0, next_at: t0 }, evs);
    if t0 + 3 * QUERY_INTERVAL_MS <= LATEST_MS && evs == seq![
        LookupEvent::Tick(t0),
        LookupEvent::Tick((t0 + QUERY_INTERVAL_MS) as u64),
        LookupEvent::Tick((t0 + 2 * QUERY_INTERVAL_MS) as u64),
        LookupEvent::Tick((t0 + 3 * QUERY_INTERVAL_MS) as u64),
    ] {
        let e3 = evs.drop_first().drop_first().drop_first();
        let e2 = evs.drop_first().drop_first();
        let e1 = evs.drop_first();
        assert(e3.drop_first() =~= Seq::<LookupEvent>::empty());
        assert(e3 =~= seq![LookupEvent::Tick((t0 + 3 * QUERY_INTERVAL_MS) as u64)]);
        assert(e2 =~= seq![LookupEvent::Tick((t0 + 2 * QUERY_INTERVAL_MS) as u64), LookupEvent::Tick((t0 + 3 * QUERY_INTERVAL_MS) as u64)]);
        assert(e1 =~= seq![
            LookupEvent::Tick((t0 + QUERY_INTERVAL_MS) as u64),
            LookupEvent::Tick((t0 + 2 * QUERY_INTERVAL_MS) as u64),
            LookupEvent::Tick((t0 + 3 * QUERY_INTERVAL_MS) as u64),
        ]);
        let r3 = run_lookup(Some(PendingView { name, sent: 3, next_at: (t0 + 3 * QUERY_INTERVAL_MS) as u64 }), e3);
        assert(r3 == (None::<PendingView>, Some(None::<[u8; 4]>), Seq::<u64>::empty()));
        let r2 = run_lookup(Some(PendingView { name, sent: 2, next_at: (t0 + 2 * QUERY_INTERVAL_MS) as u64 }), e2);
        assert(r2.2 =~= seq![(t0 + 2 * QUERY_INTERVAL_MS) as u64]);
        let r1 = run_lookup(Some(PendingView { name, sent: 1, next_at: (t0 + QUERY_INTERVAL_MS) as u64 }), e1);
        assert(r1.2 =~= seq![(t0 + QUERY_INTERVAL_MS) as u64, (t0 + 2 * QUERY_INTERVAL_MS) as u64]);
        assert(run_lookup(Some(PendingView { name, sent: 0, next_at: t0 }), evs).2 =~= seq![
            t0,
            (t0 + QUERY_INTERVAL_MS) as u64,
            (t0 + 2 * QUERY_INTERVAL_MS) as u64,
        ]);
    }
}

/// The ASCII digit `d` (< 10).
pub open spec fn digit_char(d: u8) -> char {
    if d == 0 { '0' } else if d == 1 { '1' } else if d == 2 { '2' } else if d == 3 { '3' } else if d == 4 {
        '4'
    } else if d == 5 { '5' } else if d == 6 { '6' } else if d == 7 { '7' } else if d == 8 { '8' } else { '9' }
}

/// The decimal text of `n`, without leading zeros.
pub open spec fn decimal_text(n: u8) -> Seq<char> {
    if n < 10 {
        seq![digit_char(n)]
    } else if n < 100 {
        seq![digit_char(n / 10), digit_char(n % 10)]
    } else {
        seq![digit_char(n / 100), digit_char((n / 10) % 10), digit_char(n % 10)]
    }
}

/// The dotted-decimal text of an IPv4 address, e.g. `169.254.7.8`.
pub open spec fn dotted_text(ip: [u8; 4]) -> Seq<char> {
    decimal_text(ip@[0]) + seq!['.'] + decimal_text(ip@[1]) + seq!['.'] + decimal_text(ip@[2]) + seq!['.']
        + decimal_text(ip@[3])
}

proof fn lemma_decimal_text_injective(a: u8, b: u8)
    requires
        decimal_text(a) == decimal_text(b),
    ensures
        a == b,
        forall|k: int| 0 <= k < decimal_text(a).len() ==> decimal_text(a)[k] != '.',
{
    let (x, y) = (decimal_text(a), decimal_text(b));
    assert(x.len() == y.len());
    if a < 10 {
        assert(x[0] == y[0]);
    } else if a < 100 {
        assert(x[0] == y[0] && x[1] == y[1]);
        assert(a == 10 * (a / 10) + a % 10);
        assert(b == 10 * (b / 10) + b % 10);
    } else {
        assert(x[0] == y[0] && x[1] == y[1] && x[2] == y[2]);
        assert(a == 100 * (a / 100) + 10 * ((a / 10) % 10) + a % 10);
        assert(b == 100 * (b / 100) + 10 * ((b / 10) % 10) + b % 10);
    }
}

proof fn lemma_no_dot(n: u8)
    ensures
        forall|k: int| 0 <= k < decimal_text(n).len() ==> decimal_text(n)[k] != '.',
{
    lemma_decimal_text_injective(n, n);
}

proof fn lemma_split_at_dot(x1: Seq<char>, r1: Seq<char>, x2: Seq<char>, r2: Seq<char>)
    requires
        x1 + seq!['.'] + r1 == x2 + seq!['.'] + r2,
        forall|k: int| 0 <= k < x1.len() ==> x1[k] != '.',
        forall|k: int| 0 <= k < x2.len() ==> x2[k] != '.',
    ensures
        x1 == x2,
        r1 == r2,
{
    let l = x1 + seq!['.'] + r1;
    let r = x2 + seq!['.'] + r2;
    if x1.len() < x2.len() {
        assert(l[x1.len() as int] == '.');
        assert(r[x1.len() as int] == x2[x1.len() as int]);
    } else if x2.len() < x1.len() {
        assert(r[x2.len() as int] == '.');
        assert(l[x2.len() as int] == x1[x2.len() as int]);
    }
    assert(x1 =~= l.take(x1.len() as int));
    assert(x2 =~= r.take(x2.len() as int));
    assert(r1 =~= l.skip(x1.len() as int + 1));
    assert(r2 =~= r.skip(x2.len() as int + 1));
}

proof fn lemma_split_four(a: Seq<Seq<char>>, b: Seq<Seq<char>>)
    requires
        a.len() == 4,
        b.len() == 4,
        forall|i: int, k: int| 0 <= i < 3 && 0 <= k < a[i].len() ==> a[i][k] != '.',
        forall|i: int, k: int| 0 <= i < 3 && 0 <= k < b[i].len() ==> b[i][k] != '.',
        a[0] + seq!['.'] + a[1] + seq!['.'] + a[2] + seq!['.'] + a[3] == b[0] + seq!['.'] + b[1] + seq!['.']
            + b[2] + seq!['.'] + b[3],
    ensures
        a == b,
{
    let ta = a[1] + seq!['.'] + a[2] + seq!['.'] + a[3];
    let tb = b[1] + seq!['.'] + b[2] + seq!['.'] + b[3];
    assert(a[0] + seq!['.'] + a[1] + seq!['.'] + a[2] + seq!['.'] + a[3] =~= a[0] + seq!['.'] + ta);
    assert(b[0] + seq!['.'] + b[1] + seq!['.'] + b[2] + seq!['.'] + b[3] =~= b[0] + seq!['.'] + tb);
    lemma_split_at_dot(a[0], ta, b[0], tb);
    let ua = a[2] + seq!['.'] + a[3];
    let ub = b[2] + seq!['.'] + b[3];
    assert(ta =~= a[1] + seq!['.'] + ua);
    assert(tb =~= b[1] + seq!['.'] + ub);
    lemma_split_at_dot(a[1], ua, b[1], ub);
    lemma_split_at_dot(a[2], a[3], b[2], b[3]);
    assert(a =~= b);
}

/// Two addresses never share a dotted-decimal text, so a text names at most
/// one address.
pub proof fn law_dotted_text_names_one_address(a: [u8; 4], b: [u8; 4])
    requires
        dotted_text(a) == dotted_text(b),
    ensures
        a == b,
{
    let sa = seq![decimal_text(a@[0]), decimal_text(a@[1]), decimal_text(a@[2]), decimal_text(a@[3])];
    let sb = seq![decimal_text(b@[0]), decimal_text(b@[1]), decimal_text(b@[2]), decimal_text(b@[3])];
    lemma_no_dot(a@[0]);
    lemma_no_dot(a@[1]);
    lemma_no_dot(a@[2]);
    lemma_no_dot(b@[0]);
    lemma_no_dot(b@[1]);
    lemma_no_dot(b@[2]);
    assert forall|i: int, k: int| 0 <= i < 3 && 0 <= k < sa[i].len() implies sa[i][k] != '.' by {
        if i == 0 { assert(sa[i] == decimal_text(a@[0])); } else if i == 1 { assert(sa[i] == decimal_text(a@[1])); }
        else { assert(sa[i] == decimal_text(a@[2])); }
    }
    assert forall|i: int, k: int| 0 <= i < 3 && 0 <= k < sb[i].len() implies sb[i][k] != '.' by {
        if i == 0 { assert(sb[i] == decimal_text(b@[0])); } else if i == 1 { assert(sb[i] == decimal_text(b@[1])); }
        else { assert(sb[i] == decimal_text(b@[2])); }
    }
    lemma_split_four(sa, sb);
    assert(sa[0] == sb[0] && sa[1] == sb[1] && sa[2] == sb[2] && sa[3] == sb[3]);
    lemma_decimal_text_injective(a@[0], b@[0]);
    lemma_decimal_text_injective(a@[1], b@[1]);
    lemma_decimal_text_injective(a@[2], b@[2]);
    lemma_decimal_text_injective(a@[3], b@[3]);
    assert(a@ =~= b@);
}

/// Parses `s` as a literal IPv4 address with `str::parse::<Ipv4Address>`
/// (embassy-net's name for `core::net::Ipv4Addr`, whose parser takes four
/// decimal octets divided by `.`, with no leading zeros and no other
/// characters). The contract claims exactly that: an address comes back
/// when `s` is its dotted-decimal text, and `None` when `s` is the text of
/// no address.
#[verifier::external_body]
fn parse_ipv4(s: &str) -> (r: Option<[u8; 4]>)
    ensures
        r matches Some(ip) ==> dotted_text(ip) == s@,
        r is None ==> forall|ip: [u8; 4]| #[trigger] dotted_text(ip) != s@,
{
    match s.parse::<embassy_net::Ipv4Address>() {
        Ok(ip) => Some(ip.octets()),
        Err(_) => None,
    }
}

/// How FPP's configured host is found.
#[derive(Clone, PartialEq, Eq, Debug)]
pub enum LookupTarget {
    /// It is a literal address.
    Address([u8; 4]),
    /// It is a name to ask mDNS for (trailing dots dropped).
    Query(Vec<u8>),
    /// Not an address, and too long a name to ask for: the lookup fails.
    Unresolvable,
}

/// A host that parses as an IPv4 address is used as it is; anything else
/// is looked up over mDNS.
pub fn lookup_target(host: &str) -> (r: LookupTarget)
    ensures
        (exists|ip: [u8; 4]| #[trigger] dotted_text(ip) == host@) ==> (r matches LookupTarget::Address(ip)
            && dotted_text(ip) == host@),
        !(exists|ip: [u8; 4]| #[trigger] dotted_text(ip) == host@) ==> if trim_dots(encode_utf8(host@)).len()
            <= MAX_NAME {
            r matches LookupTarget::Query(n) && n@ == trim_dots(encode_utf8(host@))
        } else {
            r == LookupTarget::Unresolvable
        },
{
    match parse_ipv4(host) {
        Some(ip) => LookupTarget::Address(ip),
        None => match resolve_request(host) {
            Some(n) => LookupTarget::Query(n),
            None => LookupTarget::Unresolvable,
        },
    }
}

} // verus!
