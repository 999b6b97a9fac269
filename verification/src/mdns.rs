//! mDNS (RFC 6762) / DNS-SD (RFC 6763) for the board: the records it
//! answers with, the queries it sends, and what it learns from responses.
use vstd::prelude::*;
use vstd::utf8::encode_utf8;
use crate::dns::{
    Writer, be16, be32, encode_name, read_name, read_name_spec, be16_at, for_each_record, packet_records, RecordView,
    Record, views, law_name_read_back, MAX_NAME,
};
use vstd::utf8::valid_utf8;
use crate::text::{eq_ignore_case, eq_ignore_ascii_case};

verus! {

pub const MDNS_PORT: u16 = 5353;
pub const TTL_HOST: u32 = 120;
pub const TTL_OTHER: u32 = 4500;
pub const TYPE_A: u16 = 1;
pub const TYPE_PTR: u16 = 12;
pub const TYPE_TXT: u16 = 16;
pub const TYPE_AAAA: u16 = 28;
pub const TYPE_SRV: u16 = 33;
pub const TYPE_NSEC: u16 = 47;
pub const TYPE_ANY: u16 = 255;
pub const CLASS_IN: u16 = 1;
/// Top bit of a question's class: "unicast response requested".
pub const QU: u16 = 0x8000;
/// Set on records only this host answers for.
pub const CACHE_FLUSH: u16 = 0x8000;
/// Port of the status page, advertised in the SRV record.
pub const SERVICE_PORT: u16 = 80;

pub const REC_A: u8 = 1;
pub const REC_PTR: u8 = 2;
pub const REC_META_PTR: u8 = 4;
pub const REC_SRV: u8 = 8;
pub const REC_TXT: u8 = 16;
pub const REC_NSEC: u8 = 32;

/// The service type the board advertises.
pub open spec fn service_type() -> Seq<u8> {
    encode_utf8("_pdmx._tcp.local"@)
}

/// The DNS-SD meta-query name.
pub open spec fn meta_query() -> Seq<u8> {
    encode_utf8("_services._dns-sd._udp.local"@)
}

/// The Falcon Player host watched for.
pub open spec fn fpp_host() -> Seq<u8> {
    encode_utf8("fpp.local"@)
}

/// The tail of every instance name.
pub open spec fn service_suffix() -> Seq<u8> {
    encode_utf8("._pdmx._tcp.local"@)
}

/// The board's own names: host ("pdmx-a1b2.local") and service instance
/// ("PDMX Controller A1B2._pdmx._tcp.local").
#[derive(Clone, Debug)]
pub struct Names {
    pub host: Vec<u8>,
    pub instance: Vec<u8>,
}

/// `<hostname>.local` and `<instance>._pdmx._tcp.local`; the two names are
/// held in 24 and 48 bytes.
pub fn names_new(hostname: &[u8], instance: &[u8]) -> (n: Names)
    requires
        hostname@.len() + 6 <= 24,
        instance@.len() + 17 <= 48,
    ensures
        n.host@ == hostname@ + encode_utf8(".local"@),
        n.instance@ == instance@ + encode_utf8("."@) + service_type(),
{
    let mut host: Vec<u8> = Vec::new();
    crate::text::push_bytes(&mut host, hostname);
    crate::text::push_bytes(&mut host, ".local".as_bytes());
    let mut inst: Vec<u8> = Vec::new();
    crate::text::push_bytes(&mut inst, instance);
    crate::text::push_bytes(&mut inst, ".".as_bytes());
    crate::text::push_bytes(&mut inst, "_pdmx._tcp.local".as_bytes());
    Names { host, instance: inst }
}

/// `Some(a + b)` when both are there.
pub open spec fn ocat(a: Option<Seq<u8>>, b: Option<Seq<u8>>) -> Option<Seq<u8>> {
    match (a, b) {
        (Some(x), Some(y)) => Some(x + y),
        _ => None,
    }
}

/// The bytes, when they fit in `cap`.
pub open spec fn fits(o: Option<Seq<u8>>, cap: nat) -> Option<Seq<u8>> {
    match o {
        Some(b) => if b.len() <= cap { Some(b) } else { None },
        None => None,
    }
}

/// A resource record: owner name, type, class, TTL, data length and data.
pub open spec fn rr(name: Seq<u8>, rtype: u16, class: u16, ttl: u32, rdata: Option<Seq<u8>>) -> Option<Seq<u8>> {
    match (encode_name(name), rdata) {
        (Some(e), Some(d)) => Some(e + be16(rtype) + be16(class) + be32(ttl) + be16(d.len() as u16) + d),
        _ => None,
    }
}

/// The record `rec` (one of the REC_ bits) for this board.
#[verifier::opaque]
pub open spec fn record_bytes(rec: u8, names: Names, ip: [u8; 4]) -> Option<Seq<u8>> {
    if rec == REC_A {
        rr(names.host@, TYPE_A, CLASS_IN | CACHE_FLUSH, TTL_HOST, Some(ip@))
    } else if rec == REC_PTR {
        rr(service_type(), TYPE_PTR, CLASS_IN, TTL_OTHER, encode_name(names.instance@))
    } else if rec == REC_META_PTR {
        rr(meta_query(), TYPE_PTR, CLASS_IN, TTL_OTHER, encode_name(service_type()))
    } else if rec == REC_SRV {
        rr(
            names.instance@,
            TYPE_SRV,
            CLASS_IN | CACHE_FLUSH,
            TTL_HOST,
            ocat(Some(be16(0) + be16(0) + be16(SERVICE_PORT)), encode_name(names.host@)),
        )
    } else if rec == REC_TXT {
        rr(names.instance@, TYPE_TXT, CLASS_IN | CACHE_FLUSH, TTL_OTHER, Some(seq![9u8] + encode_utf8("txtvers=1"@)))
    } else if rec == REC_NSEC {
        rr(names.host@, TYPE_NSEC, CLASS_IN | CACHE_FLUSH, TTL_HOST, ocat(encode_name(names.host@), Some(seq![0u8, 1u8, 0x40u8])))
    } else {
        Some(Seq::empty())
    }
}

fn write_a(w: &mut Writer, names: &Names, ip: [u8; 4]) -> (r: Option<()>)
    ensures
        final(w).capacity() == old(w).capacity(),
        r is Some ==> (record_bytes(REC_A, *names, ip) matches Some(b) && final(w).written() == old(w).written() + b
            && final(w).written().len() <= final(w).capacity()),
        r is None ==> (record_bytes(REC_A, *names, ip) matches Some(b) ==> old(w).written().len() + b.len() > old(
            w,
        ).capacity()),
{
    reveal(record_bytes);
    let ghost before = w.written();
    let at = w.record_start(names.host.as_slice(), TYPE_A, CLASS_IN | CACHE_FLUSH, TTL_HOST)?;
    let ghost mid = w.written();
    let r = w.bytes(&ip);
    if r.is_none() {
        return None;
    }
    w.record_end(at);
    proof {
        let e = encode_name(names.host@)->0;
        assert(w.written() =~= before + (e + be16(TYPE_A) + be16(CLASS_IN | CACHE_FLUSH) + be32(TTL_HOST) + be16(ip@.len() as u16) + ip@));
    }
    Some(())
}

fn write_ptr(w: &mut Writer, names: &Names, ip: [u8; 4]) -> (r: Option<()>)
    ensures
        final(w).capacity() == old(w).capacity(),
        r is Some ==> (record_bytes(REC_PTR, *names, ip) matches Some(b) && final(w).written() == old(w).written() + b
            && final(w).written().len() <= final(w).capacity()),
        r is None ==> (record_bytes(REC_PTR, *names, ip) matches Some(b) ==> old(w).written().len() + b.len() > old(
            w,
        ).capacity()),
{
    reveal(record_bytes);
    let ghost before = w.written();
    let at = w.record_start("_pdmx._tcp.local".as_bytes(), TYPE_PTR, CLASS_IN, TTL_OTHER)?;
    let ghost mid = w.written();
    let r = w.name(names.instance.as_slice());
    if r.is_none() {
        return None;
    }
    w.record_end(at);
    proof {
        let e = encode_name(service_type())->0;
        let d = encode_name(names.instance@)->0;
        assert(w.written() =~= before + (e + be16(TYPE_PTR) + be16(CLASS_IN) + be32(TTL_OTHER) + be16(d.len() as u16) + d));
    }
    Some(())
}

fn write_meta_ptr(w: &mut Writer, names: &Names, ip: [u8; 4]) -> (r: Option<()>)
    ensures
        final(w).capacity() == old(w).capacity(),
        r is Some ==> (record_bytes(REC_META_PTR, *names, ip) matches Some(b) && final(w).written() == old(w).written() + b
            && final(w).written().len() <= final(w).capacity()),
        r is None ==> (record_bytes(REC_META_PTR, *names, ip) matches Some(b) ==> old(w).written().len() + b.len() > old(
            w,
        ).capacity()),
{
    reveal(record_bytes);
    let ghost before = w.written();
    let at = w.record_start("_services._dns-sd._udp.local".as_bytes(), TYPE_PTR, CLASS_IN, TTL_OTHER)?;
    let r = w.name("_pdmx._tcp.local".as_bytes());
    if r.is_none() {
        return None;
    }
    w.record_end(at);
    proof {
        let e = encode_name(meta_query())->0;
        let d = encode_name(service_type())->0;
        assert(w.written() =~= before + (e + be16(TYPE_PTR) + be16(CLASS_IN) + be32(TTL_OTHER) + be16(d.len() as u16) + d));
    }
    Some(())
}

fn write_srv(w: &mut Writer, names: &Names, ip: [u8; 4]) -> (r: Option<()>)
    ensures
        final(w).capacity() == old(w).capacity(),
        r is Some ==> (record_bytes(REC_SRV, *names, ip) matches Some(b) && final(w).written() == old(w).written() + b
            && final(w).written().len() <= final(w).capacity()),
        r is None ==> (record_bytes(REC_SRV, *names, ip) matches Some(b) ==> old(w).written().len() + b.len() > old(
            w,
        ).capacity()),
{
    reveal(record_bytes);
    let ghost before = w.written();
    let at = w.record_start(names.instance.as_slice(), TYPE_SRV, CLASS_IN | CACHE_FLUSH, TTL_HOST)?;
    let ghost mid = w.written();
    if w.u16(0).is_none() {
        return None;
    }
    if w.u16(0).is_none() {
        return None;
    }
    if w.u16(SERVICE_PORT).is_none() {
        return None;
    }
    if w.name(names.host.as_slice()).is_none() {
        return None;
    }
    w.record_end(at);
    proof {
        let e = encode_name(names.instance@)->0;
        let d = be16(0) + be16(0) + be16(SERVICE_PORT) + encode_name(names.host@)->0;
        assert(w.written() =~= before + (e + be16(TYPE_SRV) + be16(CLASS_IN | CACHE_FLUSH) + be32(TTL_HOST) + be16(d.len() as u16) + d));
    }
    Some(())
}

fn write_txt(w: &mut Writer, names: &Names, ip: [u8; 4]) -> (r: Option<()>)
    ensures
        final(w).capacity() == old(w).capacity(),
        r is Some ==> (record_bytes(REC_TXT, *names, ip) matches Some(b) && final(w).written() == old(w).written() + b
            && final(w).written().len() <= final(w).capacity()),
        r is None ==> (record_bytes(REC_TXT, *names, ip) matches Some(b) ==> old(w).written().len() + b.len() > old(
            w,
        ).capacity()),
{
    reveal(record_bytes);
    let ghost before = w.written();
    let at = w.record_start(names.instance.as_slice(), TYPE_TXT, CLASS_IN | CACHE_FLUSH, TTL_OTHER)?;
    let nine = [9u8];
    if w.bytes(&nine).is_none() {
        return None;
    }
    if w.bytes("txtvers=1".as_bytes()).is_none() {
        return None;
    }
    w.record_end(at);
    proof {
        let e = encode_name(names.instance@)->0;
        let d = seq![9u8] + encode_utf8("txtvers=1"@);
        assert(nine@ =~= seq![9u8]);
        assert(w.written() =~= before + (e + be16(TYPE_TXT) + be16(CLASS_IN | CACHE_FLUSH) + be32(TTL_OTHER) + be16(d.len() as u16) + d));
    }
    Some(())
}

fn write_nsec(w: &mut Writer, names: &Names, ip: [u8; 4]) -> (r: Option<()>)
    ensures
        final(w).capacity() == old(w).capacity(),
        r is Some ==> (record_bytes(REC_NSEC, *names, ip) matches Some(b) && final(w).written() == old(w).written() + b
            && final(w).written().len() <= final(w).capacity()),
        r is None ==> (record_bytes(REC_NSEC, *names, ip) matches Some(b) ==> old(w).written().len() + b.len() > old(
            w,
        ).capacity()),
{
    reveal(record_bytes);
    let ghost before = w.written();
    let at = w.record_start(names.host.as_slice(), TYPE_NSEC, CLASS_IN | CACHE_FLUSH, TTL_HOST)?;
    if w.name(names.host.as_slice()).is_none() {
        return None;
    }
    let bitmap = [0u8, 1u8, 0x40u8];
    if w.bytes(&bitmap).is_none() {
        return None;
    }
    w.record_end(at);
    proof {
        let e = encode_name(names.host@)->0;
        let d = e + seq![0u8, 1u8, 0x40u8];
        assert(bitmap@ =~= seq![0u8, 1u8, 0x40u8]);
        assert(w.written() =~= before + (e + be16(TYPE_NSEC) + be16(CLASS_IN | CACHE_FLUSH) + be32(TTL_HOST) + be16(d.len() as u16) + d));
    }
    Some(())
}

/// Writes record `rec`. Fails when a name is malformed or it does not fit.
pub fn write_record(w: &mut Writer, rec: u8, names: &Names, ip: [u8; 4]) -> (r: Option<()>)
    requires
        old(w).written().len() <= old(w).capacity(),
    ensures
        final(w).capacity() == old(w).capacity(),
        r is Some ==> (record_bytes(rec, *names, ip) matches Some(b) && final(w).written() == old(w).written() + b
            && final(w).written().len() <= final(w).capacity()),
        r is None ==> (record_bytes(rec, *names, ip) matches Some(b) ==> old(w).written().len() + b.len() > old(
            w,
        ).capacity()),
{
    reveal(record_bytes);
    if rec == REC_A {
        write_a(w, names, ip)
    } else if rec == REC_PTR {
        write_ptr(w, names, ip)
    } else if rec == REC_META_PTR {
        write_meta_ptr(w, names, ip)
    } else if rec == REC_SRV {
        write_srv(w, names, ip)
    } else if rec == REC_TXT {
        write_txt(w, names, ip)
    } else if rec == REC_NSEC {
        write_nsec(w, names, ip)
    } else {
        proof {
            assert(w.written() + Seq::<u8>::empty() =~= w.written());
        }
        Some(())
    }
}

/// A question: name, type, and class (with the unicast bit when asked for).
pub open spec fn question_bytes(q: (Seq<u8>, u16), unicast: bool) -> Option<Seq<u8>> {
    ocat(encode_name(q.0), Some(be16(q.1) + be16(if unicast { CLASS_IN | QU } else { CLASS_IN })))
}

/// The first `k` questions.
pub open spec fn questions_prefix(qs: Seq<(Seq<u8>, u16)>, k: nat, unicast: bool) -> Option<Seq<u8>>
    decreases k,
{
    if k == 0 {
        Some(Seq::empty())
    } else {
        ocat(questions_prefix(qs, (k - 1) as nat, unicast), question_bytes(qs[k - 1], unicast))
    }
}

/// A standard query: id 0, flags 0, the question count, no records, then the questions.
pub open spec fn query_bytes(qs: Seq<(Seq<u8>, u16)>, unicast: bool) -> Option<Seq<u8>> {
    ocat(
        Some(be16(0) + be16(0) + be16(qs.len() as u16) + seq![0u8, 0u8, 0u8, 0u8, 0u8, 0u8]),
        questions_prefix(qs, qs.len(), unicast),
    )
}

proof fn lemma_questions_mono(qs: Seq<(Seq<u8>, u16)>, k: nat, n: nat, unicast: bool)
    requires
        k <= n,
        questions_prefix(qs, n, unicast) is Some,
    ensures
        questions_prefix(qs, k, unicast) is Some,
        questions_prefix(qs, k, unicast)->0.len() <= questions_prefix(qs, n, unicast)->0.len(),
    decreases n - k,
{
    if k < n {
        lemma_questions_mono(qs, (k + 1) as nat, n, unicast);
    }
}

pub open spec fn question_views(qs: Seq<(Vec<u8>, u16)>) -> Seq<(Seq<u8>, u16)> {
    qs.map_values(|q: (Vec<u8>, u16)| (q.0@, q.1))
}

/// A query for `questions` (see `query_bytes`), if it fits in `cap` bytes.
/// `unicast` sets the QU bit so responders answer straight to the board.
pub fn build_query(questions: &Vec<(Vec<u8>, u16)>, unicast: bool, cap: usize) -> (r: Option<Vec<u8>>)
    ensures
        r matches Some(b) ==> fits(query_bytes(question_views(questions@), unicast), cap as nat) == Some(b@),
        r is None ==> fits(query_bytes(question_views(questions@), unicast), cap as nat) is None,
{
    let ghost qs = question_views(questions@);
    let mut w = Writer::new(cap);
    let header = [0u8, 0u8, 0u8, 0u8, (questions.len() as u16 / 256) as u8, (questions.len() as u16 % 256) as u8, 0u8, 0u8, 0u8, 0u8, 0u8, 0u8];
    let ghost hdr = be16(0) + be16(0) + be16(qs.len() as u16) + seq![0u8, 0u8, 0u8, 0u8, 0u8, 0u8];
    proof {
        assert(header@ =~= hdr);
    }
    if w.bytes(&header).is_none() {
        proof {
            if questions_prefix(qs, qs.len(), unicast) is Some {
                lemma_questions_mono(qs, 0, qs.len(), unicast);
            }
        }
        return None;
    }
    let mut i: usize = 0;
    while i < questions.len()
        invariant
            qs == question_views(questions@),
            hdr == be16(0) + be16(0) + be16(qs.len() as u16) + seq![0u8, 0u8, 0u8, 0u8, 0u8, 0u8],
            i <= questions@.len(),
            w.capacity() == cap,
            w.written().len() <= cap,
            questions_prefix(qs, i as nat, unicast) matches Some(pre) && w.written() == hdr + pre,
        decreases questions@.len() - i,
    {
        let ghost before = w.written();
        let ghost pre = questions_prefix(qs, i as nat, unicast)->0;
        let class = if unicast { CLASS_IN | QU } else { CLASS_IN };
        let q = &questions[i];
        proof {
            assert(qs[i as int] == (q.0@, q.1));
        }
        proof {
            if questions_prefix(qs, qs.len(), unicast) is Some {
                lemma_questions_mono(qs, (i + 1) as nat, qs.len(), unicast);
                assert(questions_prefix(qs, (i + 1) as nat, unicast) == ocat(Some(pre), question_bytes(qs[i as int], unicast)));
            }
        }
        if w.name(q.0.as_slice()).is_none() {
            proof {
                if questions_prefix(qs, qs.len(), unicast) is Some {
                    let all = questions_prefix(qs, qs.len(), unicast)->0;
                    let e = encode_name(q.0@)->0;
                    assert(questions_prefix(qs, (i + 1) as nat, unicast)->0 == pre + (e + (be16(q.1) + be16(class))));
                    assert(all.len() >= pre.len() + e.len());
                    assert(before.len() + e.len() > cap);
                }
            }
            return None;
        }
        let ghost e = encode_name(q.0@)->0;
        proof {
            assert(question_bytes(qs[i as int], unicast) == Some(e + (be16(q.1) + be16(class))));
            assert(w.written().len() == before.len() + e.len());
            assert(before == hdr + pre);
        }
        if w.u16(q.1).is_none() {
            return None;
        }
        if w.u16(class).is_none() {
            proof {
                if questions_prefix(qs, qs.len(), unicast) is Some {
                    let all = questions_prefix(qs, qs.len(), unicast)->0;
                    assert(all.len() >= pre.len() + e.len() + 4);
                }
            }
            return None;
        }
        proof {
            let e = encode_name(q.0@)->0;
            assert(w.written() =~= hdr + (pre + (e + (be16(q.1) + be16(class)))));
        }
        i = i + 1;
    }
    proof {
        assert(qs.len() == questions@.len());
    }
    Some(w.into_bytes())
}

/// 1 when `set` has bit `m`.
pub open spec fn bit(set: u8, m: u8) -> nat {
    if set & m != 0 { 1 } else { 0 }
}

/// Number of bits set.
pub open spec fn popcount(set: u8) -> nat {
    bit(set, 1) + bit(set, 2) + bit(set, 4) + bit(set, 8) + bit(set, 16) + bit(set, 32) + bit(set, 64) + bit(set, 128)
}

/// The number of bits set in `set`.
pub fn count_ones(set: u8) -> (n: u16)
    ensures
        n == popcount(set),
{
    let mut n: u16 = 0;
    if set & 1 != 0 { n = n + 1; }
    if set & 2 != 0 { n = n + 1; }
    if set & 4 != 0 { n = n + 1; }
    if set & 8 != 0 { n = n + 1; }
    if set & 16 != 0 { n = n + 1; }
    if set & 32 != 0 { n = n + 1; }
    if set & 64 != 0 { n = n + 1; }
    if set & 128 != 0 { n = n + 1; }
    n
}

/// The records of `set`, in emission order A, PTR, meta PTR, SRV, TXT, NSEC.
pub open spec fn pick(set: u8, rec: u8, names: Names, ip: [u8; 4]) -> Option<Seq<u8>> {
    if set & rec != 0 { record_bytes(rec, names, ip) } else { Some(Seq::empty()) }
}

#[verifier::opaque]
pub open spec fn set_bytes(set: u8, names: Names, ip: [u8; 4]) -> Option<Seq<u8>> {
    ocat(
        ocat(
            ocat(ocat(ocat(pick(set, REC_A, names, ip), pick(set, REC_PTR, names, ip)), pick(set, REC_META_PTR, names, ip)), pick(set, REC_SRV, names, ip)),
            pick(set, REC_TXT, names, ip),
        ),
        pick(set, REC_NSEC, names, ip),
    )
}

/// A response: id 0, flags response + authoritative, no questions, the
/// answer and additional counts, then the answer records and the
/// additional records.
pub open spec fn response_bytes(names: Names, ip: [u8; 4], answers: u8, additional: u8) -> Option<Seq<u8>> {
    ocat(
        Some(be16(0) + be16(0x8400) + be16(0) + be16(popcount(answers) as u16) + be16(0) + be16(popcount(additional) as u16)),
        ocat(set_bytes(answers, names, ip), set_bytes(additional, names, ip)),
    )
}

fn write_pick(w: &mut Writer, set: u8, rec: u8, names: &Names, ip: [u8; 4]) -> (r: Option<()>)
    requires
        old(w).written().len() <= old(w).capacity(),
    ensures
        final(w).capacity() == old(w).capacity(),
        r is Some ==> (pick(set, rec, *names, ip) matches Some(b) && final(w).written() == old(w).written() + b
            && final(w).written().len() <= final(w).capacity()),
        r is None ==> (pick(set, rec, *names, ip) matches Some(b) ==> old(w).written().len() + b.len() > old(
            w,
        ).capacity()),
{
    if set & rec != 0 {
        write_record(w, rec, names, ip)
    } else {
        proof {
            assert(w.written() + Seq::<u8>::empty() =~= w.written());
        }
        Some(())
    }
}

/// Writes the records of `set` in emission order.
fn write_set(w: &mut Writer, set: u8, names: &Names, ip: [u8; 4]) -> (r: Option<()>)
    requires
        old(w).written().len() <= old(w).capacity(),
    ensures
        final(w).capacity() == old(w).capacity(),
        r is Some ==> (set_bytes(set, *names, ip) matches Some(b) && final(w).written() == old(w).written() + b
            && final(w).written().len() <= final(w).capacity()),
        r is None ==> (set_bytes(set, *names, ip) matches Some(b) ==> old(w).written().len() + b.len() > old(
            w,
        ).capacity()),
{
    reveal(set_bytes);
    let ghost w0 = w.written();
    let ghost n = *names;
    let r1 = write_pick(w, set, REC_A, names, ip);
    if r1.is_none() { return None; }
    let r2 = write_pick(w, set, REC_PTR, names, ip);
    if r2.is_none() { return None; }
    let r3 = write_pick(w, set, REC_META_PTR, names, ip);
    if r3.is_none() { return None; }
    let r4 = write_pick(w, set, REC_SRV, names, ip);
    if r4.is_none() { return None; }
    let r5 = write_pick(w, set, REC_TXT, names, ip);
    if r5.is_none() { return None; }
    let r6 = write_pick(w, set, REC_NSEC, names, ip);
    if r6.is_none() { return None; }
    proof {
        let b1 = pick(set, REC_A, n, ip)->0;
        let b2 = pick(set, REC_PTR, n, ip)->0;
        let b3 = pick(set, REC_META_PTR, n, ip)->0;
        let b4 = pick(set, REC_SRV, n, ip)->0;
        let b5 = pick(set, REC_TXT, n, ip)->0;
        let b6 = pick(set, REC_NSEC, n, ip)->0;
        assert(w.written() =~= w0 + (b1 + b2 + b3 + b4 + b5 + b6));
    }
    Some(())
}

/// The response carrying `answers` and `additional` (REC_ bit sets), if it
/// fits in `cap` bytes (see `response_bytes`).
pub fn build_response(names: &Names, ip: [u8; 4], answers: u8, additional: u8, cap: usize) -> (r: Option<Vec<u8>>)
    ensures
        r matches Some(b) ==> fits(response_bytes(*names, ip, answers, additional), cap as nat) == Some(b@),
        r is None ==> fits(response_bytes(*names, ip, answers, additional), cap as nat) is None,
{
    let mut w = Writer::new(cap);
    let na = count_ones(answers);
    let nd = count_ones(additional);
    let header = [0u8, 0u8, 0x84u8, 0u8, 0u8, 0u8, (na / 256) as u8, (na % 256) as u8, 0u8, 0u8, (nd / 256) as u8, (nd % 256) as u8];
    let ghost hdr = be16(0) + be16(0x8400) + be16(0) + be16(popcount(answers) as u16) + be16(0) + be16(popcount(additional) as u16);
    proof {
        assert(header@ =~= hdr);
    }
    if w.bytes(&header).is_none() {
        return None;
    }
    let ghost w1 = w.written();
    if write_set(&mut w, answers, names, ip).is_none() {
        return None;
    }
    let ghost w2 = w.written();
    if write_set(&mut w, additional, names, ip).is_none() {
        return None;
    }
    proof {
        let a = set_bytes(answers, *names, ip)->0;
        let d = set_bytes(additional, *names, ip)->0;
        assert(w.written() =~= hdr + (a + d));
    }
    Some(w.into_bytes())
}

/// The answer and additional record sets after one question for `name`
/// of type `qtype`: the host's A record (its NSEC when AAAA is asked, as the
/// board has no IPv6), the service PTR with everything a browser needs, the
/// DNS-SD meta PTR, and the instance's SRV and TXT.
pub open spec fn classify(name: Seq<u8>, qtype: u16, names: Names, bits: (u8, u8)) -> (u8, u8) {
    let (ans, add) = bits;
    let any = qtype == TYPE_ANY;
    if eq_ignore_case(name, names.host@) {
        if qtype == TYPE_A || any {
            (ans | REC_A, add | REC_NSEC)
        } else if qtype == TYPE_AAAA {
            (ans | REC_NSEC, add)
        } else {
            bits
        }
    } else if eq_ignore_case(name, service_type()) {
        if qtype == TYPE_PTR || any {
            (ans | REC_PTR, add | (REC_SRV | REC_TXT | REC_A | REC_NSEC))
        } else {
            bits
        }
    } else if eq_ignore_case(name, meta_query()) {
        if qtype == TYPE_PTR || any {
            (ans | REC_META_PTR, add)
        } else {
            bits
        }
    } else if eq_ignore_case(name, names.instance@) {
        let (a1, d1) = if qtype == TYPE_SRV || any { (ans | REC_SRV, add | (REC_A | REC_NSEC)) } else { (ans, add) };
        if qtype == TYPE_TXT || any {
            (a1 | REC_TXT, d1)
        } else {
            (a1, d1)
        }
    } else {
        bits
    }
}

/// The record sets asked for by `n` questions from `pos`, or `None` when a
/// question runs off the packet.
pub open spec fn scan_questions(p: Seq<u8>, pos: int, n: nat, names: Names, bits: (u8, u8)) -> Option<(u8, u8)>
    decreases n,
{
    if n == 0 {
        Some(bits)
    } else {
        match read_name_spec(p, pos) {
            None => None,
            Some((e, name)) => if e + 1 >= p.len() {
                None
            } else {
                scan_questions(p, e + 4, (n - 1) as nat, names, classify(name, be16_at(p, e), names, bits))
            },
        }
    }
}

/// The response to a query packet: nothing for a packet that is not a
/// standard query, has nothing for the board, or whose answer does not fit
/// in `cap`; otherwise the records asked for, with any extra records a
/// resolver will want next as additional records.
pub open spec fn query_response(p: Seq<u8>, names: Names, ip: [u8; 4], cap: nat) -> Option<Seq<u8>> {
    if p.len() < 12 || p[2] & 0x80u8 != 0 || p[2] & 0x78u8 != 0 {
        None
    } else {
        match scan_questions(p, 12, be16_at(p, 4) as nat, names, (0u8, 0u8)) {
            None => None,
            Some((ans, add)) => if ans == 0 {
                None
            } else {
                fits(response_bytes(names, ip, ans, add & !ans), cap)
            },
        }
    }
}

fn classify_exec(name: &[u8], qtype: u16, names: &Names, bits: (u8, u8)) -> (r: (u8, u8))
    ensures
        r == classify(name@, qtype, *names, bits),
{
    let (ans, add) = bits;
    let any = qtype == TYPE_ANY;
    if eq_ignore_ascii_case(name, names.host.as_slice()) {
        if qtype == TYPE_A || any {
            (ans | REC_A, add | REC_NSEC)
        } else if qtype == TYPE_AAAA {
            (ans | REC_NSEC, add)
        } else {
            bits
        }
    } else if eq_ignore_ascii_case(name, "_pdmx._tcp.local".as_bytes()) {
        if qtype == TYPE_PTR || any {
            (ans | REC_PTR, add | (REC_SRV | REC_TXT | REC_A | REC_NSEC))
        } else {
            bits
        }
    } else if eq_ignore_ascii_case(name, "_services._dns-sd._udp.local".as_bytes()) {
        if qtype == TYPE_PTR || any {
            (ans | REC_META_PTR, add)
        } else {
            bits
        }
    } else if eq_ignore_ascii_case(name, names.instance.as_slice()) {
        let (a1, d1) = if qtype == TYPE_SRV || any { (ans | REC_SRV, add | (REC_A | REC_NSEC)) } else { (ans, add) };
        if qtype == TYPE_TXT || any {
            (a1 | REC_TXT, d1)
        } else {
            (a1, d1)
        }
    } else {
        bits
    }
}

/// Builds the response to a query packet (see `query_response`).
pub fn answer_query(packet: &[u8], names: &Names, ip: [u8; 4], cap: usize) -> (r: Option<Vec<u8>>)
    requires
        packet@.len() <= 0x1000_0000,
    ensures
        r matches Some(b) ==> query_response(packet@, *names, ip, cap as nat) == Some(b@),
        r is None ==> query_response(packet@, *names, ip, cap as nat) is None,
{
    let ghost p = packet@;
    if packet.len() < 12 || packet[2] & 0x80u8 != 0 || packet[2] & 0x78u8 != 0 {
        return None;
    }
    let question_count = packet[4] as usize * 256 + packet[5] as usize;
    let mut pos: usize = 12;
    let mut bits: (u8, u8) = (0, 0);
    let mut q: usize = 0;
    while q < question_count
        invariant
            p == packet@,
            p.len() <= 0x1000_0000,
            p.len() >= 12,
            p[2] & 0x80u8 == 0,
            p[2] & 0x78u8 == 0,
            question_count == be16_at(p, 4),
            q <= question_count,
            pos <= p.len() + 4,
            scan_questions(p, 12, question_count as nat, *names, (0u8, 0u8)) == scan_questions(
                p,
                pos as int,
                (question_count - q) as nat,
                *names,
                bits,
            ),
        decreases question_count - q,
    {
        let (e, name) = match read_name(packet, pos) {
            None => return None,
            Some(x) => x,
        };
        if e + 1 >= packet.len() {
            return None;
        }
        let qtype = packet[e] as u16 * 256 + packet[e + 1] as u16;
        bits = classify_exec(name.as_slice(), qtype, names, bits);
        pos = e + 4;
        q = q + 1;
    }
    proof {
        assert(question_count == be16_at(p, 4));
    }
    let (ans, add) = bits;
    if ans == 0 {
        return None;
    }
    build_response(names, ip, ans, add & !ans, cap)
}

/// The IPv4 address of the first A record for `wanted` (ignoring case) among
/// the records of a response packet.
pub open spec fn first_a(p: Seq<u8>, recs: Seq<RecordView>, wanted: Seq<u8>) -> Option<[u8; 4]>
    decreases recs.len(),
{
    if recs.len() == 0 {
        None
    } else {
        let r = recs[0];
        if r.rtype == TYPE_A && r.len == 4 && eq_ignore_case(r.name, wanted) {
            Some([p[r.at], p[r.at + 1], p[r.at + 2], p[r.at + 3]])
        } else {
            first_a(p, recs.drop_first(), wanted)
        }
    }
}

/// The address an A record for `wanted` carries anywhere in a response
/// packet (a malformed tail does not hide a match before it).
pub fn find_a_record(packet: &[u8], wanted: &[u8]) -> (r: Option<[u8; 4]>)
    requires
        packet@.len() <= 0x1000_0000,
    ensures
        r == first_a(packet@, packet_records(packet@).0, wanted@),
{
    let (recs, _) = for_each_record(packet);
    proof {
        assert(views(recs@).skip(0) =~= views(recs@));
    }
    let mut i: usize = 0;
    while i < recs.len()
        invariant
            i <= recs@.len(),
            views(recs@) == packet_records(packet@).0,
            forall|k: int| 0 <= k < recs@.len() ==> (#[trigger] recs@[k]).at + recs@[k].len <= packet@.len(),
            first_a(packet@, views(recs@), wanted@) == first_a(packet@, views(recs@).skip(i as int), wanted@),
        decreases recs@.len() - i,
    {
        let rec = &recs[i];
        proof {
            assert(views(recs@).skip(i as int)[0] == dns_view(recs@[i as int]));
            assert(views(recs@).skip(i as int).drop_first() =~= views(recs@).skip(i as int + 1));
        }
        if rec.rtype == TYPE_A && rec.len == 4 && eq_ignore_ascii_case(rec.name.as_slice(), wanted) {
            return a_record(packet, rec.at);
        }
        i = i + 1;
    }
    proof {
        assert(views(recs@).skip(recs@.len() as int) =~= Seq::<RecordView>::empty());
    }
    None
}

pub open spec fn dns_view(r: Record) -> RecordView {
    crate::dns::record_view(r)
}

/// The four bytes at `at` as an IPv4 address.
pub fn a_record(packet: &[u8], at: usize) -> (r: Option<[u8; 4]>)
    ensures
        at + 4 <= packet@.len() ==> r == Some([packet@[at as int], packet@[at + 1], packet@[at + 2], packet@[at + 3]]),
        at + 4 > packet@.len() ==> r is None,
{
    if at > packet.len() || packet.len() - at < 4 {
        None
    } else {
        Some([packet[at], packet[at + 1], packet[at + 2], packet[at + 3]])
    }
}

/// "PDMX Controller A1B2" out of "PDMX Controller A1B2._pdmx._tcp.local":
/// the part before the service suffix (matched ignoring case), if not empty.
pub open spec fn instance_label_spec(fqdn: Seq<u8>) -> Option<Seq<u8>> {
    let n = service_suffix().len();
    if fqdn.len() <= n {
        None
    } else if !eq_ignore_case(fqdn.subrange(fqdn.len() - n, fqdn.len() as int), service_suffix()) {
        None
    } else {
        Some(fqdn.subrange(0, fqdn.len() - n))
    }
}

/// The instance label of a service instance name (see `instance_label_spec`).
pub fn instance_label(fqdn: &[u8]) -> (r: Option<&[u8]>)
    ensures
        match instance_label_spec(fqdn@) {
            None => r is None,
            Some(l) => r matches Some(x) && x@ == l,
        },
{
    let suffix = "._pdmx._tcp.local".as_bytes();
    if fqdn.len() <= suffix.len() {
        return None;
    }
    let cut = fqdn.len() - suffix.len();
    let tail = crate::dmx::slice_range(fqdn, cut, fqdn.len());
    if !eq_ignore_ascii_case(tail, suffix) {
        return None;
    }
    Some(crate::dmx::slice_range(fqdn, 0, cut))
}

/// What the board answers to a query with one question, `name` of type
/// `qtype`: the records `classify` picks for it, when there are any.
proof fn lemma_one_question(name: Seq<u8>, qtype: u16, unicast: bool, names: Names, ip: [u8; 4], cap: nat)
    requires
        encode_name(name) is Some,
        name.len() <= MAX_NAME,
        valid_utf8(name),
    ensures
        query_bytes(seq![(name, qtype)], unicast) is Some,
        query_response(query_bytes(seq![(name, qtype)], unicast)->0, names, ip, cap) == ({
            let (ans, add) = classify(name, qtype, names, (0u8, 0u8));
            if ans == 0 {
                None
            } else {
                fits(response_bytes(names, ip, ans, add & !ans), cap)
            }
        }),
{
    let qs = seq![(name, qtype)];
    let e = encode_name(name)->0;
    let class: u16 = if unicast { CLASS_IN | QU } else { CLASS_IN };
    let hdr = be16(0) + be16(0) + be16(qs.len() as u16) + seq![0u8, 0u8, 0u8, 0u8, 0u8, 0u8];
    assert(questions_prefix(qs, 0, unicast) == Some(Seq::<u8>::empty()));
    assert(question_bytes(qs[0], unicast) == Some(e + (be16(qtype) + be16(class))));
    assert(questions_prefix(qs, 1, unicast) == Some(Seq::<u8>::empty() + (e + (be16(qtype) + be16(class)))));
    let p = hdr + (Seq::<u8>::empty() + (e + (be16(qtype) + be16(class))));
    assert(query_bytes(qs, unicast) == Some(p));
    assert(hdr.len() == 12);
    assert(p.len() == 12 + e.len() + 4);
    assert(p[2] == 0u8);
    assert((0u8 & 0x80u8) == 0u8 && (0u8 & 0x78u8) == 0u8) by (bit_vector);
    assert(be16_at(p, 4) == 1) by {
        assert(p[4] == 0u8);
        assert(p[5] == 1u8);
    }
    let n: int = e.len() as int;
    assert(p.subrange(12, 12 + n) =~= e) by {
        assert forall|k: int| 0 <= k < n implies p.subrange(12, 12 + n)[k] == e[k] by {
            assert(p[12 + k] == e[k]);
        }
    }
    law_name_read_back(p, 12, name);
    let end: int = 12 + n;
    assert(read_name_spec(p, 12) == Some((end, name)));
    assert(be16_at(p, end) == qtype) by {
        assert(p[end] == (qtype / 256) as u8);
        assert(p[end + 1] == (qtype % 256) as u8);
    }
    let bits = classify(name, qtype, names, (0u8, 0u8));
    assert(scan_questions(p, end + 4, 0, names, bits) == Some(bits));
    assert(scan_questions(p, 12, 1, names, (0u8, 0u8)) == Some(bits));
}

/// Asking for the board's host address gets it: the query an mDNS
/// resolver sends for `<host>.local` (type A, either class form) is
/// answered with the A record, plus the NSEC saying there is nothing else,
/// whenever that response fits in `cap` bytes.
pub proof fn law_host_query_answered(names: Names, ip: [u8; 4], unicast: bool, cap: nat)
    requires
        encode_name(names.host@) is Some,
        names.host@.len() <= MAX_NAME,
        valid_utf8(names.host@),
    ensures
        query_bytes(seq![(names.host@, TYPE_A)], unicast) is Some,
        query_response(query_bytes(seq![(names.host@, TYPE_A)], unicast)->0, names, ip, cap) == fits(
            response_bytes(names, ip, REC_A, REC_NSEC),
            cap,
        ),
{
    lemma_one_question(names.host@, TYPE_A, unicast, names, ip, cap);
    assert(eq_ignore_case(names.host@, names.host@));
    assert((0u8 | 1u8) == 1u8 && (0u8 | 32u8) == 32u8 && (32u8 & !1u8) == 32u8) by (bit_vector);
    assert(classify(names.host@, TYPE_A, names, (0u8, 0u8)) == (REC_A, REC_NSEC));
}

/// A DNS-SD browse finds the board: a query for the service type of type
/// PTR (any letter case, either class form) is answered with the PTR record
/// naming the board's instance, with the SRV, TXT, A and NSEC records a
/// browser asks for next as additional records, whenever that response fits
/// in `cap` bytes. (The host name is never the service type; a board named
/// so answers for its host.)
pub proof fn law_browse_answered(name: Seq<u8>, names: Names, ip: [u8; 4], unicast: bool, cap: nat)
    requires
        eq_ignore_case(name, service_type()),
        !eq_ignore_case(name, names.host@),
        encode_name(name) is Some,
        name.len() <= MAX_NAME,
        valid_utf8(name),
    ensures
        query_bytes(seq![(name, TYPE_PTR)], unicast) is Some,
        query_response(query_bytes(seq![(name, TYPE_PTR)], unicast)->0, names, ip, cap) == fits(
            response_bytes(names, ip, REC_PTR, REC_SRV | REC_TXT | REC_A | REC_NSEC),
            cap,
        ),
        REC_PTR & (REC_SRV | REC_TXT | REC_A | REC_NSEC) == 0,
{
    lemma_one_question(name, TYPE_PTR, unicast, names, ip, cap);
    let add: u8 = REC_SRV | REC_TXT | REC_A | REC_NSEC;
    assert(classify(name, TYPE_PTR, names, (0u8, 0u8)) == (0u8 | REC_PTR, 0u8 | add));
    assert(REC_PTR != 0u8);
    assert((8u8 | 16u8 | 1u8 | 32u8) == 57u8) by (bit_vector);
    assert((0u8 | 2u8) == 2u8 && (0u8 | 57u8) == 57u8 && (57u8 & !2u8) == 57u8 && (2u8 & 57u8) == 0u8)
        by (bit_vector);
}

/// What one question asks the board to send, as (answer, additional)
/// record sets, for each name it answers to (bits: A 1, PTR 2, meta PTR 4,
/// SRV 8, TXT 16, NSEC 32):
///   its host: A for type A or ANY (with the NSEC as additional), the NSEC
///     alone for AAAA (no IPv6), nothing for other types;
///   the service type: PTR for type PTR or ANY, with SRV, TXT, A and NSEC;
///   the DNS-SD meta query: its PTR for type PTR or ANY;
///   its instance: SRV (with A and NSEC) for SRV, TXT for TXT, both for ANY;
///   any other name: nothing.
pub proof fn law_question_answers(name: Seq<u8>, qtype: u16, names: Names)
    ensures
        eq_ignore_case(name, names.host@) ==> classify(name, qtype, names, (0u8, 0u8)) == (
            if qtype == 1 || qtype == 255 { (1u8, 32u8) } else if qtype == 28 { (32u8, 0u8) } else { (0u8, 0u8) }
        ),
        !eq_ignore_case(name, names.host@) && eq_ignore_case(name, service_type()) ==> classify(
            name,
            qtype,
            names,
            (0u8, 0u8),
        ) == (if qtype == 12 || qtype == 255 { (2u8, 57u8) } else { (0u8, 0u8) }),
        !eq_ignore_case(name, names.host@) && !eq_ignore_case(name, service_type()) && eq_ignore_case(
            name,
            meta_query(),
        ) ==> classify(name, qtype, names, (0u8, 0u8)) == (if qtype == 12 || qtype == 255 {
            (4u8, 0u8)
        } else {
            (0u8, 0u8)
        }),
        !eq_ignore_case(name, names.host@) && !eq_ignore_case(name, service_type()) && !eq_ignore_case(
            name,
            meta_query(),
        ) && eq_ignore_case(name, names.instance@) ==> classify(name, qtype, names, (0u8, 0u8)) == (
            if qtype == 255 { (24u8, 33u8) } else if qtype == 33 { (8u8, 33u8) } else if qtype == 16 { (16u8, 0u8) } else { (0u8, 0u8) }
        ),
        !eq_ignore_case(name, names.host@) && !eq_ignore_case(name, service_type()) && !eq_ignore_case(
            name,
            meta_query(),
        ) && !eq_ignore_case(name, names.instance@) ==> classify(name, qtype, names, (0u8, 0u8)) == (0u8, 0u8),
{
    assert((0u8 | 1u8) == 1u8 && (0u8 | 32u8) == 32u8 && (0u8 | 2u8) == 2u8 && (0u8 | 4u8) == 4u8) by (bit_vector);
    assert((8u8 | 16u8 | 1u8 | 32u8) == 57u8 && (0u8 | 57u8) == 57u8) by (bit_vector);
    assert((0u8 | 8u8) == 8u8 && (1u8 | 32u8) == 33u8 && (0u8 | 33u8) == 33u8 && (8u8 | 16u8) == 24u8) by (bit_vector);
    assert((0u8 | 16u8) == 16u8) by (bit_vector);
}

} // verus!
