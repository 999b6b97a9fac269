//! DNS wire format as mDNS uses it: an output buffer of fixed capacity,
//! names, records, questions and the parsing of received packets.
use vstd::prelude::*;
use vstd::utf8::{valid_utf8, valid_first_scalar, length_of_first_scalar, pop_first_scalar};
use crate::text::utf8_valid;

verus! {

/// Longest decoded name kept; longer names decode to the empty name.
pub const MAX_NAME: usize = 128;

/// Big-endian bytes of a 16-bit value.
pub open spec fn be16(v: u16) -> Seq<u8> {
    seq![(v / 256) as u8, (v % 256) as u8]
}

/// Big-endian bytes of a 32-bit value.
pub open spec fn be32(v: u32) -> Seq<u8> {
    seq![(v / 0x100_0000) as u8, ((v / 0x1_0000) % 256) as u8, ((v / 256) % 256) as u8, (v % 256) as u8]
}

/// Index of the first `.` at or after `from`, or the length.
pub open spec fn dot_from(s: Seq<u8>, from: int) -> int
    decreases s.len() - from,
{
    if from < 0 || from >= s.len() {
        s.len() as int
    } else if s[from] == 46 {
        from
    } else {
        dot_from(s, from + 1)
    }
}

pub proof fn lemma_dot_from(s: Seq<u8>, from: int)
    requires
        0 <= from <= s.len(),
    ensures
        from <= dot_from(s, from) <= s.len(),
        dot_from(s, from) < s.len() ==> s[dot_from(s, from)] == 46,
        forall|j: int| from <= j < dot_from(s, from) ==> s[j] != 46,
    decreases s.len() - from,
{
    if from < s.len() && s[from] != 46 {
        lemma_dot_from(s, from + 1);
    }
}

/// A dotted name in wire form (uncompressed): each label as a length byte
/// and its bytes, then a zero byte. `None` if a label is empty or longer
/// than 63 bytes.
pub open spec fn encode_name(s: Seq<u8>) -> Option<Seq<u8>>
    decreases s.len(),
{
    let d = dot_from(s, 0);
    if d <= 0 || d > 63 {
        None
    } else if d >= s.len() {
        Some(seq![d as u8] + s + seq![0u8])
    } else {
        match encode_name(s.subrange(d + 1, s.len() as int)) {
            Some(rest) => Some(seq![d as u8] + s.subrange(0, d) + rest),
            None => None,
        }
    }
}

/// The bytes written so far into a packet buffer of capacity `cap`.
pub struct Writer {
    buf: Vec<u8>,
    cap: usize,
}

impl Writer {
    pub closed spec fn written(self) -> Seq<u8> {
        self.buf@
    }

    pub closed spec fn capacity(self) -> nat {
        self.cap as nat
    }

    /// An empty buffer of capacity `cap`.
    pub fn new(cap: usize) -> (w: Writer)
        ensures
            w.written() == Seq::<u8>::empty(),
            w.capacity() == cap,
    {
        Writer { buf: Vec::new(), cap }
    }

    /// The bytes written.
    pub fn into_bytes(self) -> (b: Vec<u8>)
        ensures
            b@ == self.written(),
    {
        self.buf
    }

    /// Number of bytes written.
    pub fn pos(&self) -> (p: usize)
        ensures
            p == self.written().len(),
    {
        self.buf.len()
    }

    /// Appends `data`, or fails (writing nothing) when it does not fit.
    pub fn bytes(&mut self, data: &[u8]) -> (r: Option<()>)
        ensures
            final(self).capacity() == old(self).capacity(),
            r is Some <==> old(self).written().len() + data@.len() <= old(self).capacity(),
            r is Some ==> final(self).written() == old(self).written() + data@,
            r is None ==> final(self).written() == old(self).written(),
    {
        let pos = self.buf.len();
        if data.len() > self.cap || pos > self.cap - data.len() {
            return None;
        }
        let mut i: usize = 0;
        while i < data.len()
            invariant
                i <= data@.len(),
                self.cap == old(self).cap,
                self.buf@ == old(self).buf@ + data@.take(i as int),
            decreases data@.len() - i,
        {
            self.buf.push(data[i]);
            proof {
                assert(data@.take(i as int + 1) =~= data@.take(i as int).push(data@[i as int]));
            }
            i = i + 1;
        }
        proof {
            assert(data@.take(data@.len() as int) =~= data@);
        }
        Some(())
    }

    /// Appends a big-endian 16-bit value.
    pub fn u16(&mut self, v: u16) -> (r: Option<()>)
        ensures
            final(self).capacity() == old(self).capacity(),
            r is Some <==> old(self).written().len() + 2 <= old(self).capacity(),
            r is Some ==> final(self).written() == old(self).written() + be16(v),
            r is None ==> final(self).written() == old(self).written(),
    {
        let b = [(v / 256) as u8, (v % 256) as u8];
        proof {
            assert(b@ =~= be16(v));
        }
        self.bytes(&b)
    }

    /// Appends a big-endian 32-bit value.
    pub fn u32(&mut self, v: u32) -> (r: Option<()>)
        ensures
            final(self).capacity() == old(self).capacity(),
            r is Some <==> old(self).written().len() + 4 <= old(self).capacity(),
            r is Some ==> final(self).written() == old(self).written() + be32(v),
            r is None ==> final(self).written() == old(self).written(),
    {
        let b = [(v / 0x100_0000) as u8, ((v / 0x1_0000) % 256) as u8, ((v / 256) % 256) as u8, (v % 256) as u8];
        proof {
            assert(b@ =~= be32(v));
        }
        self.bytes(&b)
    }

    /// Writes a dotted name uncompressed (see `encode_name`). Fails when the
    /// name is malformed or does not fit.
    pub fn name(&mut self, name: &[u8]) -> (r: Option<()>)
        ensures
            final(self).capacity() == old(self).capacity(),
            r is Some ==> (encode_name(name@) matches Some(e) && final(self).written() == old(self).written() + e
                && final(self).written().len() <= old(self).capacity()),
            r is None ==> (encode_name(name@) matches Some(e) ==> old(self).written().len() + e.len()
                > old(self).capacity()),
        decreases name@.len(),
    {
        let n = name.len();
        let mut d: usize = 0;
        while d < n && name[d] != 46
            invariant
                d <= n == name@.len(),
                dot_from(name@, 0) == dot_from(name@, d as int),
            decreases n - d,
        {
            d = d + 1;
        }
        proof {
            lemma_dot_from(name@, 0);
        }
        if d == 0 || d > 63 {
            return None;
        }
        let ghost before = self.written();
        let lenb = [d as u8];
        self.bytes(&lenb)?;
        let label = crate::dmx::slice_range(name, 0, d);
        if self.bytes(label).is_none() {
            proof {
                lemma_name_prefix(name@, d as int);
            }
            return None;
        }
        if d >= n {
            let z = [0u8];
            let r = self.bytes(&z);
            proof {
                assert(name@.subrange(0, d as int) =~= name@);
                assert(encode_name(name@) == Some(seq![d as u8] + name@ + seq![0u8]));
                assert(lenb@ =~= seq![d as u8]);
                if r is Some {
                    assert(self.written() =~= before + (seq![d as u8] + name@ + seq![0u8]));
                }
            }
            r
        } else {
            let rest = crate::dmx::slice_range(name, d + 1, n);
            let ghost mid = self.written();
            let r = self.name(rest);
            proof {
                assert(lenb@ =~= seq![d as u8]);
                assert(mid =~= before + seq![d as u8] + name@.subrange(0, d as int));
                match encode_name(rest@) {
                    Some(e) => {
                        assert(encode_name(name@) == Some(seq![d as u8] + name@.subrange(0, d as int) + e));
                        if r is Some {
                            assert(self.written() =~= before + (seq![d as u8] + name@.subrange(0, d as int) + e));
                        }
                    },
                    None => {
                        assert(encode_name(name@) is None);
                    },
                }
            }
            r
        }
    }

    /// Writes name, type, class, TTL and a placeholder data length; returns
    /// where the data length lives, for `record_end`.
    pub fn record_start(&mut self, name: &[u8], rtype: u16, class: u16, ttl: u32) -> (r: Option<usize>)
        ensures
            final(self).capacity() == old(self).capacity(),
            r matches Some(at) ==> (encode_name(name@) matches Some(e) && final(self).written() == old(self).written() + e
                + be16(rtype) + be16(class) + be32(ttl) + be16(0) && at + 2 == final(self).written().len()
                && final(self).written().len() <= final(self).capacity()),
            r is None ==> (encode_name(name@) matches Some(e) ==> old(self).written().len() + e.len() + 10
                > old(self).capacity()),
    {
        let ghost before = self.written();
        self.name(name)?;
        let ghost e = encode_name(name@)->0;
        self.u16(rtype)?;
        self.u16(class)?;
        self.u32(ttl)?;
        let len_at = self.buf.len();
        self.u16(0)?;
        proof {
            assert(self.written() =~= before + e + be16(rtype) + be16(class) + be32(ttl) + be16(0));
        }
        Some(len_at)
    }

    /// Fills in the data length of the record whose length lives at `len_at`:
    /// the bytes written after it.
    pub fn record_end(&mut self, len_at: usize)
        requires
            len_at + 2 <= old(self).written().len(),
        ensures
            final(self).capacity() == old(self).capacity(),
            final(self).written() == old(self).written().update(
                len_at as int,
                be16((old(self).written().len() - len_at - 2) as u16)[0],
            ).update(len_at as int + 1, be16((old(self).written().len() - len_at - 2) as u16)[1]),
    {
        let len = (self.buf.len() - len_at - 2) as u16;
        self.buf.set(len_at, (len / 256) as u8);
        self.buf.set(len_at + 1, (len % 256) as u8);
    }
}

proof fn lemma_name_prefix(name: Seq<u8>, d: int)
    requires
        0 < d <= 63,
        d == dot_from(name, 0),
        d <= name.len(),
    ensures
        encode_name(name) matches Some(e) ==> e.len() >= 1 + d,
{
}

/// Labels joined with dots.
pub open spec fn join_labels(ls: Seq<Seq<u8>>) -> Seq<u8>
    decreases ls.len(),
{
    if ls.len() == 0 {
        Seq::empty()
    } else if ls.len() == 1 {
        ls[0]
    } else {
        join_labels(ls.drop_last()) + seq![46u8] + ls.last()
    }
}

/// Every label is valid UTF-8 and the dotted name fits in MAX_NAME bytes.
pub open spec fn labels_fit(ls: Seq<Seq<u8>>) -> bool {
    &&& forall|i: int| 0 <= i < ls.len() ==> valid_utf8(#[trigger] ls[i])
    &&& join_labels(ls).len() <= MAX_NAME
}

/// Follows the (possibly compressed) name at `pos`: `end` is the offset
/// after the first compression pointer, if one was followed; `jumps` counts
/// pointers followed (more than 8 is refused). Gives the offset just past
/// the name where it stands in the packet and its labels, or `None` when the name
/// runs off the packet or uses a reserved label type.
pub open spec fn walk_name(p: Seq<u8>, pos: int, jumps: nat, end: Option<int>, ls: Seq<Seq<u8>>) -> Option<(int, Seq<Seq<u8>>)>
    decreases 9 - jumps, p.len() - pos,
{
    if pos < 0 || pos >= p.len() || jumps > 8 {
        None
    } else {
        let len = p[pos];
        if len == 0 {
            Some((
                match end {
                    Some(e) => e,
                    None => pos + 1,
                },
                ls,
            ))
        } else if len & 0xC0u8 == 0xC0u8 {
            if pos + 1 >= p.len() || jumps + 1 > 8 {
                None
            } else {
                let e2 = match end {
                    Some(e) => Some(e),
                    None => Some(pos + 2),
                };
                walk_name(p, (len & 0x3Fu8) as int * 256 + p[pos + 1] as int, jumps + 1, e2, ls)
            }
        } else if len & 0xC0u8 != 0 {
            None
        } else if pos + 1 + len > p.len() {
            None
        } else {
            walk_name(p, pos + 1 + len, jumps, end, ls.push(p.subrange(pos + 1, pos + 1 + len)))
        }
    }
}

/// The name at `start`: the offset just past it, and the dotted name, or
/// the empty name when a label is not UTF-8 or the name is longer than
/// MAX_NAME (it still never matches anything, but is skipped correctly).
pub open spec fn read_name_spec(p: Seq<u8>, start: int) -> Option<(int, Seq<u8>)> {
    match walk_name(p, start, 0, None, Seq::empty()) {
        None => None,
        Some((end, ls)) => Some((end, if labels_fit(ls) { join_labels(ls) } else { Seq::empty() })),
    }
}

proof fn lemma_join_push(ls: Seq<Seq<u8>>, l: Seq<u8>)
    ensures
        join_labels(ls.push(l)) == if ls.len() == 0 { l } else { join_labels(ls) + seq![46u8] + l },
{
    assert(ls.push(l).drop_last() =~= ls);
}

proof fn lemma_join_len_grows(ls: Seq<Seq<u8>>, l: Seq<u8>)
    ensures
        join_labels(ls.push(l)).len() >= join_labels(ls).len(),
{
    lemma_join_push(ls, l);
}

proof fn lemma_unfit_stays(ls: Seq<Seq<u8>>, l: Seq<u8>)
    requires
        !labels_fit(ls),
    ensures
        !labels_fit(ls.push(l)),
{
    lemma_join_len_grows(ls, l);
    if !(forall|i: int| 0 <= i < ls.len() ==> valid_utf8(#[trigger] ls[i])) {
        let i = choose|i: int| 0 <= i < ls.len() && !valid_utf8(#[trigger] ls[i]);
        assert(ls.push(l)[i] == ls[i]);
    }
}

proof fn lemma_walk_end(p: Seq<u8>, pos: int, jumps: nat, end: Option<int>, ls: Seq<Seq<u8>>)
    requires
        end matches Some(e) ==> 0 <= e <= p.len(),
    ensures
        walk_name(p, pos, jumps, end, ls) matches Some((e, _)) ==> 0 <= e <= p.len(),
    decreases 9 - jumps, p.len() - pos,
{
    if pos < 0 || pos >= p.len() || jumps > 8 {
    } else {
        let len = p[pos];
        if len == 0 {
        } else if len & 0xC0u8 == 0xC0u8 {
            if pos + 1 >= p.len() || jumps + 1 > 8 {
            } else {
                let e2 = match end {
                    Some(e) => Some(e),
                    None => Some(pos + 2),
                };
                lemma_walk_end(p, (len & 0x3Fu8) as int * 256 + p[pos + 1] as int, jumps + 1, e2, ls);
            }
        } else if len & 0xC0u8 != 0 {
        } else if pos + 1 + len > p.len() {
        } else {
            lemma_walk_end(p, pos + 1 + len, jumps, end, ls.push(p.subrange(pos + 1, pos + 1 + len)));
        }
    }
}

/// Decodes the name at `start` (see `read_name_spec`).
pub fn read_name(packet: &[u8], start: usize) -> (r: Option<(usize, Vec<u8>)>)
    ensures
        match read_name_spec(packet@, start as int) {
            None => r is None,
            Some((e, n)) => r matches Some((e2, n2)) && e2 == e && n2@ == n,
        },
        r matches Some((e, _)) ==> e <= packet@.len(),
{
    let ghost p = packet@;
    let mut out: Vec<u8> = Vec::new();
    let mut pos: usize = start;
    let mut end: Option<usize> = None;
    let mut jumps: usize = 0;
    let mut overflow = false;
    let ghost mut ls: Seq<Seq<u8>> = Seq::empty();
    loop
        invariant
            p == packet@,
            jumps <= 8,
            end matches Some(e) ==> e <= p.len(),
            walk_name(p, start as int, 0, None, Seq::empty()) == walk_name(
                p,
                pos as int,
                jumps as nat,
                match end {
                    Some(e) => Some(e as int),
                    None => None,
                },
                ls,
            ),
            !overflow ==> labels_fit(ls) && out@ == join_labels(ls),
            forall|i: int| 0 <= i < ls.len() ==> (#[trigger] ls[i]).len() > 0,
            overflow ==> !labels_fit(ls),
        decreases 9 - jumps, p.len() - pos,
    {
        let ghost cur_end = match end {
            Some(e) => Some(e as int),
            None => None,
        };
        if pos >= packet.len() {
            return None;
        }
        let len = packet[pos];
        if len == 0 {
            let e = match end {
                Some(e) => e,
                None => pos + 1,
            };
            proof {
                lemma_walk_end(p, start as int, 0, None, Seq::empty());
            }
            if overflow {
                return Some((e, Vec::new()));
            }
            return Some((e, out));
        }
        if len & 0xC0u8 == 0xC0u8 {
            if pos + 1 >= packet.len() {
                return None;
            }
            let low = packet[pos + 1];
            if end.is_none() {
                end = Some(pos + 2);
            }
            if jumps + 1 > 8 {
                return None;
            }
            jumps = jumps + 1;
            pos = (len & 0x3Fu8) as usize * 256 + low as usize;
            continue;
        }
        if len & 0xC0u8 != 0 {
            return None;
        }
        let l = len as usize;
        if l > packet.len() - pos - 1 {
            return None;
        }
        let label = crate::dmx::slice_range(packet, pos + 1, pos + 1 + l);
        let ghost old_ls = ls;
        proof {
            ls = ls.push(label@);
            lemma_join_push(old_ls, label@);
            if old_ls.len() > 0 && old_ls.len() == 1 {
                assert(old_ls[0].len() > 0);
            }
            assert forall|i: int| 0 <= i < ls.len() implies (#[trigger] ls[i]).len() > 0 by {
                if i < old_ls.len() {
                    assert(ls[i] == old_ls[i]);
                }
            }
        }
        if !overflow {
            let new_len = if out.len() == 0 { l } else { out.len() + 1 + l };
            let valid = utf8_valid(label);
            if valid && new_len <= MAX_NAME {
                if out.len() > 0 {
                    out.push(46);
                }
                let mut k: usize = 0;
                let ghost base = out@;
                while k < l
                    invariant
                        k <= l == label@.len(),
                        out@ == base + label@.take(k as int),
                    decreases l - k,
                {
                    out.push(label[k]);
                    proof {
                        assert(label@.take(k as int + 1) =~= label@.take(k as int).push(label@[k as int]));
                    }
                    k = k + 1;
                }
                proof {
                    assert(label@.take(l as int) =~= label@);
                    assert(out@ =~= join_labels(ls));
                    assert forall|i: int| 0 <= i < ls.len() implies valid_utf8(#[trigger] ls[i]) by {
                        if i < old_ls.len() {
                            assert(ls[i] == old_ls[i]);
                        }
                    }
                }
            } else {
                overflow = true;
                proof {
                    if !valid {
                        assert(!valid_utf8(ls[ls.len() - 1]));
                    }
                }
            }
        } else {
            proof {
                lemma_unfit_stays(old_ls, label@);
            }
        }
        pos = pos + 1 + l;
    }
}

/// Big-endian 16-bit value at `i`.
pub open spec fn be16_at(p: Seq<u8>, i: int) -> u16 {
    (p[i] as int * 256 + p[i + 1] as int) as u16
}

/// Offset past `n` questions from `pos` (name, type, class), if their names decode.
pub open spec fn skip_questions(p: Seq<u8>, pos: int, n: nat) -> Option<int>
    decreases n,
{
    if n == 0 {
        Some(pos)
    } else {
        match read_name_spec(p, pos) {
            None => None,
            Some((e, _)) => skip_questions(p, e + 4, (n - 1) as nat),
        }
    }
}

/// One resource record of a packet: owner name, type, and where its data lies.
pub struct RecordView {
    pub name: Seq<u8>,
    pub rtype: u16,
    pub at: int,
    pub len: int,
}

/// The `n` records from `pos`, and whether all of them were well formed
/// (records before a malformed one are still listed).
pub open spec fn records_from(p: Seq<u8>, pos: int, n: nat) -> (Seq<RecordView>, bool)
    decreases n,
{
    if n == 0 {
        (Seq::empty(), true)
    } else {
        match read_name_spec(p, pos) {
            None => (Seq::empty(), false),
            Some((e, name)) => if e + 10 > p.len() {
                (Seq::empty(), false)
            } else {
                let rtype = be16_at(p, e);
                let rdlen = be16_at(p, e + 8) as int;
                if e + 10 + rdlen > p.len() {
                    (Seq::empty(), false)
                } else {
                    let rest = records_from(p, e + 10 + rdlen, (n - 1) as nat);
                    (seq![RecordView { name, rtype, at: e + 10, len: rdlen }] + rest.0, rest.1)
                }
            },
        }
    }
}

/// Every record of a response packet (answer, authority and additional
/// sections) with a flag for a well-formed packet; nothing for a packet
/// that is not a response or is shorter than a header.
pub open spec fn packet_records(p: Seq<u8>) -> (Seq<RecordView>, bool) {
    if p.len() < 12 || p[2] & 0x80u8 == 0 {
        (Seq::empty(), false)
    } else {
        match skip_questions(p, 12, be16_at(p, 4) as nat) {
            None => (Seq::empty(), false),
            Some(pos) => records_from(
                p,
                pos,
                (be16_at(p, 6) as int + be16_at(p, 8) as int + be16_at(p, 10) as int) as nat,
            ),
        }
    }
}

/// A record found in a packet.
#[derive(Clone, Debug)]
pub struct Record {
    pub name: Vec<u8>,
    pub rtype: u16,
    pub at: usize,
    pub len: usize,
}

pub open spec fn record_view(r: Record) -> RecordView {
    RecordView { name: r.name@, rtype: r.rtype, at: r.at as int, len: r.len as int }
}

pub open spec fn views(rs: Seq<Record>) -> Seq<RecordView> {
    rs.map_values(|r: Record| record_view(r))
}

/// Lists the records of a response packet (see `packet_records`).
pub fn for_each_record(packet: &[u8]) -> (r: (Vec<Record>, bool))
    requires
        packet@.len() <= 0x1000_0000,
    ensures
        views(r.0@) == packet_records(packet@).0,
        r.1 == packet_records(packet@).1,
        forall|i: int| 0 <= i < r.0@.len() ==> (#[trigger] r.0@[i]).at + r.0@[i].len <= packet@.len(),
{
    let ghost p = packet@;
    let mut recs: Vec<Record> = Vec::new();
    if packet.len() < 12 || packet[2] & 0x80u8 == 0 {
        proof {
            assert(views(recs@) =~= Seq::<RecordView>::empty());
        }
        return (recs, false);
    }
    let question_count = packet[4] as usize * 256 + packet[5] as usize;
    let record_count = (packet[6] as usize * 256 + packet[7] as usize) + (packet[8] as usize * 256
        + packet[9] as usize) + (packet[10] as usize * 256 + packet[11] as usize);
    let mut pos: usize = 12;
    let mut q: usize = 0;
    while q < question_count
        invariant
            p == packet@,
            p.len() <= 0x1000_0000,
            p.len() >= 12,
            p[2] & 0x80u8 != 0,
            q <= question_count,
            question_count == be16_at(p, 4),
            pos <= p.len() + 4,
            skip_questions(p, 12, question_count as nat) == skip_questions(p, pos as int, (question_count - q) as nat),
            recs@.len() == 0,
        decreases question_count - q,
    {
        match read_name(packet, pos) {
            None => {
                proof {
                    assert(views(recs@) =~= Seq::<RecordView>::empty());
                }
                return (recs, false);
            },
            Some((e, _)) => {
                pos = e + 4;
            },
        }
        q = q + 1;
    }
    let ghost start = pos as int;
    proof {
        assert(skip_questions(p, 12, question_count as nat) == Some(start));
        assert(record_count as nat == (be16_at(p, 6) as int + be16_at(p, 8) as int + be16_at(p, 10) as int) as nat);
        assert(packet_records(p) == records_from(p, start, record_count as nat));
    }
    let mut k: usize = 0;
    while k < record_count
        invariant
            p == packet@,
            p.len() <= 0x1000_0000,
            k <= record_count,
            pos <= p.len() + 4,
            packet_records(p) == records_from(p, start, record_count as nat),
            ({
                let whole = records_from(p, start, record_count as nat);
                let rest = records_from(p, pos as int, (record_count - k) as nat);
                &&& whole.0 == views(recs@) + rest.0
                &&& whole.1 == rest.1
            }),
            forall|i: int| 0 <= i < recs@.len() ==> (#[trigger] recs@[i]).at + recs@[i].len <= packet@.len(),
        decreases record_count - k,
    {
        let ghost n = (record_count - k) as nat;
        match read_name(packet, pos) {
            None => {
                proof {
                    assert(views(recs@) + Seq::<RecordView>::empty() =~= views(recs@));
                }
                return (recs, false);
            },
            Some((e, name)) => {
                if e > packet.len() || packet.len() - e < 10 {
                    proof {
                        assert(views(recs@) + Seq::<RecordView>::empty() =~= views(recs@));
                    }
                    return (recs, false);
                }
                let rtype = (packet[e] as u16) * 256 + packet[e + 1] as u16;
                let rdlen = packet[e + 8] as usize * 256 + packet[e + 9] as usize;
                if packet.len() - e - 10 < rdlen {
                    proof {
                        assert(views(recs@) + Seq::<RecordView>::empty() =~= views(recs@));
                    }
                    return (recs, false);
                }
                let ghost old_recs = recs@;
                let rec = Record { name, rtype, at: e + 10, len: rdlen };
                recs.push(rec);
                proof {
                    assert(views(recs@) =~= views(old_recs) + seq![record_view(rec)]);
                    let rest = records_from(p, e + 10 + rdlen, (n - 1) as nat);
                    assert(records_from(p, pos as int, n).0 == seq![record_view(rec)] + rest.0);
                    assert(views(old_recs) + (seq![record_view(rec)] + rest.0) =~= views(recs@) + rest.0);
                }
                pos = e + 10 + rdlen;
            },
        }
        k = k + 1;
    }
    proof {
        assert(views(recs@) + Seq::<RecordView>::empty() =~= views(recs@));
    }
    (recs, true)
}

/// The labels of a dotted name.
pub open spec fn name_labels(s: Seq<u8>) -> Seq<Seq<u8>>
    decreases s.len(),
{
    let d = dot_from(s, 0);
    if d < 0 || d >= s.len() {
        seq![s]
    } else {
        seq![s.subrange(0, d)] + name_labels(s.subrange(d + 1, s.len() as int))
    }
}

proof fn lemma_label_byte(d: u8)
    requires
        1 <= d <= 63,
    ensures
        d & 0xC0u8 != 0xC0u8,
        d & 0xC0u8 == 0,
{
    assert(d & 0xC0u8 == 0) by (bit_vector)
        requires
            1 <= d <= 63;
}

/// Walking an encoded name adds its labels, and ends just past it.
proof fn lemma_walk_encoded(p: Seq<u8>, pos: int, ls: Seq<Seq<u8>>, s: Seq<u8>)
    requires
        encode_name(s) is Some,
        0 <= pos,
        pos + encode_name(s)->0.len() <= p.len(),
        p.subrange(pos, pos + encode_name(s)->0.len()) == encode_name(s)->0,
    ensures
        walk_name(p, pos, 0, None, ls) == Some((pos + encode_name(s)->0.len(), ls + name_labels(s))),
    decreases s.len(),
{
    let e = encode_name(s)->0;
    let d = dot_from(s, 0);
    lemma_dot_from(s, 0);
    assert(p[pos] == e[0]);
    assert(e[0] == d as u8);
    lemma_label_byte(d as u8);
    if d >= s.len() {
        assert(e == seq![d as u8] + s + seq![0u8]);
        assert(p.subrange(pos + 1, pos + 1 + d) =~= s) by {
            assert forall|k: int| 0 <= k < d implies p.subrange(pos + 1, pos + 1 + d)[k] == s[k] by {
                assert(p[pos + 1 + k] == e[1 + k]);
            }
        }
        assert(p[pos + 1 + d] == e[1 + d]);
        assert(walk_name(p, pos + 1 + d, 0, None, ls.push(s)) == Some((pos + 1 + d + 1, ls.push(s))));
        assert(ls.push(s) =~= ls + name_labels(s));
    } else {
        let rest = s.subrange(d + 1, s.len() as int);
        let re = encode_name(rest)->0;
        assert(e == seq![d as u8] + s.subrange(0, d) + re);
        let q = pos + 1 + d;
        assert(p.subrange(pos + 1, q) =~= s.subrange(0, d)) by {
            assert forall|k: int| 0 <= k < d implies p.subrange(pos + 1, q)[k] == s.subrange(0, d)[k] by {
                assert(p[pos + 1 + k] == e[1 + k]);
            }
        }
        assert(p.subrange(q, q + re.len()) =~= re) by {
            assert forall|k: int| 0 <= k < re.len() implies p.subrange(q, q + re.len())[k] == re[k] by {
                assert(p[q + k] == e[1 + d + k]);
            }
        }
        lemma_walk_encoded(p, q, ls.push(s.subrange(0, d)), rest);
        assert(ls.push(s.subrange(0, d)) + name_labels(rest) =~= ls + name_labels(s));
    }
}

proof fn lemma_join_front(a: Seq<u8>, rest: Seq<Seq<u8>>)
    requires
        rest.len() >= 1,
    ensures
        join_labels(seq![a] + rest) == a + seq![46u8] + join_labels(rest),
    decreases rest.len(),
{
    let all = seq![a] + rest;
    assert(all.drop_last() =~= seq![a] + rest.drop_last());
    assert(all.len() >= 2);
    assert(join_labels(all) == join_labels(all.drop_last()) + seq![46u8] + all.last());
    if rest.len() == 1 {
        assert(seq![a] + rest.drop_last() =~= seq![a]);
        assert(all.last() == rest[0]);
        assert(join_labels(seq![a]) == a);
        assert(join_labels(rest) == rest[0]);
    } else {
        lemma_join_front(a, rest.drop_last());
        assert(all.last() == rest.last());
        assert(join_labels(rest) == join_labels(rest.drop_last()) + seq![46u8] + rest.last());
        assert(a + seq![46u8] + join_labels(rest.drop_last()) + seq![46u8] + rest.last() =~= a + seq![46u8] + (
        join_labels(rest.drop_last()) + seq![46u8] + rest.last()));
    }
}

/// Joining the labels of a name gives the name back.
proof fn lemma_join_labels(s: Seq<u8>)
    requires
        encode_name(s) is Some,
    ensures
        join_labels(name_labels(s)) == s,
        name_labels(s).len() >= 1,
    decreases s.len(),
{
    let d = dot_from(s, 0);
    lemma_dot_from(s, 0);
    if d < s.len() {
        let rest = s.subrange(d + 1, s.len() as int);
        lemma_join_labels(rest);
        lemma_join_front(s.subrange(0, d), name_labels(rest));
        assert(s.subrange(0, d) + seq![46u8] + rest =~= s);
    }
}

proof fn lemma_dot_shift(b: Seq<u8>, l: int, j: int)
    requires
        0 <= l <= b.len(),
        0 <= j <= b.len() - l,
    ensures
        dot_from(b, l + j) == l + dot_from(b.subrange(l, b.len() as int), j),
    decreases b.len() - l - j,
{
    if l + j < b.len() {
        assert(b.subrange(l, b.len() as int)[j] == b[l + j]);
        lemma_dot_shift(b, l, j + 1);
    }
}

proof fn lemma_skip_dots(b: Seq<u8>, from: int, to: int)
    requires
        0 <= from <= to <= b.len(),
        forall|k: int| from <= k < to ==> b[k] != 46,
    ensures
        dot_from(b, from) == dot_from(b, to),
    decreases to - from,
{
    if from < to {
        lemma_skip_dots(b, from + 1, to);
    }
}

/// Splitting valid UTF-8 at its first `.` leaves valid UTF-8 on both sides:
/// a `.` byte is never part of a longer character.
proof fn lemma_split_utf8_at_dot(b: Seq<u8>)
    requires
        valid_utf8(b),
    ensures
        valid_utf8(b.subrange(0, dot_from(b, 0))),
        dot_from(b, 0) < b.len() ==> valid_utf8(b.subrange(dot_from(b, 0) + 1, b.len() as int)),
    decreases b.len(),
{
    lemma_dot_from(b, 0);
    let d = dot_from(b, 0);
    if b.len() == 0 {
        assert(b.subrange(0, d).len() == 0);
    } else if b[0] == 46 {
        assert(b.subrange(0, 0).len() == 0);
        assert(length_of_first_scalar(b) == 1);
        assert(b.subrange(1, b.len() as int) =~= pop_first_scalar(b));
    } else {
        let l = length_of_first_scalar(b);
        let pop = pop_first_scalar(b);
        assert(1 <= l <= 4 && l <= b.len());
        assert forall|k: int| 0 <= k < l implies b[k] != 46 by {
            if k > 0 {
                assert(0x80 <= b[k] <= 0xbf);
            }
        }
        lemma_skip_dots(b, 0, l);
        lemma_dot_shift(b, l, 0);
        assert(pop =~= b.subrange(l, b.len() as int));
        let d2 = dot_from(pop, 0);
        assert(d == l + d2);
        lemma_split_utf8_at_dot(pop);
        lemma_dot_from(pop, 0);
        let head = b.subrange(0, d);
        assert(head.len() >= l);
        assert(forall|k: int| 0 <= k < l ==> head[k] == b[k]);
        assert(valid_first_scalar(head));
        assert(length_of_first_scalar(head) == l);
        assert(pop_first_scalar(head) =~= pop.subrange(0, d2));
        assert(valid_utf8(head));
        if d < b.len() {
            assert(b.subrange(d + 1, b.len() as int) =~= pop.subrange(d2 + 1, pop.len() as int));
        }
    }
}

proof fn lemma_labels_utf8(s: Seq<u8>)
    requires
        valid_utf8(s),
    ensures
        forall|i: int| 0 <= i < name_labels(s).len() ==> valid_utf8(#[trigger] name_labels(s)[i]),
    decreases s.len(),
{
    lemma_dot_from(s, 0);
    lemma_split_utf8_at_dot(s);
    let d = dot_from(s, 0);
    if d < s.len() {
        let rest = s.subrange(d + 1, s.len() as int);
        lemma_labels_utf8(rest);
        assert forall|i: int| 0 <= i < name_labels(s).len() implies valid_utf8(#[trigger] name_labels(s)[i]) by {
            if i > 0 {
                assert(name_labels(s)[i] == name_labels(rest)[i - 1]);
            }
        }
    } else {
        assert(s.subrange(0, d) =~= s);
    }
}

/// A name as the board writes it (`Writer::name`, `encode_name`) reads back
/// as itself with `read_name`, wherever it stands in a packet, when it is
/// UTF-8 text (a `&str`) and fits in MAX_NAME bytes; reading ends just past it.
pub proof fn law_name_read_back(p: Seq<u8>, pos: int, s: Seq<u8>)
    requires
        encode_name(s) is Some,
        0 <= pos,
        pos + encode_name(s)->0.len() <= p.len(),
        p.subrange(pos, pos + encode_name(s)->0.len()) == encode_name(s)->0,
        s.len() <= MAX_NAME,
        valid_utf8(s),
    ensures
        read_name_spec(p, pos) == Some((pos + encode_name(s)->0.len(), s)),
{
    lemma_labels_utf8(s);
    lemma_walk_encoded(p, pos, Seq::empty(), s);
    assert(Seq::<Seq<u8>>::empty() + name_labels(s) =~= name_labels(s));
    lemma_join_labels(s);
}

} // verus!
