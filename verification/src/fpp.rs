//! Falcon Player (FPP) control over its HTTP API: the request paths for the
//! show's commands, reading FPP's status line, and what a send attempt
//! leads to. Commands that can't reach FPP are retried until they get
//! through; a command FPP answers with an error status is dropped.
use vstd::prelude::*;
use vstd::utf8::{encode_utf8, valid_utf8};
use crate::text::{hex_upper, hex_digit_upper, utf8_valid, push_bytes};
use crate::logic::{Action, clip_file, clip_name};

verus! {

/// Longest request path that is sent; longer commands are dropped.
pub const MAX_PATH_LEN: usize = 192;
/// Port of FPP's HTTP API.
pub const FPP_PORT: u16 = 80;
/// Delay before retrying an undelivered command (ms).
pub const RETRY_DELAY_MS: u64 = 2000;

/// How sending to FPP is going, for the status page.
#[derive(Clone, Copy, PartialEq, Eq, Debug, Structural)]
pub enum FppStatus {
    /// Nothing sent yet.
    Idle,
    /// mDNS found nothing for the configured name; retrying.
    NoHost,
    /// Address known, but the connection failed; retrying.
    NoConn,
    /// Last command was accepted.
    Online,
    /// FPP answered the last command with an error (bad name?). Not retried.
    Rejected,
}

pub open spec fn status_byte(s: FppStatus) -> u8 {
    match s {
        FppStatus::Idle => 0,
        FppStatus::NoHost => 1,
        FppStatus::NoConn => 2,
        FppStatus::Online => 3,
        FppStatus::Rejected => 4,
    }
}

/// The byte a status is stored as.
pub fn set_status(status: FppStatus) -> (b: u8)
    ensures
        b == status_byte(status),
{
    match status {
        FppStatus::Idle => 0,
        FppStatus::NoHost => 1,
        FppStatus::NoConn => 2,
        FppStatus::Online => 3,
        FppStatus::Rejected => 4,
    }
}

/// The status a stored byte stands for; any unknown byte reads as Idle.
pub fn fpp_status(stored: u8) -> (s: FppStatus)
    ensures
        stored <= 4 ==> status_byte(s) == stored,
        stored > 4 ==> s == FppStatus::Idle,
{
    if stored == 1 {
        FppStatus::NoHost
    } else if stored == 2 {
        FppStatus::NoConn
    } else if stored == 3 {
        FppStatus::Online
    } else if stored == 4 {
        FppStatus::Rejected
    } else {
        FppStatus::Idle
    }
}

/// A stored status reads back as itself.
pub proof fn law_status_roundtrip(s: FppStatus)
    ensures
        status_byte(s) <= 4,
        forall|t: FppStatus| status_byte(t) == status_byte(s) ==> t == s,
{
}

/// Bytes that stay as they are in a path segment: letters, digits, `-_.~`.
pub open spec fn unreserved(b: u8) -> bool {
    (48 <= b <= 57) || (65 <= b <= 90) || (97 <= b <= 122) || b == 45 || b == 95 || b == 46 || b == 126
}


/// The percent-encoding of a path segment: unreserved bytes as they are,
/// every other byte as `%XX` in upper-case hex, so names with spaces or `/`
/// stay one segment.
pub open spec fn encode_segment(s: Seq<u8>) -> Seq<u8>
    decreases s.len(),
{
    if s.len() == 0 {
        Seq::empty()
    } else {
        let b = s[0];
        let head = if unreserved(b) { seq![b] } else { seq![37u8, hex_upper(b / 16), hex_upper(b % 16)] };
        head + encode_segment(s.drop_first())
    }
}

proof fn lemma_encode_segment_push(s: Seq<u8>, b: u8)
    ensures
        encode_segment(s.push(b)) == encode_segment(s) + (if unreserved(b) { seq![b] } else { seq![37u8, hex_upper(b / 16), hex_upper(b % 16)] }),
    decreases s.len(),
{
    let tail = if unreserved(b) { seq![b] } else { seq![37u8, hex_upper(b / 16), hex_upper(b % 16)] };
    if s.len() == 0 {
        let sb = s.push(b);
        assert(sb.drop_first() =~= Seq::<u8>::empty());
        assert(encode_segment(sb.drop_first()) =~= Seq::<u8>::empty());
        assert(sb[0] == b);
        assert(encode_segment(sb) =~= tail);
        assert(encode_segment(s) + tail =~= tail);
    } else {
        assert(s.push(b).drop_first() =~= s.drop_first().push(b));
        lemma_encode_segment_push(s.drop_first(), b);
        assert(s.push(b)[0] == s[0]);
        let head = if unreserved(s[0]) { seq![s[0]] } else { seq![37u8, hex_upper(s[0] / 16), hex_upper(s[0] % 16)] };
        assert(encode_segment(s.push(b)) =~= head + (encode_segment(s.drop_first()) + tail));
        assert(encode_segment(s) + tail =~= head + encode_segment(s.drop_first()) + tail);
    }
}


/// Appends the percent-encoding of `name` to `out`.
pub fn push_encoded(out: &mut Vec<u8>, name: &[u8])
    ensures
        final(out)@ == old(out)@ + encode_segment(name@),
{
    let mut i: usize = 0;
    proof {
        assert(name@.take(0) =~= Seq::<u8>::empty());
        assert(old(out)@ + encode_segment(Seq::<u8>::empty()) =~= old(out)@);
    }
    while i < name.len()
        invariant
            i <= name@.len(),
            out@ == old(out)@ + encode_segment(name@.take(i as int)),
        decreases name@.len() - i,
    {
        let b = name[i];
        let ghost before = out@;
        if (48 <= b && b <= 57) || (65 <= b && b <= 90) || (97 <= b && b <= 122) || b == 45 || b == 95 || b
            == 46 || b == 126 {
            out.push(b);
        } else {
            out.push(37);
            out.push(hex_digit_upper(b / 16));
            out.push(hex_digit_upper(b % 16));
        }
        proof {
            assert(name@.take(i as int + 1) =~= name@.take(i as int).push(b));
            lemma_encode_segment_push(name@.take(i as int), b);
        }
        i = i + 1;
    }
    proof {
        assert(name@.take(name@.len() as int) =~= name@);
    }
}

/// Appends the ASCII bytes of a literal piece of a path.
fn push_lit(out: &mut Vec<u8>, lit: &[u8])
    ensures
        final(out)@ == old(out)@ + lit@,
{
    let mut i: usize = 0;
    while i < lit.len()
        invariant
            i <= lit@.len(),
            out@ == old(out)@ + lit@.take(i as int),
        decreases lit@.len() - i,
    {
        out.push(lit[i]);
        proof {
            assert(lit@.take(i as int + 1) =~= lit@.take(i as int).push(lit@[i as int]));
        }
        i = i + 1;
    }
    proof {
        assert(lit@.take(lit@.len() as int) =~= lit@);
    }
}

/// `true` / `false` as text.
pub open spec fn bool_text(b: bool) -> Seq<u8> {
    if b { encode_utf8("true"@) } else { encode_utf8("false"@) }
}

/// The path, or `None` when it is longer than MAX_PATH_LEN bytes (the command is dropped).
pub open spec fn bounded(p: Seq<u8>) -> Option<Seq<u8>> {
    if p.len() <= MAX_PATH_LEN { Some(p) } else { None }
}

fn finish(path: Vec<u8>) -> (r: Option<Vec<u8>>)
    ensures
        r matches Some(p) ==> bounded(path@) == Some(p@),
        r is None ==> bounded(path@) is None,
{
    if path.len() <= MAX_PATH_LEN { Some(path) } else { None }
}

/// `/api/command/Start%20Playlist/<name>.fseq/<looping>/false`
pub open spec fn start_sequence_path(name: Seq<u8>, looping: bool) -> Seq<u8> {
    encode_utf8("/api/command/Start%20Playlist/"@) + encode_segment(name) + encode_utf8(".fseq/"@)
        + bool_text(looping) + encode_utf8("/false"@)
}

/// Path that plays sequence `name` as a one-item playlist, replacing whatever
/// is playing (see `start_sequence_path`); `None` when it is too long.
pub fn start_sequence(name: &str, looping: bool) -> (r: Option<Vec<u8>>)
    ensures
        r matches Some(p) ==> bounded(start_sequence_path(encode_utf8(name@), looping)) == Some(p@),
        r is None ==> bounded(start_sequence_path(encode_utf8(name@), looping)) is None,
{
    let mut path: Vec<u8> = Vec::new();
    push_lit(&mut path, "/api/command/Start%20Playlist/".as_bytes());
    push_encoded(&mut path, name.as_bytes());
    push_lit(&mut path, ".fseq/".as_bytes());
    if looping {
        push_lit(&mut path, "true".as_bytes());
    } else {
        push_lit(&mut path, "false".as_bytes());
    }
    push_lit(&mut path, "/false".as_bytes());
    proof {
        assert(path@ =~= start_sequence_path(encode_utf8(name@), looping));
    }
    finish(path)
}

/// `b` ends with `tail`.
pub open spec fn ends_with(b: Seq<u8>, tail: Seq<u8>) -> bool {
    tail.len() <= b.len() && b.subrange(b.len() - tail.len(), b.len() as int) == tail
}

proof fn lemma_ends_with_concat(a: Seq<u8>, t: Seq<u8>)
    ensures
        ends_with(a + t, t),
{
    assert((a + t).subrange(a.len() as int, (a + t).len() as int) =~= t);
}

/// A sequence is played once or looped as asked: its path ends in
/// `.fseq/true/false` when `looping` and in `.fseq/false/false` when not,
/// whatever the name.
pub proof fn law_start_sequence_loops_as_asked(name: Seq<u8>, looping: bool)
    ensures
        looping ==> ends_with(start_sequence_path(name, looping), encode_utf8(".fseq/true/false"@)),
        !looping ==> ends_with(start_sequence_path(name, looping), encode_utf8(".fseq/false/false"@)),
{
    reveal_strlit(".fseq/");
    reveal_strlit("true");
    reveal_strlit("false");
    reveal_strlit("/false");
    reveal_strlit(".fseq/true/false");
    reveal_strlit(".fseq/false/false");
    let flag = if looping { "true"@ } else { "false"@ };
    let tail = ".fseq/"@ + flag + "/false"@;
    crate::jsonc::lemma_encode_utf8_concat(".fseq/"@ + flag, "/false"@);
    crate::jsonc::lemma_encode_utf8_concat(".fseq/"@, flag);
    assert(bool_text(looping) == encode_utf8(flag));
    let head = encode_utf8("/api/command/Start%20Playlist/"@) + encode_segment(name);
    assert(start_sequence_path(name, looping) =~= head + encode_utf8(tail));
    lemma_ends_with_concat(head, encode_utf8(tail));
    if looping {
        assert(tail =~= ".fseq/true/false"@);
    } else {
        assert(tail =~= ".fseq/false/false"@);
    }
}

/// An effect is played once or looped as asked: its path ends in `/1/0`
/// when `looping` and in `/0/0` when not, whatever the name.
pub proof fn law_start_effect_loops_as_asked(name: Seq<u8>, looping: bool)
    ensures
        looping ==> ends_with(start_effect_path(name, looping), encode_utf8("/1/0"@)),
        !looping ==> ends_with(start_effect_path(name, looping), encode_utf8("/0/0"@)),
{
    reveal_strlit("/");
    reveal_strlit("1");
    reveal_strlit("0");
    reveal_strlit("/0");
    reveal_strlit("/1/0");
    reveal_strlit("/0/0");
    let flag = if looping { "1"@ } else { "0"@ };
    let tail = "/"@ + flag + "/0"@;
    crate::jsonc::lemma_encode_utf8_concat("/"@ + flag, "/0"@);
    crate::jsonc::lemma_encode_utf8_concat("/"@, flag);
    let head = encode_utf8("/api/command/FSEQ%20Effect%20Start/"@) + encode_segment(name);
    assert(start_effect_path(name, looping) =~= head + encode_utf8(tail));
    lemma_ends_with_concat(head, encode_utf8(tail));
    if looping {
        assert(tail =~= "/1/0"@);
    } else {
        assert(tail =~= "/0/0"@);
    }
}

/// A name stays one path segment: its encoding holds no `/`, `?`, `#` or
/// space, and a name made of unreserved bytes only is kept as it is.
pub proof fn law_segment_stays_one_segment(s: Seq<u8>)
    ensures
        forall|k: int| 0 <= k < encode_segment(s).len() ==> {
            let c = #[trigger] encode_segment(s)[k];
            c != 47 && c != 63 && c != 35 && c != 32
        },
        (forall|k: int| 0 <= k < s.len() ==> unreserved(#[trigger] s[k])) ==> encode_segment(s) == s,
    decreases s.len(),
{
    if s.len() > 0 {
        let rest = s.drop_first();
        law_segment_stays_one_segment(rest);
        let b = s[0];
        let head = if unreserved(b) { seq![b] } else { seq![37u8, hex_upper(b / 16), hex_upper(b % 16)] };
        assert(encode_segment(s) == head + encode_segment(rest));
        assert forall|k: int| 0 <= k < encode_segment(s).len() implies {
            let c = #[trigger] encode_segment(s)[k];
            c != 47 && c != 63 && c != 35 && c != 32
        } by {
            if k >= head.len() {
                assert(encode_segment(s)[k] == encode_segment(rest)[k - head.len()]);
            }
        }
        if forall|k: int| 0 <= k < s.len() ==> unreserved(#[trigger] s[k]) {
            assert(unreserved(s[0]));
            assert forall|k: int| 0 <= k < rest.len() implies unreserved(#[trigger] rest[k]) by {
                assert(rest[k] == s[k + 1]);
            }
            assert(seq![b] + rest =~= s);
        }
    }
}

/// `/api/playlists/stop`
pub open spec fn stop_sequence_path() -> Seq<u8> {
    encode_utf8("/api/playlists/stop"@)
}

/// Path that stops the playing sequence (running effects keep going).
pub fn stop_sequence() -> (r: Option<Vec<u8>>)
    ensures
        r matches Some(p) ==> bounded(stop_sequence_path()) == Some(p@),
        r is None ==> bounded(stop_sequence_path()) is None,
{
    let mut path: Vec<u8> = Vec::new();
    push_lit(&mut path, "/api/playlists/stop".as_bytes());
    proof {
        assert(path@ =~= stop_sequence_path());
    }
    finish(path)
}

/// `/api/command/FSEQ%20Effect%20Start/<name>/<1|0>/0`
pub open spec fn start_effect_path(name: Seq<u8>, looping: bool) -> Seq<u8> {
    encode_utf8("/api/command/FSEQ%20Effect%20Start/"@) + encode_segment(name) + encode_utf8("/"@) + (if looping {
        encode_utf8("1"@)
    } else {
        encode_utf8("0"@)
    }) + encode_utf8("/0"@)
}

/// Path that starts effect `name` on top of the playing sequence (see
/// `start_effect_path`); `None` when it is too long.
pub fn start_effect(name: &str, looping: bool) -> (r: Option<Vec<u8>>)
    ensures
        r matches Some(p) ==> bounded(start_effect_path(encode_utf8(name@), looping)) == Some(p@),
        r is None ==> bounded(start_effect_path(encode_utf8(name@), looping)) is None,
{
    let mut path: Vec<u8> = Vec::new();
    push_lit(&mut path, "/api/command/FSEQ%20Effect%20Start/".as_bytes());
    push_encoded(&mut path, name.as_bytes());
    push_lit(&mut path, "/".as_bytes());
    if looping {
        push_lit(&mut path, "1".as_bytes());
    } else {
        push_lit(&mut path, "0".as_bytes());
    }
    push_lit(&mut path, "/0".as_bytes());
    proof {
        assert(path@ =~= start_effect_path(encode_utf8(name@), looping));
    }
    finish(path)
}

/// `/api/command/Effect%20Stop/<name>`
pub open spec fn stop_effect_path(name: Seq<u8>) -> Seq<u8> {
    encode_utf8("/api/command/Effect%20Stop/"@) + encode_segment(name)
}

/// Path that stops effect `name`; `None` when it is too long.
pub fn stop_effect(name: &str) -> (r: Option<Vec<u8>>)
    ensures
        r matches Some(p) ==> bounded(stop_effect_path(encode_utf8(name@))) == Some(p@),
        r is None ==> bounded(stop_effect_path(encode_utf8(name@))) is None,
{
    let mut path: Vec<u8> = Vec::new();
    push_lit(&mut path, "/api/command/Effect%20Stop/".as_bytes());
    push_encoded(&mut path, name.as_bytes());
    finish(path)
}

/// `/api/command/Effects%20Stop`
pub open spec fn stop_all_effects_path() -> Seq<u8> {
    encode_utf8("/api/command/Effects%20Stop"@)
}

/// Path that stops every running effect.
pub fn stop_all_effects() -> (r: Option<Vec<u8>>)
    ensures
        r matches Some(p) ==> bounded(stop_all_effects_path()) == Some(p@),
        r is None ==> bounded(stop_all_effects_path()) is None,
{
    let mut path: Vec<u8> = Vec::new();
    push_lit(&mut path, "/api/command/Effects%20Stop".as_bytes());
    proof {
        assert(path@ =~= stop_all_effects_path());
    }
    finish(path)
}

/// Index of the first space at or after `from`, or the length when there is none.
pub open spec fn space_from(r: Seq<u8>, from: int) -> int
    decreases r.len() - from,
{
    if from < 0 || from >= r.len() {
        r.len() as int
    } else if r[from] == 32 {
        from
    } else {
        space_from(r, from + 1)
    }
}

proof fn lemma_space_from(r: Seq<u8>, from: int)
    requires
        0 <= from <= r.len(),
    ensures
        from <= space_from(r, from) <= r.len(),
        space_from(r, from) < r.len() ==> r[space_from(r, from)] == 32,
    decreases r.len() - from,
{
    if from < r.len() && r[from] != 32 {
        lemma_space_from(r, from + 1);
    }
}

pub open spec fn is_digit(b: u8) -> bool {
    48 <= b <= 57
}

/// What `str::parse::<u16>` makes of three ASCII bytes: an optional `+`
/// then decimal digits.
pub open spec fn parse3(a: u8, b: u8, c: u8) -> Option<u16> {
    if a == 43 && is_digit(b) && is_digit(c) {
        Some((10 * (b - 48) + (c - 48)) as u16)
    } else if is_digit(a) && is_digit(b) && is_digit(c) {
        Some((100 * (a - 48) + 10 * (b - 48) + (c - 48)) as u16)
    } else {
        None
    }
}

/// The status code in the start of an HTTP reply ("HTTP/1.1 200 OK"): the
/// reply must be valid UTF-8, its first space-separated word must start with
/// `HTTP/`, and the first three bytes of the second word are the code.
pub open spec fn status_code_spec(r: Seq<u8>) -> Option<u16> {
    if !valid_utf8(r) {
        None
    } else {
        let i = space_from(r, 0);
        if i >= r.len() || i < 5 || r.subrange(0, 5) != seq![72u8, 84, 84, 80, 47] {
            None
        } else {
            let j = space_from(r, i + 1);
            if j - (i + 1) < 3 {
                None
            } else {
                parse3(r[i + 1], r[i + 2], r[i + 3])
            }
        }
    }
}

fn find_space(r: &[u8], from: usize) -> (i: usize)
    requires
        from <= r@.len(),
    ensures
        i == space_from(r@, from as int),
{
    let mut i = from;
    while i < r.len()
        invariant
            from <= i <= r@.len(),
            space_from(r@, from as int) == space_from(r@, i as int),
        decreases r@.len() - i,
    {
        if r[i] == 32 {
            return i;
        }
        i = i + 1;
    }
    i
}

proof fn lemma_space_skip(r: Seq<u8>, from: int, to: int)
    requires
        0 <= from <= to <= r.len(),
        forall|k: int| from <= k < to ==> r[k] != 32,
    ensures
        space_from(r, from) == space_from(r, to),
    decreases to - from,
{
    if from < to {
        lemma_space_skip(r, from + 1, to);
    }
}

/// FPP's status line is read as it stands: a reply that starts with
/// `HTTP/<version> ` and three digits gives the number they spell, whatever
/// the version and whatever follows (for valid UTF-8 text).
pub proof fn law_status_code_read(version: Seq<u8>, a: u8, b: u8, c: u8, rest: Seq<u8>)
    requires
        forall|k: int| 0 <= k < version.len() ==> version[k] != 32,
        48 <= a <= 57,
        48 <= b <= 57,
        48 <= c <= 57,
        valid_utf8(seq![72u8, 84, 84, 80, 47] + version + seq![32u8, a, b, c] + rest),
    ensures
        status_code_spec(seq![72u8, 84, 84, 80, 47] + version + seq![32u8, a, b, c] + rest) == Some(
            (100 * (a - 48) + 10 * (b - 48) + (c - 48)) as u16,
        ),
{
    let r = seq![72u8, 84, 84, 80, 47] + version + seq![32u8, a, b, c] + rest;
    let i: int = 5 + version.len() as int;
    assert forall|k: int| 0 <= k < i implies r[k] != 32 by {
        if k >= 5 {
            assert(r[k] == version[k - 5]);
        }
    }
    assert(r[i] == 32);
    lemma_space_skip(r, 0, i);
    assert(space_from(r, 0) == i);
    assert(r.subrange(0, 5) =~= seq![72u8, 84, 84, 80, 47]);
    assert(r[i + 1] == a && r[i + 2] == b && r[i + 3] == c);
    lemma_space_skip(r, i + 1, i + 4);
    lemma_space_from(r, i + 4);
}

/// Reads the status code from the start of FPP's reply (see `status_code_spec`).
pub fn status_code(reply: &[u8]) -> (r: Option<u16>)
    ensures
        r == status_code_spec(reply@),
{
    if !utf8_valid(reply) {
        return None;
    }
    let i = find_space(reply, 0);
    proof {
        lemma_space_from(reply@, 0);
    }
    if i >= reply.len() || i < 5 {
        return None;
    }
    if !(reply[0] == 72 && reply[1] == 84 && reply[2] == 84 && reply[3] == 80 && reply[4] == 47) {
        proof {
            let h = reply@.subrange(0, 5);
            assert(h[0] == reply@[0] && h[1] == reply@[1] && h[2] == reply@[2] && h[3] == reply@[3] && h[4] == reply@[4]);
            assert(h != seq![72u8, 84, 84, 80, 47]);
        }
        return None;
    }
    proof {
        assert(reply@.subrange(0, 5) =~= seq![72u8, 84, 84, 80, 47]);
    }
    let j = find_space(reply, i + 1);
    proof {
        lemma_space_from(reply@, i as int + 1);
    }
    if j - (i + 1) < 3 {
        return None;
    }
    let (a, b, c) = (reply[i + 1], reply[i + 2], reply[i + 3]);
    if a == 43 && 48 <= b && b <= 57 && 48 <= c && c <= 57 {
        Some((10 * (b - 48) as u16 + (c - 48) as u16))
    } else if 48 <= a && a <= 57 && 48 <= b && b <= 57 && 48 <= c && c <= 57 {
        Some((100 * (a - 48) as u16 + 10 * (b - 48) as u16 + (c - 48) as u16))
    } else {
        None
    }
}

/// What became of one attempt to send a command.
#[derive(Clone, Copy, PartialEq, Eq, Debug, Structural)]
pub enum Delivery {
    /// FPP accepted it (2xx): on to the next command.
    Accepted,
    /// FPP answered with an error status: dropped, not retried.
    Rejected,
    /// FPP could not be reached: forget its address, wait, try again.
    Retry,
}

/// The status and the fate of a command after FPP's answer (`Ok(code)`)
/// or a failure to reach it (`Err`).
pub open spec fn reply_outcome_spec(result: Result<u16, ()>) -> (FppStatus, Delivery) {
    match result {
        Ok(code) => if 200 <= code < 300 {
            (FppStatus::Online, Delivery::Accepted)
        } else {
            (FppStatus::Rejected, Delivery::Rejected)
        },
        Err(_) => (FppStatus::NoConn, Delivery::Retry),
    }
}

/// Decides what an attempt's result means (see `reply_outcome_spec`).
pub fn reply_outcome(result: Result<u16, ()>) -> (r: (FppStatus, Delivery))
    ensures
        r == reply_outcome_spec(result),
{
    match result {
        Ok(code) => if 200 <= code && code < 300 {
            (FppStatus::Online, Delivery::Accepted)
        } else {
            (FppStatus::Rejected, Delivery::Rejected)
        },
        Err(_) => (FppStatus::NoConn, Delivery::Retry),
    }
}

/// The status after an address lookup for FPP found nothing: the command
/// waits RETRY_DELAY_MS and is tried again.
pub fn lookup_failed() -> (s: FppStatus)
    ensures
        s == FppStatus::NoHost,
{
    FppStatus::NoHost
}

/// A command is given up only when FPP answered it; one that could not be
/// delivered is always retried.
pub proof fn law_retry_until_answered(result: Result<u16, ()>)
    ensures
        reply_outcome_spec(result).1 == Delivery::Retry <==> result is Err,
        reply_outcome_spec(result).1 == Delivery::Accepted <==> (result matches Ok(c) && 200 <= c < 300),
{
}

/// The request path of a show action: `None` for what is no FPP request
/// (a wait, a delayed press) and for a path longer than MAX_PATH_LEN.
pub open spec fn command_path_spec(a: Action) -> Option<Seq<u8>> {
    match a {
        Action::StartSequence { clip, looping } => bounded(
            start_sequence_path(encode_utf8(clip_file(clip)), looping),
        ),
        Action::StartEffect { clip, looping } => bounded(
            start_effect_path(encode_utf8(clip_file(clip)), looping),
        ),
        Action::StopAllEffects => bounded(stop_all_effects_path()),
        _ => None,
    }
}

/// The request path of a show action (see `command_path_spec`).
pub fn command_path(action: Action) -> (r: Option<Vec<u8>>)
    ensures
        r matches Some(p) ==> command_path_spec(action) == Some(p@),
        r is None ==> command_path_spec(action) is None,
{
    match action {
        Action::StartSequence { clip, looping } => start_sequence(clip_name(clip), looping),
        Action::StartEffect { clip, looping } => start_effect(clip_name(clip), looping),
        Action::StopAllEffects => stop_all_effects(),
        _ => None,
    }
}

/// The outside work the sender asks for next.
#[derive(Clone, Copy, PartialEq, Eq, Debug)]
pub enum FppWork {
    /// Take the next command from the queue.
    Receive,
    /// Look FPP's address up.
    Lookup,
    /// Send the current command's GET to FPP at `ip`.
    Send { ip: [u8; 4] },
}

/// What taking a command from the queue leads to.
#[derive(Clone, Copy, PartialEq, Eq, Debug, Structural)]
pub enum Taken {
    /// Hold every later command back for `ms` milliseconds.
    Hold { ms: u64 },
    /// The command is now being delivered.
    Deliver,
    /// Nothing to send (no FPP request, or a path too long).
    Skip,
}

/// The sender between two steps: the command being delivered (the queue
/// is not read while there is one) and FPP's address while it is known.
pub struct FppSender {
    pub current: Option<Vec<u8>>,
    pub ip: Option<[u8; 4]>,
}

/// The command being delivered, as bytes.
pub open spec fn current_path(s: FppSender) -> Option<Seq<u8>> {
    match s.current {
        Some(v) => Some(v@),
        None => None,
    }
}

/// The next work: a new command only when none is being delivered, then
/// FPP's address when it is not known, then the GET itself.
pub open spec fn work_spec(current: Option<Seq<u8>>, ip: Option<[u8; 4]>) -> FppWork {
    match current {
        None => FppWork::Receive,
        Some(_) => match ip {
            None => FppWork::Lookup,
            Some(a) => FppWork::Send { ip: a },
        },
    }
}

/// What taking `a` from the queue leads to.
pub open spec fn taken_spec(a: Action) -> Taken {
    match a {
        Action::Wait { ms } => Taken::Hold { ms },
        _ => if command_path_spec(a) is Some { Taken::Deliver } else { Taken::Skip },
    }
}

/// The command and address after FPP's answer (`Ok(code)`) or a failure
/// to reach it (`Err`): an answered command is done, an undelivered one
/// stays, and FPP's address is looked up again before the next attempt.
pub open spec fn after_answer(
    current: Option<Seq<u8>>,
    ip: Option<[u8; 4]>,
    result: Result<u16, ()>,
) -> (Option<Seq<u8>>, Option<[u8; 4]>) {
    match result {
        Ok(_) => (None, ip),
        Err(_) => (current, None),
    }
}

impl FppSender {
    /// Nothing being delivered, FPP's address not known yet.
    pub fn new() -> (s: FppSender)
        ensures
            current_path(s) is None,
            s.ip is None,
    {
        FppSender { current: None, ip: None }
    }

    /// The next outside work (see `work_spec`).
    pub fn next_work(&self) -> (w: FppWork)
        ensures
            w == work_spec(current_path(*self), self.ip),
    {
        match &self.current {
            None => FppWork::Receive,
            Some(_) => match self.ip {
                None => FppWork::Lookup,
                Some(a) => FppWork::Send { ip: a },
            },
        }
    }

    /// Takes `action` from the queue: a wait holds the later commands back,
    /// an FPP command becomes the one being delivered, anything else is skipped.
    pub fn on_command(&mut self, action: Action) -> (t: Taken)
        requires
            old(self).current is None,
        ensures
            t == taken_spec(action),
            current_path(*final(self)) == command_path_spec(action),
            final(self).ip == old(self).ip,
    {
        match action {
            Action::Wait { ms } => Taken::Hold { ms },
            _ => {
                let path = command_path(action);
                match path {
                    Some(p) => {
                        self.current = Some(p);
                        Taken::Deliver
                    },
                    None => Taken::Skip,
                }
            },
        }
    }

    /// The result of looking FPP's address up: the address found is kept;
    /// when nothing was found the status is NoHost and the same command is
    /// tried again after RETRY_DELAY_MS.
    pub fn on_lookup(&mut self, found: Option<[u8; 4]>) -> (r: Option<FppStatus>)
        ensures
            final(self).ip == found,
            current_path(*final(self)) == current_path(*old(self)),
            r == (if found is None { Some(FppStatus::NoHost) } else { None }),
    {
        self.ip = found;
        match found {
            None => Some(lookup_failed()),
            Some(_) => None,
        }
    }

    /// The result of one attempt: the status, and what becomes of the
    /// command (see `reply_outcome_spec` and `after_answer`). After
    /// `Delivery::Retry` the caller waits RETRY_DELAY_MS.
    pub fn on_answer(&mut self, result: Result<u16, ()>) -> (r: (FppStatus, Delivery))
        ensures
            r == reply_outcome_spec(result),
            (current_path(*final(self)), final(self).ip) == after_answer(
                current_path(*old(self)),
                old(self).ip,
                result,
            ),
    {
        let r = reply_outcome(result);
        match result {
            Ok(_) => {
                self.current = None;
            },
            Err(_) => {
                self.ip = None;
            },
        }
        r
    }
}

/// Commands go out in order: while one has not been delivered the queue is
/// not read, a failed lookup or connection keeps it for the next attempt,
/// and only FPP's answer (accepted or rejected) lets the next one go.
pub proof fn law_undelivered_command_goes_first(
    path: Seq<u8>,
    ip: Option<[u8; 4]>,
    result: Result<u16, ()>,
)
    ensures
        work_spec(Some(path), ip) != FppWork::Receive,
        after_answer(Some(path), ip, result).0 == (if result is Err { Some(path) } else { None }),
        result is Err ==> work_spec(after_answer(Some(path), ip, result).0, after_answer(Some(path), ip, result).1)
            == FppWork::Lookup,
        result is Ok ==> work_spec(after_answer(Some(path), ip, result).0, after_answer(Some(path), ip, result).1)
            == FppWork::Receive,
{
}

/// Longest GET request sent to FPP.
pub const MAX_REQUEST_LEN: usize = 320;

/// One HTTP/1.0 GET of `path` from `host`.
pub open spec fn request_text(path: Seq<u8>, host: Seq<u8>) -> Seq<u8> {
    encode_utf8("GET "@) + path + encode_utf8(" HTTP/1.0\r\nHost: "@) + host
        + encode_utf8("\r\nConnection: close\r\n\r\n"@)
}

/// The request for `path`, or `None` when it is longer than MAX_REQUEST_LEN
/// bytes (the attempt then fails like an unreachable FPP).
pub fn request(path: &[u8], host: &[u8]) -> (r: Option<Vec<u8>>)
    ensures
        r matches Some(b) ==> b@ == request_text(path@, host@),
        r is None <==> request_text(path@, host@).len() > MAX_REQUEST_LEN,
{
    let mut out: Vec<u8> = Vec::new();
    push_bytes(&mut out, "GET ".as_bytes());
    push_bytes(&mut out, path);
    push_bytes(&mut out, " HTTP/1.0\r\nHost: ".as_bytes());
    push_bytes(&mut out, host);
    push_bytes(&mut out, "\r\nConnection: close\r\n\r\n".as_bytes());
    proof {
        assert(out@ =~= request_text(path@, host@));
    }
    if out.len() > MAX_REQUEST_LEN {
        None
    } else {
        Some(out)
    }
}

} // verus!
