//! The link to the show's control PC (Chataigne): status codes and the
//! `SWITCH_<n>:<0|1>` messages sent when a wired input changes.
use vstd::prelude::*;
use crate::text::{decimal, push_decimal, push_bytes};
use vstd::utf8::encode_utf8;

verus! {

/// Delay before reconnecting (ms).
pub const RETRY_DELAY_MS: u64 = 2000;
/// Connection attempt timeout (ms).
pub const CONNECT_TIMEOUT_MS: u64 = 5000;

/// How the link to the control PC is doing, for the display.
#[derive(Clone, Copy, PartialEq, Eq, Debug, Structural)]
pub enum ChataigneStatus {
    /// First lookup and connection attempt still in progress.
    Lookup,
    /// mDNS found nothing for the configured name.
    NoHost,
    /// Address known, but the TCP connect failed or timed out.
    NoConn,
    Connected,
    /// Was connected, then the connection dropped.
    Lost,
}

pub open spec fn chataigne_byte(s: ChataigneStatus) -> u8 {
    match s {
        ChataigneStatus::Lookup => 0,
        ChataigneStatus::NoHost => 1,
        ChataigneStatus::NoConn => 2,
        ChataigneStatus::Connected => 3,
        ChataigneStatus::Lost => 4,
    }
}

/// The byte a status is stored as.
pub fn set_status(status: ChataigneStatus) -> (b: u8)
    ensures
        b == chataigne_byte(status),
{
    match status {
        ChataigneStatus::Lookup => 0,
        ChataigneStatus::NoHost => 1,
        ChataigneStatus::NoConn => 2,
        ChataigneStatus::Connected => 3,
        ChataigneStatus::Lost => 4,
    }
}

/// The status a stored byte stands for; unknown bytes read as Lookup.
pub fn chataigne_status(stored: u8) -> (s: ChataigneStatus)
    ensures
        stored <= 4 ==> chataigne_byte(s) == stored,
        stored > 4 ==> s == ChataigneStatus::Lookup,
{
    if stored == 1 {
        ChataigneStatus::NoHost
    } else if stored == 2 {
        ChataigneStatus::NoConn
    } else if stored == 3 {
        ChataigneStatus::Connected
    } else if stored == 4 {
        ChataigneStatus::Lost
    } else {
        ChataigneStatus::Lookup
    }
}

/// A stored status reads back as itself.
pub proof fn law_status_roundtrip(s: ChataigneStatus)
    ensures
        chataigne_byte(s) <= 4,
        forall|t: ChataigneStatus| chataigne_byte(t) == chataigne_byte(s) ==> t == s,
{
}

/// Signed decimal text of `n`.
pub open spec fn signed_decimal(n: int) -> Seq<u8> {
    if n < 0 { seq![45u8] + decimal((-n) as nat) } else { decimal(n as nat) }
}

/// `SWITCH_<no>:<1|0>\n`
pub open spec fn switch_text(no: i32, on: bool) -> Seq<u8> {
    encode_utf8("SWITCH_"@) + signed_decimal(no as int) + seq![58u8, if on { 49u8 } else { 48u8 }, 10u8]
}

/// The message announcing that input `no` is now `on`.
pub fn switch_message(no: i32, on: bool) -> (m: Vec<u8>)
    ensures
        m@ == switch_text(no, on),
{
    let mut m: Vec<u8> = Vec::new();
    push_bytes(&mut m, "SWITCH_".as_bytes());
    if no < 0 {
        m.push(45);
        let a: i64 = -(no as i64);
        push_decimal(&mut m, a as u64);
    } else {
        push_decimal(&mut m, no as u64);
    }
    m.push(58);
    m.push(if on { 49 } else { 48 });
    m.push(10);
    proof {
        assert(m@ =~= switch_text(no, on));
    }
    m
}

/// Edge detection for input `no`: the message to send when its level
/// `current` differs from the last level sent, else nothing.
pub fn switch_update(no: i32, current: bool, last_sent: bool) -> (m: Option<Vec<u8>>)
    ensures
        current == last_sent ==> m is None,
        current != last_sent ==> (m matches Some(v) && v@ == switch_text(no, current)),
{
    if current != last_sent {
        Some(switch_message(no, current))
    } else {
        None
    }
}

/// The level to remember as last sent after an attempt: the new level when
/// nothing needed sending or the write went through, `Err` (reconnect) when
/// the write failed.
pub fn after_send(current: bool, last_sent: bool, write_ok: bool) -> (r: Result<bool, ()>)
    ensures
        current == last_sent ==> r == Ok::<bool, ()>(last_sent),
        current != last_sent && write_ok ==> r == Ok::<bool, ()>(current),
        current != last_sent && !write_ok ==> r is Err,
{
    if current != last_sent {
        if write_ok { Ok(current) } else { Err(()) }
    } else {
        Ok(last_sent)
    }
}

/// Whether an address is link-local (169.254.0.0/16), the only addresses
/// reachable without a gateway.
pub fn is_link_local(ip: [u8; 4]) -> (r: bool)
    ensures
        r == (ip@[0] == 169 && ip@[1] == 254),
{
    ip[0] == 169 && ip[1] == 254
}

/// What happened to the link to Chataigne.
#[derive(Clone, Copy, PartialEq, Eq, Debug, Structural)]
pub enum LinkEvent {
    /// The host name found no address.
    NotFound,
    /// The address is known but connecting failed or timed out.
    ConnectFailed,
    /// Connected.
    Connected,
    /// The connection was up and is gone (closed, reset, link down or a
    /// failed write); reconnecting after RETRY_DELAY_MS.
    Dropped,
}

/// The status the link shows after `ev`.
pub fn status_after(ev: LinkEvent) -> (s: ChataigneStatus)
    ensures
        s == match ev {
            LinkEvent::NotFound => ChataigneStatus::NoHost,
            LinkEvent::ConnectFailed => ChataigneStatus::NoConn,
            LinkEvent::Connected => ChataigneStatus::Connected,
            LinkEvent::Dropped => ChataigneStatus::Lost,
        },
{
    match ev {
        LinkEvent::NotFound => ChataigneStatus::NoHost,
        LinkEvent::ConnectFailed => ChataigneStatus::NoConn,
        LinkEvent::Connected => ChataigneStatus::Connected,
        LinkEvent::Dropped => ChataigneStatus::Lost,
    }
}

/// The message for inputs 1 to 6 (the wired inputs) is `SWITCH_`, the
/// input's digit, `:`, then `1` when on and `0` when off, and a newline.
pub proof fn law_switch_message_text(no: i32, on: bool)
    requires
        1 <= no <= 6,
    ensures
        switch_text(no, on) == encode_utf8("SWITCH_"@) + seq![(48 + no) as u8, 58u8, if on { 49u8 } else { 48u8 }, 10u8],
{
    assert(signed_decimal(no as int) == seq![(48 + no) as u8]);
    assert(switch_text(no, on) =~= encode_utf8("SWITCH_"@) + seq![(48 + no) as u8, 58u8, if on { 49u8 } else { 48u8 }, 10u8]);
}

} // verus!
