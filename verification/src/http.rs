//! The status page on port 80: which request gets which reply, and the bytes
//! of each reply. One request per connection, HTTP/1.0 with
//! `Connection: close`, nothing read beyond the request line.
//!
//!   GET /        static page; a few lines of JS poll /status once a second
//!   GET /status  live values as JSON
use vstd::prelude::*;
use vstd::utf8::encode_utf8;
use crate::config::InputProtocol;
use crate::discovery::{Peer, PeerView, peer_view};
use crate::eth::NetIdentity;
use crate::fpp::{FppStatus, bool_text};
use crate::logic::State;
use crate::text::{decimal, push_decimal, push_bytes, hex_lower, hex_digit_lower};

verus! {

/// Also the port advertised over mDNS.
pub const HTTP_PORT: u16 = 80;
/// A whole reply (headers and body) must fit in this many bytes.
pub const RESPONSE_CAP: usize = 2048;
/// Peers stop being listed in /status once less room than this is left, so a
/// pile of long or escape-heavy names shortens the list instead of losing the
/// reply.
pub const PEER_ROOM: usize = 256;
/// Bytes of the request read; only the request line matters.
pub const REQUEST_CAP: usize = 128;
/// Buttons reported by /status.
pub const STATUS_BUTTONS: usize = 6;

/// Polls /status once a second and fills the page in; peer names only ever
/// go in as text, never as HTML.
pub const PAGE_SCRIPT: &'static str = "<script>
let last=Date.now();
function A(ip,text){let a=document.createElement('a');a.href='http://'+ip+'/';a.textContent=text;return a}
function off(){let d=Date.now()-last,o=d>2000;
m.style.opacity=o?.35:1;e.textContent=o?'OFFLINE - no response for '+Math.floor(d/1000)+'s':''}
async function t(){let ctl=new AbortController(),to=setTimeout(()=>ctl.abort(),1500);try{
let s=await(await fetch('/status',{cache:'no-store',signal:ctl.signal})).json();
u.textContent=s.up;i.textContent=s.input;g.textContent=s.state;c.textContent=s.fppcmd;
b.textContent=s.buttons.map((x,n)=>(n+1)+(x?'●':'○')).join('  ');
if(s.fpp)f.replaceChildren(A(s.fpp,'online ('+s.fpp+')'));else f.textContent='offline';
l.replaceChildren(...s.peers.map(q=>{let li=document.createElement('li');li.append(q.n+' - ');
li.append(q.ip?A(q.ip,q.h+' ('+q.ip+')'):q.h);return li}));
if(!s.peers.length)l.textContent='none found';
last=Date.now()
}catch(_){}
clearTimeout(to);off();setTimeout(t,1000)}
setInterval(off,500);t()
</script>";

/// Which reply a request gets.
#[derive(Clone, Copy, PartialEq, Eq, Debug, Structural)]
pub enum Route {
    Page,
    Status,
    NotFound,
}

pub open spec fn starts_with(s: Seq<u8>, prefix: Seq<u8>) -> bool {
    s.len() >= prefix.len() && s.take(prefix.len() as int) == prefix
}

pub open spec fn route_spec(request: Seq<u8>) -> Route {
    if starts_with(request, encode_utf8("GET / "@)) {
        Route::Page
    } else if starts_with(request, encode_utf8("GET /status "@)) {
        Route::Status
    } else {
        Route::NotFound
    }
}

fn has_prefix(s: &[u8], prefix: &[u8]) -> (r: bool)
    ensures
        r == starts_with(s@, prefix@),
{
    if s.len() < prefix.len() {
        return false;
    }
    let mut i: usize = 0;
    while i < prefix.len()
        invariant
            i <= prefix@.len(),
            prefix@.len() <= s@.len(),
            forall|j: int| 0 <= j < i ==> s@[j] == prefix@[j],
        decreases prefix@.len() - i,
    {
        if s[i] != prefix[i] {
            proof {
                assert(s@.take(prefix@.len() as int)[i as int] != prefix@[i as int]);
            }
            return false;
        }
        i = i + 1;
    }
    proof {
        assert(s@.take(prefix@.len() as int) =~= prefix@);
    }
    true
}

/// The reply a request line asks for.
pub fn route(request: &[u8]) -> (r: Route)
    ensures
        r == route_spec(request@),
{
    if has_prefix(request, "GET / ".as_bytes()) {
        Route::Page
    } else if has_prefix(request, "GET /status ".as_bytes()) {
        Route::Status
    } else {
        Route::NotFound
    }
}

/// `bytes` as the reply, when it fits in RESPONSE_CAP.
pub open spec fn capped(bytes: Seq<u8>) -> Option<Seq<u8>> {
    if bytes.len() <= RESPONSE_CAP { Some(bytes) } else { None }
}

pub open spec fn vec_view(o: Option<Vec<u8>>) -> Option<Seq<u8>> {
    match o {
        Some(v) => Some(v@),
        None => None,
    }
}

fn finish(out: Vec<u8>) -> (r: Option<Vec<u8>>)
    ensures
        vec_view(r) == capped(out@),
{
    if out.len() <= RESPONSE_CAP { Some(out) } else { None }
}

pub open spec fn not_found_reply() -> Seq<u8> {
    encode_utf8("HTTP/1.0 404 Not Found\r\nConnection: close\r\nContent-Length: 0\r\n\r\n"@)
}

/// What any other path gets, so favicon.ico and friends do not get the page.
pub fn not_found() -> (r: Vec<u8>)
    ensures
        r@ == not_found_reply(),
{
    let mut out: Vec<u8> = Vec::new();
    push_bytes(&mut out, "HTTP/1.0 404 Not Found\r\nConnection: close\r\nContent-Length: 0\r\n\r\n".as_bytes());
    proof {
        assert(Seq::<u8>::empty() + not_found_reply() =~= not_found_reply());
    }
    out
}

/// An IPv4 address in dotted decimal.
pub open spec fn ip_text(ip: [u8; 4]) -> Seq<u8> {
    decimal(ip[0] as nat) + seq![46u8] + decimal(ip[1] as nat) + seq![46u8] + decimal(ip[2] as nat)
        + seq![46u8] + decimal(ip[3] as nat)
}

fn push_ip(out: &mut Vec<u8>, ip: [u8; 4])
    ensures
        final(out)@ == old(out)@ + ip_text(ip),
{
    push_decimal(out, ip[0] as u64);
    out.push(46u8);
    push_decimal(out, ip[1] as u64);
    out.push(46u8);
    push_decimal(out, ip[2] as u64);
    out.push(46u8);
    push_decimal(out, ip[3] as u64);
    proof {
        assert(final(out)@ =~= old(out)@ + ip_text(ip));
    }
}

pub open spec fn page_head() -> Seq<u8> {
    encode_utf8("HTTP/1.0 200 OK\r\nContent-Type: text/html; charset=utf-8\r\nConnection: close\r\n\r\n"@)
}

/// The page: the board's names and address, placeholders the script fills
/// in, and the script.
pub open spec fn page_bytes(instance: Seq<u8>, host: Seq<u8>, ip: [u8; 4]) -> Seq<u8> {
    page_head()
        + encode_utf8("<!doctype html><meta name=viewport content=\"width=device-width,initial-scale=1\"><title>"@)
        + instance
        + encode_utf8("</title><body style=\"font-family:sans-serif;margin:2em\"><p id=e style=\"color:#b00;font-weight:bold\"></p><div id=m><h1>"@)
        + instance
        + encode_utf8("</h1><p>"@)
        + host
        + encode_utf8(".local &middot; "@)
        + ip_text(ip)
        + encode_utf8("</p><p>Uptime: <span id=u></span>s</p><p>Input: <span id=i></span></p><p>Show state: <span id=g></span></p><p>FPP commands: <span id=c></span></p><p>Buttons: <span id=b style=\"white-space:pre\"></span></p><p>FPP ("@)
        + encode_utf8("fpp.local"@)
        + encode_utf8("): <span id=f></span></p><h3>Other controllers</h3><ul id=l></ul></div>"@)
        + encode_utf8(PAGE_SCRIPT@)
}

/// The reply to `GET /`, or `None` when it does not fit in RESPONSE_CAP.
pub fn write_page(ident: &NetIdentity) -> (r: Option<Vec<u8>>)
    ensures
        vec_view(r) == capped(page_bytes(ident.instance@, ident.hostname@, ident.ip)),
{
    let mut out: Vec<u8> = Vec::new();
    push_bytes(&mut out, "HTTP/1.0 200 OK\r\nContent-Type: text/html; charset=utf-8\r\nConnection: close\r\n\r\n".as_bytes());
    push_bytes(&mut out, "<!doctype html><meta name=viewport content=\"width=device-width,initial-scale=1\"><title>".as_bytes());
    push_bytes(&mut out, ident.instance.as_slice());
    push_bytes(&mut out, "</title><body style=\"font-family:sans-serif;margin:2em\"><p id=e style=\"color:#b00;font-weight:bold\"></p><div id=m><h1>".as_bytes());
    push_bytes(&mut out, ident.instance.as_slice());
    push_bytes(&mut out, "</h1><p>".as_bytes());
    push_bytes(&mut out, ident.hostname.as_slice());
    push_bytes(&mut out, ".local &middot; ".as_bytes());
    push_ip(&mut out, ident.ip);
    push_bytes(&mut out, "</p><p>Uptime: <span id=u></span>s</p><p>Input: <span id=i></span></p><p>Show state: <span id=g></span></p><p>FPP commands: <span id=c></span></p><p>Buttons: <span id=b style=\"white-space:pre\"></span></p><p>FPP (".as_bytes());
    push_bytes(&mut out, "fpp.local".as_bytes());
    push_bytes(&mut out, "): <span id=f></span></p><h3>Other controllers</h3><ul id=l></ul></div>".as_bytes());
    push_bytes(&mut out, PAGE_SCRIPT.as_bytes());
    proof {
        assert(out@ =~= page_bytes(ident.instance@, ident.hostname@, ident.ip));
    }
    finish(out)
}

/// One byte of a JSON string body: quote, backslash and control characters
/// escaped. Bytes of multi-byte UTF-8 characters are all >= 0x80 and go
/// through as they are, so escaping byte by byte escapes character by
/// character.
pub open spec fn escape_byte(b: u8) -> Seq<u8> {
    if b == 0x22u8 {
        seq![0x5cu8, 0x22u8]
    } else if b == 0x5cu8 {
        seq![0x5cu8, 0x5cu8]
    } else if b < 0x20u8 {
        seq![0x5cu8, 0x75u8, 0x30u8, 0x30u8, hex_lower(b / 16), hex_lower(b % 16)]
    } else {
        seq![b]
    }
}

pub open spec fn escape(s: Seq<u8>) -> Seq<u8>
    decreases s.len(),
{
    if s.len() == 0 {
        Seq::empty()
    } else {
        escape(s.drop_last()) + escape_byte(s.last())
    }
}

/// `s` as a JSON string.
pub open spec fn json_str(s: Seq<u8>) -> Seq<u8> {
    seq![0x22u8] + escape(s) + seq![0x22u8]
}

/// Writes `s` as a JSON string. Peer names are untrusted network data, so
/// quotes, backslashes and control characters are escaped.
pub fn write_json_str(out: &mut Vec<u8>, s: &[u8])
    ensures
        final(out)@ == old(out)@ + json_str(s@),
{
    out.push(0x22u8);
    let mut i: usize = 0;
    while i < s.len()
        invariant
            i <= s@.len(),
            out@ == old(out)@ + seq![0x22u8] + escape(s@.take(i as int)),
        decreases s@.len() - i,
    {
        let b = s[i];
        let ghost before = out@;
        if b == 0x22u8 {
            out.push(0x5cu8);
            out.push(0x22u8);
        } else if b == 0x5cu8 {
            out.push(0x5cu8);
            out.push(0x5cu8);
        } else if b < 0x20u8 {
            out.push(0x5cu8);
            out.push(0x75u8);
            out.push(0x30u8);
            out.push(0x30u8);
            out.push(hex_digit_lower(b / 16));
            out.push(hex_digit_lower(b % 16));
        } else {
            out.push(b);
        }
        proof {
            assert(out@ =~= before + escape_byte(b));
            assert(s@.take(i as int + 1).drop_last() =~= s@.take(i as int));
            assert(s@.take(i as int + 1).last() == b);
        }
        i = i + 1;
    }
    proof {
        assert(s@.take(s@.len() as int) =~= s@);
    }
    out.push(0x22u8);
    proof {
        assert(final(out)@ =~= old(out)@ + json_str(s@));
    }
}

/// What /status reports.
pub struct StatusInfo {
    /// Seconds since boot.
    pub up_secs: u64,
    /// The configured input, once the configuration is loaded.
    pub source: Option<InputProtocol>,
    /// Whether network input has arrived recently.
    pub input_active: bool,
    pub fpp: FppStatus,
    /// The show state, once the show logic runs.
    pub state: Option<State>,
    /// Buttons 1 to 6, active or not.
    pub buttons: [bool; 6],
    /// FPP's address, if it answers.
    pub fpp_ip: Option<[u8; 4]>,
    /// Controllers heard from recently.
    pub peers: Vec<Peer>,
}

pub open spec fn input_text(source: Option<InputProtocol>) -> Seq<u8> {
    match source {
        Some(InputProtocol::Dmx) => encode_utf8("DMX"@),
        Some(InputProtocol::Artnet) => encode_utf8("Art-Net"@),
        Some(InputProtocol::Sd) => encode_utf8("SD card"@),
        None => encode_utf8("unknown"@),
    }
}

pub open spec fn data_text(source: Option<InputProtocol>, active: bool) -> Seq<u8> {
    match source {
        Some(InputProtocol::Artnet) => if active {
            encode_utf8(", receiving data"@)
        } else {
            encode_utf8(", no data"@)
        },
        _ => Seq::empty(),
    }
}

pub open spec fn fpp_text(s: FppStatus) -> Seq<u8> {
    match s {
        FppStatus::Idle => encode_utf8("none sent yet"@),
        FppStatus::NoHost => encode_utf8("host not found, retrying"@),
        FppStatus::NoConn => encode_utf8("cannot connect, retrying"@),
        FppStatus::Online => encode_utf8("ok"@),
        FppStatus::Rejected => encode_utf8("last command rejected"@),
    }
}

pub open spec fn state_text(s: Option<State>) -> Seq<u8> {
    match s {
        Some(State::Idle) => encode_utf8("Idle"@),
        Some(State::Running) => encode_utf8("Running"@),
        Some(State::Overload) => encode_utf8("Overload"@),
        None => encode_utf8("starting"@),
    }
}

pub open spec fn buttons_text(b: [bool; 6]) -> Seq<u8> {
    bool_text(b[0]) + seq![44u8] + bool_text(b[1]) + seq![44u8] + bool_text(b[2]) + seq![44u8]
        + bool_text(b[3]) + seq![44u8] + bool_text(b[4]) + seq![44u8] + bool_text(b[5])
}

pub open spec fn fpp_ip_text(ip: Option<[u8; 4]>) -> Seq<u8> {
    match ip {
        Some(a) => seq![0x22u8] + ip_text(a) + seq![0x22u8],
        None => encode_utf8("null"@),
    }
}

/// The headers of /status, the uptime and the input.
pub open spec fn status_head(info: StatusInfo) -> Seq<u8> {
    encode_utf8("HTTP/1.0 200 OK\r\nContent-Type: application/json\r\nCache-Control: no-store\r\nConnection: close\r\n\r\n"@)
        + encode_utf8("{\"up\":"@)
        + decimal(info.up_secs as nat)
        + encode_utf8(",\"input\":\""@)
        + input_text(info.source)
        + data_text(info.source, info.input_active)
}

/// The headers of /status and its first fields, up to the buttons.
pub open spec fn status_top(info: StatusInfo) -> Seq<u8> {
    status_head(info)
        + encode_utf8("\",\"fppcmd\":\""@)
        + fpp_text(info.fpp)
        + encode_utf8("\",\"state\":\""@)
        + state_text(info.state)
}

/// Everything of /status before the peers.
#[verifier::opaque]
pub open spec fn status_prefix(info: StatusInfo) -> Seq<u8> {
    status_top(info)
        + encode_utf8("\",\"buttons\":["@)
        + buttons_text(info.buttons)
        + encode_utf8("],\"fpp\":"@)
        + fpp_ip_text(info.fpp_ip)
        + encode_utf8(",\"peers\":["@)
}

/// One peer of the list: `{"n":..,"h":..,"ip":..}`, after a comma unless first.
pub open spec fn peer_entry(p: PeerView, first: bool) -> Seq<u8> {
    (if first { Seq::empty() } else { seq![44u8] })
        + encode_utf8("{\"n\":"@)
        + json_str(p.instance)
        + encode_utf8(",\"h\":"@)
        + json_str(p.host)
        + match p.ip {
            Some(a) => encode_utf8(",\"ip\":\""@) + ip_text(a) + encode_utf8("\"}"@),
            None => encode_utf8(",\"ip\":null}"@),
        }
}

/// The peers from the `i`-th on, when `len` bytes are written already: the
/// list stops once less than PEER_ROOM of RESPONSE_CAP is left.
pub open spec fn peer_list(len: nat, ps: Seq<PeerView>, i: nat) -> Seq<u8>
    decreases ps.len() - i,
{
    if i >= ps.len() || RESPONSE_CAP < len + PEER_ROOM {
        Seq::empty()
    } else {
        let e = peer_entry(ps[i as int], i == 0);
        e + peer_list(len + e.len(), ps, i + 1)
    }
}

/// The whole /status reply.
pub open spec fn status_bytes(info: StatusInfo) -> Seq<u8> {
    let p = status_prefix(info);
    p + peer_list(p.len(), info.peers@.map_values(|q: Peer| peer_view(q)), 0) + seq![0x5du8, 0x7du8]
}

fn push_ip_json(out: &mut Vec<u8>, ip: Option<[u8; 4]>)
    ensures
        final(out)@ == old(out)@ + fpp_ip_text(ip),
{
    match ip {
        Some(a) => {
            out.push(0x22u8);
            push_ip(out, a);
            out.push(0x22u8);
            proof {
                assert(final(out)@ =~= old(out)@ + fpp_ip_text(ip));
            }
        },
        None => push_bytes(out, "null".as_bytes()),
    }
}

fn push_peer(out: &mut Vec<u8>, p: &Peer, first: bool)
    ensures
        final(out)@ == old(out)@ + peer_entry(peer_view(*p), first),
{
    if !first {
        out.push(44u8);
    }
    push_bytes(out, "{\"n\":".as_bytes());
    write_json_str(out, p.instance_name());
    push_bytes(out, ",\"h\":".as_bytes());
    write_json_str(out, p.host_name());
    match p.address() {
        Some(a) => {
            push_bytes(out, ",\"ip\":\"".as_bytes());
            push_ip(out, a);
            push_bytes(out, "\"}".as_bytes());
        },
        None => push_bytes(out, ",\"ip\":null}".as_bytes()),
    }
    proof {
        assert(final(out)@ =~= old(out)@ + peer_entry(peer_view(*p), first));
    }
}

fn push_input(out: &mut Vec<u8>, source: Option<InputProtocol>, active: bool)
    ensures
        final(out)@ == old(out)@ + input_text(source) + data_text(source, active),
{
    match source {
        Some(InputProtocol::Dmx) => push_bytes(out, "DMX".as_bytes()),
        Some(InputProtocol::Artnet) => push_bytes(out, "Art-Net".as_bytes()),
        Some(InputProtocol::Sd) => push_bytes(out, "SD card".as_bytes()),
        None => push_bytes(out, "unknown".as_bytes()),
    }
    let ghost mid = out@;
    match source {
        Some(InputProtocol::Artnet) => if active {
            push_bytes(out, ", receiving data".as_bytes())
        } else {
            push_bytes(out, ", no data".as_bytes())
        },
        _ => {
            proof {
                assert(mid + data_text(source, active) =~= mid);
            }
        },
    }
    proof {
        assert(final(out)@ =~= old(out)@ + input_text(source) + data_text(source, active));
    }
}

fn push_fpp(out: &mut Vec<u8>, s: FppStatus)
    ensures
        final(out)@ == old(out)@ + fpp_text(s),
{
    match s {
        FppStatus::Idle => push_bytes(out, "none sent yet".as_bytes()),
        FppStatus::NoHost => push_bytes(out, "host not found, retrying".as_bytes()),
        FppStatus::NoConn => push_bytes(out, "cannot connect, retrying".as_bytes()),
        FppStatus::Online => push_bytes(out, "ok".as_bytes()),
        FppStatus::Rejected => push_bytes(out, "last command rejected".as_bytes()),
    }
}

fn push_state(out: &mut Vec<u8>, s: Option<State>)
    ensures
        final(out)@ == old(out)@ + state_text(s),
{
    match s {
        Some(State::Idle) => push_bytes(out, "Idle".as_bytes()),
        Some(State::Running) => push_bytes(out, "Running".as_bytes()),
        Some(State::Overload) => push_bytes(out, "Overload".as_bytes()),
        None => push_bytes(out, "starting".as_bytes()),
    }
}

fn push_head(out: &mut Vec<u8>, info: &StatusInfo)
    ensures
        final(out)@ == old(out)@ + status_head(*info),
{
    push_bytes(out, "HTTP/1.0 200 OK\r\nContent-Type: application/json\r\nCache-Control: no-store\r\nConnection: close\r\n\r\n".as_bytes());
    push_bytes(out, "{\"up\":".as_bytes());
    push_decimal(out, info.up_secs);
    push_bytes(out, ",\"input\":\"".as_bytes());
    push_input(out, info.source, info.input_active);
    proof {
        assert(final(out)@ =~= old(out)@ + status_head(*info));
    }
}

fn push_top(out: &mut Vec<u8>, info: &StatusInfo)
    ensures
        final(out)@ == old(out)@ + status_top(*info),
{
    push_head(out, info);
    push_bytes(out, "\",\"fppcmd\":\"".as_bytes());
    push_fpp(out, info.fpp);
    push_bytes(out, "\",\"state\":\"".as_bytes());
    push_state(out, info.state);
    proof {
        assert(final(out)@ =~= old(out)@ + status_top(*info));
    }
}

fn push_buttons(out: &mut Vec<u8>, buttons: [bool; 6])
    ensures
        final(out)@ == old(out)@ + buttons_text(buttons),
{
    let ghost before = out@;
    let mut n: usize = 0;
    while n < STATUS_BUTTONS
        invariant
            n <= STATUS_BUTTONS,
            out@ == before + if n == 0 {
                Seq::<u8>::empty()
            } else {
                buttons_prefix(buttons, n as nat)
            },
        decreases STATUS_BUTTONS - n,
    {
        if n > 0 {
            out.push(44u8);
        }
        if buttons[n] {
            push_bytes(out, "true".as_bytes());
        } else {
            push_bytes(out, "false".as_bytes());
        }
        proof {
            if n > 0 {
                assert(buttons_prefix(buttons, n as nat + 1) =~= buttons_prefix(buttons, n as nat) + seq![44u8] + bool_text(buttons[n as int]));
            } else {
                assert(buttons_prefix(buttons, 1) =~= bool_text(buttons[0]));
            }
            assert(out@ =~= before + buttons_prefix(buttons, n as nat + 1));
        }
        n = n + 1;
    }
    proof {
        reveal_with_fuel(buttons_prefix, 6);
        assert(buttons_prefix(buttons, 6) =~= buttons_text(buttons));
    }
}

fn push_prefix(out: &mut Vec<u8>, info: &StatusInfo)
    ensures
        final(out)@ == old(out)@ + status_prefix(*info),
{
    push_top(out, info);
    push_bytes(out, "\",\"buttons\":[".as_bytes());
    push_buttons(out, info.buttons);
    push_bytes(out, "],\"fpp\":".as_bytes());
    push_ip_json(out, info.fpp_ip);
    push_bytes(out, ",\"peers\":[".as_bytes());
    proof {
        reveal(status_prefix);
        assert(final(out)@ =~= old(out)@ + status_prefix(*info));
    }
}

/// The first `n` buttons, comma-separated.
pub open spec fn buttons_prefix(b: [bool; 6], n: nat) -> Seq<u8>
    decreases n,
{
    if n <= 1 {
        bool_text(b[0])
    } else {
        buttons_prefix(b, (n - 1) as nat) + seq![44u8] + bool_text(b[n - 1])
    }
}

/// The reply to `GET /status`, or `None` when it does not fit in
/// RESPONSE_CAP.
pub fn write_status(info: &StatusInfo) -> (r: Option<Vec<u8>>)
    ensures
        vec_view(r) == capped(status_bytes(*info)),
{
    let mut out: Vec<u8> = Vec::new();
    push_prefix(&mut out, info);
    let ghost p = out@;
    proof {
        assert(p =~= status_prefix(*info));
    }
    let ghost ps = info.peers@.map_values(|q: Peer| peer_view(q));
    let mut i: usize = 0;
    while i < info.peers.len()
        invariant_except_break
            ps == info.peers@.map_values(|q: Peer| peer_view(q)),
            i <= ps.len(),
            p.len() <= out@.len(),
            out@.subrange(0, p.len() as int) == p,
            peer_list(p.len(), ps, 0) == out@.subrange(p.len() as int, out@.len() as int) + peer_list(out@.len(), ps, i as nat),
        ensures
            peer_list(p.len(), ps, 0) == out@.subrange(p.len() as int, out@.len() as int),
            out@.subrange(0, p.len() as int) == p,
            p.len() <= out@.len(),
        decreases ps.len() - i,
    {
        if out.len() > RESPONSE_CAP - PEER_ROOM {
            break;
        }
        let ghost before = out@;
        push_peer(&mut out, &info.peers[i], i == 0);
        proof {
            let e = peer_entry(ps[i as int], i == 0);
            assert(out@ =~= before + e);
            assert(out@.subrange(0, p.len() as int) =~= before.subrange(0, p.len() as int));
            assert(out@.subrange(p.len() as int, out@.len() as int) =~= before.subrange(p.len() as int, before.len() as int) + e);
        }
        i = i + 1;
    }
    let ghost mid = out@;
    out.push(0x5du8);
    out.push(0x7du8);
    proof {
        assert(mid =~= mid.subrange(0, p.len() as int) + mid.subrange(p.len() as int, mid.len() as int));
        assert(out@ =~= status_bytes(*info));
    }
    finish(out)
}

/// The reply to a request: the page, the status, or 404. `None` when the
/// reply does not fit in RESPONSE_CAP (nothing is sent then).
pub fn respond(request: &[u8], ident: &NetIdentity, info: &StatusInfo) -> (r: Option<Vec<u8>>)
    ensures
        vec_view(r) == match route_spec(request@) {
            Route::Page => capped(page_bytes(ident.instance@, ident.hostname@, ident.ip)),
            Route::Status => capped(status_bytes(*info)),
            Route::NotFound => Some(not_found_reply()),
        },
{
    match route(request) {
        Route::Page => write_page(ident),
        Route::Status => write_status(info),
        Route::NotFound => Some(not_found()),
    }
}

/// Whatever a peer calls itself, its escaped name holds no control byte,
/// and every quote in it is escaped: it cannot end the JSON string early or
/// break the reply.
pub proof fn law_escape_is_safe(s: Seq<u8>)
    ensures
        forall|i: int| 0 <= i < escape(s).len() ==> #[trigger] escape(s)[i] >= 0x20u8,
        forall|i: int| 0 <= i < escape(s).len() && #[trigger] escape(s)[i] == 0x22u8 ==> i > 0 && escape(s)[i - 1] == 0x5cu8,
    decreases s.len(),
{
    if s.len() > 0 {
        law_escape_is_safe(s.drop_last());
        let b = s.last();
        let pre = escape(s.drop_last());
        assert(escape(s) == pre + escape_byte(b));
        assert forall|i: int| 0 <= i < escape(s).len() implies #[trigger] escape(s)[i] >= 0x20u8 by {
            if i >= pre.len() {
                assert(escape(s)[i] == escape_byte(b)[i - pre.len()]);
                if b < 0x20u8 {
                    assert(b / 16 < 2);
                    assert(hex_lower(b / 16) >= 0x30u8);
                    assert(hex_lower(b % 16) >= 0x30u8);
                }
            }
        }
        assert forall|i: int| 0 <= i < escape(s).len() && #[trigger] escape(s)[i] == 0x22u8 implies i > 0 && escape(s)[i - 1] == 0x5cu8 by {
            if i >= pre.len() {
                assert(escape(s)[i] == escape_byte(b)[i - pre.len()]);
                if b < 0x20u8 {
                    assert(hex_lower(b / 16) != 0x22u8);
                    assert(hex_lower(b % 16) != 0x22u8);
                }
                if b == 0x22u8 {
                    assert(i - pre.len() == 1);
                    assert(escape(s)[i - 1] == escape_byte(b)[0]);
                }
            } else {
                assert(escape(s)[i] == pre[i]);
                assert(escape(s)[i - 1] == pre[i - 1]);
            }
        }
    }
}

proof fn lemma_peer_list_bounded(len: nat, ps: Seq<PeerView>, i: nat)
    requires
        len + 2 <= RESPONSE_CAP,
        forall|k: int| 0 <= k < ps.len() ==> peer_entry(#[trigger] ps[k], k == 0).len() + 2 <= PEER_ROOM,
    ensures
        len + peer_list(len, ps, i).len() + 2 <= RESPONSE_CAP,
    decreases ps.len() - i,
{
    if i < ps.len() && RESPONSE_CAP >= len + PEER_ROOM {
        let e = peer_entry(ps[i as int], i == 0);
        lemma_peer_list_bounded(len + e.len(), ps, i + 1);
    }
}

/// The peer list cannot lose the status reply: as long as no single peer
/// entry is longer than PEER_ROOM - 2 bytes, the list is cut short before
/// the reply outgrows RESPONSE_CAP (given headers and fields that leave room
/// for the closing brackets).
pub proof fn law_peer_list_never_overflows(info: StatusInfo)
    requires
        status_prefix(info).len() + 2 <= RESPONSE_CAP,
        forall|k: int| 0 <= k < info.peers@.len() ==> peer_entry(
            peer_view(#[trigger] info.peers@[k]),
            k == 0,
        ).len() + 2 <= PEER_ROOM,
    ensures
        status_bytes(info).len() <= RESPONSE_CAP,
        capped(status_bytes(info)) == Some(status_bytes(info)),
{
    let ps = info.peers@.map_values(|q: Peer| peer_view(q));
    assert forall|k: int| 0 <= k < ps.len() implies peer_entry(#[trigger] ps[k], k == 0).len() + 2 <= PEER_ROOM by {
        assert(ps[k] == peer_view(info.peers@[k]));
    }
    lemma_peer_list_bounded(status_prefix(info).len(), ps, 0);
}

} // verus!
