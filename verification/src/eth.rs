//! The board's network identity, derived from its factory chip ID.
use vstd::prelude::*;
use crate::text::{push_bytes, hex_upper, hex_lower, hex_digit_upper, hex_digit_lower};
use vstd::utf8::encode_utf8;

verus! {

/// Byte `k` (0 = most significant) of the big-endian encoding of `id`.
pub open spec fn be_byte(id: u64, k: int) -> u8 {
    ((id as int / pow256(7 - k)) % 256) as u8
}

pub open spec fn pow256(e: int) -> int
    decreases e,
{
    if e <= 0 { 1 } else { 256 * pow256(e - 1) }
}

/// Locally administered unicast MAC (02:xx:xx:xx:xx:xx) from the low five
/// bytes of the chip ID.
pub fn mac_from_chip_id(id: u64) -> (mac: [u8; 6])
    ensures
        mac@ == seq![2u8, be_byte(id, 3), be_byte(id, 4), be_byte(id, 5), be_byte(id, 6), be_byte(id, 7)],
{
    let b3 = ((id / 0x1_0000_0000) % 256) as u8;
    let b4 = ((id / 0x100_0000) % 256) as u8;
    let b5 = ((id / 0x1_0000) % 256) as u8;
    let b6 = ((id / 0x100) % 256) as u8;
    let b7 = (id % 256) as u8;
    proof {
        reveal_with_fuel(pow256, 5);
    }
    [0x02, b3, b4, b5, b6, b7]
}

/// The link-local address picked from a MAC: the hash of its last three
/// bytes gives 169.254.(1 + h % 254).(1 + (h / 254) % 254).
pub open spec fn link_local_spec(mac: Seq<u8>) -> Seq<u8> {
    let h = 65536 * mac[3] as int + 256 * mac[4] as int + mac[5] as int;
    seq![169u8, 254u8, (1 + h % 254) as u8, (1 + (h / 254) % 254) as u8]
}

/// RFC 3927 link-local address picked deterministically from the MAC.
pub fn link_local_from_mac(mac: &[u8; 6]) -> (ip: [u8; 4])
    ensures
        ip@ == link_local_spec(mac@),
{
    let h: u32 = 65536 * (mac[3] as u32) + 256 * (mac[4] as u32) + mac[5] as u32;
    let third = 1 + (h % 254) as u8;
    let fourth = 1 + ((h / 254) % 254) as u8;
    [169, 254, third, fourth]
}

/// Every address picked is in 169.254.1.1 - 169.254.254.254.
pub proof fn law_link_local_range(mac: Seq<u8>)
    requires
        mac.len() == 6,
    ensures
        link_local_spec(mac)[0] == 169,
        link_local_spec(mac)[1] == 254,
        1 <= link_local_spec(mac)[2] <= 254,
        1 <= link_local_spec(mac)[3] <= 254,
{
}

/// Two upper-case hex digits of `b`.
pub open spec fn hex2(b: u8) -> Seq<u8> {
    seq![hex_upper(b / 16), hex_upper(b % 16)]
}

/// Two lower-case hex digits of `b`.
pub open spec fn hex2_lower(b: u8) -> Seq<u8> {
    seq![hex_lower(b / 16), hex_lower(b % 16)]
}

/// `pdmx-a1b2` from the last two MAC bytes: the mDNS host label.
pub open spec fn hostname_spec(mac: Seq<u8>) -> Seq<u8> {
    encode_utf8("pdmx-"@) + hex2_lower(mac[4]) + hex2_lower(mac[5])
}

/// `PDMX Controller A1B2`: the DNS-SD service instance name.
pub open spec fn instance_spec(mac: Seq<u8>) -> Seq<u8> {
    encode_utf8("PDMX Controller "@) + hex2(mac[4]) + hex2(mac[5])
}

fn push_hex2(out: &mut Vec<u8>, b: u8)
    ensures
        final(out)@ == old(out)@ + hex2(b),
{
    out.push(hex_digit_upper(b / 16));
    out.push(hex_digit_upper(b % 16));
    proof {
        assert(final(out)@ =~= old(out)@ + hex2(b));
    }
}

fn push_hex2_lower(out: &mut Vec<u8>, b: u8)
    ensures
        final(out)@ == old(out)@ + hex2_lower(b),
{
    out.push(hex_digit_lower(b / 16));
    out.push(hex_digit_lower(b % 16));
    proof {
        assert(final(out)@ =~= old(out)@ + hex2_lower(b));
    }
}

/// The mDNS host label of the board.
pub fn hostname(mac: &[u8; 6]) -> (h: Vec<u8>)
    ensures
        h@ == hostname_spec(mac@),
{
    let mut h: Vec<u8> = Vec::new();
    push_bytes(&mut h, "pdmx-".as_bytes());
    push_hex2_lower(&mut h, mac[4]);
    push_hex2_lower(&mut h, mac[5]);
    proof {
        assert(h@ =~= hostname_spec(mac@));
    }
    h
}

/// The DNS-SD instance name of the board.
pub fn instance_name(mac: &[u8; 6]) -> (h: Vec<u8>)
    ensures
        h@ == instance_spec(mac@),
{
    let mut h: Vec<u8> = Vec::new();
    push_bytes(&mut h, "PDMX Controller ".as_bytes());
    push_hex2(&mut h, mac[4]);
    push_hex2(&mut h, mac[5]);
    proof {
        assert(h@ =~= instance_spec(mac@));
    }
    h
}

/// Who this board is on the network.
#[derive(Clone, Debug)]
pub struct NetIdentity {
    pub ip: [u8; 4],
    /// mDNS host label, e.g. "pdmx-a1b2".
    pub hostname: Vec<u8>,
    /// DNS-SD service instance name, e.g. "PDMX Controller A1B2".
    pub instance: Vec<u8>,
}

/// The identity of a board with chip ID `id`: its link-local address, host
/// label and instance name.
pub fn net_identity(id: u64) -> (n: NetIdentity)
    ensures
        ({
            let mac = seq![2u8, be_byte(id, 3), be_byte(id, 4), be_byte(id, 5), be_byte(id, 6), be_byte(id, 7)];
            &&& n.ip@ == link_local_spec(mac)
            &&& n.hostname@ == hostname_spec(mac)
            &&& n.instance@ == instance_spec(mac)
        }),
{
    let mac = mac_from_chip_id(id);
    let ip = link_local_from_mac(&mac);
    NetIdentity { ip, hostname: hostname(&mac), instance: instance_name(&mac) }
}

} // verus!
