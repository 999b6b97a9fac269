//! The board's DMX universes and the inputs that fill them: Art-Net
//! packets from the network and frames from the RS-485 line.
use vstd::prelude::*;

verus! {

/// Number of universes the board keeps.
pub const MAX_UNIVERSES: usize = 4;
/// Channels in a universe.
pub const UNIVERSE_SIZE: usize = 512;
/// Bytes of an RS-485 DMX frame: the start code, then every channel.
pub const DMX_FRAME_LEN: usize = 513;
/// Longest NeoPixel strip.
pub const MAX_PIXELS: usize = 80;

/// UDP port Art-Net arrives on.
pub const ARTNET_PORT: u16 = 6454;
/// Length of an ArtDmx header, up to the first channel.
pub const ARTNET_HEADER_LEN: usize = 18;

/// Channel values of every universe, all 0 at power-up.
pub struct DmxMatrix {
    data: Vec<u8>,
}

/// Value of channel `k` (0-based) of a read of `n` channels from `universe`
/// starting at `start`: the stored value where that channel exists, else 0.
pub open spec fn read_value(m: DmxMatrix, universe: int, start: int, k: int) -> u8 {
    if universe < MAX_UNIVERSES && start < UNIVERSE_SIZE && start + k < UNIVERSE_SIZE {
        m.cell(universe, start + k)
    } else {
        0
    }
}

/// An ArtDmx packet that the board accepts: (universe, number of channels to copy).
/// It needs the full header, the "Art-Net" id, opcode 0x5000, and a universe
/// the board keeps; the copy is the smaller of the stated data length, the
/// bytes actually received and one universe.
pub open spec fn artnet_dmx(p: Seq<u8>) -> Option<(usize, usize)> {
    if p.len() < ARTNET_HEADER_LEN {
        None
    } else if p.subrange(0, 8) != seq![65u8, 114, 116, 45, 78, 101, 116, 0] {
        None
    } else if p[8] != 0x00 || p[9] != 0x50 {
        None
    } else {
        let universe = p[14] as int + 256 * p[15] as int;
        let dmx_len = 256 * p[16] as int + p[17] as int;
        if universe >= MAX_UNIVERSES {
            None
        } else {
            let avail = p.len() - ARTNET_HEADER_LEN;
            let a = if dmx_len < avail { dmx_len } else { avail };
            let n = if a < UNIVERSE_SIZE { a } else { UNIVERSE_SIZE as int };
            Some((universe as usize, n as usize))
        }
    }
}

impl DmxMatrix {
    /// Every universe has UNIVERSE_SIZE channels.
    pub closed spec fn wf(self) -> bool {
        self.data@.len() == MAX_UNIVERSES * UNIVERSE_SIZE
    }

    /// Stored value of channel `c` (0-based) of universe `u`.
    pub closed spec fn cell(self, u: int, c: int) -> u8 {
        self.data@[u * 512 + c]
    }

    /// All universes dark.
    pub fn new() -> (m: DmxMatrix)
        ensures
            m.wf(),
            forall|u: int, c: int| 0 <= u < 4 && 0 <= c < 512 ==> m.cell(u, c) == 0,
    {
        let mut data: Vec<u8> = Vec::new();
        let mut k: usize = 0;
        while k < 2048
            invariant
                k <= 2048,
                data@.len() == k,
                forall|j: int| 0 <= j < k ==> data@[j] == 0,
            decreases 2048 - k,
        {
            data.push(0);
            k = k + 1;
        }
        DmxMatrix { data }
    }

    /// `n` channel values of `universe` from `start_channel` on; channels
    /// past the end of the universe, and any universe or start the board
    /// does not have, read as 0.
    pub fn read_channels(&self, universe: usize, start_channel: usize, n: usize) -> (r: Vec<u8>)
        requires
            self.wf(),
        ensures
            r@.len() == n,
            forall|k: int| 0 <= k < n ==> r@[k] == read_value(*self, universe as int, start_channel as int, k),
    {
        let mut dest: Vec<u8> = Vec::new();
        let mut k: usize = 0;
        while k < n
            invariant
                self.wf(),
                k <= n,
                dest@.len() == k,
                forall|j: int| 0 <= j < k ==> dest@[j] == read_value(*self, universe as int, start_channel as int, j),
            decreases n - k,
        {
            let v = if universe < MAX_UNIVERSES && start_channel < UNIVERSE_SIZE && k < UNIVERSE_SIZE
                - start_channel {
                self.data[universe * 512 + start_channel + k]
            } else {
                0
            };
            dest.push(v);
            k = k + 1;
        }
        dest
    }

    /// Replaces universe `universe` with `values` followed by zeros.
    pub fn write_universe(&mut self, universe: usize, values: &[u8])
        requires
            old(self).wf(),
            universe < MAX_UNIVERSES,
            values@.len() <= UNIVERSE_SIZE,
        ensures
            final(self).wf(),
            forall|u: int, c: int|
                0 <= u < 4 && 0 <= c < 512 ==> final(self).cell(u, c) == (if u == universe {
                    if c < values@.len() { values@[c] } else { 0 }
                } else {
                    old(self).cell(u, c)
                }),
    {
        let base = universe * 512;
        let mut c: usize = 0;
        while c < 512
            invariant
                base == universe * 512,
                universe < 4,
                values@.len() <= 512,
                c <= 512,
                self.data@.len() == 2048,
                forall|j: int|
                    0 <= j < 2048 ==> #[trigger] self.data@[j] == (if base <= j < base + c {
                        if j - base < values@.len() { values@[j - base] } else { 0 }
                    } else {
                        old(self).data@[j]
                    }),
            decreases 512 - c,
        {
            let v = if c < values.len() { values[c] } else { 0 };
            self.data.set(base + c, v);
            c = c + 1;
        }
        proof {
            assert forall|u: int, c: int| 0 <= u < 4 && 0 <= c < 512 implies final(self).cell(u, c) == (if u == universe {
                if c < values@.len() { values@[c] } else { 0 }
            } else {
                old(self).cell(u, c)
            }) by {
                let j = u * 512 + c;
                assert(self.data@[j] == self.data@[j]);
                if u == universe {
                } else if u < universe {
                    assert(j < base);
                } else {
                    assert(j >= base + 512);
                }
            }
        }
    }

    /// Takes an ArtDmx packet (`packet` is the received bytes): when the
    /// board accepts it, its universe becomes the packet's channel data
    /// followed by zeros. Returns whether the packet was accepted.
    pub fn apply_artnet(&mut self, packet: &[u8]) -> (accepted: bool)
        requires
            old(self).wf(),
        ensures
            final(self).wf(),
            accepted == artnet_dmx(packet@) is Some,
            forall|u: int, c: int|
                0 <= u < 4 && 0 <= c < 512 ==> final(self).cell(u, c) == match artnet_dmx(packet@) {
                    Some((universe, n)) => if u == universe {
                        if c < n { packet@[18 + c] } else { 0 }
                    } else {
                        old(self).cell(u, c)
                    },
                    None => old(self).cell(u, c),
                },
    {
        match parse_artnet(packet) {
            None => false,
            Some((universe, n)) => {
                let payload = slice_range(packet, 18, 18 + n);
                self.write_universe(universe, payload);
                true
            },
        }
    }

    /// Takes a frame from the RS-485 line: a frame with start code 0 becomes
    /// universe 0; any other start code is ignored.
    pub fn apply_dmx_frame(&mut self, frame: &[u8])
        requires
            old(self).wf(),
            frame@.len() == DMX_FRAME_LEN,
        ensures
            final(self).wf(),
            forall|u: int, c: int|
                0 <= u < 4 && 0 <= c < 512 ==> final(self).cell(u, c) == (if frame@[0] == 0 && u == 0 {
                    frame@[1 + c]
                } else {
                    old(self).cell(u, c)
                }),
    {
        if frame[0] == 0 {
            let payload = slice_range(frame, 1, 513);
            self.write_universe(0, payload);
        }
    }

    /// Fills an outgoing RS-485 frame from universe `universe`: start code 0,
    /// then its channels. A universe the board does not have leaves the
    /// frame as it was.
    pub fn fill_output_frame(&self, universe: usize, frame: &mut Vec<u8>)
        requires
            self.wf(),
            old(frame)@.len() == DMX_FRAME_LEN,
        ensures
            final(frame)@.len() == DMX_FRAME_LEN,
            universe < MAX_UNIVERSES ==> final(frame)@[0] == 0 && forall|c: int|
                0 <= c < 512 ==> final(frame)@[1 + c] == self.cell(universe as int, c),
            universe >= MAX_UNIVERSES ==> final(frame)@ == old(frame)@,
    {
        if universe < MAX_UNIVERSES {
            frame.set(0, 0);
            let mut c: usize = 0;
            while c < 512
                invariant
                    self.wf(),
                    universe < 4,
                    c <= 512,
                    frame@.len() == 513,
                    frame@[0] == 0,
                    forall|j: int| 0 <= j < c ==> frame@[1 + j] == self.cell(universe as int, j),
                decreases 512 - c,
            {
                frame.set(1 + c, self.data[universe * 512 + c]);
                c = c + 1;
            }
        }
    }
}

/// The bytes `s[from..to]`.
pub fn slice_range(s: &[u8], from: usize, to: usize) -> (r: &[u8])
    requires
        from <= to <= s@.len(),
    ensures
        r@ == s@.subrange(from as int, to as int),
{
    let (_, tail) = s.split_at(from);
    let (mid, _) = tail.split_at(to - from);
    proof {
        assert(mid@ =~= s@.subrange(from as int, to as int));
    }
    mid
}

/// Recognizes an ArtDmx packet the board takes (see `artnet_dmx`).
pub fn parse_artnet(packet: &[u8]) -> (r: Option<(usize, usize)>)
    ensures
        r == artnet_dmx(packet@),
{
    let len = packet.len();
    if len < ARTNET_HEADER_LEN {
        return None;
    }
    let header: [u8; 8] = [65u8, 114, 116, 45, 78, 101, 116, 0];
    let mut k: usize = 0;
    while k < 8
        invariant
            k <= 8,
            packet@.len() >= 18,
            header@ == seq![65u8, 114, 116, 45, 78, 101, 116, 0],
            forall|j: int| 0 <= j < k ==> packet@[j] == header@[j],
        decreases 8 - k,
    {
        if packet[k] != header[k] {
            proof {
                assert(packet@.subrange(0, 8)[k as int] != seq![65u8, 114, 116, 45, 78, 101, 116, 0][k as int]);
            }
            return None;
        }
        k = k + 1;
    }
    proof {
        assert(packet@.subrange(0, 8) =~= seq![65u8, 114, 116, 45, 78, 101, 116, 0]);
    }
    if packet[8] != 0x00 || packet[9] != 0x50 {
        return None;
    }
    let universe = packet[14] as usize + 256 * (packet[15] as usize);
    let dmx_len = 256 * (packet[16] as usize) + packet[17] as usize;
    if universe >= MAX_UNIVERSES {
        return None;
    }
    let available = len - ARTNET_HEADER_LEN;
    let a = if dmx_len < available { dmx_len } else { available };
    let n = if a < UNIVERSE_SIZE { a } else { UNIVERSE_SIZE };
    Some((universe, n))
}

/// What the board's universes read after an accepted ArtDmx packet: the
/// packet's channels in its universe, zeros after them.
pub proof fn law_artnet_read_back(
    before: DmxMatrix,
    after: DmxMatrix,
    packet: Seq<u8>,
    start: int,
    k: int,
)
    requires
        artnet_dmx(packet) is Some,
        0 <= start,
        0 <= k,
        forall|u: int, c: int|
            0 <= u < 4 && 0 <= c < 512 ==> after.cell(u, c) == match artnet_dmx(packet) {
                Some((universe, n)) => if u == universe {
                    if c < n { packet[18 + c] } else { 0 }
                } else {
                    before.cell(u, c)
                },
                None => before.cell(u, c),
            },
    ensures
        ({
            let (universe, n) = artnet_dmx(packet)->0;
            read_value(after, universe as int, start, k) == if start + k < n {
                packet[18 + start + k]
            } else {
                0u8
            }
        }),
{
}

} // verus!
