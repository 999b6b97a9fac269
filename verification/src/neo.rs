//! NeoPixel strip contents computed from the DMX universes.
use vstd::prelude::*;
use crate::config::{EnabledPort};
use crate::dmx::{DmxMatrix, MAX_PIXELS, read_value};
use crate::dmx_state::{DmxParams, params_of, params_from_channels};

verus! {

/// One RGB pixel.
#[derive(Clone, Copy, PartialEq, Eq, Debug, Structural)]
pub struct Rgb8 {
    pub r: u8,
    pub g: u8,
    pub b: u8,
}

/// One RGBW pixel.
#[derive(Clone, Copy, PartialEq, Eq, Debug, Structural)]
pub struct Rgbw {
    pub r: u8,
    pub g: u8,
    pub b: u8,
    pub w: u8,
}

/// The (universe, channel) a raw-mode strip reads pixel `i` from: pixels
/// take `step` channels each, and when the next channel would be past the
/// end of a universe the strip carries on at channel 0 of the next one.
pub open spec fn raw_cursor(u: int, c: int, i: nat, step: int) -> (int, int)
    decreases i,
{
    if i == 0 {
        (u, c)
    } else {
        let (pu, pc) = raw_cursor(u, c, (i - 1) as nat, step);
        if pc + step >= 512 {
            (pu + 1, 0)
        } else {
            (pu, pc + step)
        }
    }
}

proof fn lemma_raw_cursor_bounds(u: int, c: int, i: nat, step: int)
    requires
        0 <= u,
        0 <= c,
        step > 0,
    ensures
        u <= raw_cursor(u, c, i, step).0 <= u + i,
        0 <= raw_cursor(u, c, i, step).1,
        raw_cursor(u, c, i, step).1 <= c || raw_cursor(u, c, i, step).1 < 512 + step,
    decreases i,
{
    if i > 0 {
        lemma_raw_cursor_bounds(u, c, (i - 1) as nat, step);
    }
}

/// Sets the first `pixel_count` pixels to the colour in the port's first
/// four channels (red, green, blue, white).
pub fn tick_solid_color_rgbw(m: &DmxMatrix, port_config: EnabledPort, leds: &mut Vec<Rgbw>)
    requires
        m.wf(),
        old(leds)@.len() == MAX_PIXELS,
        port_config.pixel_count <= MAX_PIXELS,
    ensures
        final(leds)@.len() == MAX_PIXELS,
        forall|i: int|
            0 <= i < MAX_PIXELS ==> final(leds)@[i] == if i < port_config.pixel_count {
                ({
                    let (u, s) = (port_config.universe as int, port_config.start_channel as int);
                    Rgbw {
                        r: read_value(*m, u, s, 0),
                        g: read_value(*m, u, s, 1),
                        b: read_value(*m, u, s, 2),
                        w: read_value(*m, u, s, 3),
                    }
                })
            } else {
                old(leds)@[i]
            },
{
    let ch = m.read_channels(port_config.universe as usize, port_config.start_channel as usize, 5);
    let color = Rgbw { r: ch[0], g: ch[1], b: ch[2], w: ch[3] };
    let mut i: usize = 0;
    while i < port_config.pixel_count
        invariant
            i <= port_config.pixel_count <= MAX_PIXELS,
            leds@.len() == MAX_PIXELS,
            forall|j: int| 0 <= j < MAX_PIXELS ==> leds@[j] == if j < i { color } else { old(leds)@[j] },
        decreases port_config.pixel_count - i,
    {
        leds.set(i, color);
        i = i + 1;
    }
}

/// Sets the first `pixel_count` pixels to the colour in the port's first
/// three channels.
pub fn tick_solid_color_rgb(m: &DmxMatrix, port_config: EnabledPort, leds: &mut Vec<Rgb8>)
    requires
        m.wf(),
        old(leds)@.len() == MAX_PIXELS,
        port_config.pixel_count <= MAX_PIXELS,
    ensures
        final(leds)@.len() == MAX_PIXELS,
        forall|i: int|
            0 <= i < MAX_PIXELS ==> final(leds)@[i] == if i < port_config.pixel_count {
                ({
                    let (u, s) = (port_config.universe as int, port_config.start_channel as int);
                    Rgb8 { r: read_value(*m, u, s, 0), g: read_value(*m, u, s, 1), b: read_value(*m, u, s, 2) }
                })
            } else {
                old(leds)@[i]
            },
{
    let ch = m.read_channels(port_config.universe as usize, port_config.start_channel as usize, 4);
    let color = Rgb8 { r: ch[0], g: ch[1], b: ch[2] };
    let mut i: usize = 0;
    while i < port_config.pixel_count
        invariant
            i <= port_config.pixel_count <= MAX_PIXELS,
            leds@.len() == MAX_PIXELS,
            forall|j: int| 0 <= j < MAX_PIXELS ==> leds@[j] == if j < i { color } else { old(leds)@[j] },
        decreases port_config.pixel_count - i,
    {
        leds.set(i, color);
        i = i + 1;
    }
}

/// Raw mode, RGBW: pixel `i` takes four channels at `raw_cursor(.., i, 4)`.
pub fn tick_raw_rgbw(m: &DmxMatrix, port_config: EnabledPort, leds: &mut Vec<Rgbw>)
    requires
        m.wf(),
        old(leds)@.len() == MAX_PIXELS,
        port_config.pixel_count <= MAX_PIXELS,
    ensures
        final(leds)@.len() == MAX_PIXELS,
        forall|i: int|
            0 <= i < MAX_PIXELS ==> final(leds)@[i] == if i < port_config.pixel_count {
                ({
                    let (u, c) = raw_cursor(
                        port_config.universe as int,
                        port_config.start_channel as int,
                        i as nat,
                        4,
                    );
                    Rgbw {
                        r: read_value(*m, u, c, 0),
                        g: read_value(*m, u, c, 1),
                        b: read_value(*m, u, c, 2),
                        w: read_value(*m, u, c, 3),
                    }
                })
            } else {
                old(leds)@[i]
            },
{
    let mut current_universe = port_config.universe as usize;
    let mut current_channel = port_config.start_channel as usize;
    let ghost u0 = port_config.universe as int;
    let ghost c0 = port_config.start_channel as int;
    let mut i: usize = 0;
    while i < port_config.pixel_count
        invariant
            m.wf(),
            i <= port_config.pixel_count <= MAX_PIXELS,
            leds@.len() == MAX_PIXELS,
            u0 == port_config.universe as int,
            c0 == port_config.start_channel as int,
            (current_universe as int, current_channel as int) == raw_cursor(u0, c0, i as nat, 4),
            forall|j: int|
                0 <= j < MAX_PIXELS ==> leds@[j] == if j < i {
                    ({
                        let (u, c) = raw_cursor(u0, c0, j as nat, 4);
                        Rgbw {
                            r: read_value(*m, u, c, 0),
                            g: read_value(*m, u, c, 1),
                            b: read_value(*m, u, c, 2),
                            w: read_value(*m, u, c, 3),
                        }
                    })
                } else {
                    old(leds)@[j]
                },
        decreases port_config.pixel_count - i,
    {
        proof {
            lemma_raw_cursor_bounds(u0, c0, i as nat, 4);
        }
        let dmx = m.read_channels(current_universe, current_channel, 4);
        current_channel = current_channel + 4;
        if current_channel >= 512 {
            current_channel = 0;
            current_universe = current_universe + 1;
        }
        leds.set(i, Rgbw { r: dmx[0], g: dmx[1], b: dmx[2], w: dmx[3] });
        i = i + 1;
    }
}

/// Raw mode, RGB: pixel `i` takes three channels at `raw_cursor(.., i, 3)`.
pub fn tick_raw_rgb(m: &DmxMatrix, port_config: EnabledPort, leds: &mut Vec<Rgb8>)
    requires
        m.wf(),
        old(leds)@.len() == MAX_PIXELS,
        port_config.pixel_count <= MAX_PIXELS,
    ensures
        final(leds)@.len() == MAX_PIXELS,
        forall|i: int|
            0 <= i < MAX_PIXELS ==> final(leds)@[i] == if i < port_config.pixel_count {
                ({
                    let (u, c) = raw_cursor(
                        port_config.universe as int,
                        port_config.start_channel as int,
                        i as nat,
                        3,
                    );
                    Rgb8 { r: read_value(*m, u, c, 0), g: read_value(*m, u, c, 1), b: read_value(*m, u, c, 2) }
                })
            } else {
                old(leds)@[i]
            },
{
    let mut current_universe = port_config.universe as usize;
    let mut current_channel = port_config.start_channel as usize;
    let ghost u0 = port_config.universe as int;
    let ghost c0 = port_config.start_channel as int;
    let mut i: usize = 0;
    while i < port_config.pixel_count
        invariant
            m.wf(),
            i <= port_config.pixel_count <= MAX_PIXELS,
            leds@.len() == MAX_PIXELS,
            u0 == port_config.universe as int,
            c0 == port_config.start_channel as int,
            (current_universe as int, current_channel as int) == raw_cursor(u0, c0, i as nat, 3),
            forall|j: int|
                0 <= j < MAX_PIXELS ==> leds@[j] == if j < i {
                    ({
                        let (u, c) = raw_cursor(u0, c0, j as nat, 3);
                        Rgb8 { r: read_value(*m, u, c, 0), g: read_value(*m, u, c, 1), b: read_value(*m, u, c, 2) }
                    })
                } else {
                    old(leds)@[j]
                },
        decreases port_config.pixel_count - i,
    {
        proof {
            lemma_raw_cursor_bounds(u0, c0, i as nat, 3);
        }
        let dmx = m.read_channels(current_universe, current_channel, 3);
        current_channel = current_channel + 3;
        if current_channel >= 512 {
            current_channel = 0;
            current_universe = current_universe + 1;
        }
        leds.set(i, Rgb8 { r: dmx[0], g: dmx[1], b: dmx[2] });
        i = i + 1;
    }
}

/// The generated-effect parameters of a port: its first nine channels.
pub fn tick_wire_effect_rgb(m: &DmxMatrix, port_config: EnabledPort) -> (p: DmxParams)
    requires
        m.wf(),
    ensures
        p == params_of(
            Seq::new(9, |k: int| read_value(*m, port_config.universe as int, port_config.start_channel as int, k)),
        ),
{
    let ch = m.read_channels(port_config.universe as usize, port_config.start_channel as usize, 9);
    let p = params_from_channels(ch.as_slice());
    proof {
        assert(ch@ =~= Seq::new(9, |k: int| read_value(*m, port_config.universe as int, port_config.start_channel as int, k)));
    }
    p
}

} // verus!
