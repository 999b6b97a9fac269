//! The LED render loop's frame-by-frame decisions: taking new effect
//! parameters, crossfading when the effect changes, moving the effect
//! offsets, the master intensity, and the raw mode that streams universe
//! bytes straight into the pixels.
use vstd::prelude::*;
use crate::dmx_state::{DmxParams, default_params};
use crate::dmx::MAX_PIXELS;
use crate::neo::{Rgb8, Rgbw};

verus! {

/// Pixels driven by the render loop.
pub const NUM_LEDS: usize = MAX_PIXELS;
/// Bytes of the bulk buffer raw mode reads (four universes).
pub const RAW_BUFFER_LEN: usize = 2048;
/// Frames a crossfade between two effects lasts.
pub const CROSSFADE_FRAMES: u8 = 25;
/// Time between two frames (about 50 frames a second).
pub const FRAME_MS: u64 = 20;
/// A base effect id that stands still: its offsets do not move.
pub const EFFECT_STILL: u8 = 255;

/// How the pixels read the DMX state.
#[derive(Clone, Copy, PartialEq, Eq, Debug, Structural)]
pub enum OutputMode {
    /// Generated effects driven by a few parameters.
    GeneratedEffects,
    /// Universe bytes straight into the pixels, three per pixel.
    RawMultiUniverse,
}

/// How the render loop runs.
#[derive(Clone, Copy, PartialEq, Eq, Debug, Structural)]
pub struct LedEngineConfig {
    pub mode: OutputMode,
    pub is_rgbw: bool,
}

/// The frame about to be written to the strip.
pub enum LedBuffer {
    Rgb(Vec<Rgb8>),
    Rgbw(Vec<Rgbw>),
}

/// A frame's colours as (r, g, b, w), whatever the strip kind.
pub open spec fn frame_view(b: LedBuffer) -> Seq<(u8, u8, u8, u8)> {
    match b {
        LedBuffer::Rgb(v) => v@.map_values(|p: Rgb8| (p.r, p.g, p.b, 0u8)),
        LedBuffer::Rgbw(v) => v@.map_values(|p: Rgbw| (p.r, p.g, p.b, p.w)),
    }
}

/// `c` scaled by `intensity` / 255, as the strip gets it.
pub open spec fn scale(c: u8, intensity: u32) -> u8 {
    ((c * intensity) / 255) as u8
}

impl LedBuffer {
    /// An all-dark frame of NUM_LEDS pixels of the strip's kind.
    pub fn new(is_rgbw: bool) -> (b: LedBuffer)
        ensures
            frame_view(b) == Seq::new(NUM_LEDS as nat, |i: int| (0u8, 0u8, 0u8, 0u8)),
            (b is Rgbw) == is_rgbw,
    {
        if is_rgbw {
            let mut v: Vec<Rgbw> = Vec::new();
            while v.len() < NUM_LEDS
                invariant
                    v@.len() <= NUM_LEDS,
                    forall|i: int| 0 <= i < v@.len() ==> v@[i] == (Rgbw { r: 0, g: 0, b: 0, w: 0 }),
                decreases NUM_LEDS - v@.len(),
            {
                v.push(Rgbw { r: 0, g: 0, b: 0, w: 0 });
            }
            let b = LedBuffer::Rgbw(v);
            proof {
                assert(frame_view(b) =~= Seq::new(NUM_LEDS as nat, |i: int| (0u8, 0u8, 0u8, 0u8)));
            }
            b
        } else {
            let mut v: Vec<Rgb8> = Vec::new();
            while v.len() < NUM_LEDS
                invariant
                    v@.len() <= NUM_LEDS,
                    forall|i: int| 0 <= i < v@.len() ==> v@[i] == (Rgb8 { r: 0, g: 0, b: 0 }),
                decreases NUM_LEDS - v@.len(),
            {
                v.push(Rgb8 { r: 0, g: 0, b: 0 });
            }
            let b = LedBuffer::Rgb(v);
            proof {
                assert(frame_view(b) =~= Seq::new(NUM_LEDS as nat, |i: int| (0u8, 0u8, 0u8, 0u8)));
            }
            b
        }
    }

    pub open spec fn len_spec(self) -> nat {
        frame_view(self).len()
    }

    /// Sets pixel `index` to `color` scaled by `intensity` / 255 (dark when
    /// `intensity` is 0); an index past the end is ignored.
    pub fn write_to_buffer(&mut self, index: usize, color: Rgb8, intensity: u32)
        requires
            intensity <= 16843009,
        ensures
            frame_view(*final(self)) == if index < frame_view(*old(self)).len() {
                frame_view(*old(self)).update(
                    index as int,
                    (scale(color.r, intensity), scale(color.g, intensity), scale(color.b, intensity), 0u8),
                )
            } else {
                frame_view(*old(self))
            },
            (*final(self) is Rgbw) == (*old(self) is Rgbw),
    {
        proof {
            assert(color.r as u32 * intensity <= 255 * 16843009) by (nonlinear_arith)
                requires color.r <= 255, intensity <= 16843009;
            assert(color.g as u32 * intensity <= 255 * 16843009) by (nonlinear_arith)
                requires color.g <= 255, intensity <= 16843009;
            assert(color.b as u32 * intensity <= 255 * 16843009) by (nonlinear_arith)
                requires color.b <= 255, intensity <= 16843009;
        }
        let rr: u32 = (color.r as u32 * intensity) / 255;
        let gg: u32 = (color.g as u32 * intensity) / 255;
        let bb: u32 = (color.b as u32 * intensity) / 255;
        let r: u8 = #[verifier::truncate] (rr as u8);
        let g: u8 = #[verifier::truncate] (gg as u8);
        let b: u8 = #[verifier::truncate] (bb as u8);
        match self {
            LedBuffer::Rgb(v) => {
                if index < v.len() {
                    v.set(index, Rgb8 { r, g, b });
                }
            },
            LedBuffer::Rgbw(v) => {
                if index < v.len() {
                    v.set(index, Rgbw { r, g, b, w: 0 });
                }
            },
        }
        proof {
            assert(frame_view(*final(self)) =~= if index < frame_view(*old(self)).len() {
                frame_view(*old(self)).update(
                    index as int,
                    (scale(color.r, intensity), scale(color.g, intensity), scale(color.b, intensity), 0u8),
                )
            } else {
                frame_view(*old(self))
            });
        }
    }
}

/// Pixel `i` in raw mode: the three bytes from 3 * i on, when all three are
/// in the buffer.
pub open spec fn raw_pixel(raw: Seq<u8>, i: int) -> Option<(u8, u8, u8, u8)> {
    if 3 * i + 2 < raw.len() {
        Some((raw[3 * i], raw[3 * i + 1], raw[3 * i + 2], 0u8))
    } else {
        None
    }
}

/// A raw-mode frame drawn over `f`: every pixel whose three bytes are in
/// `raw` takes them, the others keep their colour.
pub open spec fn raw_frame_spec(f: Seq<(u8, u8, u8, u8)>, raw: Seq<u8>) -> Seq<(u8, u8, u8, u8)> {
    Seq::new(
        f.len(),
        |i: int|
            match raw_pixel(raw, i) {
                Some(px) => px,
                None => f[i],
            },
    )
}

/// Raw mode: every pixel whose three bytes are in `raw` takes them at full
/// intensity; the others keep their colour (see `raw_frame_spec`).
pub fn raw_frame(buffer: &mut LedBuffer, raw: &[u8])
    requires
        frame_view(*old(buffer)).len() <= NUM_LEDS,
    ensures
        frame_view(*final(buffer)) == raw_frame_spec(frame_view(*old(buffer)), raw@),
        (*final(buffer) is Rgbw) == (*old(buffer) is Rgbw),
{
    let ghost start = frame_view(*buffer);
    let mut i: usize = 0;
    while i < NUM_LEDS
        invariant
            i <= NUM_LEDS,
            start.len() <= NUM_LEDS,
            frame_view(*buffer).len() == start.len(),
            (*buffer is Rgbw) == (*old(buffer) is Rgbw),
            forall|k: int| 0 <= k < start.len() ==> #[trigger] frame_view(*buffer)[k] == if k < i {
                match raw_pixel(raw@, k) {
                    Some(px) => px,
                    None => start[k],
                }
            } else {
                start[k]
            },
        decreases NUM_LEDS - i,
    {
        let src = i * 3;
        if src + 2 < raw.len() {
            let color = Rgb8 { r: raw[src], g: raw[src + 1], b: raw[src + 2] };
            buffer.write_to_buffer(i, color, 255);
            proof {
                assert(scale(color.r, 255) == color.r);
                assert(scale(color.g, 255) == color.g);
                assert(scale(color.b, 255) == color.b);
            }
        }
        i = i + 1;
    }
    proof {
        assert(frame_view(*buffer) =~= raw_frame_spec(start, raw@));
    }
}

/// In raw mode a full frame of NUM_LEDS pixels drawn from the RAW_BUFFER_LEN
/// bytes of the universes gives pixel `i` the bytes 3i, 3i+1 and 3i+2,
/// unscaled, whatever the frame held before.
pub proof fn law_raw_mode_copies_universes(f: Seq<(u8, u8, u8, u8)>, raw: Seq<u8>)
    requires
        f.len() == NUM_LEDS,
        raw.len() == RAW_BUFFER_LEN,
    ensures
        raw_frame_spec(f, raw).len() == NUM_LEDS,
        forall|i: int| 0 <= i < NUM_LEDS ==> #[trigger] raw_frame_spec(f, raw)[i] == (
            raw[3 * i],
            raw[3 * i + 1],
            raw[3 * i + 2],
            0u8,
        ),
{
}

/// Where a crossfade stands.
#[derive(Clone, Copy, PartialEq, Eq, Debug, Structural)]
pub enum Transition {
    Stable,
    Crossfading { old_params: DmxParams, progress: u8, duration: u8 },
}

/// The render loop's state between frames.
pub struct RenderState {
    pub params: DmxParams,
    pub transition: Transition,
    pub base_offset: u8,
    pub top_offset: u8,
}

/// A crossfade in progress has not reached its end yet.
pub open spec fn transition_ok(t: Transition) -> bool {
    match t {
        Transition::Stable => true,
        Transition::Crossfading { progress, duration, .. } => progress < duration,
    }
}

/// The brightest of a look's three channels.
pub open spec fn intensity_of(p: DmxParams) -> u32 {
    let rg = if p.r >= p.g { p.r } else { p.g };
    (if rg >= p.b { rg } else { p.b }) as u32
}

/// Effect speed held to 1..=15.
pub open spec fn step_of(speed: u8) -> u8 {
    if speed < 1 { 1 } else if speed > 15 { 15 } else { speed }
}

/// What a generated-effects frame is drawn from.
#[derive(Clone, Copy, Debug)]
pub struct FramePlan {
    pub base_offset: u8,
    pub top_offset: u8,
    /// Master intensity, 0..=255.
    pub intensity: u32,
    /// While crossfading: the look faded out and how far the new look is in,
    /// 0..=256.
    pub blend: Option<(DmxParams, u16)>,
}

/// Master intensity `alpha`/256 of the way from `old_i` to `new_i`.
pub open spec fn mix(old_i: u32, new_i: u32, alpha: u16) -> u32 {
    ((old_i * (256 - alpha) + new_i * alpha) / 256) as u32
}

/// One generated-effects frame: the state after it, and what it is drawn from.
pub open spec fn frame_spec(s: (DmxParams, Transition, u8, u8)) -> ((DmxParams, Transition, u8, u8), FramePlan) {
    let (params, t, bo, to) = s;
    let bo2 = if params.base_effect_id != EFFECT_STILL { ((bo + step_of(params.speed)) % 256) as u8 } else { bo };
    let to2 = if params.base_effect_id != EFFECT_STILL { ((to + step_of(params.speed)) % 256) as u8 } else { to };
    match t {
        Transition::Stable => (
            (params, t, bo2, to2),
            FramePlan { base_offset: bo2, top_offset: to2, intensity: intensity_of(params), blend: None },
        ),
        Transition::Crossfading { old_params, progress, duration } => {
            let p2 = (progress + 1) as u8;
            let alpha = ((p2 * 256) / duration as int) as u16;
            let t2 = if p2 >= duration {
                Transition::Stable
            } else {
                Transition::Crossfading { old_params, progress: p2, duration }
            };
            (
                (params, t2, bo2, to2),
                FramePlan {
                    base_offset: bo2,
                    top_offset: to2,
                    intensity: mix(intensity_of(old_params), intensity_of(params), alpha),
                    blend: Some((old_params, alpha)),
                },
            )
        },
    }
}

pub open spec fn state_tuple(s: RenderState) -> (DmxParams, Transition, u8, u8) {
    (s.params, s.transition, s.base_offset, s.top_offset)
}

/// Taking new parameters: a change of either effect starts a crossfade from
/// the look on show now.
pub open spec fn take_spec(params: DmxParams, t: Transition, new: DmxParams) -> (DmxParams, Transition) {
    if new.base_effect_id != params.base_effect_id || new.top_effect_id != params.top_effect_id {
        (new, Transition::Crossfading { old_params: params, progress: 0, duration: CROSSFADE_FRAMES })
    } else {
        (new, t)
    }
}

fn max3(p: &DmxParams) -> (m: u32)
    ensures
        m == intensity_of(*p),
{
    let rg = if p.r >= p.g { p.r } else { p.g };
    (if rg >= p.b { rg } else { p.b }) as u32
}

impl RenderState {
    /// Default parameters, no crossfade, offsets at 0.
    pub fn new() -> (s: RenderState)
        ensures
            s.params == default_params(),
            s.transition == Transition::Stable,
            s.base_offset == 0,
            s.top_offset == 0,
    {
        RenderState { params: DmxParams::default(), transition: Transition::Stable, base_offset: 0, top_offset: 0 }
    }

    /// New parameters arrived (see `take_spec`).
    pub fn take_params(&mut self, new: DmxParams)
        ensures
            (final(self).params, final(self).transition) == take_spec(old(self).params, old(self).transition, new),
            final(self).base_offset == old(self).base_offset,
            final(self).top_offset == old(self).top_offset,
    {
        if new.base_effect_id != self.params.base_effect_id || new.top_effect_id != self.params.top_effect_id {
            self.transition = Transition::Crossfading { old_params: self.params, progress: 0, duration: CROSSFADE_FRAMES };
        }
        self.params = new;
    }

    /// Advances one generated-effects frame (see `frame_spec`).
    pub fn frame(&mut self) -> (plan: FramePlan)
        requires
            transition_ok(old(self).transition),
        ensures
            (state_tuple(*final(self)), plan) == frame_spec(state_tuple(*old(self))),
            transition_ok(final(self).transition),
    {
        if self.params.base_effect_id != EFFECT_STILL {
            let step = if self.params.speed < 1 { 1 } else if self.params.speed > 15 { 15 } else { self.params.speed };
            self.base_offset = self.base_offset.wrapping_add(step);
            self.top_offset = self.top_offset.wrapping_add(step);
        }
        match self.transition {
            Transition::Stable => FramePlan {
                base_offset: self.base_offset,
                top_offset: self.top_offset,
                intensity: max3(&self.params),
                blend: None,
            },
            Transition::Crossfading { old_params, progress, duration } => {
                let p2 = progress + 1;
                let alpha: u16 = ((p2 as u16) * 256) / (duration as u16);
                let old_i = max3(&old_params);
                let new_i = max3(&self.params);
                proof {
                    assert(alpha <= 256) by (nonlinear_arith)
                        requires alpha == (p2 * 256) / (duration as int), p2 <= duration, duration > 0;
                    assert(old_i * (256 - alpha) + new_i * alpha <= 255 * 256) by (nonlinear_arith)
                        requires old_i <= 255, new_i <= 255, alpha <= 256;
                }
                let sum: u32 = old_i * (256 - alpha as u32) + new_i * alpha as u32;
                let intensity = sum >> 8;
                proof {
                    assert(sum >> 8 == sum / 256) by (bit_vector);
                }
                if p2 >= duration {
                    self.transition = Transition::Stable;
                } else {
                    self.transition = Transition::Crossfading { old_params, progress: p2, duration };
                }
                FramePlan {
                    base_offset: self.base_offset,
                    top_offset: self.top_offset,
                    intensity,
                    blend: Some((old_params, alpha)),
                }
            },
        }
    }
}

/// A frame's master intensity never exceeds 255, so scaling a colour by it
/// never wraps.
pub proof fn law_intensity_at_most_full(s: (DmxParams, Transition, u8, u8))
    requires
        transition_ok(s.1),
    ensures
        frame_spec(s).1.intensity <= 255,
        frame_spec(s).1.blend matches Some((_, alpha)) ==> alpha <= 256,
{
    match s.1 {
        Transition::Stable => {},
        Transition::Crossfading { old_params, progress, duration } => {
            let p2 = (progress + 1) as u8;
            let alpha = ((p2 * 256) / duration as int) as u16;
            assert((p2 * 256) / (duration as int) <= 256) by (nonlinear_arith)
                requires p2 <= duration, duration > 0;
            let a = intensity_of(old_params);
            let b = intensity_of(s.0);
            assert(a * (256 - alpha) + b * alpha <= 255 * 256) by (nonlinear_arith)
                requires a <= 255, b <= 255, alpha <= 256;
        },
    }
}

/// A crossfade started by new parameters lasts CROSSFADE_FRAMES frames and
/// its last frame shows only the new look: blend 256 and the new look's own
/// intensity; after it the transition is stable.
pub proof fn law_crossfade_ends_on_new_look(old_params: DmxParams, params: DmxParams, bo: u8, to: u8, k: u8)
    requires
        k < CROSSFADE_FRAMES,
    ensures
        ({
            let s = (params, Transition::Crossfading { old_params, progress: k, duration: CROSSFADE_FRAMES }, bo, to);
            let (s2, plan) = frame_spec(s);
            &&& k + 1 < CROSSFADE_FRAMES ==> s2.1 == Transition::Crossfading { old_params, progress: (k + 1) as u8, duration: CROSSFADE_FRAMES }
            &&& k + 1 == CROSSFADE_FRAMES ==> {
                &&& s2.1 == Transition::Stable
                &&& plan.blend == Some((old_params, 256u16))
                &&& plan.intensity == intensity_of(params)
            }
        }),
{
    let b = intensity_of(params);
    let a = intensity_of(old_params);
    assert((b * 256) / 256 == b) by (nonlinear_arith);
    if k + 1 == CROSSFADE_FRAMES {
        assert((25int * 256) / 25int == 256int);
        assert(mix(a, b, 256u16) == b) by (nonlinear_arith)
            requires mix(a, b, 256u16) == ((a * (256 - 256u16) + b * 256u16) / 256) as u32, b <= 255;
    }
}

/// A still base effect keeps both offsets; any other moves both by its
/// speed held to 1..=15, wrapping at 256.
pub proof fn law_offsets_follow_speed(s: (DmxParams, Transition, u8, u8))
    ensures
        s.0.base_effect_id == EFFECT_STILL ==> frame_spec(s).0.2 == s.2 && frame_spec(s).0.3 == s.3,
        s.0.base_effect_id != EFFECT_STILL ==> {
            &&& frame_spec(s).0.2 == (s.2 + step_of(s.0.speed)) % 256
            &&& frame_spec(s).0.3 == (s.3 + step_of(s.0.speed)) % 256
            &&& 1 <= step_of(s.0.speed) <= 15
        },
{
}

/// Taking new parameters always takes them. A change of the base effect or
/// of the top effect starts a crossfade of CROSSFADE_FRAMES frames from
/// the look on show (the current parameters), from its first frame; keeping
/// both effects keeps the crossfade state as it was.
pub proof fn law_effect_change_crossfades(params: DmxParams, t: Transition, new: DmxParams)
    ensures
        take_spec(params, t, new).0 == new,
        new.top_effect_id != params.top_effect_id ==> take_spec(params, t, new).1 == (Transition::Crossfading {
            old_params: params,
            progress: 0,
            duration: 25,
        }),
        new.base_effect_id != params.base_effect_id ==> take_spec(params, t, new).1 == (Transition::Crossfading {
            old_params: params,
            progress: 0,
            duration: 25,
        }),
        new.base_effect_id == params.base_effect_id && new.top_effect_id == params.top_effect_id ==> take_spec(
            params,
            t,
            new,
        ).1 == t,
{
}

} // verus!
