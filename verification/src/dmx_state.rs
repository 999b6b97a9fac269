//! Parameters of the generated LED effects, read from DMX channels.
use vstd::prelude::*;

verus! {

/// Effect parameters carried by nine consecutive DMX channels.
#[derive(Clone, Copy, PartialEq, Eq, Debug, Structural)]
pub struct DmxParams {
    pub r: u8,
    pub g: u8,
    pub b: u8,
    pub base_effect_id: u8,
    pub top_effect_id: u8,
    pub speed: u8,
    pub r2: u8,
    pub g2: u8,
    pub b2: u8,
}

/// Red, effect 8, speed 4, everything else 0.
pub open spec fn default_params() -> DmxParams {
    DmxParams { r: 255, g: 0, b: 0, base_effect_id: 8, top_effect_id: 0, speed: 4, r2: 0, g2: 0, b2: 0 }
}

impl Default for DmxParams {
    fn default() -> (p: Self)
        ensures
            p == default_params(),
    {
        DmxParams { r: 255, g: 0, b: 0, base_effect_id: 8, top_effect_id: 0, speed: 4, r2: 0, g2: 0, b2: 0 }
    }
}

/// The parameters in the nine channel values `ch` (in field order).
pub open spec fn params_of(ch: Seq<u8>) -> DmxParams {
    DmxParams {
        r: ch[0],
        g: ch[1],
        b: ch[2],
        base_effect_id: ch[3],
        top_effect_id: ch[4],
        speed: ch[5],
        r2: ch[6],
        g2: ch[7],
        b2: ch[8],
    }
}

/// Reads the nine parameter channels.
pub fn params_from_channels(ch: &[u8]) -> (p: DmxParams)
    requires
        ch@.len() >= 9,
    ensures
        p == params_of(ch@),
{
    DmxParams {
        r: ch[0],
        g: ch[1],
        b: ch[2],
        base_effect_id: ch[3],
        top_effect_id: ch[4],
        speed: ch[5],
        r2: ch[6],
        g2: ch[7],
        b2: ch[8],
    }
}

/// Channel of a received serial frame where the effect parameters start.
pub const PARAMS_START: usize = 97;

/// The effect parameters in a received serial DMX frame, from PARAMS_START on.
pub fn params_from_frame(frame: &[u8]) -> (p: DmxParams)
    requires
        frame@.len() >= PARAMS_START + 9,
    ensures
        p == params_of(frame@.subrange(97, 106)),
{
    let p = DmxParams {
        r: frame[97],
        g: frame[98],
        b: frame[99],
        base_effect_id: frame[100],
        top_effect_id: frame[101],
        speed: frame[102],
        r2: frame[103],
        g2: frame[104],
        b2: frame[105],
    };
    proof {
        let s = frame@.subrange(97, 106);
        assert(s[0] == frame@[97] && s[8] == frame@[105]);
    }
    p
}

} // verus!
