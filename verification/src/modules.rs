//! Module slots: which slot drives the dimmer and how its four DMX channels
//! map onto PWM outputs, and the fog machine's relay.
use vstd::prelude::*;
use crate::config::{ModuleSlot, DimmerConfig};

verus! {

/// PWM counter top: duty cycle = DMX value / 256.
pub const PWM_TOP: u16 = 255;
/// Dimmer refresh period.
pub const DIMMER_PERIOD_MS: u64 = 10;
/// Fog relay refresh period.
pub const FOG_PERIOD_MS: u64 = 20;
/// DMX values above this fire the fog machine.
pub const FOG_THRESHOLD: u8 = 127;

/// The four module slots of the board.
#[derive(Clone, Copy, PartialEq, Eq, Debug, Structural)]
pub enum SlotId {
    A,
    B,
    C,
    D,
}

/// One of the two outputs of a PWM slice.
#[derive(Clone, Copy, PartialEq, Eq, Debug, Structural)]
pub enum PwmHalf {
    A,
    B,
}

/// A PWM output: slice and half.
#[derive(Clone, Copy, PartialEq, Eq, Debug, Structural)]
pub struct PwmOutput {
    pub slice: u8,
    pub half: PwmHalf,
}

/// The dimmer to set up: its slot, its DMX address, and the PWM output of
/// each of its four channels, in channel order.
#[derive(Clone, Copy, Debug)]
pub struct DimmerPlan {
    pub slot: SlotId,
    pub settings: DimmerConfig,
    pub outputs: [PwmOutput; 4],
}

/// Where each slot's four dimmer channels come out, as the board is wired.
pub open spec fn slot_outputs(slot: SlotId) -> Seq<PwmOutput> {
    match slot {
        SlotId::D => seq![
            PwmOutput { slice: 1, half: PwmHalf::B },
            PwmOutput { slice: 1, half: PwmHalf::A },
            PwmOutput { slice: 0, half: PwmHalf::B },
            PwmOutput { slice: 0, half: PwmHalf::A },
        ],
        SlotId::A => seq![
            PwmOutput { slice: 2, half: PwmHalf::A },
            PwmOutput { slice: 1, half: PwmHalf::B },
            PwmOutput { slice: 1, half: PwmHalf::A },
            PwmOutput { slice: 8, half: PwmHalf::A },
        ],
        SlotId::B => seq![
            PwmOutput { slice: 4, half: PwmHalf::A },
            PwmOutput { slice: 3, half: PwmHalf::A },
            PwmOutput { slice: 2, half: PwmHalf::B },
            PwmOutput { slice: 8, half: PwmHalf::B },
        ],
        SlotId::C => seq![
            PwmOutput { slice: 7, half: PwmHalf::B },
            PwmOutput { slice: 7, half: PwmHalf::A },
            PwmOutput { slice: 4, half: PwmHalf::B },
            PwmOutput { slice: 3, half: PwmHalf::B },
        ],
    }
}

/// The PWM outputs of `slot`'s dimmer channels 1 to 4.
pub fn dimmer_outputs(slot: SlotId) -> (r: [PwmOutput; 4])
    ensures
        r@ == slot_outputs(slot),
{
    let r = match slot {
        SlotId::D => [
            PwmOutput { slice: 1, half: PwmHalf::B },
            PwmOutput { slice: 1, half: PwmHalf::A },
            PwmOutput { slice: 0, half: PwmHalf::B },
            PwmOutput { slice: 0, half: PwmHalf::A },
        ],
        SlotId::A => [
            PwmOutput { slice: 2, half: PwmHalf::A },
            PwmOutput { slice: 1, half: PwmHalf::B },
            PwmOutput { slice: 1, half: PwmHalf::A },
            PwmOutput { slice: 8, half: PwmHalf::A },
        ],
        SlotId::B => [
            PwmOutput { slice: 4, half: PwmHalf::A },
            PwmOutput { slice: 3, half: PwmHalf::A },
            PwmOutput { slice: 2, half: PwmHalf::B },
            PwmOutput { slice: 8, half: PwmHalf::B },
        ],
        SlotId::C => [
            PwmOutput { slice: 7, half: PwmHalf::B },
            PwmOutput { slice: 7, half: PwmHalf::A },
            PwmOutput { slice: 4, half: PwmHalf::B },
            PwmOutput { slice: 3, half: PwmHalf::B },
        ],
    };
    proof {
        assert(r@ =~= slot_outputs(slot));
    }
    r
}

/// The first slot configured as a dimmer, looking at D, then A, B and C;
/// only one dimmer is set up.
pub open spec fn dimmer_choice(a: ModuleSlot, b: ModuleSlot, c: ModuleSlot, d: ModuleSlot) -> Option<(SlotId, DimmerConfig)> {
    match (a, b, c, d) {
        (_, _, _, ModuleSlot::Dimmer(s)) => Some((SlotId::D, s)),
        (ModuleSlot::Dimmer(s), _, _, _) => Some((SlotId::A, s)),
        (_, ModuleSlot::Dimmer(s), _, _) => Some((SlotId::B, s)),
        (_, _, ModuleSlot::Dimmer(s), _) => Some((SlotId::C, s)),
        _ => None,
    }
}

/// What to set up for the four slots' configurations: the dimmer of the
/// first dimmer slot (see `dimmer_choice`) on its wired outputs, or nothing.
pub fn init_modules(a: &ModuleSlot, b: &ModuleSlot, c: &ModuleSlot, d: &ModuleSlot) -> (r: Option<DimmerPlan>)
    ensures
        match dimmer_choice(*a, *b, *c, *d) {
            Some((slot, settings)) => r matches Some(p) && p.slot == slot && p.settings == settings
                && p.outputs@ == slot_outputs(slot),
            None => r is None,
        },
{
    let choice = match d {
        ModuleSlot::Dimmer(s) => Some((SlotId::D, *s)),
        _ => match a {
            ModuleSlot::Dimmer(s) => Some((SlotId::A, *s)),
            _ => match b {
                ModuleSlot::Dimmer(s) => Some((SlotId::B, *s)),
                _ => match c {
                    ModuleSlot::Dimmer(s) => Some((SlotId::C, *s)),
                    _ => None,
                },
            },
        },
    };
    match choice {
        Some((slot, settings)) => Some(DimmerPlan { slot, settings, outputs: dimmer_outputs(slot) }),
        None => None,
    }
}

/// The compare value each dimmer output gets from its channel's DMX value.
pub fn dimmer_compare(level: u8) -> (c: u16)
    ensures
        c == level as u16,
        c <= PWM_TOP,
{
    level as u16
}

/// The fog relay's line level for a DMX value: high (relay energized, fog
/// machine idle) up to FOG_THRESHOLD, low above it. The relay's contacts are
/// wired the other way round, so releasing it is what fires the fog.
pub fn fog_relay_high(level: u8) -> (high: bool)
    ensures
        high == (level <= FOG_THRESHOLD),
{
    !(level > FOG_THRESHOLD)
}

/// Each dimmer slot drives four distinct PWM outputs.
pub proof fn law_dimmer_outputs_distinct(slot: SlotId, i: int, j: int)
    requires
        0 <= i < 4,
        0 <= j < 4,
        i != j,
    ensures
        slot_outputs(slot)[i] != slot_outputs(slot)[j],
{
}

} // verus!
