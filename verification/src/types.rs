//! The board description as plain data: input source, DMX output universe,
//! and what sits in each of the four module slots.
use vstd::prelude::*;

verus! {

#[derive(Copy, Clone, PartialEq, Eq, Debug, Structural)]
pub enum ColorOrder {
    Rgb,
    Rgbw,
    Grb,
    Grbw,
}

#[derive(Copy, Clone, PartialEq, Eq, Debug, Structural)]
pub enum LedProtocol {
    Ws2812,
}

#[derive(Copy, Clone, PartialEq, Eq, Debug, Structural)]
pub struct PortSettings {
    pub protocol: LedProtocol,
    pub color_order: ColorOrder,
    pub pixel_count: usize,
    pub universe: usize,
    pub start_channel: usize,
}

#[derive(Copy, Clone, PartialEq, Eq, Debug, Structural)]
pub enum Port {
    Disabled,
    Enabled(PortSettings),
}

/// The NeoPixel module, with its four ports.
#[derive(Copy, Clone, PartialEq, Debug)]
pub struct NeoConfig {
    pub ports: [Port; 4],
}

#[derive(Copy, Clone, PartialEq, Eq, Debug, Structural)]
pub struct DimmerConfig {
    pub universe: usize,
    pub start_channel: usize,
}

#[derive(Copy, Clone, PartialEq, Eq, Debug, Structural)]
pub struct FogMachineConfig {
    pub universe: usize,
    pub start_channel: usize,
}

#[derive(Copy, Clone, PartialEq, Debug)]
pub enum ModuleType {
    Empty,
    NeoModule(NeoConfig),
    DimmerModule(DimmerConfig),
    FogMachine(FogMachineConfig),
}

/// Settings of the wired DMX input (none so far).
#[derive(Copy, Clone, PartialEq, Eq, Debug, Structural)]
pub struct DmxSettings {}

/// Settings of the Art-Net input.
#[derive(Copy, Clone, PartialEq, Eq, Debug, Structural)]
pub struct ArtNetSettings {
    pub universe: u16,
}

#[derive(Copy, Clone, PartialEq, Eq, Debug, Structural)]
pub enum InputSource {
    DmxRs485(DmxSettings),
    ArtNet(ArtNetSettings),
}

pub struct BoardInstanceConfig {
    pub active_input: InputSource,
    pub dmx_output_universe: usize,
    pub slot_a: ModuleType,
    pub slot_b: ModuleType,
    pub slot_c: ModuleType,
    pub slot_d: ModuleType,
}

} // verus!
