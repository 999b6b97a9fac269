//! Board configuration: the values `config.jsonc` describes, and the rules
//! that turn its optional fields into a complete port or module description.
use vstd::prelude::*;

verus! {

/// Where the board takes its DMX data from.
#[derive(Clone, Copy, PartialEq, Eq, Debug, Structural)]
pub enum InputProtocol {
    Dmx,
    Artnet,
    Sd,
}

#[derive(Clone, Copy, PartialEq, Eq, Debug, Structural)]
pub struct InputConfig {
    pub source: InputProtocol,
}

#[derive(Clone, Copy, PartialEq, Eq, Debug, Structural)]
pub struct DmxOutputConfig {
    pub universe: u16,
}

#[derive(Clone, Copy, PartialEq, Eq, Debug, Structural)]
pub enum LedProtocol {
    Ws2812,
    Sk6812,
}

#[derive(Clone, Copy, PartialEq, Eq, Debug, Structural)]
pub enum ColorOrder {
    Rgb,
    Rgbw,
    Grb,
    Grbw,
}

#[derive(Clone, Copy, PartialEq, Eq, Debug, Structural)]
pub enum NeoMode {
    SolidColor,
    Generator2D,
}

/// A NeoPixel output that is switched on.
#[derive(Clone, Copy, PartialEq, Eq, Debug, Structural)]
pub struct EnabledPort {
    pub protocol: LedProtocol,
    pub color_order: ColorOrder,
    pub pixel_count: usize,
    pub universe: u16,
    pub start_channel: u16,
    pub mode: NeoMode,
}

#[derive(Clone, Copy, PartialEq, Eq, Debug, Structural)]
pub enum Port {
    Enabled(EnabledPort),
    Disabled { disabled: bool },
}

/// A port as written in the configuration file, every field optional.
#[derive(Clone, Copy, PartialEq, Eq, Debug, Structural)]
pub struct RawPort {
    pub disabled: Option<bool>,
    pub protocol: Option<LedProtocol>,
    pub color_order: Option<ColorOrder>,
    pub pixel_count: Option<usize>,
    pub universe: Option<u16>,
    pub start_channel: Option<u16>,
    pub mode: Option<NeoMode>,
}

/// The configuration field that a port or module lacks.
#[derive(Clone, Copy, PartialEq, Eq, Debug, Structural)]
pub enum Field {
    Type,
    Ports,
    Protocol,
    ColorOrder,
    PixelCount,
    Universe,
    StartChannel,
    Mode,
}

/// Why a port or module description was refused.
#[derive(Clone, Copy, PartialEq, Eq, Debug, Structural)]
pub enum ConfigError {
    MissingField(Field),
}

impl Field {
    /// The field's key in `config.jsonc`.
    pub fn key(&self) -> (r: &'static str)
        ensures
            r@ == field_key(*self),
    {
        match self {
            Field::Type => "type",
            Field::Ports => "ports",
            Field::Protocol => "protocol",
            Field::ColorOrder => "color_order",
            Field::PixelCount => "pixel_count",
            Field::Universe => "universe",
            Field::StartChannel => "start_channel",
            Field::Mode => "mode",
        }
    }
}

pub open spec fn field_key(f: Field) -> Seq<char> {
    match f {
        Field::Type => "type"@,
        Field::Ports => "ports"@,
        Field::Protocol => "protocol"@,
        Field::ColorOrder => "color_order"@,
        Field::PixelCount => "pixel_count"@,
        Field::Universe => "universe"@,
        Field::StartChannel => "start_channel"@,
        Field::Mode => "mode"@,
    }
}

/// A port description: disabled when it says so, otherwise every setting is
/// required, and the first one missing (in declaration order) is reported.
pub open spec fn port_from_raw(raw: RawPort) -> Result<Port, ConfigError> {
    if raw.disabled == Some(true) {
        Ok(Port::Disabled { disabled: true })
    } else if raw.protocol is None {
        Err(ConfigError::MissingField(Field::Protocol))
    } else if raw.color_order is None {
        Err(ConfigError::MissingField(Field::ColorOrder))
    } else if raw.pixel_count is None {
        Err(ConfigError::MissingField(Field::PixelCount))
    } else if raw.universe is None {
        Err(ConfigError::MissingField(Field::Universe))
    } else if raw.start_channel is None {
        Err(ConfigError::MissingField(Field::StartChannel))
    } else if raw.mode is None {
        Err(ConfigError::MissingField(Field::Mode))
    } else {
        Ok(
            Port::Enabled(
                EnabledPort {
                    protocol: raw.protocol->0,
                    color_order: raw.color_order->0,
                    pixel_count: raw.pixel_count->0,
                    universe: raw.universe->0,
                    start_channel: raw.start_channel->0,
                    mode: raw.mode->0,
                },
            ),
        )
    }
}

impl Port {
    /// Builds a port from its configuration fields (see `port_from_raw`).
    pub fn from_raw(raw: RawPort) -> (r: Result<Port, ConfigError>)
        ensures
            r == port_from_raw(raw),
    {
        if raw.disabled == Some(true) {
            return Ok(Port::Disabled { disabled: true });
        }
        let protocol = match raw.protocol {
            Some(v) => v,
            None => return Err(ConfigError::MissingField(Field::Protocol)),
        };
        let color_order = match raw.color_order {
            Some(v) => v,
            None => return Err(ConfigError::MissingField(Field::ColorOrder)),
        };
        let pixel_count = match raw.pixel_count {
            Some(v) => v,
            None => return Err(ConfigError::MissingField(Field::PixelCount)),
        };
        let universe = match raw.universe {
            Some(v) => v,
            None => return Err(ConfigError::MissingField(Field::Universe)),
        };
        let start_channel = match raw.start_channel {
            Some(v) => v,
            None => return Err(ConfigError::MissingField(Field::StartChannel)),
        };
        let mode = match raw.mode {
            Some(v) => v,
            None => return Err(ConfigError::MissingField(Field::Mode)),
        };
        Ok(Port::Enabled(EnabledPort { protocol, color_order, pixel_count, universe, start_channel, mode }))
    }
}

#[derive(Clone, Copy, PartialEq, Eq, Debug)]
pub struct NeoConfig {
    pub ports: [Port; 4],
}

#[derive(Clone, Copy, PartialEq, Eq, Debug, Structural)]
pub struct DimmerConfig {
    pub universe: u16,
    pub start_channel: u16,
}

#[derive(Clone, Copy, PartialEq, Eq, Debug, Structural)]
pub struct FogMachineConfig {
    pub universe: u16,
    pub start_channel: u16,
}

#[derive(Clone, Copy, PartialEq, Eq, Debug, Structural)]
pub struct AudioAmpConfig {
    pub universe: u16,
    pub start_channel: u16,
}

#[derive(Clone, Copy, PartialEq, Eq, Debug, Structural)]
pub struct RfidConfig {
    pub universe: u16,
    pub start_channel: u16,
}

/// What is plugged into one of the four module slots.
#[derive(Clone, Copy, PartialEq, Eq, Debug)]
pub enum ModuleSlot {
    Neo(NeoConfig),
    Dimmer(DimmerConfig),
    FogMachine(FogMachineConfig),
    AudioAmp(AudioAmpConfig),
    Rfid(RfidConfig),
    Disabled { disabled: bool },
}

/// The `type` key of a module slot.
#[derive(Clone, Copy, PartialEq, Eq, Debug, Structural)]
pub enum ModuleType {
    Neo,
    Dimmer,
    FogMachine,
    AudioAmp,
    Rfid,
}

/// A module slot as written in the configuration file, every field optional.
#[derive(Clone, Copy, PartialEq, Eq, Debug)]
pub struct RawModuleSlot {
    pub module_type: Option<ModuleType>,
    pub disabled: Option<bool>,
    pub ports: Option<[Port; 4]>,
    pub universe: Option<u16>,
    pub start_channel: Option<u16>,
}

/// A module slot: disabled when it says so; otherwise `type` is required,
/// a NeoPixel module needs `ports`, and every other module needs `universe`
/// and `start_channel`, checked in that order.
pub open spec fn slot_from_raw(raw: RawModuleSlot) -> Result<ModuleSlot, ConfigError> {
    if raw.disabled == Some(true) {
        Ok(ModuleSlot::Disabled { disabled: true })
    } else if raw.module_type is None {
        Err(ConfigError::MissingField(Field::Type))
    } else if raw.module_type == Some(ModuleType::Neo) {
        if raw.ports is None {
            Err(ConfigError::MissingField(Field::Ports))
        } else {
            Ok(ModuleSlot::Neo(NeoConfig { ports: raw.ports->0 }))
        }
    } else if raw.universe is None {
        Err(ConfigError::MissingField(Field::Universe))
    } else if raw.start_channel is None {
        Err(ConfigError::MissingField(Field::StartChannel))
    } else {
        let (universe, start_channel) = (raw.universe->0, raw.start_channel->0);
        Ok(
            match raw.module_type->0 {
                ModuleType::Dimmer => ModuleSlot::Dimmer(DimmerConfig { universe, start_channel }),
                ModuleType::FogMachine => ModuleSlot::FogMachine(
                    FogMachineConfig { universe, start_channel },
                ),
                ModuleType::AudioAmp => ModuleSlot::AudioAmp(
                    AudioAmpConfig { universe, start_channel },
                ),
                _ => ModuleSlot::Rfid(RfidConfig { universe, start_channel }),
            },
        )
    }
}

impl ModuleSlot {
    /// Builds a module slot from its configuration fields (see `slot_from_raw`).
    pub fn from_raw(raw: RawModuleSlot) -> (r: Result<ModuleSlot, ConfigError>)
        ensures
            r == slot_from_raw(raw),
    {
        if raw.disabled == Some(true) {
            return Ok(ModuleSlot::Disabled { disabled: true });
        }
        let module_type = match raw.module_type {
            Some(t) => t,
            None => return Err(ConfigError::MissingField(Field::Type)),
        };
        match module_type {
            ModuleType::Neo => match raw.ports {
                Some(ports) => Ok(ModuleSlot::Neo(NeoConfig { ports })),
                None => Err(ConfigError::MissingField(Field::Ports)),
            },
            _ => {
                let universe = match raw.universe {
                    Some(v) => v,
                    None => return Err(ConfigError::MissingField(Field::Universe)),
                };
                let start_channel = match raw.start_channel {
                    Some(v) => v,
                    None => return Err(ConfigError::MissingField(Field::StartChannel)),
                };
                match module_type {
                    ModuleType::Dimmer => Ok(ModuleSlot::Dimmer(DimmerConfig { universe, start_channel })),
                    ModuleType::FogMachine => Ok(
                        ModuleSlot::FogMachine(FogMachineConfig { universe, start_channel }),
                    ),
                    ModuleType::AudioAmp => Ok(
                        ModuleSlot::AudioAmp(AudioAmpConfig { universe, start_channel }),
                    ),
                    _ => Ok(ModuleSlot::Rfid(RfidConfig { universe, start_channel })),
                }
            },
        }
    }
}

#[derive(Clone, Copy, PartialEq, Eq, Debug)]
pub struct ModuleContainer {
    pub slot_a: ModuleSlot,
    pub slot_b: ModuleSlot,
    pub slot_c: ModuleSlot,
    pub slot_d: ModuleSlot,
}

#[derive(Clone, Copy, PartialEq, Eq, Debug)]
pub struct BoardInstanceConfig {
    pub input: InputConfig,
    pub dmx_output: DmxOutputConfig,
    pub modules: ModuleContainer,
}

/// The short label of a slot's module on the boot banner.
pub open spec fn module_label(slot: ModuleSlot) -> Seq<char> {
    match slot {
        ModuleSlot::Neo(_) => "Neo"@,
        ModuleSlot::Dimmer(_) => "Dimmer"@,
        ModuleSlot::FogMachine(_) => "Fog"@,
        ModuleSlot::AudioAmp(_) => "Amp"@,
        ModuleSlot::Rfid(_) => "RFID"@,
        ModuleSlot::Disabled { .. } => "X"@,
    }
}

/// The label shown for `module_slot` in the boot banner.
pub fn get_module_str(module_slot: ModuleSlot) -> (r: &'static str)
    ensures
        r@ == module_label(module_slot),
{
    match module_slot {
        ModuleSlot::Neo(_) => "Neo",
        ModuleSlot::Dimmer(_) => "Dimmer",
        ModuleSlot::FogMachine(_) => "Fog",
        ModuleSlot::AudioAmp(_) => "Amp",
        ModuleSlot::Rfid(_) => "RFID",
        ModuleSlot::Disabled { .. } => "X",
    }
}

/// The name of the input shown in the boot banner.
pub open spec fn input_label(p: InputProtocol) -> Seq<char> {
    match p {
        InputProtocol::Dmx => "DMX"@,
        InputProtocol::Artnet => "Art-Net"@,
        InputProtocol::Sd => "SD Card"@,
    }
}

/// The label of the configured input in the boot banner.
pub fn input_str(p: InputProtocol) -> (r: &'static str)
    ensures
        r@ == input_label(p),
{
    match p {
        InputProtocol::Dmx => "DMX",
        InputProtocol::Artnet => "Art-Net",
        InputProtocol::Sd => "SD Card",
    }
}

} // verus!
