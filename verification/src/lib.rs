//! Verified logic of the PDMX show controller: configuration parsing, the
//! DMX universe buffer and its network/serial inputs, the show-logic state
//! machine, the 433 MHz sensor and remote decoders, FPP and Chataigne
//! command framing, the mDNS responder/resolver and peer discovery, the
//! status page, the LED strips and their render loop, the status display,
//! MP3 buffering, and the module slots.
pub mod heap;
pub mod jsonc;
pub mod text;
pub mod config;
pub mod logic;
pub mod sensors;
pub mod dmx;
pub mod dmx_state;
pub mod neo;
pub mod pulse;
pub mod ask433;
pub mod remote;
pub mod dns;
pub mod mdns;
pub mod discovery;
pub mod fpp;
pub mod tcp_cmds;
pub mod eth;
pub mod resolver;
pub mod http;
pub mod render;
pub mod sd;
pub mod oled;
pub mod modules;
pub mod types;
