use pdmx::config::{ColorOrder, DimmerConfig, EnabledPort, FogMachineConfig, LedProtocol, ModuleSlot, NeoMode};
use pdmx::dmx::{parse_artnet, DmxMatrix, MAX_PIXELS};
use pdmx::dmx_state::{params_from_channels, params_from_frame, DmxParams, PARAMS_START};
use pdmx::fpp::{
    fpp_status, lookup_failed, reply_outcome, request, set_status, start_effect, start_sequence, status_code,
    stop_all_effects, stop_effect, stop_sequence, command_path, Delivery, FppSender, FppStatus, FppWork, Taken,
};
use pdmx::logic::{Action, Clip};
use pdmx::modules::{dimmer_compare, dimmer_outputs, fog_relay_high, init_modules, PwmHalf, PwmOutput, SlotId};
use pdmx::neo::{tick_raw_rgb, tick_solid_color_rgb, tick_solid_color_rgbw, tick_wire_effect_rgb, Rgb8, Rgbw};

fn artnet(universe: u16, data: &[u8]) -> Vec<u8> {
    let mut p = b"Art-Net\0".to_vec();
    p.extend_from_slice(&[0x00, 0x50, 0, 14, 0, 0]);
    p.extend_from_slice(&universe.to_le_bytes());
    p.extend_from_slice(&(data.len() as u16).to_be_bytes());
    p.extend_from_slice(data);
    p
}

fn port(pixels: usize, universe: u16, start: u16) -> EnabledPort {
    EnabledPort {
        protocol: LedProtocol::Ws2812,
        color_order: ColorOrder::Rgb,
        pixel_count: pixels,
        universe,
        start_channel: start,
        mode: NeoMode::SolidColor,
    }
}

#[test]
fn artnet_packet_fills_its_universe() {
    let mut m = DmxMatrix::new();
    assert!(m.apply_artnet(&artnet(2, &[10, 20, 30])));
    assert_eq!(m.read_channels(2, 0, 4), vec![10, 20, 30, 0]);
    assert_eq!(m.read_channels(0, 0, 2), vec![0, 0]);
    // A second packet replaces the universe, zeros after its data.
    assert!(m.apply_artnet(&artnet(2, &[7])));
    assert_eq!(m.read_channels(2, 0, 3), vec![7, 0, 0]);
}

#[test]
fn artnet_refuses_other_packets() {
    let mut m = DmxMatrix::new();
    assert!(!m.apply_artnet(&artnet(4, &[1])));
    let mut bad = artnet(0, &[1]);
    bad[0] = b'X';
    assert!(!m.apply_artnet(&bad));
    let mut poll = artnet(0, &[1]);
    poll[9] = 0x20;
    assert_eq!(parse_artnet(&poll), None);
    assert_eq!(parse_artnet(&artnet(0, &[1])[..17]), None);
    assert_eq!(m.read_channels(0, 0, 1), vec![0]);
}

#[test]
fn artnet_copies_only_what_arrived() {
    let mut p = artnet(1, &[5, 6]);
    // Claims 600 channels, carries 2.
    p[16] = 0x02;
    p[17] = 0x58;
    assert_eq!(parse_artnet(&p), Some((1, 2)));
    let big = artnet(1, &vec![9u8; 600]);
    assert_eq!(parse_artnet(&big), Some((1, 512)));
}

#[test]
fn reads_past_the_universe_are_zero() {
    let mut m = DmxMatrix::new();
    m.apply_artnet(&artnet(0, &vec![1u8; 512]));
    assert_eq!(m.read_channels(0, 510, 4), vec![1, 1, 0, 0]);
    assert_eq!(m.read_channels(9, 0, 2), vec![0, 0]);
    assert_eq!(m.read_channels(0, 600, 2), vec![0, 0]);
}

#[test]
fn serial_frames_and_output() {
    let mut m = DmxMatrix::new();
    let mut frame = vec![0u8; 513];
    frame[1] = 42;
    frame[512] = 43;
    m.apply_dmx_frame(&frame);
    assert_eq!(m.read_channels(0, 0, 1), vec![42]);
    assert_eq!(m.read_channels(0, 511, 1), vec![43]);
    let mut other = frame.clone();
    other[0] = 0xcc;
    other[1] = 99;
    m.apply_dmx_frame(&other);
    assert_eq!(m.read_channels(0, 0, 1), vec![42]);

    let mut out = vec![7u8; 513];
    m.fill_output_frame(0, &mut out);
    assert_eq!(out[0], 0);
    assert_eq!(out[1], 42);
    assert_eq!(out[512], 43);
    let mut untouched = vec![7u8; 513];
    m.fill_output_frame(4, &mut untouched);
    assert_eq!(untouched, vec![7u8; 513]);
}

#[test]
fn effect_parameters() {
    let p = params_from_channels(&[1, 2, 3, 4, 5, 6, 7, 8, 9]);
    assert_eq!(p, DmxParams { r: 1, g: 2, b: 3, base_effect_id: 4, top_effect_id: 5, speed: 6, r2: 7, g2: 8, b2: 9 });
    let mut frame = vec![0u8; 513];
    for k in 0..9 {
        frame[PARAMS_START + k] = 10 + k as u8;
    }
    assert_eq!(params_from_frame(&frame).speed, 15);
    let d = DmxParams::default();
    assert_eq!(d, DmxParams { r: 255, g: 0, b: 0, base_effect_id: 8, top_effect_id: 0, speed: 4, r2: 0, g2: 0, b2: 0 });
}

#[test]
fn solid_and_raw_strips() {
    let mut m = DmxMatrix::new();
    let mut data = vec![0u8; 512];
    for (k, v) in data.iter_mut().enumerate() {
        *v = (k % 256) as u8;
    }
    m.apply_artnet(&artnet(0, &data));
    m.apply_artnet(&artnet(1, &[200, 201, 202]));

    let mut leds = vec![Rgb8 { r: 0, g: 0, b: 0 }; MAX_PIXELS];
    tick_solid_color_rgb(&m, port(3, 0, 10), &mut leds);
    assert_eq!(leds[0], Rgb8 { r: 10, g: 11, b: 12 });
    assert_eq!(leds[2], Rgb8 { r: 10, g: 11, b: 12 });
    assert_eq!(leds[3], Rgb8 { r: 0, g: 0, b: 0 });

    let mut leds4 = vec![Rgbw { r: 0, g: 0, b: 0, w: 0 }; MAX_PIXELS];
    tick_solid_color_rgbw(&m, port(1, 0, 10), &mut leds4);
    assert_eq!(leds4[0], Rgbw { r: 10, g: 11, b: 12, w: 13 });

    // Raw: three channels per pixel, carrying on into the next universe.
    let mut raw = vec![Rgb8 { r: 0, g: 0, b: 0 }; MAX_PIXELS];
    tick_raw_rgb(&m, port(2, 0, 509), &mut raw);
    assert_eq!(raw[0], Rgb8 { r: 253, g: 254, b: 255 });
    assert_eq!(raw[1], Rgb8 { r: 200, g: 201, b: 202 });

    let p = tick_wire_effect_rgb(&m, port(0, 0, 0));
    assert_eq!(p.base_effect_id, 3);
}

#[test]
fn fpp_command_paths() {
    assert_eq!(start_sequence("idle-2026", true), Some(b"/api/command/Start%20Playlist/idle-2026.fseq/true/false".to_vec()));
    assert_eq!(start_effect("my effect/x", false), Some(b"/api/command/FSEQ%20Effect%20Start/my%20effect%2Fx/0/0".to_vec()));
    assert_eq!(stop_effect("a~b.c_d-e"), Some(b"/api/command/Effect%20Stop/a~b.c_d-e".to_vec()));
    assert_eq!(stop_all_effects(), Some(b"/api/command/Effects%20Stop".to_vec()));
    assert_eq!(stop_sequence(), Some(b"/api/playlists/stop".to_vec()));
    assert_eq!(start_sequence(&"x".repeat(200), false), None);
}

#[test]
fn fpp_status_codes() {
    assert_eq!(status_code(b"HTTP/1.1 200 OK"), Some(200));
    assert_eq!(status_code(b"HTTP/1.0 404 Not"), Some(404));
    assert_eq!(status_code(b"HTTP/1.1 20"), None);
    assert_eq!(status_code(b"HTXP/1.1 200 OK"), None);
    assert_eq!(status_code(b"HTTP/1.1 abc OK"), None);
    assert_eq!(status_code(&[0xff, b' ', b'2', b'0', b'0']), None);
}

#[test]
fn fpp_outcomes() {
    assert_eq!(reply_outcome(Ok(204)), (FppStatus::Online, Delivery::Accepted));
    assert_eq!(reply_outcome(Ok(500)), (FppStatus::Rejected, Delivery::Rejected));
    assert_eq!(reply_outcome(Err(())), (FppStatus::NoConn, Delivery::Retry));
    assert_eq!(lookup_failed(), FppStatus::NoHost);
    for s in [FppStatus::Idle, FppStatus::NoHost, FppStatus::NoConn, FppStatus::Online, FppStatus::Rejected] {
        assert_eq!(fpp_status(set_status(s)), s);
    }
    assert_eq!(fpp_status(77), FppStatus::Idle);
}

#[test]
fn fpp_get_request() {
    assert_eq!(
        request(b"/api/playlists/stop", b"fpp.local"),
        Some(b"GET /api/playlists/stop HTTP/1.0\r\nHost: fpp.local\r\nConnection: close\r\n\r\n".to_vec())
    );
    assert_eq!(request(&vec![b'a'; 300], b"fpp.local"), None);
}

#[test]
fn dimmer_slot_choice_and_wiring() {
    let dim = |u| ModuleSlot::Dimmer(DimmerConfig { universe: u, start_channel: 1 });
    let off = ModuleSlot::Disabled { disabled: true };
    let fog = ModuleSlot::FogMachine(FogMachineConfig { universe: 0, start_channel: 0 });
    let p = init_modules(&dim(1), &off, &dim(3), &dim(4)).unwrap();
    assert_eq!(p.slot, SlotId::D);
    assert_eq!(p.settings.universe, 4);
    let p = init_modules(&fog, &dim(2), &dim(3), &off).unwrap();
    assert_eq!(p.slot, SlotId::B);
    assert_eq!(p.outputs[2], PwmOutput { slice: 2, half: PwmHalf::B });
    assert!(init_modules(&fog, &off, &off, &off).is_none());
    assert_eq!(
        dimmer_outputs(SlotId::D),
        [
            PwmOutput { slice: 1, half: PwmHalf::B },
            PwmOutput { slice: 1, half: PwmHalf::A },
            PwmOutput { slice: 0, half: PwmHalf::B },
            PwmOutput { slice: 0, half: PwmHalf::A },
        ]
    );
    assert_eq!(dimmer_compare(200), 200);
}

#[test]
fn fog_relay() {
    assert!(fog_relay_high(0));
    assert!(fog_relay_high(127));
    assert!(!fog_relay_high(128));
    assert!(!fog_relay_high(255));
}

#[test]
fn undelivered_command_is_retried_before_the_next() {
    let mut s = FppSender::new();
    assert_eq!(s.next_work(), FppWork::Receive);
    assert_eq!(s.on_command(Action::Wait { ms: 7500 }), Taken::Hold { ms: 7500 });
    assert_eq!(s.on_command(Action::PressLater { button: 2, ms: 10 }), Taken::Skip);
    assert_eq!(s.next_work(), FppWork::Receive);
    assert_eq!(s.on_command(Action::StopAllEffects), Taken::Deliver);
    assert_eq!(s.current, Some(b"/api/command/Effects%20Stop".to_vec()));
    assert_eq!(s.next_work(), FppWork::Lookup);
    assert_eq!(s.on_lookup(None), Some(FppStatus::NoHost));
    assert_eq!(s.next_work(), FppWork::Lookup);
    assert_eq!(s.on_lookup(Some([169, 254, 1, 2])), None);
    assert_eq!(s.next_work(), FppWork::Send { ip: [169, 254, 1, 2] });
    assert_eq!(s.on_answer(Err(())), (FppStatus::NoConn, Delivery::Retry));
    assert_eq!(s.current, Some(b"/api/command/Effects%20Stop".to_vec()));
    assert_eq!(s.next_work(), FppWork::Lookup);
    assert_eq!(s.on_lookup(Some([169, 254, 1, 3])), None);
    assert_eq!(s.on_answer(Ok(500)), (FppStatus::Rejected, Delivery::Rejected));
    assert_eq!(s.next_work(), FppWork::Receive);
    assert_eq!(s.on_command(Action::StartSequence { clip: Clip::Idle, looping: true }), Taken::Deliver);
    assert_eq!(s.next_work(), FppWork::Send { ip: [169, 254, 1, 3] });
    assert_eq!(s.on_answer(Ok(200)), (FppStatus::Online, Delivery::Accepted));
    assert_eq!(s.current, None);
    assert_eq!(s.next_work(), FppWork::Receive);
}

#[test]
fn show_actions_become_paths() {
    assert_eq!(
        command_path(Action::StartEffect { clip: Clip::Strike, looping: false }),
        Some(b"/api/command/FSEQ%20Effect%20Start/strike-2026-e/0/0".to_vec())
    );
    assert_eq!(
        command_path(Action::StartSequence { clip: Clip::Overload, looping: true }),
        Some(b"/api/command/Start%20Playlist/overload-2026.fseq/true/false".to_vec())
    );
    assert_eq!(command_path(Action::Wait { ms: 1 }), None);
}
