use pdmx::config::InputProtocol;
use pdmx::discovery::Discovery;
use pdmx::dmx_state::DmxParams;
use pdmx::eth::net_identity;
use pdmx::fpp::FppStatus;
use pdmx::http::{
    not_found, respond, route, write_json_str, write_page, write_status, Route, StatusInfo, RESPONSE_CAP,
};
use pdmx::logic::State;
use pdmx::mdns::{build_response, names_new, REC_A, REC_PTR, REC_SRV};
use pdmx::neo::Rgb8;
use pdmx::oled::{
    host_label, input_rect, remote_rect, slider, state_label, Frame, PanelSync, PAGES, SLIDER_TRAVEL,
};
use pdmx::render::{
    raw_frame, LedBuffer, RenderState, Transition, CROSSFADE_FRAMES, EFFECT_STILL, NUM_LEDS,
};
use pdmx::sd::{batch_has_room, pack_stereo, DecodeStep, Mp3Buffer, ReadResult, MAX_FRAME_SAMPLES, MP3_BUF_SIZE, OUT_BUF_LEN};

fn info(peers: Vec<pdmx::discovery::Peer>) -> StatusInfo {
    StatusInfo {
        up_secs: 42,
        source: Some(InputProtocol::Artnet),
        input_active: true,
        fpp: FppStatus::Online,
        state: Some(State::Running),
        buttons: [true, false, false, false, false, true],
        fpp_ip: Some([169, 254, 9, 9]),
        peers,
    }
}

fn text(b: &[u8]) -> String {
    String::from_utf8(b.to_vec()).unwrap()
}

#[test]
fn routes() {
    assert_eq!(route(b"GET / HTTP/1.1\r\n"), Route::Page);
    assert_eq!(route(b"GET /status HTTP/1.1\r\n"), Route::Status);
    assert_eq!(route(b"GET /favicon.ico HTTP/1.1"), Route::NotFound);
    assert_eq!(route(b"POST / HTTP/1.1"), Route::NotFound);
    assert_eq!(route(b"GET /"), Route::NotFound);
    assert_eq!(text(&not_found()), "HTTP/1.0 404 Not Found\r\nConnection: close\r\nContent-Length: 0\r\n\r\n");
}

#[test]
fn status_json() {
    let body = text(&write_status(&info(Vec::new())).unwrap());
    let (head, json) = body.split_once("\r\n\r\n").unwrap();
    assert!(head.starts_with("HTTP/1.0 200 OK\r\nContent-Type: application/json"));
    assert_eq!(
        json,
        "{\"up\":42,\"input\":\"Art-Net, receiving data\",\"fppcmd\":\"ok\",\"state\":\"Running\",\"buttons\":[true,false,false,false,false,true],\"fpp\":\"169.254.9.9\",\"peers\":[]}"
    );
    let mut i = info(Vec::new());
    i.source = None;
    i.state = None;
    i.fpp_ip = None;
    i.fpp = FppStatus::NoHost;
    let body = text(&write_status(&i).unwrap());
    assert!(body.ends_with(
        "{\"up\":42,\"input\":\"unknown\",\"fppcmd\":\"host not found, retrying\",\"state\":\"starting\",\"buttons\":[true,false,false,false,false,true],\"fpp\":null,\"peers\":[]}"
    ));
    let mut i = info(Vec::new());
    i.input_active = false;
    assert!(text(&write_status(&i).unwrap()).contains("\"input\":\"Art-Net, no data\""));
    i.source = Some(InputProtocol::Dmx);
    assert!(text(&write_status(&i).unwrap()).contains("\"input\":\"DMX\""));
}

#[test]
fn status_lists_peers() {
    let other = names_new(b"pdmx-0001", b"PDMX \"CONTROLLER\" 0001");
    let resp = build_response(&other, [169, 254, 1, 2], REC_A | REC_PTR | REC_SRV, 0, 512).unwrap();
    let mut d = Discovery::new();
    d.apply_response(&resp, b"PDMX Controller 0002", 10);
    let body = text(&write_status(&info(d.peers(10))).unwrap());
    assert!(body.ends_with(
        "\"peers\":[{\"n\":\"PDMX \\\"CONTROLLER\\\" 0001\",\"h\":\"pdmx-0001.local\",\"ip\":\"169.254.1.2\"}]}"
    ));
}

#[test]
fn json_strings_are_escaped() {
    let mut out = Vec::new();
    write_json_str(&mut out, b"a\"b\\c\nd\x01\xc3\xa9");
    assert_eq!(out, b"\"a\\\"b\\\\c\\u000ad\\u0001\xc3\xa9\"".to_vec());
}

#[test]
fn page_names_the_board() {
    let id = net_identity(0x0011_2233_4455_6677);
    let page = text(&write_page(&id).unwrap());
    assert!(page.starts_with("HTTP/1.0 200 OK\r\nContent-Type: text/html; charset=utf-8\r\nConnection: close\r\n\r\n<!doctype html>"));
    assert!(page.contains("<title>PDMX Controller 6677</title>"));
    assert!(page.contains("<p>pdmx-6677.local &middot; 169.254.156.191</p>"));
    assert!(page.contains("<p>FPP (fpp.local): <span id=f></span></p>"));
    assert!(page.ends_with("</script>"));
    assert!(page.len() <= RESPONSE_CAP);
}

#[test]
fn respond_picks_the_reply() {
    let id = net_identity(1);
    let i = info(Vec::new());
    assert_eq!(respond(b"GET /nope HTTP/1.0", &id, &i), Some(not_found()));
    assert_eq!(respond(b"GET /status HTTP/1.0", &id, &i), write_status(&i));
    assert_eq!(respond(b"GET / HTTP/1.0", &id, &i), write_page(&id));
}

#[test]
fn render_crossfade_and_offsets() {
    let mut s = RenderState::new();
    assert_eq!(s.transition, Transition::Stable);
    let plan = s.frame();
    assert_eq!(plan.intensity, 255);
    assert!(plan.blend.is_none());
    assert_eq!((s.base_offset, s.top_offset), (4, 4));

    let new = DmxParams { r: 10, g: 100, b: 50, base_effect_id: 1, top_effect_id: 0, speed: 40, r2: 0, g2: 0, b2: 0 };
    s.take_params(new);
    assert!(matches!(s.transition, Transition::Crossfading { progress: 0, duration: 25, .. }));
    let first = s.frame();
    assert_eq!((s.base_offset, s.top_offset), (19, 19));
    assert_eq!(first.blend.unwrap().1, 10);
    assert_eq!(first.intensity, (255 * (256 - 10) + 100 * 10) / 256);
    let mut last = first;
    for _ in 1..CROSSFADE_FRAMES {
        last = s.frame();
    }
    assert_eq!(last.blend.unwrap().1, 256);
    assert_eq!(last.intensity, 100);
    assert_eq!(s.transition, Transition::Stable);

    // Same effects: no crossfade.
    s.take_params(DmxParams { r: 1, ..new });
    assert_eq!(s.transition, Transition::Stable);

    // A still effect keeps its offsets.
    s.take_params(DmxParams { base_effect_id: EFFECT_STILL, ..new });
    let before = (s.base_offset, s.top_offset);
    s.frame();
    assert_eq!((s.base_offset, s.top_offset), before);
}

#[test]
fn render_offsets_wrap() {
    let mut s = RenderState::new();
    s.take_params(DmxParams { speed: 0, ..DmxParams::default() });
    s.base_offset = 255;
    s.frame();
    assert_eq!(s.base_offset, 0);
}

#[test]
fn led_buffer_scaling_and_raw_mode() {
    let mut b = LedBuffer::new(false);
    b.write_to_buffer(0, Rgb8 { r: 255, g: 128, b: 0 }, 128);
    b.write_to_buffer(1, Rgb8 { r: 255, g: 255, b: 255 }, 0);
    b.write_to_buffer(NUM_LEDS, Rgb8 { r: 1, g: 1, b: 1 }, 255);
    match &b {
        LedBuffer::Rgb(v) => {
            assert_eq!(v.len(), NUM_LEDS);
            assert_eq!(v[0], Rgb8 { r: 128, g: 64, b: 0 });
            assert_eq!(v[1], Rgb8 { r: 0, g: 0, b: 0 });
        }
        _ => panic!("wrong kind"),
    }
    let mut w = LedBuffer::new(true);
    let mut raw = vec![0u8; 2048];
    raw[0] = 9;
    raw[1] = 8;
    raw[2] = 7;
    raw[3 * (NUM_LEDS - 1) + 2] = 5;
    raw_frame(&mut w, &raw);
    match &w {
        LedBuffer::Rgbw(v) => {
            assert_eq!((v[0].r, v[0].g, v[0].b, v[0].w), (9, 8, 7, 0));
            assert_eq!(v[NUM_LEDS - 1].b, 5);
        }
        _ => panic!("wrong kind"),
    }
    // A short buffer leaves the pixels it cannot fill alone.
    let mut s = LedBuffer::new(false);
    s.write_to_buffer(1, Rgb8 { r: 3, g: 3, b: 3 }, 255);
    raw_frame(&mut s, &[1, 2, 3, 4]);
    match &s {
        LedBuffer::Rgb(v) => {
            assert_eq!(v[0], Rgb8 { r: 1, g: 2, b: 3 });
            assert_eq!(v[1], Rgb8 { r: 3, g: 3, b: 3 });
        }
        _ => panic!("wrong kind"),
    }
}

#[test]
fn frame_pixels_read_back() {
    let mut f = Frame::new();
    f.set_pixel(5, 9, true);
    f.set_pixel(127, 63, true);
    f.set_pixel(128, 0, true);
    f.set_pixel(-1, 0, true);
    let p1 = f.page(1);
    assert_eq!(p1[5], 0b10);
    assert_eq!(f.page(7)[127], 0x80);
    f.set_pixel(5, 9, false);
    assert_eq!(f.page(1)[5], 0);
    f.set_pixel(0, 0, true);
    f.clear();
    assert_eq!(f.page(0), vec![0u8; 128]);
}

#[test]
fn only_changed_pages_are_sent() {
    let mut panel = PanelSync::new();
    let mut f = Frame::new();
    for p in 0..PAGES {
        assert!(panel.page_needs_send(&f, p));
        panel.sent(&f, p);
        assert!(!panel.page_needs_send(&f, p));
    }
    f.set_pixel(10, 60, true);
    assert!(panel.page_needs_send(&f, 7));
    assert!(!panel.page_needs_send(&f, 6));
    let mut copy = Frame::new();
    copy.copy_page(&f, 7);
    assert!(copy.same_page(&f, 7));
    panel.failed();
    for p in 0..PAGES {
        assert!(panel.page_needs_send(&f, p));
    }
}

#[test]
fn slider_bounces() {
    assert_eq!(slider(0, 1), (2, 1));
    assert_eq!(slider(SLIDER_TRAVEL - 1, 1), (SLIDER_TRAVEL, -1));
    assert_eq!(slider(SLIDER_TRAVEL, -1), (SLIDER_TRAVEL - 2, -1));
    assert_eq!(slider(1, -1), (0, 1));
}

#[test]
fn display_layout_and_labels() {
    assert_eq!(input_rect(0), (0, 56, 20, 6));
    assert_eq!(input_rect(5), (105, 56, 20, 6));
    assert_eq!(remote_rect(3), (96, 49, 31, 6));
    assert_eq!(state_label(Some(State::Overload)), "OVERLOAD");
    assert_eq!(state_label(None), "...");
    assert_eq!(host_label(Some(b"pdmx-00A1")), b"pdmx-00A1".to_vec());
    assert_eq!(host_label(None), b"no eth".to_vec());
}

#[test]
fn mp3_buffer_refill_decode_and_resync() {
    let mut b = Mp3Buffer::new();
    assert!(b.wants_data(false));
    assert!(!b.wants_data(true));
    let data = vec![1u8, 2, 3, 4, 5];
    assert!(!b.took(ReadResult::Data(3), &data));
    assert_eq!(b.contents(), &[1, 2, 3]);
    assert_eq!(b.room(), MP3_BUF_SIZE - 3);
    // Nothing decoded, more may come: wait.
    assert_eq!(b.after_decode(0, false, false), DecodeStep::Wait);
    assert_eq!(b.len(), 3);
    // Decoded two bytes.
    assert_eq!(b.after_decode(2, true, false), DecodeStep::Advanced);
    assert_eq!(b.contents(), &[3]);
    // End of file and nothing decodes: skip a byte.
    assert!(b.took(ReadResult::End, &[]));
    assert!(b.took(ReadResult::Failed, &[]));
    assert_eq!(b.after_decode(0, false, true), DecodeStep::Advanced);
    assert_eq!(b.len(), 0);
    assert!(b.took(ReadResult::Data(0), &data));
}

#[test]
fn full_buffer_resyncs_without_eof() {
    let mut b = Mp3Buffer::new();
    let data = vec![0u8; MP3_BUF_SIZE];
    b.took(ReadResult::Data(MP3_BUF_SIZE), &data);
    assert!(!b.wants_data(false));
    assert_eq!(b.after_decode(0, false, false), DecodeStep::Advanced);
    assert_eq!(b.len(), MP3_BUF_SIZE - 1);
}

#[test]
fn i2s_words_and_batches() {
    assert_eq!(pack_stereo(0x1234, 0xabcd), 0x1234_abcd);
    assert_eq!(pack_stereo(0xffff, 0), 0xffff_0000);
    assert!(batch_has_room(0, OUT_BUF_LEN));
    assert!(batch_has_room(OUT_BUF_LEN - MAX_FRAME_SAMPLES, OUT_BUF_LEN));
    assert!(!batch_has_room(OUT_BUF_LEN - MAX_FRAME_SAMPLES + 1, OUT_BUF_LEN));
    assert!(!batch_has_room(OUT_BUF_LEN + 1, OUT_BUF_LEN));
}

#[test]
fn raw_mode_copies_universe_bytes_to_every_pixel() {
    let raw: Vec<u8> = (0..2048u32).map(|k| (k * 7 % 251) as u8).collect();
    let mut b = LedBuffer::new(false);
    b.write_to_buffer(5, Rgb8 { r: 1, g: 1, b: 1 }, 255);
    raw_frame(&mut b, &raw);
    match &b {
        LedBuffer::Rgb(v) => {
            assert_eq!(v.len(), NUM_LEDS);
            for (i, px) in v.iter().enumerate() {
                assert_eq!(*px, Rgb8 { r: raw[3 * i], g: raw[3 * i + 1], b: raw[3 * i + 2] });
            }
        }
        _ => panic!("wrong kind"),
    }
}
