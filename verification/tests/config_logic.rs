use pdmx::config::{
    get_module_str, input_str, ColorOrder, ConfigError, DimmerConfig, Field, InputProtocol, LedProtocol,
    ModuleSlot, ModuleType, NeoConfig, NeoMode, Port, RawModuleSlot, RawPort, EnabledPort,
};
use pdmx::jsonc::strip_jsonc_comments;
use pdmx::logic::{clip_name, on_boot, on_button_pressed, Action, Clip, State, STARTUP_MS, STRIKE_MS};

fn full_raw_port() -> RawPort {
    RawPort {
        disabled: None,
        protocol: Some(LedProtocol::Ws2812),
        color_order: Some(ColorOrder::Grb),
        pixel_count: Some(60),
        universe: Some(1),
        start_channel: Some(10),
        mode: Some(NeoMode::SolidColor),
    }
}

#[test]
fn strip_removes_line_and_block_comments() {
    let out = strip_jsonc_comments("{ // note\n\"a\": 1 /* x */ }").unwrap();
    assert_eq!(out.as_str(), "{ \n\"a\": 1   }");
}

#[test]
fn strip_keeps_comment_markers_inside_strings() {
    let out = strip_jsonc_comments("{\"url\": \"http://x/*y*/\"}").unwrap();
    assert_eq!(out.as_str(), "{\"url\": \"http://x/*y*/\"}");
}

#[test]
fn strip_keeps_escaped_quotes_inside_strings() {
    let out = strip_jsonc_comments("\"a\\\"//b\" // c").unwrap();
    assert_eq!(out.as_str(), "\"a\\\"//b\" ");
}

#[test]
fn strip_keeps_lone_slash() {
    let out = strip_jsonc_comments("1/2").unwrap();
    assert_eq!(out.as_str(), "1/2");
    let out = strip_jsonc_comments("1/").unwrap();
    assert_eq!(out.as_str(), "1/");
}

#[test]
fn stripping_twice_changes_nothing() {
    for input in ["{ // a\n\"k\": \"/*v*/\" /* b */ }", "x/ /*c*/ /", "a//b\n/\"q\"", "\"\\\"//\" /"] {
        let once = strip_jsonc_comments(input).unwrap();
        let twice = strip_jsonc_comments(once.as_str()).unwrap();
        assert_eq!(once.as_str(), twice.as_str());
    }
}

#[test]
fn strip_fails_on_unclosed_block_comment() {
    assert!(strip_jsonc_comments("{ /* never closed }").is_err());
}

#[test]
fn strip_fails_when_result_too_long() {
    let long = "x".repeat(8193);
    assert!(strip_jsonc_comments(&long).is_err());
    let fits = "x".repeat(8192);
    assert_eq!(strip_jsonc_comments(&fits).unwrap().len(), 8192);
}

#[test]
fn port_from_raw_complete() {
    let p = Port::from_raw(full_raw_port()).unwrap();
    assert_eq!(
        p,
        Port::Enabled(EnabledPort {
            protocol: LedProtocol::Ws2812,
            color_order: ColorOrder::Grb,
            pixel_count: 60,
            universe: 1,
            start_channel: 10,
            mode: NeoMode::SolidColor,
        })
    );
}

#[test]
fn port_from_raw_disabled_needs_nothing_else() {
    let raw = RawPort {
        disabled: Some(true),
        protocol: None,
        color_order: None,
        pixel_count: None,
        universe: None,
        start_channel: None,
        mode: None,
    };
    assert_eq!(Port::from_raw(raw), Ok(Port::Disabled { disabled: true }));
}

#[test]
fn port_from_raw_reports_first_missing_field() {
    let mut raw = full_raw_port();
    raw.pixel_count = None;
    raw.mode = None;
    assert_eq!(Port::from_raw(raw), Err(ConfigError::MissingField(Field::PixelCount)));
    let mut raw = full_raw_port();
    raw.protocol = None;
    assert_eq!(Port::from_raw(raw), Err(ConfigError::MissingField(Field::Protocol)));
    let mut raw = full_raw_port();
    raw.color_order = None;
    assert_eq!(Port::from_raw(raw), Err(ConfigError::MissingField(Field::ColorOrder)));
    let mut raw = full_raw_port();
    raw.universe = None;
    assert_eq!(Port::from_raw(raw), Err(ConfigError::MissingField(Field::Universe)));
    let mut raw = full_raw_port();
    raw.start_channel = None;
    assert_eq!(Port::from_raw(raw), Err(ConfigError::MissingField(Field::StartChannel)));
    let mut raw = full_raw_port();
    raw.mode = None;
    assert_eq!(Port::from_raw(raw), Err(ConfigError::MissingField(Field::Mode)));
    let mut raw = full_raw_port();
    raw.disabled = Some(false);
    assert!(Port::from_raw(raw).is_ok());
}

#[test]
fn module_slot_from_raw() {
    let dimmer = RawModuleSlot {
        module_type: Some(ModuleType::Dimmer),
        disabled: None,
        ports: None,
        universe: Some(0),
        start_channel: Some(5),
    };
    assert_eq!(ModuleSlot::from_raw(dimmer), Ok(ModuleSlot::Dimmer(DimmerConfig { universe: 0, start_channel: 5 })));

    let untyped = RawModuleSlot { module_type: None, ..dimmer };
    assert_eq!(ModuleSlot::from_raw(untyped), Err(ConfigError::MissingField(Field::Type)));

    let neo_no_ports = RawModuleSlot { module_type: Some(ModuleType::Neo), ..dimmer };
    assert_eq!(ModuleSlot::from_raw(neo_no_ports), Err(ConfigError::MissingField(Field::Ports)));

    let ports = [Port::Disabled { disabled: true }; 4];
    let neo = RawModuleSlot { module_type: Some(ModuleType::Neo), ports: Some(ports), ..dimmer };
    assert_eq!(ModuleSlot::from_raw(neo), Ok(ModuleSlot::Neo(NeoConfig { ports })));

    let fog_no_universe = RawModuleSlot { module_type: Some(ModuleType::FogMachine), universe: None, ..dimmer };
    assert_eq!(ModuleSlot::from_raw(fog_no_universe), Err(ConfigError::MissingField(Field::Universe)));

    let amp_no_start = RawModuleSlot { module_type: Some(ModuleType::AudioAmp), start_channel: None, ..dimmer };
    assert_eq!(ModuleSlot::from_raw(amp_no_start), Err(ConfigError::MissingField(Field::StartChannel)));

    let off = RawModuleSlot { disabled: Some(true), module_type: None, ..dimmer };
    assert_eq!(ModuleSlot::from_raw(off), Ok(ModuleSlot::Disabled { disabled: true }));
}

#[test]
fn field_keys() {
    assert_eq!(Field::PixelCount.key(), "pixel_count");
    assert_eq!(Field::StartChannel.key(), "start_channel");
    assert_eq!(Field::Type.key(), "type");
}

#[test]
fn module_and_input_labels() {
    assert_eq!(get_module_str(ModuleSlot::Dimmer(DimmerConfig { universe: 0, start_channel: 0 })), "Dimmer");
    assert_eq!(get_module_str(ModuleSlot::Disabled { disabled: true }), "X");
    assert_eq!(input_str(InputProtocol::Artnet), "Art-Net");
    assert_eq!(input_str(InputProtocol::Sd), "SD Card");
}

#[test]
fn boot_goes_idle() {
    let (state, actions) = on_boot();
    assert_eq!(state, State::Idle);
    assert_eq!(
        actions,
        vec![Action::StopAllEffects, Action::StartSequence { clip: Clip::Idle, looping: true }]
    );
}

#[test]
fn show_runs_through_its_states() {
    let mut state = State::Idle;
    let a = on_button_pressed(1, &mut state);
    assert_eq!(state, State::Running);
    assert_eq!(
        a,
        vec![
            Action::StartEffect { clip: Clip::Startup, looping: false },
            Action::PressLater { button: 2, ms: STARTUP_MS },
        ]
    );
    let a = on_button_pressed(2, &mut state);
    assert_eq!(state, State::Overload);
    assert_eq!(
        a,
        vec![
            Action::StartEffect { clip: Clip::Strike, looping: false },
            Action::Wait { ms: STRIKE_MS },
            Action::StartSequence { clip: Clip::Overload, looping: true },
        ]
    );
    let a = on_button_pressed(3, &mut state);
    assert_eq!(state, State::Overload);
    assert_eq!(a, vec![Action::StartEffect { clip: Clip::Frank, looping: false }]);
    let a = on_button_pressed(4, &mut state);
    assert_eq!(state, State::Idle);
    assert_eq!(a, vec![Action::StopAllEffects, Action::StartSequence { clip: Clip::Idle, looping: true }]);
}

#[test]
fn presses_out_of_turn_do_nothing() {
    let mut state = State::Idle;
    assert!(on_button_pressed(2, &mut state).is_empty());
    assert!(on_button_pressed(3, &mut state).is_empty());
    assert!(on_button_pressed(4, &mut state).is_empty());
    assert!(on_button_pressed(6, &mut state).is_empty());
    assert_eq!(state, State::Idle);
    let mut state = State::Running;
    assert!(on_button_pressed(1, &mut state).is_empty());
    assert_eq!(state, State::Running);
}

#[test]
fn clip_names() {
    assert_eq!(clip_name(Clip::Idle), "idle-2026");
    assert_eq!(clip_name(Clip::Strike), "strike-2026-e");
    assert_eq!(STARTUP_MS, 7500);
    assert_eq!(STRIKE_MS, 1800);
}

#[test]
fn going_idle_appends_its_commands() {
    let mut actions = vec![Action::Wait { ms: 5 }];
    let s = pdmx::logic::go_idle(&mut actions);
    assert_eq!(s, State::Idle);
    assert_eq!(
        actions,
        vec![
            Action::Wait { ms: 5 },
            Action::StopAllEffects,
            Action::StartSequence { clip: Clip::Idle, looping: true },
        ]
    );
}
