use pdmx::ask433::{known_sensors, memory_ok, new_sensor_memory, receive_frame, KnownSensor, SensorEvent, SensorKind};
use pdmx::logic::{Action, Clip, State, STARTUP_MS};
use pdmx::pulse::{split_frame, saturating_mul_u32, PulseDecoder};
use pdmx::remote::{handle_frame as remote_frame, remote_buttons, RemoteEvent, REPEAT_WINDOW_MS};
use pdmx::sensors::{
    press, press_remote, remote_index, sensor_pressed, FppWatch, Panel, Press, Wake, WatchStep,
};

#[test]
fn presses_and_remote_indices() {
    assert_eq!(press(3), Press::Input(3));
    assert_eq!(press_remote('B'), Press::Remote('B'));
    assert_eq!(remote_index('A'), Some(0));
    assert_eq!(remote_index('D'), Some(3));
    assert_eq!(remote_index('E'), None);
}

#[test]
fn wired_input_levels() {
    assert!(sensor_pressed(true, false));
    assert!(!sensor_pressed(false, false));
    assert!(sensor_pressed(false, true));
    assert!(!sensor_pressed(true, true));
}

#[test]
fn panel_inputs_and_remote_hold() {
    let mut p = Panel::new();
    assert!(!p.button_active(1));
    assert!(p.set_input(1, true));
    assert!(!p.set_input(1, true));
    assert!(p.button_active(1));
    assert!(!p.set_input(1, false));
    assert!(!p.button_active(1));
    assert!(!p.button_active(7));

    assert!(!p.remote_active('A', 1000));
    p.remote_seen('A', 1000);
    assert!(p.remote_active('A', 1200));
    assert!(!p.remote_active('A', 1500));
    assert!(!p.remote_active('B', 1200));
}

#[test]
fn timer_press_strikes_and_state_change_cancels_it() {
    let mut p = Panel::new();
    assert_eq!(p.logic_state(), None);
    let boot = p.boot();
    assert_eq!(boot, vec![Action::StopAllEffects, Action::StartSequence { clip: Clip::Idle, looping: true }]);
    assert_eq!(p.logic_state(), Some(State::Idle));

    // Button 1 starts the show and schedules the strike.
    let a = p.handle(Wake::Pressed(Press::Input(1)), 10_000);
    assert_eq!(a, vec![Action::StartEffect { clip: Clip::Startup, looping: false }]);
    assert_eq!(p.scheduled(), Some((2, 10_000 + STARTUP_MS)));
    assert_eq!(p.logic_state(), Some(State::Running));

    // The timer fires the strike.
    let a = p.handle(Wake::Timer, 17_500);
    assert_eq!(a.len(), 3);
    assert_eq!(p.logic_state(), Some(State::Overload));
    assert_eq!(p.scheduled(), None);

    // Reset, start again, and reset before the timer: the strike is cancelled.
    p.handle(Wake::Pressed(Press::Input(4)), 20_000);
    p.handle(Wake::Pressed(Press::Input(1)), 21_000);
    assert_eq!(p.scheduled(), Some((2, 21_000 + STARTUP_MS)));
    p.handle(Wake::Pressed(Press::Input(4)), 22_000);
    assert_eq!(p.scheduled(), None);
    assert_eq!(p.logic_state(), Some(State::Idle));
}

#[test]
fn remote_and_fpp_presses_change_nothing() {
    let mut p = Panel::new();
    p.boot();
    assert!(p.handle(Wake::Pressed(Press::Remote('A')), 1).is_empty());
    assert!(p.handle(Wake::Pressed(Press::FppOnline), 2).is_empty());
    assert_eq!(p.logic_state(), Some(State::Idle));
}

#[test]
fn fpp_watch_reports_each_appearance_once() {
    let mut w = FppWatch::new();
    assert_eq!(w.observe(false), WatchStep::Unchanged);
    assert_eq!(w.observe(true), WatchStep::Settle);
    assert!(w.settled(true));
    assert_eq!(w.observe(true), WatchStep::Unchanged);
    assert_eq!(w.observe(false), WatchStep::Lost);
    assert_eq!(w.observe(true), WatchStep::Settle);
    assert!(!w.settled(false));
    assert_eq!(w.observe(true), WatchStep::Settle);
}

fn feed_frame(d: &mut PulseDecoder, code: u32) -> Option<u32> {
    // Sync, 24 bits (1 = long high), then the next sync completes the frame.
    assert_eq!(d.step(300, 9000, true), None);
    for k in (0..24).rev() {
        let bit = (code >> k) & 1;
        let r = if bit == 1 { d.step(900, 300, true) } else { d.step(300, 900, true) };
        assert_eq!(r, None);
    }
    d.step(300, 9000, true)
}

#[test]
fn decoder_reports_24_bit_frames() {
    let mut d = PulseDecoder::new();
    assert_eq!(feed_frame(&mut d, 0x87e5a6), Some(0x87e5a6));
    assert_eq!(split_frame(0x87e5a6), (0x87e5a, 6));
}

#[test]
fn glitch_drops_the_frame() {
    let mut d = PulseDecoder::new();
    assert_eq!(d.step(300, 9000, true), None);
    for _ in 0..10 {
        d.step(900, 300, true);
    }
    assert_eq!(d.step(20, 300, true), None);
    assert!(!d.collecting);
    for _ in 0..14 {
        d.step(900, 300, true);
    }
    assert_eq!(d.step(300, 9000, true), None);
}

#[test]
fn saturating_multiply() {
    assert_eq!(saturating_mul_u32(1000, 8), 8000);
    assert_eq!(saturating_mul_u32(u32::MAX / 2, 8), u32::MAX);
}

#[test]
fn door_sensor_and_fob_frames() {
    let table = known_sensors();
    let mut mem = new_sensor_memory();
    let mut statuses = vec![false; 6];

    // BOX1 opens: new, stored.
    let ev = receive_frame(&table, &mut mem, &mut statuses, 0x87e5a6, 1000);
    assert_eq!(ev, Some(SensorEvent::Changed { sensor: 0, open: true }));
    assert!(statuses[0]);
    // Same value again soon: a repeat.
    let ev = receive_frame(&table, &mut mem, &mut statuses, 0x87e5a6, 1500);
    assert_eq!(ev, Some(SensorEvent::Repeated { sensor: 0 }));
    // Closed.
    let ev = receive_frame(&table, &mut mem, &mut statuses, 0x87e5a9, 1600);
    assert_eq!(ev, Some(SensorEvent::Changed { sensor: 0, open: false }));
    assert!(!statuses[0]);
    // Garbled data of a known address, and an unknown address.
    let ev = receive_frame(&table, &mut mem, &mut statuses, 0x87e5a3, 1700);
    assert_eq!(ev, Some(SensorEvent::Garbled { address: 0x87e5a, data: 3 }));
    let ev = receive_frame(&table, &mut mem, &mut statuses, 0x123456, 1800);
    assert_eq!(ev, Some(SensorEvent::Unknown { address: 0x12345, data: 6 }));

    // Fob A: its flag goes true on a click and stays true.
    let ev = receive_frame(&table, &mut mem, &mut statuses, 0x3fcad8, 2000);
    assert_eq!(ev, Some(SensorEvent::Changed { sensor: 2, open: true }));
    assert!(statuses[2]);
    let ev = receive_frame(&table, &mut mem, &mut statuses, 0x3fcad8, 2100);
    assert_eq!(ev, Some(SensorEvent::Repeated { sensor: 2 }));
    let ev = receive_frame(&table, &mut mem, &mut statuses, 0x3fcad8, 2700);
    assert_eq!(ev, Some(SensorEvent::Changed { sensor: 2, open: true }));
    assert!(statuses[2]);
}

#[test]
fn door_repeat_goes_stale() {
    let table = known_sensors();
    let mut mem = new_sensor_memory();
    let mut statuses = vec![false; 6];
    receive_frame(&table, &mut mem, &mut statuses, 0x87e5a6, 1000);
    let ev = receive_frame(&table, &mut mem, &mut statuses, 0x87e5a6, 4000);
    assert_eq!(ev, Some(SensorEvent::Changed { sensor: 0, open: true }));
}

#[test]
fn sensor_kinds_resolve() {
    let door = SensorKind::DoorSensor { open_data: 6, closed_data: 9 };
    assert_eq!(door.resolve(6), Some(true));
    assert_eq!(door.resolve(9), Some(false));
    assert_eq!(door.resolve(1), None);
    let b = KnownSensor::button(1, "B", 4, 0);
    assert_eq!(b.kind.resolve(4), Some(true));
    assert_eq!(b.kind.resolve(8), None);
    let d = KnownSensor::door(2, "D", 6, 9, 1);
    assert_eq!(d.kind, door);
}

#[test]
fn remote_hold_is_one_press() {
    let t = remote_buttons();
    let mut last = None;
    let ev = remote_frame(&t, &mut last, 0x3fcad8, 100);
    assert_eq!(ev, RemoteEvent::Seen { input: 1, new_press: true });
    let ev = remote_frame(&t, &mut last, 0x3fcad8, 100 + REPEAT_WINDOW_MS - 1);
    assert_eq!(ev, RemoteEvent::Seen { input: 1, new_press: false });
    let ev = remote_frame(&t, &mut last, 0x3fcad3, 700);
    assert_eq!(ev, RemoteEvent::Unmapped);
    let ev = remote_frame(&t, &mut last, 0x3fcad8, 100 + 2 * REPEAT_WINDOW_MS);
    assert_eq!(ev, RemoteEvent::Seen { input: 1, new_press: true });
    let ev = remote_frame(&t, &mut last, 0xc136d1, 2000);
    assert_eq!(ev, RemoteEvent::Seen { input: 4, new_press: true });
    let ev = remote_frame(&t, &mut last, 0x000011, 2001);
    assert_eq!(ev, RemoteEvent::Unknown { address: 1, data: 1 });
}

#[test]
fn frames_from_the_past_are_refused() {
    let table = known_sensors();
    let mut mem = new_sensor_memory();
    let mut statuses = vec![false; 6];
    assert!(memory_ok(&mem, 0));
    receive_frame(&table, &mut mem, &mut statuses, 0x87e5a6, 1000);
    assert!(!memory_ok(&mem, 999));
    assert_eq!(receive_frame(&table, &mut mem, &mut statuses, 0x87e5a9, 999), None);
    assert!(statuses[0]);
}

#[test]
fn rows_of_one_address() {
    let table = known_sensors();
    let fob = pdmx::ask433::sensors_for(&table, 0x3fcad);
    assert_eq!(fob.len(), 4);
    assert_eq!(fob[0].name, "FOB_A");
    assert_eq!(fob[3].name, "FOB_D");
    assert!(pdmx::ask433::sensors_for(&table, 1).is_empty());
    assert!(pdmx::ask433::has_address(&table, 0x8d37d));
    assert_eq!(pdmx::ask433::find_sensor(&table, 0x3fcad, 2), Some((4, true)));
}
