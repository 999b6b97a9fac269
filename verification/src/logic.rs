//! Show logic: what the board does when an input is pressed.
//!
//! `on_boot` gives the starting state; `on_button_pressed` handles a press of
//! wired input 1..=6 (the remote's A-D buttons press inputs 1-4). Both return
//! the FPP commands to send, in order, and any press to schedule for later.
use vstd::prelude::*;

verus! {

/// Delay after the startup effect before the strike fires on its own (ms).
pub const STARTUP_MS: u64 = 7500;
/// From the strike effect starting to the overload sequence starting (ms).
pub const STRIKE_MS: u64 = 1800;

/// The state of the show, shown on the web status page.
#[derive(Clone, Copy, PartialEq, Eq, Debug, Structural)]
pub enum State {
    Idle,
    Running,
    Overload,
}

/// The FPP sequences and effects the show plays.
#[derive(Clone, Copy, PartialEq, Eq, Debug, Structural)]
pub enum Clip {
    /// Sequence `idle-2026`.
    Idle,
    /// Sequence `overload-2026`.
    Overload,
    /// Effect `startup-2026-e`.
    Startup,
    /// Effect `strike-2026-e`.
    Strike,
    /// Effect `frank-2026-e`.
    Frank,
}

pub open spec fn clip_file(c: Clip) -> Seq<char> {
    match c {
        Clip::Idle => "idle-2026"@,
        Clip::Overload => "overload-2026"@,
        Clip::Startup => "startup-2026-e"@,
        Clip::Strike => "strike-2026-e"@,
        Clip::Frank => "frank-2026-e"@,
    }
}

/// The FPP file name of a clip, without `.fseq`.
pub fn clip_name(c: Clip) -> (r: &'static str)
    ensures
        r@ == clip_file(c),
{
    match c {
        Clip::Idle => "idle-2026",
        Clip::Overload => "overload-2026",
        Clip::Startup => "startup-2026-e",
        Clip::Strike => "strike-2026-e",
        Clip::Frank => "frank-2026-e",
    }
}

/// One thing the show asks for, in the order it is asked.
#[derive(Clone, Copy, PartialEq, Eq, Debug, Structural)]
pub enum Action {
    /// Play a sequence as a one-item playlist, replacing the current one.
    StartSequence { clip: Clip, looping: bool },
    /// Start an effect on top of the playing sequence.
    StartEffect { clip: Clip, looping: bool },
    /// Stop every running effect.
    StopAllEffects,
    /// Hold back the FPP commands after this one for `ms` milliseconds.
    Wait { ms: u64 },
    /// Act as if wired input `button` were pressed `ms` milliseconds from now.
    PressLater { button: u8, ms: u64 },
}

/// What returning to idle asks for: stop every effect, loop the idle sequence.
pub open spec fn idle_actions() -> Seq<Action> {
    seq![Action::StopAllEffects, Action::StartSequence { clip: Clip::Idle, looping: true }]
}

/// The show script: the state after a press of `button` in `state`, and
/// what the press asks for.
///   1 in Idle: start the startup effect, strike on its own after STARTUP_MS, Running.
///   2 in Running: strike effect, wait STRIKE_MS, loop the overload sequence, Overload.
///   3 in Overload: the Frank effect, state unchanged.
///   4 in any state but Idle: back to idle.
/// Anything else changes nothing and asks for nothing.
pub open spec fn press_outcome(button: u8, state: State) -> (State, Seq<Action>) {
    if button == 1 && state == State::Idle {
        (
            State::Running,
            seq![
                Action::StartEffect { clip: Clip::Startup, looping: false },
                Action::PressLater { button: 2, ms: STARTUP_MS },
            ],
        )
    } else if button == 2 && state == State::Running {
        (
            State::Overload,
            seq![
                Action::StartEffect { clip: Clip::Strike, looping: false },
                Action::Wait { ms: STRIKE_MS },
                Action::StartSequence { clip: Clip::Overload, looping: true },
            ],
        )
    } else if button == 3 && state == State::Overload {
        (State::Overload, seq![Action::StartEffect { clip: Clip::Frank, looping: false }])
    } else if button == 4 && state != State::Idle {
        (State::Idle, idle_actions())
    } else {
        (state, Seq::empty())
    }
}

/// The starting state, and what boot asks for.
pub fn on_boot() -> (r: (State, Vec<Action>))
    ensures
        r.0 == State::Idle,
        r.1@ == idle_actions(),
{
    let mut actions: Vec<Action> = Vec::new();
    let s = go_idle(&mut actions);
    proof {
        assert(actions@ =~= idle_actions());
    }
    (s, actions)
}

/// Handles a press of wired input `button` (1..=6): updates `state` and
/// returns what the press asks for, per `press_outcome`.
pub fn on_button_pressed(button: u8, state: &mut State) -> (actions: Vec<Action>)
    ensures
        (*final(state), actions@) == press_outcome(button, *old(state)),
{
    let mut actions: Vec<Action> = Vec::new();
    match button {
        1 => {
            if *state == State::Idle {
                actions.push(Action::StartEffect { clip: Clip::Startup, looping: false });
                actions.push(Action::PressLater { button: 2, ms: STARTUP_MS });
                *state = State::Running;
            }
        },
        2 => {
            if *state == State::Running {
                actions.push(Action::StartEffect { clip: Clip::Strike, looping: false });
                actions.push(Action::Wait { ms: STRIKE_MS });
                actions.push(Action::StartSequence { clip: Clip::Overload, looping: true });
                *state = State::Overload;
            }
        },
        3 => {
            if *state == State::Overload {
                actions.push(Action::StartEffect { clip: Clip::Frank, looping: false });
            }
        },
        4 => {
            if *state != State::Idle {
                *state = go_idle(&mut actions);
            }
        },
        _ => {},
    }
    proof {
        let o = press_outcome(button, *old(state));
        assert(actions@ =~= o.1);
    }
    actions
}

/// Back to idle: stop every effect and loop the idle sequence (appended to
/// `actions`).
pub fn go_idle(actions: &mut Vec<Action>) -> (s: State)
    ensures
        s == State::Idle,
        final(actions)@ == old(actions)@ + idle_actions(),
{
    actions.push(Action::StopAllEffects);
    actions.push(Action::StartSequence { clip: Clip::Idle, looping: true });
    proof {
        assert(final(actions)@ =~= old(actions)@ + idle_actions());
    }
    State::Idle
}

/// Reset: input 4 brings every state back to Idle.
pub proof fn law_reset_returns_to_idle(state: State)
    ensures
        press_outcome(4, state).0 == State::Idle,
{
}

/// The show only moves forward Idle -> Running -> Overload, or back to Idle
/// by a reset; no press skips a step.
pub proof fn law_transitions(button: u8, state: State)
    ensures
        ({
            let next = press_outcome(button, state).0;
            ||| next == state
            ||| state == State::Idle && next == State::Running && button == 1
            ||| state == State::Running && next == State::Overload && button == 2
            ||| state != State::Idle && next == State::Idle && button == 4
        }),
{
}

/// A press of an input the script does not use (0, 5, 6 or above) changes
/// nothing and asks for nothing.
pub proof fn law_unused_inputs_ignored(button: u8, state: State)
    requires
        button == 0 || button >= 5,
    ensures
        press_outcome(button, state) == (state, Seq::<Action>::empty()),
{
}

/// The only press scheduled for later is the strike, by input 1 from Idle.
pub proof fn law_only_startup_schedules(button: u8, state: State, i: int)
    requires
        0 <= i < press_outcome(button, state).1.len(),
        press_outcome(button, state).1[i] is PressLater,
    ensures
        button == 1,
        state == State::Idle,
        press_outcome(button, state).1[i] == (Action::PressLater { button: 2, ms: STARTUP_MS }),
{
}

/// A press asks for something exactly when the script has a step for it:
/// input 1 in Idle, input 2 in Running, input 3 in Overload, input 4 out of
/// Idle. Input 3 plays Frank during Overload only and never moves the show;
/// anywhere else it does nothing at all.
pub proof fn law_presses_act_only_in_their_state(button: u8, state: State)
    ensures
        press_outcome(button, state).1.len() > 0 <==> (button == 1 && state == State::Idle) || (button == 2
            && state == State::Running) || (button == 3 && state == State::Overload) || (button == 4 && state
            != State::Idle),
        press_outcome(button, state).1.len() == 0 ==> press_outcome(button, state).0 == state,
        button == 3 ==> press_outcome(button, state).0 == state,
        button == 3 && state != State::Overload ==> press_outcome(button, state).1.len() == 0,
        button == 3 && state == State::Overload ==> press_outcome(button, state).1 == seq![
            Action::StartEffect { clip: Clip::Frank, looping: false },
        ],
{
}

/// What each step of the script asks FPP for, in order: input 1 from Idle
/// plays the startup effect once and schedules input 2 after STARTUP_MS;
/// input 2 in Running plays the strike once, holds STRIKE_MS, then loops the
/// overload sequence; input 4 out of Idle stops every effect and loops the
/// idle sequence.
pub proof fn law_script_steps(state: State)
    ensures
        state == State::Idle ==> press_outcome(1, state) == (State::Running, seq![
            Action::StartEffect { clip: Clip::Startup, looping: false },
            Action::PressLater { button: 2, ms: 7500 },
        ]),
        state == State::Running ==> press_outcome(2, state) == (State::Overload, seq![
            Action::StartEffect { clip: Clip::Strike, looping: false },
            Action::Wait { ms: 1800 },
            Action::StartSequence { clip: Clip::Overload, looping: true },
        ]),
        state != State::Idle ==> press_outcome(4, state) == (State::Idle, seq![
            Action::StopAllEffects,
            Action::StartSequence { clip: Clip::Idle, looping: true },
        ]),
{
}

} // verus!
