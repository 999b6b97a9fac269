//! The board's inputs as the show logic sees them: wired input levels, the
//! remote's recently seen buttons, the show state and the one scheduled press.
use vstd::prelude::*;
use crate::logic::{Action, State, on_boot, on_button_pressed, press_outcome, idle_actions};

verus! {

/// Remote buttons, 'A'..='D'.
pub const REMOTE_BUTTONS: [char; 4] = ['A', 'B', 'C', 'D'];

/// How long after its last frame a remote button still counts as held (ms).
pub const REMOTE_HOLD_MS: u32 = 500;

/// Something for the show logic to handle.
#[derive(Clone, Copy, PartialEq, Eq, Debug, Structural)]
pub enum Press {
    /// Wired input 1..=6 (or a `press_later` of one).
    Input(u8),
    /// Remote button 'A'..='D'.
    Remote(char),
    /// FPP has just appeared on the network.
    FppOnline,
}

/// A press of wired input `button`, to hand to the show logic.
pub fn press(button: u8) -> (r: Press)
    ensures
        r == Press::Input(button),
{
    Press::Input(button)
}

/// A press of remote `button` ('A'..='D'), to hand to the show logic.
pub fn press_remote(button: char) -> (r: Press)
    ensures
        r == Press::Remote(button),
{
    Press::Remote(button)
}

pub open spec fn remote_position(button: char) -> Option<usize> {
    if button == 'A' {
        Some(0usize)
    } else if button == 'B' {
        Some(1usize)
    } else if button == 'C' {
        Some(2usize)
    } else if button == 'D' {
        Some(3usize)
    } else {
        None
    }
}

/// The position of `button` among the remote buttons.
pub fn remote_index(button: char) -> (r: Option<usize>)
    ensures
        r == remote_position(button),
{
    let buttons = REMOTE_BUTTONS;
    let mut i: usize = 0;
    while i < 4
        invariant
            i <= 4,
            buttons@ == seq!['A', 'B', 'C', 'D'],
            forall|j: int| 0 <= j < i ==> buttons@[j] != button,
        decreases 4 - i,
    {
        if buttons[i] == button {
            return Some(i);
        }
        i = i + 1;
    }
    None
}

/// What wakes the show logic.
#[derive(Clone, Copy, PartialEq, Eq, Debug, Structural)]
pub enum Wake {
    /// A press arrived.
    Pressed(Press),
    /// The scheduled press is due.
    Timer,
}

/// Millisecond clock reading truncated to 32 bits, as the remote timestamps are kept.
pub open spec fn clock32(now_ms: u64) -> u32 {
    (now_ms % 0x1_0000_0000) as u32
}

/// Input levels, remote activity, the show state and the scheduled press.
pub struct Panel {
    inputs: Vec<bool>,
    remote_seen_ms: Vec<u32>,
    state: Option<State>,
    scheduled: Option<(u8, u64)>,
}

impl Panel {
    /// The panel tracks six wired inputs and four remote buttons.
    pub closed spec fn wf(self) -> bool {
        &&& self.inputs@.len() == 6
        &&& self.remote_seen_ms@.len() == 4
    }

    /// Whether wired input `n` (1..=6) is triggered.
    pub closed spec fn input(self, n: int) -> bool {
        self.inputs@[n - 1]
    }

    /// The 32-bit millisecond time of the last frame of remote button `i`, 0 for never.
    pub closed spec fn seen(self, i: int) -> u32 {
        self.remote_seen_ms@[i]
    }

    pub closed spec fn show_state(self) -> Option<State> {
        self.state
    }

    pub closed spec fn pending(self) -> Option<(u8, u64)> {
        self.scheduled
    }

    /// No input triggered, no remote button seen, the show not booted, nothing scheduled.
    pub fn new() -> (p: Panel)
        ensures
            p.wf(),
            forall|n: int| 1 <= n <= 6 ==> !p.input(n),
            forall|i: int| 0 <= i < 4 ==> p.seen(i) == 0,
            p.show_state() is None,
            p.pending() is None,
    {
        let mut inputs: Vec<bool> = Vec::new();
        let mut k: usize = 0;
        while k < 6
            invariant
                k <= 6,
                inputs@.len() == k,
                forall|j: int| 0 <= j < k ==> !inputs@[j],
            decreases 6 - k,
        {
            inputs.push(false);
            k = k + 1;
        }
        let remote_seen_ms: Vec<u32> = vec![0u32, 0u32, 0u32, 0u32];
        Panel { inputs, remote_seen_ms, state: None, scheduled: None }
    }

    /// Whether wired input `input` (1..=6) is triggered right now; `false`
    /// for any other number.
    pub fn button_active(&self, input: u8) -> (r: bool)
        requires
            self.wf(),
        ensures
            r == (1 <= input <= 6 && self.input(input as int)),
    {
        if 1 <= input && input <= 6 {
            self.inputs[(input - 1) as usize]
        } else {
            false
        }
    }

    /// Records the debounced level of wired input `input`; returns whether it
    /// is a new press (the level changed to triggered).
    pub fn set_input(&mut self, input: u8, pressed: bool) -> (new_press: bool)
        requires
            old(self).wf(),
            1 <= input <= 6,
        ensures
            final(self).wf(),
            new_press == (pressed && !old(self).input(input as int)),
            final(self).input(input as int) == pressed,
            forall|n: int| 1 <= n <= 6 && n != input ==> final(self).input(n) == old(self).input(n),
            forall|i: int| 0 <= i < 4 ==> final(self).seen(i) == old(self).seen(i),
            final(self).show_state() == old(self).show_state(),
            final(self).pending() == old(self).pending(),
    {
        let i = (input - 1) as usize;
        let previous = self.inputs[i];
        if pressed != previous {
            self.inputs.set(i, pressed);
            pressed
        } else {
            false
        }
    }

    /// Records a frame of remote `button` at millisecond time `now_ms`.
    pub fn remote_seen(&mut self, button: char, now_ms: u64)
        requires
            old(self).wf(),
        ensures
            final(self).wf(),
            forall|i: int|
                0 <= i < 4 ==> final(self).seen(i) == (if remote_position(button) == Some(i as usize) {
                    if clock32(now_ms) == 0 { 1u32 } else { clock32(now_ms) }
                } else {
                    old(self).seen(i)
                }),
            forall|n: int| 1 <= n <= 6 ==> final(self).input(n) == old(self).input(n),
            final(self).show_state() == old(self).show_state(),
            final(self).pending() == old(self).pending(),
    {
        if let Some(i) = remote_index(button) {
            let now = (now_ms % 0x1_0000_0000) as u32;
            let stamp = if now > 1 { now } else { 1 };
            self.remote_seen_ms.set(i, stamp);
        }
    }

    /// Whether remote `button` was seen less than REMOTE_HOLD_MS before
    /// `now_ms` (32-bit wrapping clock); `false` if never seen or not a remote button.
    pub fn remote_active(&self, button: char, now_ms: u64) -> (r: bool)
        requires
            self.wf(),
        ensures
            r == match remote_position(button) {
                None => false,
                Some(i) => self.seen(i as int) != 0 && (clock32(now_ms) - self.seen(i as int))
                    % 0x1_0000_0000 < REMOTE_HOLD_MS,
            },
    {
        match remote_index(button) {
            None => false,
            Some(i) => {
                let seen = self.remote_seen_ms[i];
                let now = (now_ms % 0x1_0000_0000) as u32;
                seen != 0 && now.wrapping_sub(seen) < REMOTE_HOLD_MS
            },
        }
    }

    /// The show state, `None` until the show has booted.
    pub fn logic_state(&self) -> (r: Option<State>)
        ensures
            r == self.show_state(),
    {
        self.state
    }

    /// The scheduled press: (input, millisecond time it is due).
    pub fn scheduled(&self) -> (r: Option<(u8, u64)>)
        ensures
            r == self.pending(),
    {
        self.scheduled
    }

    /// Schedules a press of wired input `button` `delay_ms` after `now_ms`,
    /// replacing any pending one.
    pub fn press_later(&mut self, button: u8, now_ms: u64, delay_ms: u64)
        requires
            old(self).wf(),
            now_ms + delay_ms <= u64::MAX,
        ensures
            final(self).wf(),
            final(self).pending() == Some((button, (now_ms + delay_ms) as u64)),
            final(self).show_state() == old(self).show_state(),
            forall|n: int| 1 <= n <= 6 ==> final(self).input(n) == old(self).input(n),
            forall|i: int| 0 <= i < 4 ==> final(self).seen(i) == old(self).seen(i),
    {
        self.scheduled = Some((button, now_ms + delay_ms));
    }

    /// Boots the show: the state becomes Idle; returns the FPP commands boot asks for.
    pub fn boot(&mut self) -> (fpp: Vec<Action>)
        requires
            old(self).wf(),
        ensures
            final(self).wf(),
            final(self).show_state() == Some(State::Idle),
            fpp@ == idle_actions(),
            final(self).pending() == old(self).pending(),
            forall|n: int| 1 <= n <= 6 ==> final(self).input(n) == old(self).input(n),
            forall|i: int| 0 <= i < 4 ==> final(self).seen(i) == old(self).seen(i),
    {
        let (state, actions) = on_boot();
        self.state = Some(state);
        actions
    }

    /// Handles one wake-up of the show logic at millisecond time `now_ms`:
    /// a due timer fires the scheduled press (clearing it), a wired press
    /// goes through `on_button_pressed`, a press later asked for replaces the
    /// schedule, and a state change cancels a pending press unless the same
    /// handler scheduled it. Returns the FPP commands to send, in order.
    /// A remote-button press and the FPP-online press have no rule in the
    /// show script: they leave the state and the schedule as they are and
    /// send nothing.
    pub fn handle(&mut self, wake: Wake, now_ms: u64) -> (fpp: Vec<Action>)
        requires
            old(self).wf(),
            old(self).show_state() is Some,
            now_ms <= u64::MAX - crate::logic::STARTUP_MS,
        ensures
            final(self).wf(),
            final(self).show_state() is Some,
            forall|n: int| 1 <= n <= 6 ==> final(self).input(n) == old(self).input(n),
            forall|i: int| 0 <= i < 4 ==> final(self).seen(i) == old(self).seen(i),
            ({
                let before = old(self).show_state()->0;
                let pending_before = if wake == Wake::Timer { None } else { old(self).pending() };
                let pressed: Option<u8> = match wake {
                    Wake::Timer => match old(self).pending() {
                        Some(p) => Some(p.0),
                        None => None,
                    },
                    Wake::Pressed(Press::Input(b)) => Some(b),
                    Wake::Pressed(_) => None,
                };
                match pressed {
                    None => {
                        &&& final(self).show_state() == Some(before)
                        &&& fpp@ == Seq::<Action>::empty()
                        &&& final(self).pending() == pending_before
                    },
                    Some(b) => {
                        let (after, actions) = press_outcome(b, before);
                        &&& final(self).show_state() == Some(after)
                        &&& fpp@ == actions.filter(|a: Action| !(a is PressLater))
                        &&& final(self).pending() == scheduled_after(
                            pending_before,
                            before,
                            after,
                            actions,
                            now_ms,
                        )
                    },
                }
            }),
    {
        let ghost old_pending = self.scheduled;
        let button = match wake {
            Wake::Timer => match self.scheduled {
                Some((b, _)) => {
                    self.scheduled = None;
                    Some(b)
                },
                None => None,
            },
            Wake::Pressed(Press::Input(b)) => Some(b),
            Wake::Pressed(_) => None,
        };
        let button = match button {
            Some(b) => b,
            None => return Vec::new(),
        };
        let pending = self.scheduled;
        let mut state = match self.state {
            Some(s) => s,
            None => State::Idle,
        };
        let before = state;
        let actions = on_button_pressed(button, &mut state);
        let mut fpp: Vec<Action> = Vec::new();
        let mut k: usize = 0;
        let ghost orig_sched = self.scheduled;
        while k < actions.len()
            invariant
                k <= actions@.len(),
                fpp@ == actions@.take(k as int).filter(|a: Action| !(a is PressLater)),
                now_ms <= u64::MAX - crate::logic::STARTUP_MS,
                forall|j: int| 0 <= j < actions@.len() ==> (#[trigger] actions@[j] matches Action::PressLater { ms, .. } ==> ms == crate::logic::STARTUP_MS),
                self.scheduled == last_press_later(actions@.take(k as int), orig_sched, now_ms),
                self.state == old(self).state,
                self.inputs == old(self).inputs,
                self.remote_seen_ms == old(self).remote_seen_ms,
            decreases actions@.len() - k,
        {
            let a = actions[k];
            proof {
                assert(actions@.take(k as int + 1) =~= actions@.take(k as int).push(a));
                reveal_with_fuel(Seq::filter, 1);
                assert(actions@.take(k as int + 1).drop_last() =~= actions@.take(k as int));
            }
            match a {
                Action::PressLater { button: b, ms } => {
                    self.scheduled = Some((b, now_ms + ms));
                },
                _ => {
                    fpp.push(a);
                },
            }
            k = k + 1;
        }
        proof {
            assert(actions@.take(actions@.len() as int) =~= actions@);
        }
        if state != before && self.scheduled == pending && pending.is_some() {
            self.scheduled = None;
        }
        self.state = Some(state);
        fpp
    }
}

/// Whether a wired input reads as triggered: pulled low, unless the input is
/// `reversed` (then high). The pins are always pulled up, so an input with
/// nothing connected reads idle either way round.
pub fn sensor_pressed(pin_low: bool, reversed: bool) -> (r: bool)
    ensures
        r == (pin_low != reversed),
{
    pin_low != reversed
}

/// How long FPP gets after it first answers mDNS before the show logic is
/// told it is online (its name comes up before it can play).
pub const FPP_SETTLE_MS: u64 = 5000;
/// How often FPP's presence is checked.
pub const FPP_WATCH_MS: u64 = 1000;

/// What FPP's presence calls for.
#[derive(Clone, Copy, PartialEq, Eq, Debug, Structural)]
pub enum WatchStep {
    /// It has just appeared: wait FPP_SETTLE_MS, then look again.
    Settle,
    /// It has gone: forget it, so its next appearance counts again.
    Lost,
    /// Nothing changed.
    Unchanged,
}

/// Watches FPP come and go, to tell the show logic each time it appears:
/// once after boot, and again after each reboot of FPP.
pub struct FppWatch {
    pub online: bool,
}

impl FppWatch {
    pub fn new() -> (w: FppWatch)
        ensures
            !w.online,
    {
        FppWatch { online: false }
    }

    /// One check of whether FPP answers now.
    pub fn observe(&mut self, now_online: bool) -> (r: WatchStep)
        ensures
            r == if now_online && !old(self).online {
                WatchStep::Settle
            } else if !now_online && old(self).online {
                WatchStep::Lost
            } else {
                WatchStep::Unchanged
            },
            final(self).online == (if r == WatchStep::Lost { false } else { old(self).online }),
    {
        if now_online && !self.online {
            WatchStep::Settle
        } else if !now_online && self.online {
            self.online = false;
            WatchStep::Lost
        } else {
            WatchStep::Unchanged
        }
    }

    /// After settling: FPP counts as online only if it still answers, and
    /// only then is the show logic told (returns whether to send
    /// `Press::FppOnline`).
    pub fn settled(&mut self, still_online: bool) -> (fire: bool)
        ensures
            fire == still_online,
            final(self).online == still_online,
    {
        self.online = still_online;
        still_online
    }
}

/// FPP's appearance is reported once per appearance: after it has been
/// reported, it is not reported again until it has been seen gone.
pub proof fn law_fpp_online_once(online: bool, now_online: bool)
    ensures
        online ==> (if now_online && !online {
            WatchStep::Settle
        } else if !now_online && online {
            WatchStep::Lost
        } else {
            WatchStep::Unchanged
        }) != WatchStep::Settle,
{
}

/// The schedule after a sequence of actions: the last press asked for, if any.
pub open spec fn last_press_later(actions: Seq<Action>, sched: Option<(u8, u64)>, now_ms: u64) -> Option<(u8, u64)>
    decreases actions.len(),
{
    if actions.len() == 0 {
        sched
    } else {
        let prev = last_press_later(actions.drop_last(), sched, now_ms);
        match actions.last() {
            Action::PressLater { button, ms } => Some((button, (now_ms + ms) as u64)),
            _ => prev,
        }
    }
}

/// The schedule after a handled press: a press asked for by the handler
/// replaces it; otherwise a state change cancels what was pending.
pub open spec fn scheduled_after(
    pending: Option<(u8, u64)>,
    before: State,
    after: State,
    actions: Seq<Action>,
    now_ms: u64,
) -> Option<(u8, u64)> {
    let sched = last_press_later(actions, pending, now_ms);
    if after != before && sched == pending && pending is Some {
        None
    } else {
        sched
    }
}

/// Actions with no press scheduled leave the schedule as it was.
pub proof fn lemma_no_press_later_keeps(actions: Seq<Action>, sched: Option<(u8, u64)>, now_ms: u64)
    requires
        forall|i: int| 0 <= i < actions.len() ==> !(#[trigger] actions[i] is PressLater),
    ensures
        last_press_later(actions, sched, now_ms) == sched,
    decreases actions.len(),
{
    if actions.len() > 0 {
        assert(actions.last() == actions[actions.len() - 1]);
        lemma_no_press_later_keeps(actions.drop_last(), sched, now_ms);
    }
}

/// A press that changes the show state cancels the pending press, unless
/// the handler itself scheduled one.
pub proof fn law_state_change_cancels_pending(
    pending: Option<(u8, u64)>,
    before: State,
    after: State,
    actions: Seq<Action>,
    now_ms: u64,
)
    requires
        after != before,
        forall|i: int| 0 <= i < actions.len() ==> !(#[trigger] actions[i] is PressLater),
    ensures
        scheduled_after(pending, before, after, actions, now_ms) is None,
{
    lemma_no_press_later_keeps(actions, pending, now_ms);
}

/// A press that leaves the show state alone keeps the pending press.
pub proof fn law_no_change_keeps_pending(
    pending: Option<(u8, u64)>,
    state: State,
    actions: Seq<Action>,
    now_ms: u64,
)
    requires
        forall|i: int| 0 <= i < actions.len() ==> !(#[trigger] actions[i] is PressLater),
    ensures
        scheduled_after(pending, state, state, actions, now_ms) == pending,
{
    lemma_no_press_later_keeps(actions, pending, now_ms);
}

/// Starting the show from Idle schedules the strike STARTUP_MS later, unless
/// exactly that press was already pending (the schedule then looks untouched
/// and the state change cancels it).
pub proof fn law_start_schedules_strike(pending: Option<(u8, u64)>, now_ms: u64)
    requires
        now_ms <= u64::MAX - crate::logic::STARTUP_MS,
        pending != Some((2u8, (now_ms + crate::logic::STARTUP_MS) as u64)),
    ensures
        ({
            let (after, actions) = press_outcome(1, State::Idle);
            scheduled_after(pending, State::Idle, after, actions, now_ms) == Some(
                (2u8, (now_ms + crate::logic::STARTUP_MS) as u64),
            )
        }),
{
    let (after, actions) = press_outcome(1, State::Idle);
    reveal_with_fuel(last_press_later, 3);
    assert(actions.drop_last().last() is StartEffect);
}

/// The show state after booting and then handling the presses `b`, in order.
pub open spec fn show_after(b: Seq<u8>) -> State
    decreases b.len(),
{
    if b.len() == 0 {
        State::Idle
    } else {
        press_outcome(b.last(), show_after(b.drop_last())).0
    }
}

proof fn lemma_show_after_prefix(panels: Seq<Panel>, handled: Seq<u8>, k: int)
    requires
        panels.len() == handled.len() + 1,
        panels[0].show_state() == Some(State::Idle),
        forall|j: int| 0 <= j < handled.len() ==> #[trigger] panels[j + 1].show_state() == Some(
            press_outcome(handled[j], panels[j].show_state()->0).0,
        ),
        0 <= k <= handled.len(),
    ensures
        panels[k].show_state() == Some(show_after(handled.take(k))),
    decreases k,
{
    if k > 0 {
        lemma_show_after_prefix(panels, handled, k - 1);
        assert(handled.take(k).drop_last() =~= handled.take(k - 1));
        assert(handled.take(k).last() == handled[k - 1]);
        assert(panels[(k - 1) + 1].show_state() == Some(
            press_outcome(handled[k - 1], panels[k - 1].show_state()->0).0,
        ));
    } else {
        assert(handled.take(0).len() == 0);
    }
}

/// The stored show state is the state after the last handled press: a panel
/// that was booted (Idle) and then handled the presses `handled`, one
/// `handle` call each as its contract gives it, holds `show_after(handled)`.
/// (Before booting a new panel holds no state at all, see `Panel::new`.)
pub proof fn law_state_follows_presses(panels: Seq<Panel>, handled: Seq<u8>)
    requires
        panels.len() == handled.len() + 1,
        panels[0].show_state() == Some(State::Idle),
        forall|j: int| 0 <= j < handled.len() ==> #[trigger] panels[j + 1].show_state() == Some(
            press_outcome(handled[j], panels[j].show_state()->0).0,
        ),
    ensures
        panels.last().show_state() == Some(show_after(handled)),
{
    lemma_show_after_prefix(panels, handled, handled.len() as int);
    assert(handled.take(handled.len() as int) =~= handled);
}

} // verus!
