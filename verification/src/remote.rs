//! The 433 MHz remote (EV1527/PT2262 fob): each fob button presses one of
//! the board's wired inputs, once per press however long it is held.
use vstd::prelude::*;

verus! {

/// A held button repeats its frame every 10-30 ms; the same frame within
/// this many ms is the same press.
pub const REPEAT_WINDOW_MS: u64 = 500;

/// One fob button: fob address, data value, and the wired input it presses.
#[derive(Clone, Copy, PartialEq, Eq, Debug, Structural)]
pub struct RemoteButton {
    pub address: u32,
    pub data: u8,
    pub input: u8,
}

/// The fob buttons this board answers to: two fobs, buttons A-D pressing inputs 1-4.
pub open spec fn remote_table() -> Seq<RemoteButton> {
    seq![
        RemoteButton { address: 0x3fcad, data: 0x8, input: 1 },
        RemoteButton { address: 0x3fcad, data: 0x4, input: 2 },
        RemoteButton { address: 0x3fcad, data: 0x2, input: 3 },
        RemoteButton { address: 0x3fcad, data: 0x1, input: 4 },
        RemoteButton { address: 0xc136d, data: 0x8, input: 1 },
        RemoteButton { address: 0xc136d, data: 0x4, input: 2 },
        RemoteButton { address: 0xc136d, data: 0x2, input: 3 },
        RemoteButton { address: 0xc136d, data: 0x1, input: 4 },
    ]
}

/// The fob buttons as a table.
pub fn remote_buttons() -> (t: Vec<RemoteButton>)
    ensures
        t@ == remote_table(),
{
    let t = vec![
        RemoteButton { address: 0x3fcad, data: 0x8, input: 1 },
        RemoteButton { address: 0x3fcad, data: 0x4, input: 2 },
        RemoteButton { address: 0x3fcad, data: 0x2, input: 3 },
        RemoteButton { address: 0x3fcad, data: 0x1, input: 4 },
        RemoteButton { address: 0xc136d, data: 0x8, input: 1 },
        RemoteButton { address: 0xc136d, data: 0x4, input: 2 },
        RemoteButton { address: 0xc136d, data: 0x2, input: 3 },
        RemoteButton { address: 0xc136d, data: 0x1, input: 4 },
    ];
    proof {
        assert(t@ =~= remote_table());
    }
    t
}

/// The first button with `address` and `data`, from row `from` on.
pub open spec fn button_from(t: Seq<RemoteButton>, address: u32, data: u8, from: int) -> Option<RemoteButton>
    decreases t.len() - from,
{
    if from < 0 || from >= t.len() {
        None
    } else if t[from].address == address && t[from].data == data {
        Some(t[from])
    } else {
        button_from(t, address, data, from + 1)
    }
}

/// The first row with `address` and `data` (see `button_from`).
pub fn find_button(table: &Vec<RemoteButton>, address: u32, data: u8) -> (r: Option<RemoteButton>)
    ensures
        r == button_from(table@, address, data, 0),
{
    let mut i: usize = 0;
    while i < table.len()
        invariant
            i <= table@.len(),
            button_from(table@, address, data, 0) == button_from(table@, address, data, i as int),
        decreases table@.len() - i,
    {
        let b = table[i];
        if b.address == address && b.data == data {
            return Some(b);
        }
        i = i + 1;
    }
    None
}

/// What a remote frame did.
#[derive(Clone, Copy, PartialEq, Eq, Debug, Structural)]
pub enum RemoteEvent {
    /// A fob the board does not know: to be logged so it can be learned.
    Unknown { address: u32, data: u8 },
    /// A known fob's data value that presses nothing (fobs send 0x0 a lot): ignored.
    Unmapped,
    /// Button for wired `input` seen; `new_press` unless it repeats the last
    /// frame acted on within REPEAT_WINDOW_MS.
    Seen { input: u8, new_press: bool },
}

/// The last frame acted on and the event after a frame `code` at `now_ms`.
pub open spec fn remote_outcome(t: Seq<RemoteButton>, last: Option<(u32, u64)>, code: u32, now_ms: u64) -> (Option<(u32, u64)>, RemoteEvent) {
    let address = code >> 4u32;
    let data = (code & 0xfu32) as u8;
    match button_from(t, address, data, 0) {
        None => (
            last,
            if exists|k: int| 0 <= k < t.len() && #[trigger] t[k].address == address {
                RemoteEvent::Unmapped
            } else {
                RemoteEvent::Unknown { address, data }
            },
        ),
        Some(b) => {
            let repeat = match last {
                Some((c, at)) => c == code && now_ms - at < REPEAT_WINDOW_MS,
                None => false,
            };
            (Some((code, now_ms)), RemoteEvent::Seen { input: b.input, new_press: !repeat })
        },
    }
}

/// Handles one frame at `now_ms` (see `remote_outcome`). Only frames that
/// press something reset the repeat window, so a garbled frame in the
/// middle of a hold cannot split it into two presses.
pub fn handle_frame(table: &Vec<RemoteButton>, last: &mut Option<(u32, u64)>, code: u32, now_ms: u64) -> (ev: RemoteEvent)
    requires
        *old(last) matches Some((_, at)) ==> at <= now_ms,
    ensures
        (*final(last), ev) == remote_outcome(table@, *old(last), code, now_ms),
{
    let address = code >> 4u32;
    let data = (code & 0xfu32) as u8;
    let found = find_button(table, address, data);
    match found {
        None => {
            let mut known = false;
            let mut k: usize = 0;
            while k < table.len()
                invariant
                    k <= table@.len(),
                    known == exists|j: int| 0 <= j < k && #[trigger] table@[j].address == address,
                decreases table@.len() - k,
            {
                if table[k].address == address {
                    known = true;
                }
                k = k + 1;
            }
            if known {
                RemoteEvent::Unmapped
            } else {
                RemoteEvent::Unknown { address, data }
            }
        },
        Some(b) => {
            let repeat = match *last {
                Some((c, at)) => c == code && now_ms - at < REPEAT_WINDOW_MS,
                None => false,
            };
            *last = Some((code, now_ms));
            RemoteEvent::Seen { input: b.input, new_press: !repeat }
        },
    }
}

/// A held button presses its input once: the same frame again within the
/// window is seen, but is no new press.
pub proof fn law_hold_is_one_press(t: Seq<RemoteButton>, last: Option<(u32, u64)>, code: u32, t1: u64, t2: u64)
    requires
        t1 <= t2,
        t2 - t1 < REPEAT_WINDOW_MS,
        remote_outcome(t, last, code, t1).1 is Seen,
    ensures
        ({
            let (l1, e1) = remote_outcome(t, last, code, t1);
            let (_, e2) = remote_outcome(t, l1, code, t2);
            e2 == (RemoteEvent::Seen { input: e1->input, new_press: false })
        }),
{
}

/// A frame that presses nothing leaves the repeat window as it was, so it
/// cannot split a hold into two presses.
pub proof fn law_unmapped_keeps_window(t: Seq<RemoteButton>, last: Option<(u32, u64)>, code: u32, now_ms: u64)
    requires
        !(remote_outcome(t, last, code, now_ms).1 is Seen),
    ensures
        remote_outcome(t, last, code, now_ms).0 == last,
{
}

} // verus!
