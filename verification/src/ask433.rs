//! Door sensors and fob buttons heard on the 433 MHz receiver: which known
//! sensor a frame is, whether it repeats what was last heard, and the
//! status it leaves.
use vstd::prelude::*;
use crate::heap::{MemoryEntry, memory_entries, memory_new, memory_len, memory_get, memory_set, memory_push};

verus! {

/// Milliseconds after which a door sensor's remembered state is forgotten.
pub const STALE_TIMEOUT_MS: u64 = 3000;
/// Milliseconds within which a repeated button frame is the same press.
pub const BUTTON_REPEAT_WINDOW_MS: u64 = 500;
/// Distinct sensor addresses whose last state is remembered.
pub const MAX_TRACKED_SENSORS: usize = 8;

/// What a 4-bit data value means for a given known sensor.
#[derive(Clone, Copy, PartialEq, Eq, Debug, Structural)]
pub enum SensorKind {
    /// Two-state device (door/window sensor): distinct values for open and closed.
    DoorSensor { open_data: u8, closed_data: u8 },
    /// On-only device (fob button): one value means "pressed".
    Button { data: u8 },
}

/// The state a data value stands for (true = open / pressed), if it is one of this kind's.
pub open spec fn resolve_spec(kind: SensorKind, data: u8) -> Option<bool> {
    match kind {
        SensorKind::DoorSensor { open_data, closed_data } => if data == open_data {
            Some(true)
        } else if data == closed_data {
            Some(false)
        } else {
            None
        },
        SensorKind::Button { data: on_data } => if data == on_data { Some(true) } else { None },
    }
}

impl SensorKind {
    /// If `data` is a value this kind recognizes, the state to store.
    pub fn resolve(&self, data: u8) -> (r: Option<bool>)
        ensures
            r == resolve_spec(*self, data),
    {
        match *self {
            SensorKind::DoorSensor { open_data, closed_data } => {
                if data == open_data {
                    Some(true)
                } else if data == closed_data {
                    Some(false)
                } else {
                    None
                }
            },
            SensorKind::Button { data: on_data } => if data == on_data {
                Some(true)
            } else {
                None
            },
        }
    }
}

/// A sensor or fob button that has been identified. Rows may share an
/// address (one fob, one row per button); they are told apart by data.
/// `status` is the slot of the status flag this sensor drives.
#[derive(Clone, Copy, Debug)]
pub struct KnownSensor {
    pub address: u32,
    pub name: &'static str,
    pub kind: SensorKind,
    pub status: usize,
}

impl KnownSensor {
    /// A door sensor with its open and closed data values.
    pub fn door(address: u32, name: &'static str, open_data: u8, closed_data: u8, status: usize) -> (s: Self)
        ensures
            s == (KnownSensor { address, name, kind: SensorKind::DoorSensor { open_data, closed_data }, status }),
    {
        KnownSensor { address, name, kind: SensorKind::DoorSensor { open_data, closed_data }, status }
    }

    /// A fob button with its data value.
    pub fn button(address: u32, name: &'static str, data: u8, status: usize) -> (s: Self)
        ensures
            s == (KnownSensor { address, name, kind: SensorKind::Button { data }, status }),
    {
        KnownSensor { address, name, kind: SensorKind::Button { data }, status }
    }
}

/// Status slots: BOX1, BOX2, FOB_A, FOB_B, FOB_C, FOB_D.
pub const SENSOR_STATUS_COUNT: usize = 6;

/// The sensors this board knows.
pub fn known_sensors() -> (t: Vec<KnownSensor>)
    ensures
        t@.len() == 6,
        t@[0].address == 0x87e5a && t@[0].kind == (SensorKind::DoorSensor { open_data: 6, closed_data: 9 }) && t@[0].status == 0,
        t@[1].address == 0x8d37d && t@[1].kind == (SensorKind::DoorSensor { open_data: 6, closed_data: 9 }) && t@[1].status == 1,
        t@[2].address == 0x3fcad && t@[2].kind == (SensorKind::Button { data: 8 }) && t@[2].status == 2,
        t@[3].address == 0x3fcad && t@[3].kind == (SensorKind::Button { data: 4 }) && t@[3].status == 3,
        t@[4].address == 0x3fcad && t@[4].kind == (SensorKind::Button { data: 2 }) && t@[4].status == 4,
        t@[5].address == 0x3fcad && t@[5].kind == (SensorKind::Button { data: 1 }) && t@[5].status == 5,
        t@[0].name@ == "BOX1"@ && t@[1].name@ == "BOX2"@,
        t@[2].name@ == "FOB_A"@ && t@[3].name@ == "FOB_B"@ && t@[4].name@ == "FOB_C"@ && t@[5].name@ == "FOB_D"@,
{
    let mut t: Vec<KnownSensor> = Vec::new();
    t.push(KnownSensor::door(0x87e5a, "BOX1", 0x6, 0x9, 0));
    t.push(KnownSensor::door(0x8d37d, "BOX2", 0x6, 0x9, 1));
    t.push(KnownSensor::button(0x3fcad, "FOB_A", 0x8, 2));
    t.push(KnownSensor::button(0x3fcad, "FOB_B", 0x4, 3));
    t.push(KnownSensor::button(0x3fcad, "FOB_C", 0x2, 4));
    t.push(KnownSensor::button(0x3fcad, "FOB_D", 0x1, 5));
    t
}

/// The first row for `address` whose kind recognizes `data`, with the state it gives.
pub open spec fn first_match(t: Seq<KnownSensor>, address: u32, data: u8, from: int) -> Option<(usize, bool)>
    decreases t.len() - from,
{
    if from < 0 || from >= t.len() {
        None
    } else if t[from].address == address && resolve_spec(t[from].kind, data) is Some {
        Some((from as usize, resolve_spec(t[from].kind, data)->0))
    } else {
        first_match(t, address, data, from + 1)
    }
}

/// Every row sharing `address`, in table order: a fob has one row per
/// button, all with its address, told apart by data.
pub fn sensors_for(table: &Vec<KnownSensor>, address: u32) -> (r: Vec<KnownSensor>)
    ensures
        r@ == table@.filter(|s: KnownSensor| s.address == address),
{
    let mut out: Vec<KnownSensor> = Vec::new();
    let mut i: usize = 0;
    while i < table.len()
        invariant
            i <= table@.len(),
            out@ == table@.take(i as int).filter(|s: KnownSensor| s.address == address),
        decreases table@.len() - i,
    {
        let s = table[i];
        proof {
            assert(table@.take(i as int + 1).drop_last() =~= table@.take(i as int));
            assert(table@.take(i as int + 1).last() == s);
            reveal_with_fuel(Seq::filter, 1);
        }
        if s.address == address {
            out.push(s);
        }
        i = i + 1;
    }
    proof {
        assert(table@.take(table@.len() as int) =~= table@);
    }
    out
}

/// Finds the row a frame belongs to (see `first_match`).
pub fn find_sensor(table: &Vec<KnownSensor>, address: u32, data: u8) -> (r: Option<(usize, bool)>)
    ensures
        r == first_match(table@, address, data, 0),
        r matches Some((i, _)) ==> i < table@.len(),
{
    let mut i: usize = 0;
    while i < table.len()
        invariant
            i <= table@.len(),
            first_match(table@, address, data, 0) == first_match(table@, address, data, i as int),
        decreases table@.len() - i,
    {
        let s = table[i];
        if s.address == address {
            if let Some(state) = s.kind.resolve(data) {
                return Some((i, state));
            }
        }
        i = i + 1;
    }
    None
}

/// Whether some row has `address`.
pub fn has_address(table: &Vec<KnownSensor>, address: u32) -> (r: bool)
    ensures
        r == exists|i: int| 0 <= i < table@.len() && #[trigger] table@[i].address == address,
{
    let mut i: usize = 0;
    while i < table.len()
        invariant
            i <= table@.len(),
            forall|j: int| 0 <= j < i ==> #[trigger] table@[j].address != address,
        decreases table@.len() - i,
    {
        if table[i].address == address {
            return true;
        }
        i = i + 1;
    }
    false
}

/// The index of the first remembered entry for `address` at or after `from`.
pub open spec fn entry_from(m: Seq<MemoryEntry>, address: u32, from: int) -> Option<int>
    decreases m.len() - from,
{
    if from < 0 || from >= m.len() {
        None
    } else if m[from].0 == address {
        Some(from)
    } else {
        entry_from(m, address, from + 1)
    }
}

/// The index of the first remembered entry for `address`.
pub open spec fn entry_index(m: Seq<MemoryEntry>, address: u32) -> Option<int> {
    entry_from(m, address, 0)
}

proof fn lemma_entry_from(m: Seq<MemoryEntry>, address: u32, from: int)
    requires
        0 <= from,
    ensures
        entry_from(m, address, from) matches Some(i) ==> from <= i < m.len() && m[i].0 == address,
        entry_from(m, address, from) is None ==> forall|j: int| from <= j < m.len() ==> #[trigger] m[j].0 != address,
    decreases m.len() - from,
{
    if from < m.len() && m[from].0 != address {
        lemma_entry_from(m, address, from + 1);
    }
}

/// A memory of sensor frames holding nothing yet.
pub fn new_sensor_memory() -> (v: heapless::Vec<MemoryEntry, 8>)
    ensures
        memory_entries(v) == Seq::<MemoryEntry>::empty(),
{
    memory_new()
}

/// Every remembered time is at most `now_ms`.
pub open spec fn memory_before(m: Seq<MemoryEntry>, now_ms: u64) -> bool {
    forall|i: int| 0 <= i < m.len() ==> #[trigger] m[i].2 <= now_ms
}

/// Whether `data` from `address` at `now_ms` repeats the last value
/// remembered for that address, seen less than `timeout_ms` ago; and the
/// memory afterwards, which holds (address, data, now) for that address.
/// A first sighting is always new and is remembered while there is room.
pub open spec fn repeat_spec(m: Seq<MemoryEntry>, address: u32, data: u8, now_ms: u64, timeout_ms: u64) -> (bool, Seq<MemoryEntry>) {
    match entry_index(m, address) {
        Some(i) => {
            let stale = now_ms - m[i].2 >= timeout_ms;
            (!stale && m[i].1 == data, m.update(i, (address, data, now_ms)))
        },
        None => (false, if m.len() < MAX_TRACKED_SENSORS { m.push((address, data, now_ms)) } else { m }),
    }
}

/// Dedup keyed on (address, data): true if this data value was already the
/// last one remembered for the address, within `timeout_ms`. Updates the
/// memory as `repeat_spec` says.
pub(crate) fn is_repeat(
    last_states: &mut heapless::Vec<MemoryEntry, 8>,
    address: u32,
    data: u8,
    now_ms: u64,
    timeout_ms: u64,
) -> (repeat: bool)
    requires
        memory_before(memory_entries(*old(last_states)), now_ms),
        memory_entries(*old(last_states)).len() <= MAX_TRACKED_SENSORS,
    ensures
        (repeat, memory_entries(*final(last_states))) == repeat_spec(
            memory_entries(*old(last_states)),
            address,
            data,
            now_ms,
            timeout_ms,
        ),
        memory_before(memory_entries(*final(last_states)), now_ms),
        memory_entries(*final(last_states)).len() <= MAX_TRACKED_SENSORS,
{
    let ghost m = memory_entries(*last_states);
    let n = memory_len(last_states);
    let mut i: usize = 0;
    while i < n
        invariant
            n == m.len(),
            m == memory_entries(*last_states),
            i <= n,
            memory_before(m, now_ms),
            m == memory_entries(*old(last_states)),
            m.len() <= MAX_TRACKED_SENSORS,
            entry_index(m, address) == entry_from(m, address, i as int),
        decreases n - i,
    {
        let entry = memory_get(last_states, i);
        if entry.0 == address {
            proof {
                assert(entry_index(m, address) == Some(i as int));
                assert(m[i as int].2 <= now_ms);
            }
            let stale = now_ms - entry.2 >= timeout_ms;
            let repeat = !stale && entry.1 == data;
            memory_set(last_states, i, (address, data, now_ms));
            return repeat;
        }
        i = i + 1;
    }
    let _ = memory_push(last_states, (address, data, now_ms));
    false
}

/// What a frame told the receiver.
#[derive(Clone, Copy, PartialEq, Eq, Debug, Structural)]
pub enum SensorEvent {
    /// Known row `sensor` reported a new value; `open` is its new state
    /// (door: open/closed; button: always true).
    Changed { sensor: usize, open: bool },
    /// Known row `sensor` repeated what it last reported.
    Repeated { sensor: usize },
    /// A known address with a data value none of its rows recognizes.
    Garbled { address: u32, data: u8 },
    /// An address no row has.
    Unknown { address: u32, data: u8 },
}

/// What handling `code` at `now_ms` does: memory `m0` becomes `m1`, status
/// flags `s0` become `s1`, and `ev` is reported (see `handle_frame`).
pub open spec fn frame_outcome(
    table: Seq<KnownSensor>,
    m0: Seq<MemoryEntry>,
    s0: Seq<bool>,
    code: u32,
    now_ms: u64,
    m1: Seq<MemoryEntry>,
    s1: Seq<bool>,
    ev: SensorEvent,
) -> bool {
    let address = code >> 4u32;
    let data = (code & 0xfu32) as u8;
    match first_match(table, address, data, 0) {
        Some((i, state)) => {
            let sensor = table[i as int];
            let timeout = if sensor.kind is DoorSensor { STALE_TIMEOUT_MS } else { BUTTON_REPEAT_WINDOW_MS };
            let (repeat, mem) = repeat_spec(m0, address, data, now_ms, timeout);
            &&& m1 == mem
            &&& repeat ==> ev == SensorEvent::Repeated { sensor: i } && s1 == s0
            &&& !repeat ==> {
                &&& ev == SensorEvent::Changed { sensor: i, open: state }
                &&& s1 == s0.update(sensor.status as int, state)
            }
        },
        None => {
            &&& m1 == m0
            &&& s1 == s0
            &&& ev == if exists|k: int| 0 <= k < table.len() && #[trigger] table[k].address == address {
                SensorEvent::Garbled { address, data }
            } else {
                SensorEvent::Unknown { address, data }
            }
        },
    }
}

/// Handles one 24-bit frame at `now_ms`: a recognized value not repeating
/// the last one (within the door or button window) updates the sensor's
/// status slot (a door stores open or closed, a button's flag goes true on a
/// press and is never cleared here) and is reported; garbled values of known addresses
/// are reported without touching the memory; unknown addresses are reported raw.
pub(crate) fn handle_frame(
    table: &Vec<KnownSensor>,
    last_states: &mut heapless::Vec<MemoryEntry, 8>,
    statuses: &mut Vec<bool>,
    code: u32,
    now_ms: u64,
) -> (ev: SensorEvent)
    requires
        memory_before(memory_entries(*old(last_states)), now_ms),
        memory_entries(*old(last_states)).len() <= MAX_TRACKED_SENSORS,
        forall|i: int| 0 <= i < table@.len() ==> #[trigger] table@[i].status < old(statuses)@.len(),
    ensures
        memory_before(memory_entries(*final(last_states)), now_ms),
        memory_entries(*final(last_states)).len() <= MAX_TRACKED_SENSORS,
        final(statuses)@.len() == old(statuses)@.len(),
        frame_outcome(
            table@,
            memory_entries(*old(last_states)),
            old(statuses)@,
            code,
            now_ms,
            memory_entries(*final(last_states)),
            final(statuses)@,
            ev,
        ),
{
    let address = code >> 4u32;
    let data = (code & 0xfu32) as u8;
    match find_sensor(table, address, data) {
        Some((i, state)) => {
            let sensor = table[i];
            let timeout = match sensor.kind {
                SensorKind::DoorSensor { .. } => STALE_TIMEOUT_MS,
                SensorKind::Button { .. } => BUTTON_REPEAT_WINDOW_MS,
            };
            if is_repeat(last_states, address, data, now_ms, timeout) {
                SensorEvent::Repeated { sensor: i }
            } else {
                statuses.set(sensor.status, state);
                SensorEvent::Changed { sensor: i, open: state }
            }
        },
        None => {
            if has_address(table, address) {
                SensorEvent::Garbled { address, data }
            } else {
                SensorEvent::Unknown { address, data }
            }
        },
    }
}

/// Whether the memory can take a frame at `now_ms`: at most
/// MAX_TRACKED_SENSORS entries, none remembered later than `now_ms`.
pub fn memory_ok(last_states: &heapless::Vec<MemoryEntry, 8>, now_ms: u64) -> (r: bool)
    ensures
        r == (memory_before(memory_entries(*last_states), now_ms) && memory_entries(*last_states).len()
            <= MAX_TRACKED_SENSORS),
{
    let n = memory_len(last_states);
    if n > MAX_TRACKED_SENSORS {
        return false;
    }
    let mut i: usize = 0;
    while i < n
        invariant
            i <= n,
            n == memory_entries(*last_states).len(),
            forall|j: int| 0 <= j < i ==> #[trigger] memory_entries(*last_states)[j].2 <= now_ms,
        decreases n - i,
    {
        if memory_get(last_states, i).2 > now_ms {
            return false;
        }
        i = i + 1;
    }
    true
}

/// Handles one frame (see `handle_frame`) when the memory can take it (see
/// `memory_ok`); otherwise changes nothing and returns `None`: a clock that
/// went backwards must not make an old frame look fresh.
pub fn receive_frame(
    table: &Vec<KnownSensor>,
    last_states: &mut heapless::Vec<MemoryEntry, 8>,
    statuses: &mut Vec<bool>,
    code: u32,
    now_ms: u64,
) -> (r: Option<SensorEvent>)
    requires
        forall|i: int| 0 <= i < table@.len() ==> #[trigger] table@[i].status < old(statuses)@.len(),
    ensures
        final(statuses)@.len() == old(statuses)@.len(),
        !(memory_before(memory_entries(*old(last_states)), now_ms) && memory_entries(*old(last_states)).len()
            <= MAX_TRACKED_SENSORS) ==> {
            &&& r is None
            &&& memory_entries(*final(last_states)) == memory_entries(*old(last_states))
            &&& final(statuses)@ == old(statuses)@
        },
        (memory_before(memory_entries(*old(last_states)), now_ms) && memory_entries(*old(last_states)).len()
            <= MAX_TRACKED_SENSORS) ==> (r matches Some(ev) && frame_outcome(
            table@,
            memory_entries(*old(last_states)),
            old(statuses)@,
            code,
            now_ms,
            memory_entries(*final(last_states)),
            final(statuses)@,
            ev,
        )),
{
    if !memory_ok(last_states, now_ms) {
        return None;
    }
    Some(handle_frame(table, last_states, statuses, code, now_ms))
}

/// A value heard again within the window, unchanged, is a repeat and
/// leaves its status alone; after the window it counts as new.
pub proof fn law_repeat_window(m: Seq<MemoryEntry>, address: u32, data: u8, now_ms: u64, timeout_ms: u64, i: int)
    requires
        entry_index(m, address) == Some(i),
        m[i].1 == data,
        m[i].2 <= now_ms,
    ensures
        repeat_spec(m, address, data, now_ms, timeout_ms).0 == (now_ms - m[i].2 < timeout_ms),
{
}

/// After any frame of a sensor, its entry holds that frame's value and time.
pub proof fn law_memory_remembers(m: Seq<MemoryEntry>, address: u32, data: u8, now_ms: u64, timeout_ms: u64)
    requires
        entry_index(m, address) is Some || m.len() < MAX_TRACKED_SENSORS,
    ensures
        ({
            let after = repeat_spec(m, address, data, now_ms, timeout_ms).1;
            exists|k: int| 0 <= k < after.len() && #[trigger] after[k] == (address, data, now_ms)
        }),
{
    let after = repeat_spec(m, address, data, now_ms, timeout_ms).1;
    lemma_entry_from(m, address, 0);
    match entry_index(m, address) {
        Some(i) => {
            assert(after[i] == (address, data, now_ms));
        },
        None => {
            assert(after[m.len() as int] == (address, data, now_ms));
        },
    }
}

proof fn lemma_first_match_row(t: Seq<KnownSensor>, address: u32, data: u8, from: int)
    requires
        0 <= from,
        t.len() <= usize::MAX,
    ensures
        first_match(t, address, data, from) matches Some((i, state)) ==> {
            &&& from <= i < t.len()
            &&& resolve_spec(t[i as int].kind, data) == Some(state)
        },
    decreases t.len() - from,
{
    if 0 <= from < t.len() && !(t[from].address == address && resolve_spec(t[from].kind, data) is Some) {
        lemma_first_match_row(t, address, data, from + 1);
    }
}

/// A fob button's flag only ever goes up: a frame never clears a status
/// slot that no door sensor drives, whatever it holds and whenever it comes.
pub proof fn law_button_flag_never_cleared(
    table: Seq<KnownSensor>,
    m0: Seq<MemoryEntry>,
    s0: Seq<bool>,
    code: u32,
    now_ms: u64,
    m1: Seq<MemoryEntry>,
    s1: Seq<bool>,
    ev: SensorEvent,
    slot: int,
)
    requires
        table.len() <= usize::MAX,
        frame_outcome(table, m0, s0, code, now_ms, m1, s1, ev),
        forall|i: int| 0 <= i < table.len() ==> #[trigger] table[i].status < s0.len(),
        forall|i: int| 0 <= i < table.len() && #[trigger] table[i].status == slot ==> table[i].kind is Button,
        0 <= slot < s0.len(),
        s0[slot],
    ensures
        s1[slot],
{
    let address = code >> 4u32;
    let data = (code & 0xfu32) as u8;
    lemma_first_match_row(table, address, data, 0);
    if let Some((i, state)) = first_match(table, address, data, 0) {
        let row = table[i as int];
        assert(row.status < s0.len());
        if row.status == slot {
            assert(row.kind is Button);
            assert(state);
        }
    }
}

} // verus!
