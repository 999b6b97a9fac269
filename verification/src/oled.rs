//! The 128x64 status display: the framebuffer in the SSD1306's own page
//! layout, which pages go out to the panel, the "alive" slider, and where
//! everything sits on the screen.
//!
//! Layout: a white status bar along the top, the show-logic state centered
//! in the middle with a network-data mark to its left and a CPU pie to its
//! right, the four remote buttons above the six wired inputs low on the
//! screen, and a 1px slider along the very bottom row.
use vstd::prelude::*;
use vstd::utf8::encode_utf8;
use crate::logic::State;

verus! {

pub const WIDTH: i32 = 128;
pub const HEIGHT: i32 = 64;
/// Eight pages of eight rows; one byte per column per page, lowest bit the
/// top row of the page.
pub const PAGES: usize = 8;
pub const PAGE_BYTES: usize = 128;
pub const FRAME_BYTES: usize = 1024;

pub const TOP_BAR_H: i32 = 10;
pub const TOP_TEXT_Y: i32 = 7;
/// Wired inputs (bottom strip) and remote buttons (the strip above it).
pub const RECT_Y: i32 = 56;
pub const RECT_H: i32 = 6;
pub const REMOTE_RECT_Y: i32 = 49;
/// Halfway between the top bar and the remote strip.
pub const STATE_Y: i32 = 29;
pub const MARK_X: i32 = 3;
pub const MARK_SIZE: i32 = 16;
pub const MARK_STROKE: u32 = 3;
pub const PIE_X: i32 = 109;
/// Width of one wired-input segment (128 / 6).
pub const SEG_W: i32 = 21;
/// Width of one remote-button segment (128 / 4).
pub const REMOTE_SEG_W: i32 = 32;

pub const SLIDER_Y: i32 = 63;
pub const SLIDER_WIDTH: i32 = 20;
pub const SLIDER_TRAVEL: i32 = 108;
/// Pixels per frame.
pub const SLIDER_SPEED: i32 = 2;
/// Time between frames (25 fps).
pub const FRAME_MS: u64 = 40;

/// Whether the bit for row `y % 8` is set in `b`.
pub open spec fn bit_set(b: u8, y: int) -> bool {
    (b >> ((y % 8) as u8)) & 1u8 == 1u8
}

/// Where pixel (x, y) lives: its byte.
pub open spec fn byte_index(x: int, y: int) -> int {
    (y / 8) * 128 + x
}

pub open spec fn on_screen(x: int, y: int) -> bool {
    0 <= x < 128 && 0 <= y < 64
}

/// The 1bpp framebuffer.
pub struct Frame {
    bytes: Vec<u8>,
}

impl Frame {
    pub closed spec fn view(&self) -> Seq<u8> {
        self.bytes@
    }

    pub open spec fn wf(&self) -> bool {
        self.view().len() == FRAME_BYTES
    }

    /// Whether pixel (x, y) is lit.
    pub open spec fn pixel(&self, x: int, y: int) -> bool {
        bit_set(self.view()[byte_index(x, y)], y)
    }

    /// The bytes of page `p`.
    pub open spec fn page_view(&self, p: int) -> Seq<u8> {
        self.view().subrange(p * 128, p * 128 + 128)
    }

    /// All dark.
    pub fn new() -> (f: Frame)
        ensures
            f.wf(),
            f.view() == Seq::new(FRAME_BYTES as nat, |i: int| 0u8),
    {
        let mut bytes: Vec<u8> = Vec::new();
        while bytes.len() < FRAME_BYTES
            invariant
                bytes@.len() <= FRAME_BYTES,
                forall|i: int| 0 <= i < bytes@.len() ==> bytes@[i] == 0u8,
            decreases FRAME_BYTES - bytes@.len(),
        {
            bytes.push(0u8);
        }
        let f = Frame { bytes };
        proof {
            assert(f.view() =~= Seq::new(FRAME_BYTES as nat, |i: int| 0u8));
        }
        f
    }

    /// Back to all dark.
    pub fn clear(&mut self)
        requires
            old(self).wf(),
        ensures
            final(self).view() == Seq::new(FRAME_BYTES as nat, |i: int| 0u8),
    {
        let mut i: usize = 0;
        while i < FRAME_BYTES
            invariant
                i <= FRAME_BYTES,
                self.bytes@.len() == FRAME_BYTES,
                forall|k: int| 0 <= k < i ==> self.bytes@[k] == 0u8,
            decreases FRAME_BYTES - i,
        {
            self.bytes.set(i, 0u8);
            i = i + 1;
        }
        proof {
            assert(self.view() =~= Seq::new(FRAME_BYTES as nat, |i: int| 0u8));
        }
    }

    /// Lights or darkens pixel (x, y); a pixel off the screen is ignored.
    pub fn set_pixel(&mut self, x: i32, y: i32, on: bool)
        requires
            old(self).wf(),
        ensures
            final(self).wf(),
            !on_screen(x as int, y as int) ==> final(self).view() == old(self).view(),
            forall|px: int, py: int| on_screen(px, py) ==> #[trigger] final(self).pixel(px, py) == if px == x && py == y {
                on
            } else {
                old(self).pixel(px, py)
            },
    {
        if x < 0 || x >= 128 || y < 0 || y >= 64 {
            return;
        }
        let idx: usize = (y as usize / 8) * PAGE_BYTES + x as usize;
        let k: u8 = (y % 8) as u8;
        let bit: u8 = 1u8 << k;
        let b = self.bytes[idx];
        let nb: u8 = if on { b | bit } else { b & !bit };
        self.bytes.set(idx, nb);
        proof {
            assert(idx as int == byte_index(x as int, y as int));
            assert(k as int == (y as int) % 8);
            assert(k < 8);
            assert(on ==> (nb >> k) & 1u8 == 1u8) by (bit_vector)
                requires
                    k < 8,
                    bit == 1u8 << k,
                    on ==> nb == b | bit;
            assert(!on ==> (nb >> k) & 1u8 != 1u8) by (bit_vector)
                requires
                    k < 8,
                    bit == 1u8 << k,
                    !on ==> nb == b & !bit;
            assert forall|j: u8| j < 8 && j != k implies #[trigger] ((nb >> j) & 1u8) == (b >> j) & 1u8 by {
                assert(((nb >> j) & 1u8) == (b >> j) & 1u8) by (bit_vector)
                    requires
                        j < 8,
                        k < 8,
                        j != k,
                        bit == 1u8 << k,
                        nb == (if on { b | bit } else { b & !bit });
            }
            assert forall|px: int, py: int| on_screen(px, py) implies #[trigger] self.pixel(px, py) == if px == x && py == y {
                on
            } else {
                old(self).pixel(px, py)
            } by {
                let i = byte_index(px, py);
                if i == idx as int {
                    assert(py / 8 == (y as int) / 8 && px == x) by (nonlinear_arith)
                        requires
                            i == (py / 8) * 128 + px,
                            i == ((y as int) / 8) * 128 + x,
                            0 <= px < 128,
                            0 <= x < 128,
                            0 <= py < 64,
                            0 <= y < 64;
                    let j = (py % 8) as u8;
                    if py != y {
                        assert(j != k);
                        assert(((nb >> j) & 1u8) == (b >> j) & 1u8);
                    }
                } else {
                    assert(0 <= i < FRAME_BYTES) by (nonlinear_arith)
                        requires
                            i == (py / 8) * 128 + px,
                            0 <= px < 128,
                            0 <= py < 64;
                }
            }
        }
    }

    /// Whether page `p` of this frame and of `other` hold the same bytes.
    pub fn same_page(&self, other: &Frame, p: usize) -> (r: bool)
        requires
            self.wf(),
            other.wf(),
            p < PAGES,
        ensures
            r == (self.page_view(p as int) == other.page_view(p as int)),
    {
        let start = p * PAGE_BYTES;
        let mut i: usize = 0;
        while i < PAGE_BYTES
            invariant
                i <= PAGE_BYTES,
                start == p * PAGE_BYTES,
                p < PAGES,
                self.wf(),
                other.wf(),
                forall|k: int| 0 <= k < i ==> #[trigger] self.page_view(p as int)[k] == other.page_view(p as int)[k],
            decreases PAGE_BYTES - i,
        {
            if self.bytes[start + i] != other.bytes[start + i] {
                proof {
                    assert(self.page_view(p as int)[i as int] != other.page_view(p as int)[i as int]);
                }
                return false;
            }
            i = i + 1;
        }
        proof {
            assert(self.page_view(p as int) =~= other.page_view(p as int));
        }
        true
    }

    /// The bytes of page `p`, as sent to the panel.
    pub fn page(&self, p: usize) -> (b: Vec<u8>)
        requires
            self.wf(),
            p < PAGES,
        ensures
            b@ == self.page_view(p as int),
    {
        let start = p * PAGE_BYTES;
        let mut b: Vec<u8> = Vec::new();
        let mut i: usize = 0;
        while i < PAGE_BYTES
            invariant
                i <= PAGE_BYTES,
                start == p * PAGE_BYTES,
                p < PAGES,
                self.wf(),
                b@ == self.view().subrange(start as int, start + i),
            decreases PAGE_BYTES - i,
        {
            b.push(self.bytes[start + i]);
            proof {
                assert(self.view().subrange(start as int, start + i + 1) =~= self.view().subrange(start as int, start + i).push(self.view()[start + i]));
            }
            i = i + 1;
        }
        b
    }

    /// Copies page `p` of `src` into this frame.
    pub fn copy_page(&mut self, src: &Frame, p: usize)
        requires
            old(self).wf(),
            src.wf(),
            p < PAGES,
        ensures
            final(self).wf(),
            final(self).page_view(p as int) == src.page_view(p as int),
            forall|q: int| 0 <= q < PAGES && q != p ==> #[trigger] final(self).page_view(q) == old(self).page_view(q),
    {
        let start = p * PAGE_BYTES;
        let mut i: usize = 0;
        while i < PAGE_BYTES
            invariant
                i <= PAGE_BYTES,
                start == p * PAGE_BYTES,
                p < PAGES,
                src.wf(),
                self.view().len() == FRAME_BYTES,
                forall|k: int| 0 <= k < FRAME_BYTES ==> #[trigger] self.view()[k] == if start <= k < start + i {
                    src.view()[k]
                } else {
                    old(self).view()[k]
                },
            decreases PAGE_BYTES - i,
        {
            self.bytes.set(start + i, src.bytes[start + i]);
            i = i + 1;
        }
        proof {
            assert(self.page_view(p as int) =~= src.page_view(p as int));
            assert forall|q: int| 0 <= q < PAGES && q != p implies #[trigger] self.page_view(q) == old(self).page_view(q) by {
                assert(self.page_view(q) =~= old(self).page_view(q));
            }
        }
    }
}

/// What the panel is known to show, page by page. A page is sent when its
/// content on the panel is not known or differs from the new frame; a
/// failed transfer makes every page unknown, so the next frame resends
/// everything rather than guess what landed.
pub struct PanelSync {
    shadow: Frame,
    known: Vec<bool>,
}

impl PanelSync {
    pub open spec fn wf(&self) -> bool {
        &&& self.shadow_view().wf()
        &&& self.known_view().len() == PAGES
    }

    pub closed spec fn shadow_view(&self) -> Frame {
        self.shadow
    }

    pub closed spec fn known_view(&self) -> Seq<bool> {
        self.known@
    }

    /// Whether page `p` has to be sent for `frame` to show.
    pub open spec fn needs_send(&self, frame: Frame, p: int) -> bool {
        !self.known_view()[p] || self.shadow_view().page_view(p) != frame.page_view(p)
    }

    /// At power-up the panel's memory is garbage: nothing is known.
    pub fn new() -> (s: PanelSync)
        ensures
            s.wf(),
            forall|p: int| 0 <= p < PAGES ==> !#[trigger] s.known_view()[p],
    {
        let mut known: Vec<bool> = Vec::new();
        while known.len() < PAGES
            invariant
                known@.len() <= PAGES,
                forall|p: int| 0 <= p < known@.len() ==> !known@[p],
            decreases PAGES - known@.len(),
        {
            known.push(false);
        }
        PanelSync { shadow: Frame::new(), known }
    }

    /// Whether page `p` has to be sent for `frame` to show.
    pub fn page_needs_send(&self, frame: &Frame, p: usize) -> (r: bool)
        requires
            self.wf(),
            frame.wf(),
            p < PAGES,
        ensures
            r == self.needs_send(*frame, p as int),
    {
        !self.known[p] || !self.shadow.same_page(frame, p)
    }

    /// Page `p` of `frame` reached the panel.
    pub fn sent(&mut self, frame: &Frame, p: usize)
        requires
            old(self).wf(),
            frame.wf(),
            p < PAGES,
        ensures
            final(self).wf(),
            !final(self).needs_send(*frame, p as int),
            forall|q: int| 0 <= q < PAGES && q != p ==> #[trigger] final(self).known_view()[q] == old(self).known_view()[q]
                && final(self).shadow_view().page_view(q) == old(self).shadow_view().page_view(q),
    {
        self.shadow.copy_page(frame, p);
        self.known.set(p, true);
    }

    /// A transfer failed: what the panel shows is no longer known.
    pub fn failed(&mut self)
        requires
            old(self).wf(),
        ensures
            final(self).wf(),
            forall|p: int| 0 <= p < PAGES ==> !#[trigger] final(self).known_view()[p],
    {
        let mut i: usize = 0;
        while i < PAGES
            invariant
                i <= PAGES,
                self.wf(),
                forall|p: int| 0 <= p < i ==> !self.known_view()[p],
            decreases PAGES - i,
        {
            self.known.set(i, false);
            i = i + 1;
        }
    }
}

/// A page sent successfully is not sent again while it stays the same, and
/// after a failed transfer every page is sent again, whatever it holds.
pub proof fn law_pages_sent_when_needed(s: PanelSync, frame: Frame, p: int)
    requires
        s.wf(),
        frame.wf(),
        0 <= p < PAGES,
    ensures
        s.known_view()[p] && s.shadow_view().page_view(p) == frame.page_view(p) ==> !s.needs_send(frame, p),
        !s.known_view()[p] ==> s.needs_send(frame, p),
{
}

/// The sliding bar: its left edge and direction (1 right, -1 left).
pub open spec fn slider_step(x: i32, dir: i32) -> (i32, i32) {
    let nx = x + dir * SLIDER_SPEED;
    if nx >= SLIDER_TRAVEL {
        (SLIDER_TRAVEL, -1i32)
    } else if nx <= 0 {
        (0i32, 1i32)
    } else {
        (nx as i32, dir)
    }
}

pub open spec fn slider_ok(x: i32, dir: i32) -> bool {
    0 <= x <= SLIDER_TRAVEL && (dir == 1 || dir == -1)
}

/// Moves the slider one frame, bouncing at both ends.
pub fn slider(x: i32, dir: i32) -> (r: (i32, i32))
    requires
        slider_ok(x, dir),
    ensures
        r == slider_step(x, dir),
{
    let nx: i32 = x + dir * SLIDER_SPEED;
    if nx >= SLIDER_TRAVEL {
        (SLIDER_TRAVEL, -1i32)
    } else if nx <= 0 {
        (0i32, 1i32)
    } else {
        (nx, dir)
    }
}

/// The slider never leaves the screen and keeps moving one way or the other.
pub proof fn law_slider_stays_on_screen(x: i32, dir: i32)
    requires
        slider_ok(x, dir),
    ensures
        slider_ok(slider_step(x, dir).0, slider_step(x, dir).1),
        slider_step(x, dir).0 + SLIDER_WIDTH <= WIDTH,
{
}

/// A rectangle: left, top, width, height.
pub type Rect = (i32, i32, u32, u32);

/// Wired input `i` (0..6): a segment of the bottom strip; its rightmost
/// column stays blank as the divider.
pub fn input_rect(i: u8) -> (r: Rect)
    requires
        i < 6,
    ensures
        r == ((i * SEG_W) as i32, RECT_Y, (SEG_W - 1) as u32, RECT_H as u32),
{
    (i as i32 * SEG_W, RECT_Y, (SEG_W - 1) as u32, RECT_H as u32)
}

/// Remote button `i` (0..4): a segment of the strip above the inputs.
pub fn remote_rect(i: u8) -> (r: Rect)
    requires
        i < 4,
    ensures
        r == ((i * REMOTE_SEG_W) as i32, REMOTE_RECT_Y, (REMOTE_SEG_W - 1) as u32, RECT_H as u32),
{
    (i as i32 * REMOTE_SEG_W, REMOTE_RECT_Y, (REMOTE_SEG_W - 1) as u32, RECT_H as u32)
}

/// The state as the display shows it: its name in capitals, or "..." while
/// the show logic has not started.
pub fn state_label(s: Option<State>) -> (r: &'static str)
    ensures
        r@ == match s {
            Some(State::Idle) => "IDLE"@,
            Some(State::Running) => "RUNNING"@,
            Some(State::Overload) => "OVERLOAD"@,
            None => "..."@,
        },
{
    match s {
        Some(State::Idle) => "IDLE",
        Some(State::Running) => "RUNNING",
        Some(State::Overload) => "OVERLOAD",
        None => "...",
    }
}

/// What the top bar says: the host name, or "no eth" without a network.
pub fn host_label(hostname: Option<&[u8]>) -> (r: Vec<u8>)
    ensures
        r@ == match hostname {
            Some(h) => h@,
            None => encode_utf8("no eth"@),
        },
{
    match hostname {
        Some(h) => crate::text::copy_bytes(h),
        None => crate::text::copy_bytes("no eth".as_bytes()),
    }
}

} // verus!
