//! Decisions around the global input hooks: recognising a single tap on
//! Ctrl, where the translation popup goes, and which clicks fall inside a
//! window. The hooks, the clock and the windows are the app's; these
//! functions get plain values from it and tell it what to do.
use vstd::prelude::*;
use crate::text::{chars_of, lowercase, lowercase_of, string_of};
use crate::settings::same_text;

verus! {

/// What the hooks report.
#[derive(Debug, Clone, Copy, PartialEq, Eq, Structural)]
pub enum InputEvent {
    /// A mouse button went down (any button), at screen pixel (x, y).
    Click { x: i32, y: i32 },
    /// Ctrl was pressed and released on its own, quickly.
    CtrlTap,
    /// Escape was pressed.
    Esc,
}

/// Released within this many milliseconds, a Ctrl press counts as a tap.
pub const TAP_MAX_MS: u64 = 450;
pub const VK_ESCAPE: u32 = 0x1B;
pub const VK_LCONTROL: u32 = 0xA2;
pub const VK_RCONTROL: u32 = 0xA3;

/// What the keyboard hook remembers between events.
#[derive(Debug, Clone, Copy, PartialEq, Eq, Structural)]
pub struct TapState {
    /// Ctrl is held.
    pub ctrl_down: bool,
    /// Something else happened (another key, a click) while Ctrl was held.
    pub dirty: bool,
    /// When the current Ctrl press began, in milliseconds of the hook clock.
    pub down_at_ms: u64,
}

pub open spec fn is_ctrl(vk: u32) -> bool {
    vk == VK_LCONTROL || vk == VK_RCONTROL
}

/// The hook's state before any event.
pub open spec fn tap_start() -> TapState {
    TapState { ctrl_down: false, dirty: false, down_at_ms: 0 }
}

/// One keyboard event: key `vk` went down or up (`up`) at `now_ms`;
/// `injected` marks keys that a program (this one included) sent. Injected
/// keys are ignored. A Ctrl press starts a clean press (repeats of a held
/// Ctrl change nothing); releasing Ctrl reports a tap when the press was
/// clean and short; any other key going down spoils the press, and Escape
/// is reported.
pub open spec fn key_step(s: TapState, vk: u32, up: bool, injected: bool, now_ms: u64) -> (TapState, Option<InputEvent>) {
    if injected {
        (s, None)
    } else if is_ctrl(vk) {
        if !up {
            if !s.ctrl_down {
                (TapState { ctrl_down: true, dirty: false, down_at_ms: now_ms }, None)
            } else {
                (s, None)
            }
        } else {
            let tap = s.ctrl_down && !s.dirty && (if now_ms >= s.down_at_ms { now_ms - s.down_at_ms } else { 0 }) <= TAP_MAX_MS;
            (TapState { ctrl_down: false, ..s }, if tap { Some(InputEvent::CtrlTap) } else { None })
        }
    } else if !up {
        (TapState { dirty: true, ..s }, if vk == VK_ESCAPE { Some(InputEvent::Esc) } else { None })
    } else {
        (s, None)
    }
}

/// A mouse button went down: it spoils a Ctrl press and is reported.
pub open spec fn click_step(s: TapState, x: i32, y: i32) -> (TapState, InputEvent) {
    (TapState { dirty: true, ..s }, InputEvent::Click { x, y })
}

impl TapState {
    /// The state before any event.
    pub fn start() -> (s: TapState)
        ensures
            s == tap_start(),
    {
        TapState { ctrl_down: false, dirty: false, down_at_ms: 0 }
    }

    /// Handles a keyboard event.
    pub fn on_key(self, vk: u32, up: bool, injected: bool, now_ms: u64) -> (r: (TapState, Option<InputEvent>))
        ensures
            r == key_step(self, vk, up, injected, now_ms),
    {
        if injected {
            (self, None)
        } else if vk == VK_LCONTROL || vk == VK_RCONTROL {
            if !up {
                if !self.ctrl_down {
                    (TapState { ctrl_down: true, dirty: false, down_at_ms: now_ms }, None)
                } else {
                    (self, None)
                }
            } else {
                let held = if now_ms >= self.down_at_ms { now_ms - self.down_at_ms } else { 0 };
                let tap = self.ctrl_down && !self.dirty && held <= TAP_MAX_MS;
                let next = TapState { ctrl_down: false, dirty: self.dirty, down_at_ms: self.down_at_ms };
                (next, if tap { Some(InputEvent::CtrlTap) } else { None })
            }
        } else if !up {
            let next = TapState { ctrl_down: self.ctrl_down, dirty: true, down_at_ms: self.down_at_ms };
            (next, if vk == VK_ESCAPE { Some(InputEvent::Esc) } else { None })
        } else {
            (self, None)
        }
    }

    /// Handles a mouse button going down at (x, y).
    pub fn on_click(self, x: i32, y: i32) -> (r: (TapState, InputEvent))
        ensures
            r == click_step(self, x, y),
    {
        (TapState { ctrl_down: self.ctrl_down, dirty: true, down_at_ms: self.down_at_ms }, InputEvent::Click { x, y })
    }
}

/// An event as the hooks see it.
pub enum HookEvent {
    Key { vk: u32, up: bool, injected: bool, at: u64 },
    Click { x: i32, y: i32 },
}

pub open spec fn hook_step(s: TapState, e: HookEvent) -> (TapState, Option<InputEvent>) {
    match e {
        HookEvent::Key { vk, up, injected, at } => key_step(s, vk, up, injected, at),
        HookEvent::Click { x, y } => (click_step(s, x, y).0, Some(click_step(s, x, y).1)),
    }
}

/// The state after a sequence of events.
pub open spec fn run_hooks(s: TapState, es: Seq<HookEvent>) -> TapState
    decreases es.len(),
{
    if es.len() == 0 {
        s
    } else {
        hook_step(run_hooks(s, es.drop_last()), es.last()).0
    }
}

/// Event `e` spoils a Ctrl press: a click, or another key going down.
pub open spec fn spoils(e: HookEvent) -> bool {
    match e {
        HookEvent::Click { .. } => true,
        HookEvent::Key { vk, up, injected, at } => !injected && !is_ctrl(vk) && !up,
    }
}

/// Event `e` is a real (not injected) Ctrl press or release.
pub open spec fn real_ctrl(e: HookEvent, up: bool) -> bool {
    match e {
        HookEvent::Key { vk, up: u, injected, at } => !injected && is_ctrl(vk) && u == up,
        _ => false,
    }
}

pub open spec fn event_time(e: HookEvent) -> u64 {
    match e {
        HookEvent::Key { at, .. } => at,
        _ => 0,
    }
}

/// Event `j` of `es` began a Ctrl press that is still clean at the end: Ctrl
/// was up before it, and after it nothing spoiled the press and Ctrl was not
/// released.
pub open spec fn clean_press_since(start: TapState, es: Seq<HookEvent>, j: int) -> bool {
    &&& 0 <= j < es.len()
    &&& real_ctrl(es[j], false)
    &&& !run_hooks(start, es.take(j)).ctrl_down
    &&& forall|k: int| j < k < es.len() ==> !spoils(#[trigger] es[k]) && !real_ctrl(es[k], true)
}

proof fn lemma_clean_press(start: TapState, es: Seq<HookEvent>)
    requires
        !start.ctrl_down,
    ensures
        ({
            let s = run_hooks(start, es);
            s.ctrl_down && !s.dirty ==> exists|j: int| clean_press_since(start, es, j) && s.down_at_ms == event_time(#[trigger] es[j])
        }),
    decreases es.len(),
{
    if es.len() > 0 {
        let pre = es.drop_last();
        lemma_clean_press(start, pre);
        let s0 = run_hooks(start, pre);
        let e = es.last();
        let s = run_hooks(start, es);
        if s.ctrl_down && !s.dirty {
            if real_ctrl(e, false) && !s0.ctrl_down {
                assert(es.take(es.len() - 1) =~= pre);
                assert(clean_press_since(start, es, es.len() - 1));
            } else {
                assert(s0.ctrl_down && !s0.dirty);
                let j = choose|j: int| clean_press_since(start, pre, j) && s0.down_at_ms == event_time(#[trigger] pre[j]);
                assert(es.take(j) =~= pre.take(j));
                assert(es[j] == pre[j]);
                assert forall|k: int| j < k < es.len() implies !spoils(#[trigger] es[k]) && !real_ctrl(es[k], true) by {
                    if k < es.len() - 1 {
                        assert(es[k] == pre[k]);
                    }
                }
                assert(clean_press_since(start, es, j));
            }
        }
    }
}

/// A tap is reported only for a real Ctrl release that ends a clean press:
/// a real Ctrl press with nothing spoiling it since and no release in
/// between, begun at most 450 ms before the release.
pub proof fn lemma_tap_needs_clean_short_press(es: Seq<HookEvent>, vk: u32, at: u64)
    requires
        key_step(run_hooks(tap_start(), es), vk, true, false, at).1 == Some(InputEvent::CtrlTap),
    ensures
        is_ctrl(vk),
        exists|j: int| clean_press_since(tap_start(), es, j) && (at < event_time(#[trigger] es[j]) || at - event_time(es[j]) <= TAP_MAX_MS),
{
    lemma_clean_press(tap_start(), es);
    let s = run_hooks(tap_start(), es);
    assert(s.ctrl_down && !s.dirty);
}

proof fn lemma_clean_press_holds(start: TapState, es: Seq<HookEvent>, j: int)
    requires
        clean_press_since(start, es, j),
    ensures
        ({
            let s = run_hooks(start, es);
            s.ctrl_down && !s.dirty && s.down_at_ms == event_time(es[j])
        }),
    decreases es.len(),
{
    let pre = es.drop_last();
    if j == es.len() - 1 {
        assert(pre =~= es.take(j));
    } else {
        assert(pre.take(j) =~= es.take(j));
        assert(pre[j] == es[j]);
        assert forall|k: int| j < k < pre.len() implies !spoils(#[trigger] pre[k]) && !real_ctrl(pre[k], true) by {
            assert(pre[k] == es[k]);
        }
        lemma_clean_press_holds(start, pre, j);
        let last = es.len() - 1;
        assert(!spoils(es[last]) && !real_ctrl(es[last], true));
    }
}

/// A quick, clean tap is recognised: after a real Ctrl press that nothing
/// spoiled and that was not released since, releasing Ctrl at most 450 ms
/// later reports a tap.
pub proof fn lemma_clean_short_press_taps(es: Seq<HookEvent>, j: int, vk: u32, at: u64)
    requires
        clean_press_since(tap_start(), es, j),
        is_ctrl(vk),
        event_time(es[j]) <= at,
        at - event_time(es[j]) <= TAP_MAX_MS,
    ensures
        key_step(run_hooks(tap_start(), es), vk, true, false, at).1 == Some(InputEvent::CtrlTap),
{
    lemma_clean_press_holds(tap_start(), es, j);
}

/// Where the popup's window goes for a selection at mouse position (mx, my):
/// below and right of the mouse, less the transparent margin `m`; inside the
/// work area (left, top, right, bottom) of the mouse's monitor when known:
/// pulled left when it would stick out on the right, flipped above the mouse
/// when it would stick out below, and never left of or above the area.
/// `w` and `h` are the window's size; all in physical pixels.
pub open spec fn popup_spot(mx: int, my: int, w: int, h: int, m: int, area: Option<(i32, i32, i32, i32)>) -> (int, int) {
    let x0 = mx + 8 - m;
    let y0 = my + 14 - m;
    match area {
        None => (x0, y0),
        Some((left, top, right, bottom)) => {
            let x1 = if x0 + w > right { right - w } else { x0 };
            let y1 = if y0 + h > bottom { my - h + m - 20 } else { y0 };
            (if x1 < left { left as int } else { x1 }, if y1 < top { top as int } else { y1 })
        },
    }
}

/// Every intermediate value of the placement fits in `i32`.
pub open spec fn popup_fits(mx: int, my: int, w: int, h: int, m: int, area: Option<(i32, i32, i32, i32)>) -> bool {
    let x0 = mx + 8 - m;
    let y0 = my + 14 - m;
    &&& i32::MIN <= mx + 8 <= i32::MAX && i32::MIN <= x0 <= i32::MAX
    &&& i32::MIN <= my + 14 <= i32::MAX && i32::MIN <= y0 <= i32::MAX
    &&& match area {
        None => true,
        Some((left, top, right, bottom)) => {
            &&& i32::MIN <= x0 + w <= i32::MAX
            &&& i32::MIN <= right - w <= i32::MAX
            &&& i32::MIN <= y0 + h <= i32::MAX
            &&& i32::MIN <= my - h <= i32::MAX
            &&& i32::MIN <= my - h + m <= i32::MAX
            &&& i32::MIN <= my - h + m - 20 <= i32::MAX
        },
    }
}

/// The popup window's top-left corner.
pub fn popup_position(mx: i32, my: i32, w: i32, h: i32, m: i32, area: Option<(i32, i32, i32, i32)>) -> (r: (i32, i32))
    requires
        popup_fits(mx as int, my as int, w as int, h as int, m as int, area),
    ensures
        (r.0 as int, r.1 as int) == popup_spot(mx as int, my as int, w as int, h as int, m as int, area),
{
    let mut x = mx + 8 - m;
    let mut y = my + 14 - m;
    match area {
        Some((left, top, right, bottom)) => {
            if x + w > right {
                x = right - w;
            }
            if y + h > bottom {
                y = my - h + m - 20;
            }
            if x < left {
                x = left;
            }
            if y < top {
                y = top;
            }
        },
        None => {},
    }
    (x, y)
}

/// The spot lies in the work area whenever the window fits into it.
pub proof fn lemma_popup_inside(mx: int, my: int, w: int, h: int, m: int, left: i32, top: i32, right: i32, bottom: i32)
    requires
        0 <= w <= right - left,
        0 <= h <= bottom - top,
    ensures
        ({
            let p = popup_spot(mx, my, w, h, m, Some((left, top, right, bottom)));
            left <= p.0 && p.0 + w <= right && top <= p.1
        }),
{
}

/// Whether pixel (x, y) lies in the rectangle at (px, py) of size w by h.
pub open spec fn rect_has(x: int, y: int, px: int, py: int, w: int, h: int) -> bool {
    px <= x < px + w && py <= y < py + h
}

/// Whether pixel (x, y) lies in a window at (px, py) of size w by h.
pub fn rect_contains(x: i32, y: i32, px: i32, py: i32, w: i32, h: i32) -> (b: bool)
    requires
        i32::MIN <= px + w <= i32::MAX,
        i32::MIN <= py + h <= i32::MAX,
    ensures
        b == rect_has(x as int, y as int, px as int, py as int, w as int, h as int),
{
    x >= px && x < px + w && y >= py && y < py + h
}

/// The executable's file name, in lowercase, from its full path.
pub open spec fn last_segment(s: Seq<char>, i: int) -> Seq<char>
    decreases i,
{
    if i <= 0 {
        s
    } else if s[i - 1] == '\\' {
        s.skip(i)
    } else {
        last_segment(s, i - 1)
    }
}

/// The last `\`-separated part of a path, in lowercase.
pub open spec fn exe_name_spec(path: Seq<char>) -> Seq<char> {
    lowercase_of(last_segment(path, path.len() as int))
}

/// The executable's name of a process path, lowercase.
pub fn exe_name(path: &str) -> (r: String)
    ensures
        r@ == exe_name_spec(path@),
{
    let v = chars_of(path);
    let mut i: usize = v.len();
    while i > 0 && v[i - 1] != '\\'
        invariant
            i <= v@.len(),
            last_segment(v@, v@.len() as int) == last_segment(v@, i as int),
        decreases i,
    {
        i = i - 1;
    }
    let mut tail: Vec<char> = Vec::new();
    let mut k: usize = i;
    while k < v.len()
        invariant
            i <= k <= v@.len(),
            tail@ == v@.subrange(i as int, k as int),
        decreases v@.len() - k,
    {
        tail.push(v[k]);
        assert(v@.subrange(i as int, k + 1) =~= v@.subrange(i as int, k as int).push(v@[k as int]));
        k = k + 1;
    }
    proof {
        if i > 0 {
            assert(tail@ =~= v@.skip(i as int));
        } else {
            assert(tail@ =~= v@);
        }
    }
    lowercase(string_of(tail.as_slice()).as_str())
}

/// The selection is not taken from the app itself, nor from the file
/// manager (whose selection is files, and copying them would disturb the
/// user's own copy and paste).
pub open spec fn skip_foreground_spec(pid: u32, own_pid: u32, exe: Seq<char>) -> bool {
    pid == own_pid || exe == "explorer.exe"@
}

/// Whether a Ctrl tap over the foreground process `pid` running `exe` is
/// ignored.
pub fn skip_foreground(pid: u32, own_pid: u32, exe: &str) -> (b: bool)
    ensures
        b == skip_foreground_spec(pid, own_pid, exe@),
{
    pid == own_pid || same_text(exe, "explorer.exe")
}

/// What the app does about an input event.
#[derive(Debug, Clone, Copy, PartialEq, Eq, Structural)]
pub enum Reaction {
    /// Hide the translation popup.
    HidePopup,
    /// Take the selected text and translate it.
    TranslateSelection,
    /// Nothing.
    Ignore,
}

/// A click outside the visible popup, or Escape while it shows, hides it
/// (a popup that does not take the focus never learns that it lost it);
/// a Ctrl tap translates the selection when that feature is on.
pub open spec fn reaction_spec(ev: InputEvent, popup_visible: bool, click_inside: bool, ctrl_tap_enabled: bool) -> Reaction {
    match ev {
        InputEvent::Click { .. } => if popup_visible && !click_inside {
            Reaction::HidePopup
        } else {
            Reaction::Ignore
        },
        InputEvent::Esc => if popup_visible {
            Reaction::HidePopup
        } else {
            Reaction::Ignore
        },
        InputEvent::CtrlTap => if ctrl_tap_enabled {
            Reaction::TranslateSelection
        } else {
            Reaction::Ignore
        },
    }
}

/// The reaction to `ev`; `popup_visible` says whether the popup shows,
/// `click_inside` whether a click fell inside it.
pub fn react(ev: InputEvent, popup_visible: bool, click_inside: bool, ctrl_tap_enabled: bool) -> (r: Reaction)
    ensures
        r == reaction_spec(ev, popup_visible, click_inside, ctrl_tap_enabled),
{
    match ev {
        InputEvent::Click { .. } => if popup_visible && !click_inside {
            Reaction::HidePopup
        } else {
            Reaction::Ignore
        },
        InputEvent::Esc => if popup_visible {
            Reaction::HidePopup
        } else {
            Reaction::Ignore
        },
        InputEvent::CtrlTap => if ctrl_tap_enabled {
            Reaction::TranslateSelection
        } else {
            Reaction::Ignore
        },
    }
}

/// The main window's toggle (shortcut, floating ball, tray): a window that
/// shows and has the focus is hidden; otherwise it is shown and focused.
pub fn toggle_hides(visible: bool, focused: bool) -> (hide: bool)
    ensures
        hide == (visible && focused),
{
    visible && focused
}

} // verus!
