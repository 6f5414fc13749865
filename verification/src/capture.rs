//! Taking the selected text of another program through the clipboard. The
//! app sends the copy keys, sleeps and reads the clipboard; the decisions
//! here say how often to look, which reads count, when to give up, and
//! what happens to the text the user had on the clipboard before.
use vstd::prelude::*;
use crate::text::trimmed;
use crate::diagnostics::has_text;

verus! {

/// Polls after the Alt+C shortcut, and the pause before each.
pub const SHORTCUT_POLLS: u32 = 20;
pub const SHORTCUT_POLL_MS: u64 = 40;
/// Polls after a single tap on Ctrl, and the pause before each.
pub const TAP_POLLS: u32 = 14;
pub const TAP_POLL_MS: u64 = 30;

/// Which gesture started the capture.
#[derive(Debug, Clone, Copy, PartialEq, Eq, Structural)]
pub enum CaptureKind {
    /// The global shortcut: the clipboard is emptied first, any non-blank
    /// text read afterwards is the selection, the popup takes the focus.
    Shortcut,
    /// A single tap on Ctrl: the clipboard is left alone; a read counts only
    /// once the clipboard's sequence number has moved, and the popup must
    /// not take the focus from the program the user works in.
    CtrlTap,
}

/// A capture in progress.
#[derive(Debug, Clone, Copy, PartialEq, Eq, Structural)]
pub struct Capture {
    pub kind: CaptureKind,
    /// Polls that may still be made.
    pub polls_left: u32,
    /// The clipboard sequence number before the copy keys were sent.
    pub seq_before: u32,
}

/// What a poll of the clipboard gives.
#[derive(Debug, PartialEq, Eq)]
pub enum Poll {
    /// Look again after the pause.
    Again,
    /// The selected text.
    Found(String),
    /// The budget of polls is spent and nothing was copied.
    Nothing,
}

/// A read of the clipboard counts: the copy has landed (for a Ctrl tap, the
/// sequence number moved) and the text is not blank.
pub open spec fn counts(c: Capture, seq: u32, read: Option<String>) -> bool {
    &&& (c.kind == CaptureKind::Shortcut || seq != c.seq_before)
    &&& read is Some
    &&& trimmed(read->0@, false).len() > 0
}

impl Capture {
    /// A capture after the global shortcut.
    pub fn for_shortcut() -> (c: Capture)
        ensures
            c == (Capture { kind: CaptureKind::Shortcut, polls_left: SHORTCUT_POLLS, seq_before: 0 }),
    {
        Capture { kind: CaptureKind::Shortcut, polls_left: SHORTCUT_POLLS, seq_before: 0 }
    }

    /// A capture after a Ctrl tap; `seq_before` is the clipboard sequence
    /// number read before the copy keys go out.
    pub fn for_ctrl_tap(seq_before: u32) -> (c: Capture)
        ensures
            c == (Capture { kind: CaptureKind::CtrlTap, polls_left: TAP_POLLS, seq_before }),
    {
        Capture { kind: CaptureKind::CtrlTap, polls_left: TAP_POLLS, seq_before }
    }

    /// Whether to empty the clipboard before copying: only for the shortcut,
    /// and only when the user's clipboard text was saved (`has_backup`), so
    /// that it can be put back.
    pub fn clears_first(&self, has_backup: bool) -> (b: bool)
        ensures
            b == (self.kind == CaptureKind::Shortcut && has_backup),
    {
        match self.kind {
            CaptureKind::Shortcut => has_backup,
            CaptureKind::CtrlTap => false,
        }
    }

    /// The pause before each poll.
    pub fn pause_ms(&self) -> (ms: u64)
        ensures
            ms == (if self.kind == CaptureKind::Shortcut { SHORTCUT_POLL_MS } else { TAP_POLL_MS }),
    {
        match self.kind {
            CaptureKind::Shortcut => SHORTCUT_POLL_MS,
            CaptureKind::CtrlTap => TAP_POLL_MS,
        }
    }

    /// Whether the clipboard is worth reading now, its sequence number being
    /// `seq`.
    pub fn wants_read(&self, seq: u32) -> (b: bool)
        ensures
            b == (self.kind == CaptureKind::Shortcut || seq != self.seq_before),
    {
        match self.kind {
            CaptureKind::Shortcut => true,
            CaptureKind::CtrlTap => seq != self.seq_before,
        }
    }

    /// One poll: the clipboard's sequence number is `seq` and `read` is the
    /// text read from it (`None` when it held no text or was not read).
    /// Each poll spends one from the budget.
    pub fn on_poll(&mut self, seq: u32, read: Option<String>) -> (r: Poll)
        requires
            old(self).polls_left > 0,
        ensures
            final(self).kind == old(self).kind,
            final(self).seq_before == old(self).seq_before,
            final(self).polls_left == old(self).polls_left - 1,
            counts(*old(self), seq, read) ==> r == Poll::Found(read->0),
            !counts(*old(self), seq, read) && old(self).polls_left > 1 ==> r == Poll::Again,
            !counts(*old(self), seq, read) && old(self).polls_left == 1 ==> r == Poll::Nothing,
    {
        self.polls_left = self.polls_left - 1;
        let landed = self.wants_read(seq);
        match read {
            Some(t) => {
                if landed && has_text(t.as_str()) {
                    return Poll::Found(t);
                }
            }
            None => {}
        }
        if self.polls_left == 0 {
            Poll::Nothing
        } else {
            Poll::Again
        }
    }

    /// Whether the user's saved clipboard text is written back: always after
    /// the shortcut (the clipboard was emptied), after a Ctrl tap only when
    /// text was `found` (otherwise the clipboard was never touched).
    pub fn restores_backup(&self, found: bool) -> (b: bool)
        ensures
            b == (self.kind == CaptureKind::Shortcut || found),
    {
        match self.kind {
            CaptureKind::Shortcut => true,
            CaptureKind::CtrlTap => found,
        }
    }

    /// Whether the popup takes the keyboard focus.
    pub fn focus_popup(&self) -> (b: bool)
        ensures
            b == (self.kind == CaptureKind::Shortcut),
    {
        match self.kind {
            CaptureKind::Shortcut => true,
            CaptureKind::CtrlTap => false,
        }
    }
}

} // verus!
