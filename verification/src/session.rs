//! The state of one terminal session: where it lives, its status pip, busy/idle
//! tracking and the attention flag raised when a docked session finishes.
use vstd::prelude::*;
use crate::runtime::{format_duration_compact, spec_format_duration_compact};

verus! {

/// Where a session's terminal is shown.
#[derive(Debug, Clone, Copy, PartialEq, Eq, Structural)]
pub enum Location {
    Arena,
    Sidebar,
}

/// The status dot shown next to a session's title.
#[derive(Debug, Clone, Copy, PartialEq, Eq, Structural)]
pub enum PipState {
    Idle,
    Busy,
    Alert,
}

impl PipState {
    /// The style class that draws this state.
    pub fn css(self) -> (r: &'static str)
        ensures
            r@ == match self {
                PipState::Idle => "idle"@,
                PipState::Busy => "busy"@,
                PipState::Alert => "alert"@,
            },
    {
        match self {
            PipState::Idle => "idle",
            PipState::Busy => "busy",
            PipState::Alert => "alert",
        }
    }
}

/// How long the alert pip stays up after a bell, in milliseconds.
pub const ALERT_MILLIS: u64 = 1500;

/// What one poll of the terminal's processes found.
#[derive(Debug, Clone, Copy)]
pub struct TickProbe {
    /// The terminal waits for input.
    pub idle: bool,
    /// The foreground process runs as root.
    pub elevated: bool,
}

/// The state of a session. Times are milliseconds on a monotonic clock.
#[derive(Debug, Clone, Copy)]
pub struct Session {
    pub id: u32,
    /// Index of the session's emoji in the workspace's emoji pool.
    pub emoji: usize,
    pub location: Location,
    pub pip: PipState,
    pub elevated: bool,
    pub busy: bool,
    /// When the current busy/idle state began.
    pub state_since: u64,
    /// Raised when a docked session goes from busy to idle; cleared on promote and peek.
    pub attention: bool,
    pub shell_pid: Option<i32>,
    /// While set and in the future, the pip shows the alert state.
    pub alert_until: Option<u64>,
    /// The terminal is shown in a peek popover over its sidebar card.
    pub peeking: bool,
}

/// The state after one poll at time `now`, given what the probe found (no probe when the
/// shell has not started yet).
pub open spec fn spec_tick(s: Session, now: u64, probe: Option<TickProbe>) -> Session {
    let alert_active = match s.alert_until {
        Some(u) => now < u,
        None => false,
    };
    let s1 = if alert_active {
        s
    } else {
        Session { alert_until: None, ..s }
    };
    match probe {
        None => s1,
        Some(p) => {
            let now_busy = !p.idle;
            let changed = now_busy != s.busy;
            Session {
                pip: if alert_active {
                    s1.pip
                } else if now_busy {
                    PipState::Busy
                } else {
                    PipState::Idle
                },
                busy: now_busy,
                state_since: if changed {
                    now
                } else {
                    s1.state_since
                },
                attention: if changed && !now_busy && s.location == Location::Sidebar {
                    true
                } else {
                    s1.attention
                },
                elevated: p.elevated,
                ..s1
            }
        },
    }
}

/// What a poll does to attention and to the pip: a docked session whose command finishes
/// (busy before, found idle now) asks for attention; one shown in the arena never starts
/// asking on its own; and while an alert lasts, the pip keeps showing it.
pub proof fn lemma_tick_attention(s: Session, now: u64, probe: Option<TickProbe>)
    ensures
        s.busy && s.location == Location::Sidebar && (probe matches Some(p) && p.idle)
            ==> spec_tick(s, now, probe).attention,
        s.location == Location::Arena && !s.attention ==> !spec_tick(s, now, probe).attention,
        (s.alert_until matches Some(u) && now < u) ==> spec_tick(s, now, probe).pip == s.pip,
{
}

/// A poll never lowers the attention flag (only promoting, peeking or dismissing does):
/// afterwards a session asks for attention exactly when it did before, or it is docked
/// and its command finished (busy before, found idle now).
pub proof fn lemma_poll_never_clears_attention(s: Session, now: u64, probe: Option<TickProbe>)
    ensures
        s.attention ==> spec_tick(s, now, probe).attention,
        spec_tick(s, now, probe).attention == (s.attention || (s.location == Location::Sidebar
            && s.busy && (probe matches Some(p) && p.idle))),
{
}

impl Session {
    /// The state of a fresh session.
    pub open spec fn spec_new(id: u32, emoji: usize, now: u64) -> Session {
        Session {
            id,
            emoji,
            location: Location::Sidebar,
            pip: PipState::Idle,
            elevated: false,
            busy: false,
            state_since: now,
            attention: false,
            shell_pid: None,
            alert_until: None,
            peeking: false,
        }
    }

    /// A fresh session: docked until the workspace places it, idle since `now`.
    pub fn new(id: u32, emoji: usize, now: u64) -> (r: Session)
        ensures
            r == Self::spec_new(id, emoji, now),
    {
        Session {
            id,
            emoji,
            location: Location::Sidebar,
            pip: PipState::Idle,
            elevated: false,
            busy: false,
            state_since: now,
            attention: false,
            shell_pid: None,
            alert_until: None,
            peeking: false,
        }
    }

    pub fn id(&self) -> (r: u32)
        ensures
            r == self.id,
    {
        self.id
    }

    /// The index of the session's emoji in the workspace's pool.
    pub fn emoji(&self) -> (r: usize)
        ensures
            r == self.emoji,
    {
        self.emoji
    }

    pub fn is_busy(&self) -> (r: bool)
        ensures
            r == self.busy,
    {
        self.busy
    }

    pub fn has_attention(&self) -> (r: bool)
        ensures
            r == self.attention,
    {
        self.attention
    }

    /// Sets the attention flag; returns whether it changed.
    pub fn set_attention(&mut self, on: bool) -> (changed: bool)
        ensures
            *final(self) == (Session { attention: on, ..*old(self) }),
            changed == (old(self).attention != on),
    {
        if self.attention == on {
            return false;
        }
        self.attention = on;
        true
    }

    /// The session now lives in the arena; being looked at acknowledges any attention.
    pub fn place_in_arena(&mut self)
        ensures
            *final(self) == (Session {
                location: Location::Arena,
                attention: false,
                ..*old(self)
            }),
    {
        self.location = Location::Arena;
        self.set_attention(false);
    }

    /// The session now lives in the sidebar.
    pub fn place_in_sidebar(&mut self)
        ensures
            *final(self) == (Session { location: Location::Sidebar, ..*old(self) }),
    {
        self.location = Location::Sidebar;
    }

    /// Sets the pip; returns whether it changed.
    pub fn set_pip(&mut self, state: PipState) -> (changed: bool)
        ensures
            *final(self) == (Session { pip: state, ..*old(self) }),
            changed == (old(self).pip != state),
    {
        if self.pip == state {
            return false;
        }
        self.pip = state;
        true
    }

    /// Sets the root flag; returns whether it changed.
    pub fn set_elevated(&mut self, elevated: bool) -> (changed: bool)
        ensures
            *final(self) == (Session { elevated, ..*old(self) }),
            changed == (old(self).elevated != elevated),
    {
        if self.elevated == elevated {
            return false;
        }
        self.elevated = elevated;
        true
    }

    /// A bell rang at `now`: show the alert pip for the next `ALERT_MILLIS`.
    pub fn raise_alert(&mut self, now: u64)
        requires
            now <= u64::MAX - ALERT_MILLIS,
        ensures
            *final(self) == (Session {
                pip: PipState::Alert,
                alert_until: Some((now + ALERT_MILLIS) as u64),
                ..*old(self)
            }),
    {
        self.set_pip(PipState::Alert);
        self.alert_until = Some(now + ALERT_MILLIS);
    }

    /// Records the pid of the shell once it has started.
    pub fn set_shell_pid(&mut self, pid: i32)
        ensures
            *final(self) == (Session { shell_pid: Some(pid), ..*old(self) }),
    {
        self.shell_pid = Some(pid);
    }

    /// One poll at time `now`. An alert pip stays until it expires; otherwise the pip
    /// follows busy/idle. A change of busy/idle restarts the state clock, and busy→idle
    /// while docked raises attention. Returns whether the card's metrics caption is due
    /// for a refresh (the session is docked).
    pub fn tick(&mut self, now: u64, probe: Option<TickProbe>) -> (refresh: bool)
        ensures
            *final(self) == spec_tick(*old(self), now, probe),
            refresh == (old(self).location == Location::Sidebar),
            (old(self).location == Location::Sidebar && old(self).busy && (probe matches Some(p)
                && p.idle)) ==> final(self).attention,
            old(self).attention ==> final(self).attention,
    {
        let prev_busy = self.busy;
        let location = self.location;
        let alert_active = match self.alert_until {
            Some(u) => now < u,
            None => false,
        };
        if !alert_active && self.alert_until.is_some() {
            self.alert_until = None;
        }
        if let Some(p) = probe {
            let now_busy = !p.idle;
            if !alert_active {
                self.set_pip(if now_busy { PipState::Busy } else { PipState::Idle });
            }
            if now_busy != prev_busy {
                self.busy = now_busy;
                self.state_since = now;
                if !now_busy && location == Location::Sidebar {
                    self.set_attention(true);
                }
            }
            self.set_elevated(p.elevated);
        }
        location == Location::Sidebar
    }

    /// Opens a peek on a docked session that is not already peeked; peeking acknowledges
    /// attention. Returns whether the peek opened.
    pub fn peek(&mut self) -> (opened: bool)
        ensures
            opened == (old(self).location == Location::Sidebar && !old(self).peeking),
            opened ==> *final(self) == (Session {
                peeking: true,
                attention: false,
                ..*old(self)
            }),
            !opened ==> *final(self) == *old(self),
    {
        if self.location != Location::Sidebar || self.peeking {
            return false;
        }
        self.peeking = true;
        self.set_attention(false);
        true
    }

    /// The peek popover closed.
    pub fn end_peek(&mut self)
        ensures
            *final(self) == (Session { peeking: false, ..*old(self) }),
    {
        self.peeking = false;
    }

    /// The card caption at time `now`: `busy` or `idle`, then how long that has lasted.
    pub fn metrics_caption(&self, now: u64) -> (r: String)
        ensures
            r@ == (if self.busy {
                "busy "@
            } else {
                "idle "@
            }) + spec_format_duration_compact(
                (if now >= self.state_since {
                    (now - self.state_since) / 1000
                } else {
                    0
                }) as nat,
            ),
    {
        let elapsed: u64 = if now >= self.state_since {
            (now - self.state_since) / 1000
        } else {
            0
        };
        let mut out = String::from_str(if self.busy { "busy " } else { "idle " });
        let d = format_duration_compact(elapsed);
        out.append(d.as_str());
        out
    }
}

/// The last working directory seen for a session, by shell report or by polling.
pub struct CwdMemory {
    pub last: Option<String>,
}

impl CwdMemory {
    pub fn new() -> (r: CwdMemory)
        ensures
            r.last is None,
    {
        CwdMemory { last: None }
    }

    /// The shell reported `path`; later polls of the same path stay quiet.
    pub fn note_reported(&mut self, path: String)
        ensures
            final(self).last == Some(path),
    {
        self.last = Some(path);
    }

    /// A poll found `polled` (`None` when it could not be read). Returns the path when it
    /// differs from the last one seen, and remembers it.
    pub fn poll(&mut self, polled: Option<String>) -> (r: Option<String>)
        ensures
            match polled {
                None => r is None && final(self).last == old(self).last,
                Some(p) => match old(self).last {
                    Some(l) if l@ == p@ => r is None && final(self).last == old(self).last,
                    _ => r == Some(p) && final(self).last == Some(p),
                },
            },
    {
        let p = match polled {
            None => return None,
            Some(p) => p,
        };
        if let Some(l) = &self.last {
            if *l == p {
                return None;
            }
        }
        let copy = p.clone();
        self.last = Some(copy);
        Some(p)
    }
}

/// The header style classes for a session running as root: the one to add and the one
/// to take away, by whether the theme is dark.
pub fn elevated_css_classes(dark: bool) -> (r: (&'static str, &'static str))
    ensures
        r.0@ == (if dark { "elevated-dark"@ } else { "elevated-light"@ }),
        r.1@ == (if dark { "elevated-light"@ } else { "elevated-dark"@ }),
{
    if dark {
        ("elevated-dark", "elevated-light")
    } else {
        ("elevated-light", "elevated-dark")
    }
}

/// Text to type into a session's shell as soon as the shell runs.
pub struct PendingInput {
    /// The shell has started.
    pub started: bool,
    /// Text kept until then.
    pub text: Option<String>,
}

impl PendingInput {
    /// The shell has not started and nothing waits.
    pub fn new() -> (r: PendingInput)
        ensures
            !r.started,
            r.text is None,
    {
        PendingInput { started: false, text: None }
    }

    /// Asks for `text` to be typed: it is returned to be sent at once when the shell
    /// runs, else kept (in place of earlier text) for its start.
    pub fn queue(&mut self, text: String) -> (now: Option<String>)
        ensures
            old(self).started ==> now == Some(text) && *final(self) == *old(self),
            !old(self).started ==> now is None && final(self).text == Some(text)
                && !final(self).started,
    {
        if self.started {
            Some(text)
        } else {
            self.text = Some(text);
            None
        }
    }

    /// The shell started: returns the text kept for it, which is sent once.
    pub fn shell_started(&mut self) -> (kept: Option<String>)
        ensures
            kept == old(self).text,
            final(self).started,
            final(self).text is None,
    {
        self.started = true;
        let mut t: Option<String> = None;
        std::mem::swap(&mut t, &mut self.text);
        t
    }
}

} // verus!
