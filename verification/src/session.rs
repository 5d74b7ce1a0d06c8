//! Playback session: the state machine over the current track index and the
//! play/pause flag, and the action the surrounding program must perform on
//! the audio sink after each command.
//!
//! The session works over a fixed, non-empty track list of length N. Each
//! command maps the state to a successor state and to exactly one action;
//! performing the action — pausing, resuming, loading a track, stopping —
//! is left to the caller, which owns the sink.

use crate::command::Command;
use crate::command::parse_spec;
use crate::command::parse_command;
use vstd::arithmetic::div_mod::lemma_mod_multiples_vanish;
use vstd::arithmetic::div_mod::lemma_small_mod;
use vstd::prelude::*;

verus! {

/// The mutable state of a playback session over a fixed, non-empty track
/// list.
#[derive(PartialEq, Eq, Structural, Clone, Copy, Debug)]
pub struct SessionState {
    /// Zero-based index into the track list; shown to the user one-based.
    pub current_track: usize,
    /// The play/pause flag as the last toggle left it.
    pub is_playing: bool,
}

/// What the caller must do to the audio sink after a command.
#[derive(PartialEq, Eq, Structural, Clone, Copy, Debug)]
pub enum Action {
    /// Stop the sink and end the session.
    Quit,
    /// Pause the sink.
    Pause,
    /// Resume the sink.
    Resume,
    /// Stop the sink, then decode and play the track at this index.
    Play(usize),
    /// Report that the entered number is outside `1..=N`; nothing changes.
    RejectNumber,
    /// Report that the line is not a command; nothing changes.
    RejectInput,
}

/// The session is well formed when its index lies inside the track list.
pub open spec fn state_wf(s: SessionState, n: int) -> bool {
    s.current_track < n
}

/// One step of the session: the successor state and the action a command
/// demands, over a track list of length `n`.
pub open spec fn step_spec(s: SessionState, cmd: Command, n: int) -> (SessionState, Action) {
    match cmd {
        Command::Quit => (s, Action::Quit),
        Command::TogglePause => (
            SessionState { current_track: s.current_track, is_playing: !s.is_playing },
            if s.is_playing {
                Action::Pause
            } else {
                Action::Resume
            },
        ),
        Command::Next => (
            SessionState {
                current_track: ((s.current_track + 1) % n) as usize,
                is_playing: s.is_playing,
            },
            Action::Play(((s.current_track + 1) % n) as usize),
        ),
        Command::Previous => (
            SessionState {
                current_track: ((s.current_track + n - 1) % n) as usize,
                is_playing: s.is_playing,
            },
            Action::Play(((s.current_track + n - 1) % n) as usize),
        ),
        Command::Select(k) => if 1 <= k <= n {
            (
                SessionState { current_track: (k - 1) as usize, is_playing: s.is_playing },
                Action::Play((k - 1) as usize),
            )
        } else {
            (s, Action::RejectNumber)
        },
        Command::Invalid => (s, Action::RejectInput),
    }
}

/// The state after issuing the next-track command `k` times in a row.
pub open spec fn advance_times(s: SessionState, n: int, k: nat) -> SessionState
    decreases k,
{
    if k == 0 {
        s
    } else {
        step_spec(advance_times(s, n, (k - 1) as nat), Command::Next, n).0
    }
}

/// Issuing next `k` times moves the index forward by `k`, modulo `n`, and
/// touches nothing else.
proof fn lemma_advance_times_adds(s: SessionState, n: int, k: nat)
    requires
        1 <= n <= usize::MAX,
        state_wf(s, n),
    ensures
        advance_times(s, n, k).current_track == (s.current_track + k) % n,
        advance_times(s, n, k).is_playing == s.is_playing,
    decreases k,
{
    if k == 0 {
        lemma_small_mod(s.current_track as nat, n as nat);
    } else {
        lemma_advance_times_adds(s, n, (k - 1) as nat);
        let c = s.current_track as int;
        assert(((c + k - 1) % n + 1) % n == (c + k) % n) by {
            lemma_mod_multiples_vanish(((c + k - 1) / n) as int, (c + k - 1) % n + 1, n);
            vstd::arithmetic::div_mod::lemma_fundamental_div_mod(c + k - 1, n);
        }
    }
}

/// Next/previous navigation is cyclic: from any state, issuing the
/// next-track command exactly `n` times — one full round over the `n`
/// tracks — returns the session to the very same state.
pub proof fn lemma_next_full_cycle(s: SessionState, n: int)
    requires
        1 <= n <= usize::MAX,
        state_wf(s, n),
    ensures
        advance_times(s, n, n as nat) == s,
{
    lemma_advance_times_adds(s, n, n as nat);
    lemma_mod_multiples_vanish(1, s.current_track as int, n);
    lemma_small_mod(s.current_track as nat, n as nat);
}

/// Issuing previous once from the first track wraps to the last one.
pub proof fn lemma_previous_wraps(s: SessionState, n: int)
    requires
        1 <= n <= usize::MAX,
        s.current_track == 0,
    ensures
        step_spec(s, Command::Previous, n).0.current_track == n - 1,
        step_spec(s, Command::Previous, n).1 == Action::Play((n - 1) as usize),
{
    lemma_small_mod((n - 1) as nat, n as nat);
}

/// Two toggles in a row return the state — the play/pause flag included —
/// to what it was, and their two actions pause and resume the sink once
/// each, in opposite senses.
pub proof fn lemma_toggle_pair(s: SessionState, n: int)
    ensures
        ({
            let (s1, a1) = step_spec(s, Command::TogglePause, n);
            let (s2, a2) = step_spec(s1, Command::TogglePause, n);
            &&& s2 == s
            &&& a1 == (if s.is_playing {
                Action::Pause
            } else {
                Action::Resume
            })
            &&& a2 == (if s.is_playing {
                Action::Resume
            } else {
                Action::Pause
            })
        }),
{
}

/// Entering a number `k` with `1 <= k <= n` selects the zero-based index
/// `k - 1` and plays it; any other number leaves the state unchanged and
/// is only reported.
pub proof fn lemma_numeric_selection(s: SessionState, k: usize, n: int)
    ensures
        1 <= k <= n ==> step_spec(s, Command::Select(k), n).0.current_track == k - 1
            && step_spec(s, Command::Select(k), n).0.is_playing == s.is_playing && step_spec(
            s,
            Command::Select(k),
            n,
        ).1 == Action::Play((k - 1) as usize),
        !(1 <= k <= n) ==> step_spec(s, Command::Select(k), n).0 == s && step_spec(
            s,
            Command::Select(k),
            n,
        ).1 == Action::RejectNumber,
{
}

/// A line that is no command leaves the state unchanged and is only
/// reported.
pub proof fn lemma_invalid_keeps_state(s: SessionState, n: int)
    ensures
        step_spec(s, Command::Invalid, n).0 == s,
        step_spec(s, Command::Invalid, n).1 == Action::RejectInput,
{
}

impl SessionState {
    /// The state a session starts in: first track, not playing.
    pub fn new() -> (s: SessionState)
        ensures
            s.current_track == 0,
            !s.is_playing,
    {
        SessionState { current_track: 0, is_playing: false }
    }

    /// Applies one command to the state, over a track list of `track_count`
    /// tracks, and returns the successor state with the action the caller
    /// must perform.
    pub fn apply(self, cmd: Command, track_count: usize) -> (r: (SessionState, Action))
        requires
            track_count >= 1,
            state_wf(self, track_count as int),
        ensures
            r == step_spec(self, cmd, track_count as int),
            state_wf(r.0, track_count as int),
    {
        match cmd {
            Command::Quit => (self, Action::Quit),
            Command::TogglePause => {
                let action = if self.is_playing {
                    Action::Pause
                } else {
                    Action::Resume
                };
                (
                    SessionState { current_track: self.current_track, is_playing: !self.is_playing },
                    action,
                )
            },
            Command::Next => {
                let i = (self.current_track + 1) % track_count;
                (SessionState { current_track: i, is_playing: self.is_playing }, Action::Play(i))
            },
            Command::Previous => {
                let i = if self.current_track == 0 {
                    track_count - 1
                } else {
                    self.current_track - 1
                };
                proof {
                    let n = track_count as int;
                    let c = self.current_track as int;
                    if c == 0 {
                        lemma_small_mod((n - 1) as nat, n as nat);
                    } else {
                        lemma_mod_multiples_vanish(1, c - 1, n);
                        lemma_small_mod((c - 1) as nat, n as nat);
                    }
                }
                (SessionState { current_track: i, is_playing: self.is_playing }, Action::Play(i))
            },
            Command::Select(k) => {
                if 1 <= k && k <= track_count {
                    (
                        SessionState { current_track: k - 1, is_playing: self.is_playing },
                        Action::Play(k - 1),
                    )
                } else {
                    (self, Action::RejectNumber)
                }
            },
            Command::Invalid => (self, Action::RejectInput),
        }
    }

    /// Reads one input line as a command and applies it: one whole loop
    /// iteration of the session, short of performing the action.
    pub fn step_line(self, line: &str, track_count: usize) -> (r: (SessionState, Action))
        requires
            track_count >= 1,
            state_wf(self, track_count as int),
        ensures
            r == step_spec(self, parse_spec(line@), track_count as int),
            state_wf(r.0, track_count as int),
    {
        let cmd = parse_command(line);
        self.apply(cmd, track_count)
    }
}

} // verus!
