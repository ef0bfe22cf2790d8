//! The audio player: a playback subprocess fed by a single writer task.
//!
//! The player is a state machine over "stopped" and "playing", realised as
//! the presence of one session: the subprocess, its input pipe, the bounded
//! buffer channel, and the writer task that serialises writes.  Its owner
//! spawns and tears down the real resources; the state machine guarantees
//! that a second session is never installed before the first was taken out
//! for teardown.
use vstd::prelude::*;

verus! {

/// The bound of the buffer channel between producers and the writer task.
pub const PLAYER_CHANNEL_CAPACITY: usize = 100;

/// One playback session's resources, as the owner's handle tokens.
/// Teardown order: drop the sender (ends the writer's receive loop), abort
/// the writer task, shut the input pipe down, kill the subprocess — each
/// step attempted even if an earlier one failed.
#[derive(Debug, Clone, PartialEq)]
pub struct PlayerSession {
    /// The playback subprocess.
    pub process: u64,
    /// The subprocess's input pipe.
    pub stdin_pipe: u64,
    /// The sending end of the bounded buffer channel.
    pub sender: u64,
    /// The writer task draining the channel into the pipe.
    pub writer_task: u64,
}

/// The player: playing exactly when a session is installed.
#[derive(Debug, Clone, PartialEq)]
pub struct AudioPlayer {
    pub session: Option<PlayerSession>,
}

impl AudioPlayer {
    /// A fresh player, stopped.
    pub fn new() -> (p: Self)
        ensures
            p.session is None,
    {
        AudioPlayer { session: None }
    }

    /// Whether a playback session is live.
    pub fn is_playing(&self) -> (b: bool)
        ensures
            b == (self.session is Some),
    {
        match self.session {
            Some(_) => true,
            None => false,
        }
    }

    /// Stops playback: hands the whole session back for teardown and leaves
    /// the player stopped.  Calling it when never started (or already
    /// stopped) returns nothing to tear down and does not error — it
    /// cannot: teardown is the caller's best-effort work, and this
    /// transition always succeeds.
    pub fn stop(&mut self) -> (torn: Option<PlayerSession>)
        ensures
            final(self).session is None,
            torn == old(self).session,
            old(self).session is None ==> *final(self) == *old(self),
    {
        let mut taken: Option<PlayerSession> = None;
        core::mem::swap(&mut self.session, &mut taken);
        taken
    }

    /// Installs a freshly spawned session.  It demands a stopped player:
    /// starting over a live session is impossible, so a restart must first
    /// take the old session out through `stop` — the first subprocess,
    /// channel and task are fully released before the second begins.
    pub fn start(&mut self, session: PlayerSession)
        requires
            old(self).session is None,
        ensures
            final(self).session == Some(session),
    {
        self.session = Some(session);
    }

    /// Where `play` enqueues: the live session's channel sender, or nowhere
    /// — a stopped player swallows the buffer, as the pipeline demands.
    pub fn play_sink(&self) -> (r: Option<u64>)
        ensures
            match self.session {
                Some(s) => r == Some(s.sender),
                None => r is None,
            },
    {
        match &self.session {
            Some(s) => Some(s.sender),
            None => None,
        }
    }
}

} // verus!
