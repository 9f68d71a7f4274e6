//! The per-listener pacing stream: it walks the station's frame list one
//! frame per step, sleeps the frame's duration to match real-time playback,
//! and backs off when it has run too far ahead of the wall clock.

use vstd::prelude::*;
use crate::station::{ListenerID, Playlist, MAX_WRITE_AHEAD_DURATION};

verus! {

/// How long the pacer sleeps when it has hit the write-ahead cap, in
/// milliseconds.
pub const WRITE_AHEAD_BACKOFF: u64 = 5000;

/// Where the pacer stands between polls.
pub enum PacerPhase {
    /// Ready to check the cap and start the next fetch.
    Idle,
    /// A sleep is pending; nothing else happens until it elapses.
    Sleeping,
    /// A next-frame fetch is pending.
    Fetching,
    /// The station's list ended; the stream is over.
    Ended,
}

/// What the poll decides to do next.
pub enum PacerAction {
    /// Keep waiting for the pending sleep.
    WaitSleep,
    /// Keep waiting for the pending fetch.
    WaitFetch,
    /// Too far ahead of the clock: sleep `WRITE_AHEAD_BACKOFF` first.
    Backoff,
    /// Start fetching the next frame.
    StartFetch,
    /// Nothing more will come.
    Finished,
}

/// The per-listener pacing state: the index of the frame last adopted, the
/// milliseconds of audio handed out so far, and the wall-clock time the
/// stream was created.
pub struct PlaylistFrameStream {
    pub current: usize,
    pub write_ahead_duration: u64,
    pub created_time: u64,
    pub phase: PacerPhase,
}

impl PlaylistFrameStream {
    /// The pacer has run ahead of real time by more than the write-ahead
    /// bound: everything emitted so far, played from the creation time,
    /// would still be playing `MAX_WRITE_AHEAD_DURATION` past `now`.
    pub open spec fn spec_over_cap(&self, now: u64) -> bool {
        self.write_ahead_duration + self.created_time > MAX_WRITE_AHEAD_DURATION + now
    }

    /// A new stream for `listener`: it resumes at the frame last delivered
    /// to that listener when the station still tracks it, and otherwise
    /// starts at the station's head.
    pub fn new(playlist: &Playlist, listener: &ListenerID, now: u64) -> (r: PlaylistFrameStream)
        requires
            playlist.wf(),
        ensures
            r.current < playlist.frames@.len(),
            (exists|k: int|
                0 <= k < playlist.listener_data.listeners@.len() && (
                #[trigger] playlist.listener_data.listeners@[k]).listener_id
                    == listener.listener_id) ==> exists|k: int|
                0 <= k < playlist.listener_data.listeners@.len() && (
                #[trigger] playlist.listener_data.listeners@[k]).listener_id
                    == listener.listener_id && r.current
                    == playlist.listener_data.listeners@[k].frame_index,
            (forall|k: int|
                0 <= k < playlist.listener_data.listeners@.len() ==> (
                #[trigger] playlist.listener_data.listeners@[k]).listener_id
                    != listener.listener_id) ==> r.current == playlist.listener_data.current_frame,
            r.write_ahead_duration == 0,
            r.created_time == now,
            r.phase is Idle,
    {
        let current = match playlist.get_frame_with_id(listener) {
            Some(frame_index) => frame_index,
            None => playlist.get_oldest_prepared_frames(),
        };
        PlaylistFrameStream {
            current,
            write_ahead_duration: 0,
            created_time: now,
            phase: PacerPhase::Idle,
        }
    }

    /// One poll: a pending sleep or fetch is waited out; otherwise, past the
    /// write-ahead cap the pacer backs off, and within it the next fetch
    /// starts. The choice is a function of the phase and the clock alone.
    pub fn poll_decide(&mut self, now: u64) -> (r: PacerAction)
        ensures
            final(self).current == old(self).current,
            final(self).write_ahead_duration == old(self).write_ahead_duration,
            final(self).created_time == old(self).created_time,
            old(self).phase is Sleeping ==> ({
                &&& r is WaitSleep
                &&& final(self).phase is Sleeping
            }),
            old(self).phase is Fetching ==> ({
                &&& r is WaitFetch
                &&& final(self).phase is Fetching
            }),
            old(self).phase is Ended ==> ({
                &&& r is Finished
                &&& final(self).phase is Ended
            }),
            old(self).phase is Idle && old(self).spec_over_cap(now) ==> ({
                &&& r is Backoff
                &&& final(self).phase is Sleeping
            }),
            old(self).phase is Idle && !old(self).spec_over_cap(now) ==> ({
                &&& r is StartFetch
                &&& final(self).phase is Fetching
            }),
    {
        match self.phase {
            PacerPhase::Sleeping => PacerAction::WaitSleep,
            PacerPhase::Fetching => PacerAction::WaitFetch,
            PacerPhase::Ended => PacerAction::Finished,
            PacerPhase::Idle => {
                let ahead = (self.write_ahead_duration as u128) + (self.created_time as u128);
                let horizon = (MAX_WRITE_AHEAD_DURATION as u128) + (now as u128);
                if ahead > horizon {
                    self.phase = PacerPhase::Sleeping;
                    PacerAction::Backoff
                } else {
                    self.phase = PacerPhase::Fetching;
                    PacerAction::StartFetch
                }
            },
        }
    }

    /// The pending sleep elapsed.
    pub fn on_sleep_elapsed(&mut self)
        requires
            old(self).phase is Sleeping,
        ensures
            final(self).phase is Idle,
            final(self).current == old(self).current,
            final(self).write_ahead_duration == old(self).write_ahead_duration,
            final(self).created_time == old(self).created_time,
    {
        self.phase = PacerPhase::Idle;
    }

    /// The pending fetch returned the successor frame: the pacer adopts it —
    /// always moving forward, never back — adds its duration to the
    /// write-ahead account, and schedules a sleep of that same duration.
    pub fn on_fetch_frame(&mut self, frame_index: usize, duration: u64) -> (sleep_ms: u64)
        requires
            old(self).phase is Fetching,
            frame_index == old(self).current + 1,
            old(self).write_ahead_duration + duration <= u64::MAX,
        ensures
            final(self).current == old(self).current + 1,
            final(self).current > old(self).current,
            final(self).write_ahead_duration == old(self).write_ahead_duration + duration,
            final(self).created_time == old(self).created_time,
            final(self).phase is Sleeping,
            sleep_ms == duration,
    {
        self.current = frame_index;
        self.write_ahead_duration = self.write_ahead_duration + duration;
        self.phase = PacerPhase::Sleeping;
        duration
    }

    /// The pending fetch found no successor: the station is finished and
    /// fully drained, so the stream ends.
    pub fn on_fetch_end(&mut self)
        requires
            old(self).phase is Fetching,
        ensures
            final(self).phase is Ended,
            final(self).current == old(self).current,
            final(self).write_ahead_duration == old(self).write_ahead_duration,
            final(self).created_time == old(self).created_time,
    {
        self.phase = PacerPhase::Ended;
    }

    /// The pending fetch surfaced a source error: the error item is handed
    /// to the listener and the pacer polls on.
    pub fn on_fetch_error(&mut self)
        requires
            old(self).phase is Fetching,
        ensures
            final(self).phase is Idle,
            final(self).current == old(self).current,
            final(self).write_ahead_duration == old(self).write_ahead_duration,
            final(self).created_time == old(self).created_time,
    {
        self.phase = PacerPhase::Idle;
    }
}

/// The sum of a sequence of frame durations, in milliseconds.
pub open spec fn sum_durations(s: Seq<u64>) -> int
    decreases s.len(),
{
    if s.len() == 0 {
        0
    } else {
        sum_durations(s.drop_last()) + s.last()
    }
}

/// Every duration of `s` is at least `dmin`, so the sum is at least the
/// count times `dmin`.
proof fn lemma_sum_lower_bound(s: Seq<u64>, dmin: u64)
    requires
        forall|i: int| 0 <= i < s.len() ==> #[trigger] s[i] >= dmin,
    ensures
        sum_durations(s) >= s.len() * dmin,
    decreases s.len(),
{
    if s.len() > 0 {
        lemma_sum_lower_bound(s.drop_last(), dmin);
        assert(sum_durations(s) >= (s.len() - 1) * dmin + dmin);
        assert((s.len() - 1) * dmin + dmin == s.len() * dmin) by (nonlinear_arith);
    }
}

/// The write-ahead cap bounds how many frames a pacer hands out ahead of a
/// listener that never drains: if every frame lasts at least `dmin`
/// milliseconds and each frame was fetched only while the write-ahead
/// account — the sum of the durations already handed out — was still within
/// `MAX_WRITE_AHEAD_DURATION`, then at most
/// `MAX_WRITE_AHEAD_DURATION / dmin + 1` frames are ever handed out.
pub proof fn lemma_write_ahead_cap(durations: Seq<u64>, dmin: u64)
    requires
        dmin >= 1,
        forall|i: int| 0 <= i < durations.len() ==> #[trigger] durations[i] >= dmin,
        forall|i: int|
            0 <= i < durations.len() ==> sum_durations(#[trigger] durations.take(i))
                <= MAX_WRITE_AHEAD_DURATION,
    ensures
        durations.len() <= (MAX_WRITE_AHEAD_DURATION as int) / (dmin as int) + 1,
{
    if durations.len() > 0 {
        let n = durations.len() as int;
        let head = durations.take(n - 1);
        assert(sum_durations(head) <= MAX_WRITE_AHEAD_DURATION);
        assert(forall|i: int| 0 <= i < head.len() ==> #[trigger] head[i] >= dmin);
        lemma_sum_lower_bound(head, dmin);
        assert((n - 1) * dmin <= MAX_WRITE_AHEAD_DURATION);
        let q = (MAX_WRITE_AHEAD_DURATION as int) / (dmin as int);
        vstd::arithmetic::div_mod::lemma_fundamental_div_mod(
            MAX_WRITE_AHEAD_DURATION as int,
            dmin as int,
        );
        vstd::arithmetic::div_mod::lemma_mod_bound(MAX_WRITE_AHEAD_DURATION as int, dmin as int);
        assert(n - 1 <= q) by (nonlinear_arith)
            requires
                (n - 1) * dmin <= MAX_WRITE_AHEAD_DURATION,
                MAX_WRITE_AHEAD_DURATION == q * dmin + (MAX_WRITE_AHEAD_DURATION as int) % (dmin as int),
                0 <= (MAX_WRITE_AHEAD_DURATION as int) % (dmin as int) < dmin,
                dmin >= 1,
        ;
    }
}

} // verus!
