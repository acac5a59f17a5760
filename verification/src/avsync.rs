//! Audio/video synchronisation: one clock for the playback position and one
//! each for what the audio and the video outputs report, with pausing.
//!
//! Instants are nanoseconds on a monotonic clock (`now`), durations are
//! nanoseconds. Every function that reads the clock takes `now`; callers pass
//! readings that never decrease.
use vstd::prelude::*;

verus! {

/// The largest difference, in nanoseconds, that the playback clock may have
/// from the audio (or else the video) clock before it is set to it.
pub const SYNC_TOLERANCE_NS: u64 = 20_000_000;

/// One clock: `vstarttime` is the instant at which playback would have had
/// to start to be at the current position; while paused, `playedtime` holds
/// the frozen position.
#[derive(Clone, Copy, PartialEq, Eq, Structural, Debug)]
pub struct InnerState {
    pub updatetime: u64,
    pub playedtime: u64,
    pub vstarttime: u64,
}

/// The time from `start` to `now`, zero when `now` is earlier
/// (`Instant::duration_since` saturates the same way).
pub open spec fn elapsed(start: u64, now: u64) -> u64 {
    if now >= start {
        (now - start) as u64
    } else {
        0
    }
}

fn elapsed_exec(start: u64, now: u64) -> (r: u64)
    ensures
        r == elapsed(start, now),
{
    if now >= start {
        now - start
    } else {
        0
    }
}

/// A clock that reads `vtime` at `now`.
pub open spec fn clock_new(vtime: u64, now: u64) -> InnerState {
    InnerState { updatetime: now, playedtime: vtime, vstarttime: (now - vtime) as u64 }
}

/// A frozen clock that starts running again at `now` from where it stood.
pub open spec fn clock_resume(c: InnerState, now: u64) -> InnerState {
    InnerState { updatetime: now, playedtime: c.playedtime, vstarttime: (now - c.playedtime) as u64 }
}

/// A running clock frozen at `now`.
pub open spec fn clock_freeze(c: InnerState, now: u64) -> InnerState {
    InnerState { playedtime: elapsed(c.vstarttime, now), ..c }
}

/// The reading of a running clock at `now`.
pub open spec fn clock_reading(c: InnerState, now: u64) -> u64 {
    elapsed(c.vstarttime, now)
}

/// A clock that `now` may use: it started and froze no later than `now`.
pub open spec fn clock_ok(c: Option<InnerState>, now: u64) -> bool {
    match c {
        Some(k) => k.vstarttime <= now && k.playedtime <= now,
        None => true,
    }
}

impl InnerState {
    /// A clock that reads `vtime` now.
    pub fn new(vtime: u64, now: u64) -> (r: InnerState)
        requires
            vtime <= now,
        ensures
            r == clock_new(vtime, now),
    {
        InnerState { updatetime: now, playedtime: vtime, vstarttime: now - vtime }
    }

    /// Starts the clock again from the position it was frozen at.
    pub fn resume(&mut self, now: u64)
        requires
            old(self).playedtime <= now,
        ensures
            *final(self) == clock_resume(*old(self), now),
    {
        *self = InnerState { updatetime: now, playedtime: self.playedtime, vstarttime: now - self.playedtime };
    }
}

/// The synchronisation state of one playback.
#[derive(Clone, Copy, PartialEq, Eq, Structural, Debug)]
pub struct AVSyncState {
    pub duration: u64,
    /// Whether playback is paused.
    pub paused: bool,
    /// Whether decoding should end, for whatever reason.
    pub decode_end: bool,
    pub has_audio: bool,
    pub has_video: bool,
    pub sync: Option<InnerState>,
    pub audio: Option<InnerState>,
    pub video: Option<InnerState>,
}

fn clock_ok_exec(c: Option<InnerState>, now: u64) -> (b: bool)
    ensures
        b == clock_ok(c, now),
{
    match c {
        Some(k) => k.vstarttime <= now && k.playedtime <= now,
        None => true,
    }
}

pub open spec fn avsync_new(duration: u64, has_audio: bool, has_video: bool) -> AVSyncState {
    AVSyncState {
        duration,
        paused: false,
        decode_end: false,
        has_audio,
        has_video,
        sync: None,
        audio: None,
        video: None,
    }
}

pub open spec fn map_freeze(c: Option<InnerState>, now: u64) -> Option<InnerState> {
    match c {
        Some(k) => Some(clock_freeze(k, now)),
        None => None,
    }
}

pub open spec fn map_resume(c: Option<InnerState>, now: u64) -> Option<InnerState> {
    match c {
        Some(k) => Some(clock_resume(k, now)),
        None => None,
    }
}

/// Pausing freezes every clock at `now`; resuming starts every clock again.
pub open spec fn spec_set_pause(s: AVSyncState, paused: bool, now: u64) -> AVSyncState {
    if paused {
        AVSyncState {
            paused: true,
            sync: map_freeze(s.sync, now),
            audio: map_freeze(s.audio, now),
            video: map_freeze(s.video, now),
            ..s
        }
    } else {
        AVSyncState {
            paused: false,
            sync: map_resume(s.sync, now),
            audio: map_resume(s.audio, now),
            video: map_resume(s.video, now),
            ..s
        }
    }
}

/// The distance between two readings.
pub open spec fn distance(a: u64, b: u64) -> int {
    if a >= b {
        a - b
    } else {
        b - a
    }
}

/// While playing, the playback clock follows the audio clock (or, with no
/// audio, the video clock) once they are more than the tolerance apart.
pub open spec fn spec_tick(s: AVSyncState, now: u64) -> AVSyncState {
    if s.paused || s.sync is None {
        s
    } else {
        let time = clock_reading(s.sync->0, now);
        let other = match s.audio {
            Some(a) => Some(clock_reading(a, now)),
            None => match s.video {
                Some(v) => Some(clock_reading(v, now)),
                None => None,
            },
        };
        match other {
            Some(t) => if distance(time, t) > SYNC_TOLERANCE_NS {
                AVSyncState { sync: Some(clock_new(t, now)), ..s }
            } else {
                s
            },
            None => s,
        }
    }
}

/// The reading of a clock of the state: frozen while paused, running
/// otherwise.
pub open spec fn reading(s: AVSyncState, c: Option<InnerState>, now: u64) -> Option<u64> {
    match c {
        Some(k) => Some(
            if s.paused {
                k.playedtime
            } else {
                clock_reading(k, now)
            },
        ),
        None => None,
    }
}

impl AVSyncState {
    /// The clocks may be read at `now`.
    pub open spec fn wf(&self, now: u64) -> bool {
        clock_ok(self.sync, now) && clock_ok(self.audio, now) && clock_ok(self.video, now)
    }

    /// Whether the clocks may be read at `now` (`wf`).
    pub fn wf_at(&self, now: u64) -> (r: bool)
        ensures
            r == self.wf(now),
    {
        clock_ok_exec(self.sync, now) && clock_ok_exec(self.audio, now) && clock_ok_exec(self.video, now)
    }

    pub fn new(duration: u64, has_audio: bool, has_video: bool) -> (r: AVSyncState)
        ensures
            r == avsync_new(duration, has_audio, has_video),
    {
        AVSyncState {
            duration,
            paused: false,
            decode_end: false,
            has_audio,
            has_video,
            sync: None,
            audio: None,
            video: None,
        }
    }

    fn freeze(c: &mut Option<InnerState>, now: u64)
        ensures
            *final(c) == map_freeze(*old(c), now),
    {
        if let Some(k) = c {
            k.playedtime = elapsed_exec(k.vstarttime, now);
        }
    }

    fn thaw(c: &mut Option<InnerState>, now: u64)
        requires
            clock_ok(*old(c), now),
        ensures
            *final(c) == map_resume(*old(c), now),
    {
        if let Some(k) = c {
            k.resume(now);
        }
    }

    /// Pauses or resumes playback at `now`.
    pub fn set_pause(&mut self, paused: bool, now: u64)
        requires
            old(self).wf(now),
        ensures
            *final(self) == spec_set_pause(*old(self), paused, now),
            final(self).wf(now),
    {
        self.paused = paused;
        if paused {
            Self::freeze(&mut self.sync, now);
            Self::freeze(&mut self.audio, now);
            Self::freeze(&mut self.video, now);
        } else {
            Self::thaw(&mut self.sync, now);
            Self::thaw(&mut self.audio, now);
            Self::thaw(&mut self.video, now);
        }
    }

    /// Pauses if playing, resumes if paused.
    pub fn switch_pause(&mut self, now: u64)
        requires
            old(self).wf(now),
        ensures
            *final(self) == spec_set_pause(*old(self), !old(self).paused, now),
            final(self).wf(now),
    {
        let paused = !self.paused;
        self.set_pause(paused, now);
    }

    /// Brings the playback clock to the audio (or video) clock when they have
    /// drifted apart.
    pub fn tick(&mut self, now: u64)
        requires
            old(self).wf(now),
        ensures
            *final(self) == spec_tick(*old(self), now),
            final(self).wf(now),
    {
        if self.paused {
            return;
        }
        match self.sync {
            None => {},
            Some(sync) => {
                let time = elapsed_exec(sync.vstarttime, now);
                let other = match self.audio {
                    Some(a) => Some(elapsed_exec(a.vstarttime, now)),
                    None => match self.video {
                        Some(v) => Some(elapsed_exec(v.vstarttime, now)),
                        None => None,
                    },
                };
                if let Some(t) = other {
                    let d = if time >= t {
                        time - t
                    } else {
                        t - time
                    };
                    if d > SYNC_TOLERANCE_NS {
                        self.sync = Some(InnerState::new(t, now));
                    }
                }
            },
        }
    }

    /// Sets the playback clock to `vtime` and synchronises.
    pub fn set_time(&mut self, vtime: u64, now: u64)
        requires
            old(self).wf(now),
            vtime <= now,
        ensures
            *final(self) == spec_tick(AVSyncState { sync: Some(clock_new(vtime, now)), ..*old(self) }, now),
            final(self).wf(now),
    {
        self.sync = Some(InnerState::new(vtime, now));
        self.tick(now);
    }

    /// Sets the audio clock to `vtime` and synchronises.
    pub fn set_audio_time(&mut self, vtime: u64, now: u64)
        requires
            old(self).wf(now),
            vtime <= now,
        ensures
            *final(self) == spec_tick(AVSyncState { audio: Some(clock_new(vtime, now)), ..*old(self) }, now),
            final(self).wf(now),
    {
        self.audio = Some(InnerState::new(vtime, now));
        self.tick(now);
    }

    /// Sets the video clock to `vtime` and synchronises.
    pub fn set_video_time(&mut self, vtime: u64, now: u64)
        requires
            old(self).wf(now),
            vtime <= now,
        ensures
            *final(self) == spec_tick(AVSyncState { video: Some(clock_new(vtime, now)), ..*old(self) }, now),
            final(self).wf(now),
    {
        self.video = Some(InnerState::new(vtime, now));
        self.tick(now);
    }

    fn read(&self, c: Option<InnerState>, now: u64) -> (r: Option<u64>)
        ensures
            r == reading(*self, c, now),
    {
        match c {
            Some(k) => Some(
                if self.paused {
                    k.playedtime
                } else {
                    elapsed_exec(k.vstarttime, now)
                },
            ),
            None => None,
        }
    }
}

// ===== the operations on one playback =====

/// Starts over for a new playback.
pub fn reset(state: &mut AVSyncState, duration: u64, has_audio: bool, has_video: bool)
    ensures
        *final(state) == avsync_new(duration, has_audio, has_video),
{
    *state = AVSyncState::new(duration, has_audio, has_video);
}

pub fn total_duration(state: &AVSyncState) -> (r: u64)
    ensures
        r == state.duration,
{
    state.duration
}

pub fn is_paused(state: &AVSyncState) -> (r: bool)
    ensures
        r == state.paused,
{
    state.paused
}

pub fn pause(state: &mut AVSyncState, now: u64)
    requires
        old(state).wf(now),
    ensures
        *final(state) == spec_set_pause(*old(state), true, now),
        final(state).wf(now),
{
    state.set_pause(true, now);
}

pub fn resume(state: &mut AVSyncState, now: u64)
    requires
        old(state).wf(now),
    ensures
        *final(state) == spec_set_pause(*old(state), false, now),
        final(state).wf(now),
{
    state.set_pause(false, now);
}

pub fn switch_pause_state(state: &mut AVSyncState, now: u64)
    requires
        old(state).wf(now),
    ensures
        *final(state) == spec_set_pause(*old(state), !old(state).paused, now),
        final(state).wf(now),
{
    state.switch_pause(now);
}

pub fn end_decode(state: &mut AVSyncState)
    ensures
        *final(state) == (AVSyncState { decode_end: true, ..*old(state) }),
{
    state.decode_end = true;
}

pub fn decode_ended(state: &AVSyncState) -> (r: bool)
    ensures
        r == state.decode_end,
{
    state.decode_end
}

pub fn has_audio(state: &AVSyncState) -> (r: bool)
    ensures
        r == state.has_audio,
{
    state.has_audio
}

pub fn has_video(state: &AVSyncState) -> (r: bool)
    ensures
        r == state.has_video,
{
    state.has_video
}

/// The playback position at `now`, after synchronising; `None` before the
/// first seek hint.
pub fn played_time_or_none(state: &mut AVSyncState, now: u64) -> (r: Option<u64>)
    requires
        old(state).wf(now),
    ensures
        *final(state) == spec_tick(*old(state), now),
        final(state).wf(now),
        r == reading(*final(state), final(state).sync, now),
{
    state.tick(now);
    state.read(state.sync, now)
}

/// The playback position at `now`, zero before the first seek hint.
pub fn played_time_or_zero(state: &mut AVSyncState, now: u64) -> (r: u64)
    requires
        old(state).wf(now),
    ensures
        *final(state) == spec_tick(*old(state), now),
        final(state).wf(now),
        r == match reading(*final(state), final(state).sync, now) {
            Some(t) => t,
            None => 0,
        },
{
    match played_time_or_none(state, now) {
        Some(t) => t,
        None => 0,
    }
}

/// The audio position at `now`, after synchronising.
pub fn audio_played_time_or_none(state: &mut AVSyncState, now: u64) -> (r: Option<u64>)
    requires
        old(state).wf(now),
    ensures
        *final(state) == spec_tick(*old(state), now),
        final(state).wf(now),
        r == reading(*final(state), final(state).audio, now),
{
    state.tick(now);
    state.read(state.audio, now)
}

pub fn audio_played_time_or_zero(state: &mut AVSyncState, now: u64) -> (r: u64)
    requires
        old(state).wf(now),
    ensures
        *final(state) == spec_tick(*old(state), now),
        final(state).wf(now),
        r == match reading(*final(state), final(state).audio, now) {
            Some(t) => t,
            None => 0,
        },
{
    match audio_played_time_or_none(state, now) {
        Some(t) => t,
        None => 0,
    }
}

/// The video position at `now`, after synchronising.
pub fn video_played_time_or_none(state: &mut AVSyncState, now: u64) -> (r: Option<u64>)
    requires
        old(state).wf(now),
    ensures
        *final(state) == spec_tick(*old(state), now),
        final(state).wf(now),
        r == reading(*final(state), final(state).video, now),
{
    state.tick(now);
    state.read(state.video, now)
}

pub fn video_played_time_or_zero(state: &mut AVSyncState, now: u64) -> (r: u64)
    requires
        old(state).wf(now),
    ensures
        *final(state) == spec_tick(*old(state), now),
        final(state).wf(now),
        r == match reading(*final(state), final(state).video, now) {
            Some(t) => t,
            None => 0,
        },
{
    match video_played_time_or_none(state, now) {
        Some(t) => t,
        None => 0,
    }
}

/// Playback was moved to `ts`.
pub fn hint_seeked(state: &mut AVSyncState, ts: u64, now: u64)
    requires
        old(state).wf(now),
        ts <= now,
    ensures
        *final(state) == spec_tick(AVSyncState { sync: Some(clock_new(ts, now)), ..*old(state) }, now),
        final(state).wf(now),
{
    state.set_time(ts, now);
}

/// The audio output has played up to `ts`.
pub fn hint_audio_played_time(state: &mut AVSyncState, ts: u64, now: u64)
    requires
        old(state).wf(now),
        ts <= now,
    ensures
        *final(state) == spec_tick(AVSyncState { audio: Some(clock_new(ts, now)), ..*old(state) }, now),
        final(state).wf(now),
{
    state.set_audio_time(ts, now);
}

/// The video output has shown up to `ts`.
pub fn hint_video_played_time(state: &mut AVSyncState, ts: u64, now: u64)
    requires
        old(state).wf(now),
        ts <= now,
    ensures
        *final(state) == spec_tick(AVSyncState { video: Some(clock_new(ts, now)), ..*old(state) }, now),
        final(state).wf(now),
{
    state.set_video_time(ts, now);
}

// ===== laws =====

/// While playing, every clock runs with the wall clock: between `t` and
/// `t2` its reading grows by exactly `t2 - t`.
pub proof fn lemma_running_clock_advances(s: AVSyncState, c: Option<InnerState>, t: u64, t2: u64)
    requires
        !s.paused,
        clock_ok(c, t),
        t <= t2,
        c is Some,
    ensures
        reading(s, c, t2)->0 == reading(s, c, t)->0 + (t2 - t),
{
}

/// While paused, no clock moves, and synchronising changes nothing.
pub proof fn lemma_paused_clock_stands(s: AVSyncState, t: u64, t2: u64)
    requires
        s.paused,
    ensures
        reading(s, s.sync, t) == reading(s, s.sync, t2),
        reading(s, s.audio, t) == reading(s, s.audio, t2),
        reading(s, s.video, t) == reading(s, s.video, t2),
        spec_tick(s, t) == s,
{
}

/// Pausing at `t1` and resuming at `t2` loses no time and skips none: every
/// clock reads at `t2` what it read at `t1`, and runs on from there.
pub proof fn lemma_pause_resume(s: AVSyncState, t1: u64, t2: u64, t: u64)
    requires
        !s.paused,
        s.wf(t1),
        t1 <= t2,
        t2 <= t,
    ensures
        spec_set_pause(s, true, t1).wf(t2),
        reading(spec_set_pause(spec_set_pause(s, true, t1), false, t2), spec_set_pause(spec_set_pause(s, true, t1), false, t2).sync, t) == (match s.sync {
            Some(k) => Some((clock_reading(k, t1) + (t - t2)) as u64),
            None => None::<u64>,
        }),
        reading(spec_set_pause(spec_set_pause(s, true, t1), false, t2), spec_set_pause(spec_set_pause(s, true, t1), false, t2).audio, t) == (match s.audio {
            Some(k) => Some((clock_reading(k, t1) + (t - t2)) as u64),
            None => None::<u64>,
        }),
        spec_set_pause(spec_set_pause(s, true, t1), false, t2).sync == map_resume(map_freeze(s.sync, t1), t2),
{
    let p = spec_set_pause(s, true, t1);
    let r = spec_set_pause(p, false, t2);
    if let Some(k) = s.sync {
        let f = clock_freeze(k, t1);
        let g = clock_resume(f, t2);
        assert(r.sync == Some(g));
        assert(reading(r, Some(g), t) == Some(clock_reading(g, t)));
    }
    if let Some(k) = s.audio {
        let f = clock_freeze(k, t1);
        let g = clock_resume(f, t2);
        assert(r.audio == Some(g));
        assert(reading(r, Some(g), t) == Some(clock_reading(g, t)));
    }
}

/// Synchronising twice at one instant is synchronising once.
pub proof fn lemma_tick_idempotent(s: AVSyncState, now: u64)
    requires
        s.wf(now),
    ensures
        spec_tick(spec_tick(s, now), now) == spec_tick(s, now),
{
}

/// Switching the pause state twice at one instant gives back the state, up
/// to the instants the clocks were last updated at.
pub proof fn lemma_switch_twice(s: AVSyncState, now: u64)
    requires
        s.wf(now),
        !s.paused,
    ensures
        spec_set_pause(spec_set_pause(s, true, now), false, now).paused == s.paused,
        reading(spec_set_pause(spec_set_pause(s, true, now), false, now), spec_set_pause(spec_set_pause(s, true, now), false, now).sync, now) == reading(s, s.sync, now),
{
    if let Some(k) = s.sync {
        let g = clock_resume(clock_freeze(k, now), now);
        assert(spec_set_pause(spec_set_pause(s, true, now), false, now).sync == Some(g));
    }
}

} // verus!
