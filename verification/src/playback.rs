//! Playback bookkeeping of the decoding side: the audio clock counted in
//! samples, the seek hints that the audio and video outputs take, and
//! ending the decoding.
use vstd::prelude::*;
use crate::avsync::{AVSyncState, spec_set_pause};

verus! {

/// The time of `samples` samples at `rate` samples per second: whole
/// seconds and the nanoseconds beyond them (rounded down).
pub open spec fn samples_to_time(samples: int, rate: int) -> (int, int) {
    (samples / rate, (samples % rate) * 1_000_000_000 / rate)
}

/// The samples played in `secs` seconds and `nanos` nanoseconds at `rate`
/// (rounded down).
pub open spec fn time_to_samples(secs: int, nanos: int, rate: int) -> int {
    secs * rate + nanos * rate / 1_000_000_000
}

/// The audio output's clock: the samples played so far at the sample rate,
/// and whether playback was moved.
pub struct AudioClock {
    pub played_samples: u64,
    pub samplerate: u64,
    pub seeked: bool,
}

impl AudioClock {
    pub fn new() -> (r: AudioClock)
        ensures
            r.played_samples == 0 && r.samplerate == 0 && !r.seeked,
    {
        AudioClock { played_samples: 0, samplerate: 0, seeked: false }
    }

    /// Counts `add_samples` more samples played and returns the time at the
    /// count before them (seconds, nanoseconds), for the synchronisation;
    /// nothing for no samples. The count wraps as the atomic counter does.
    pub fn update_vtime(&mut self, add_samples: u64) -> (r: Option<(u64, u32)>)
        requires
            old(self).samplerate > 0,
            old(self).samplerate <= u64::MAX / 1_000_000_000,
        ensures
            add_samples == 0 ==> r is None && *final(self) == *old(self),
            add_samples > 0 ==> {
                &&& final(self).played_samples == (old(self).played_samples + add_samples) % 0x1_0000_0000_0000_0000
                &&& final(self).samplerate == old(self).samplerate
                &&& final(self).seeked == old(self).seeked
                &&& r matches Some((s, n)) && (s as int, n as int) == samples_to_time(
                    old(self).played_samples as int,
                    old(self).samplerate as int,
                )
            },
    {
        if add_samples == 0 {
            return None;
        }
        let sn = self.played_samples;
        self.played_samples = self.played_samples.wrapping_add(add_samples);
        let sr = self.samplerate;
        let secs = sn / sr;
        assert(sn % sr < sr);
        assert((sn % sr) * 1_000_000_000 < sr * 1_000_000_000) by (nonlinear_arith)
            requires
                sn % sr < sr,
        ;
        assert(sr * 1_000_000_000 <= u64::MAX) by (nonlinear_arith)
            requires
                sr <= u64::MAX / 1_000_000_000,
        ;
        let nanos = sn % sr * 1_000_000_000 / sr;
        proof {
            let a: int = (sn % sr) as int * 1_000_000_000;
            let b: int = sr as int;
            assert(a / b < 1_000_000_000) by (nonlinear_arith)
                requires
                    0 <= a < b * 1_000_000_000,
                    b > 0,
            ;
        }
        Some((secs, nanos as u32))
    }

    /// Playback is at `secs` seconds and `nanos` nanoseconds: the count
    /// becomes the samples played by then.
    pub fn set_vtime(&mut self, secs: u64, nanos: u32)
        requires
            old(self).samplerate > 0,
            nanos < 1_000_000_000,
            time_to_samples(secs as int, nanos as int, old(self).samplerate as int) <= u64::MAX,
            secs * old(self).samplerate <= u64::MAX,
            nanos * old(self).samplerate <= u64::MAX,
        ensures
            final(self).played_samples == time_to_samples(secs as int, nanos as int, old(self).samplerate as int),
            final(self).samplerate == old(self).samplerate,
            final(self).seeked == old(self).seeked,
    {
        let sr = self.samplerate;
        self.played_samples = secs * sr + nanos as u64 * sr / 1_000_000_000;
    }

    /// Playback was moved: the audio output should drop what it holds.
    pub fn hint_seeked(&mut self)
        ensures
            final(self).seeked,
            final(self).played_samples == old(self).played_samples,
            final(self).samplerate == old(self).samplerate,
    {
        self.seeked = true;
    }

    /// Takes the seek hint: whether playback was moved since the last look.
    pub fn take_seek_hint(&mut self) -> (r: bool)
        ensures
            r == old(self).seeked,
            !final(self).seeked,
            final(self).played_samples == old(self).played_samples,
            final(self).samplerate == old(self).samplerate,
    {
        let r = self.seeked;
        self.seeked = false;
        r
    }
}

/// Turning a sample count into a time and back loses at most one sample,
/// for sample rates up to one per nanosecond.
pub proof fn lemma_samples_round_trip(samples: int, rate: int)
    requires
        samples >= 0,
        0 < rate <= 1_000_000_000,
    ensures
        samples - 1 <= time_to_samples(samples_to_time(samples, rate).0, samples_to_time(samples, rate).1, rate) <= samples,
{
    let q = samples / rate;
    let r = samples % rate;
    let n = r * 1_000_000_000 / rate;
    assert(samples == q * rate + r) by (nonlinear_arith)
        requires
            rate > 0,
            q == samples / rate,
            r == samples % rate,
    ;
    assert(n * rate <= r * 1_000_000_000 && r * 1_000_000_000 < (n + 1) * rate) by (nonlinear_arith)
        requires
            rate > 0,
            r >= 0,
            n == r * 1_000_000_000 / rate,
    ;
    let m = n * rate;
    assert(m > (r - 1) * 1_000_000_000) by (nonlinear_arith)
        requires
            r * 1_000_000_000 < (n + 1) * rate,
            m == n * rate,
            rate <= 1_000_000_000,
    ;
    let back = m / 1_000_000_000;
    assert(back <= r && back >= r - 1) by (nonlinear_arith)
        requires
            m <= r * 1_000_000_000,
            m > (r - 1) * 1_000_000_000,
            back == m / 1_000_000_000,
    ;
}

/// The video output's seek hint.
pub struct VideoSeekHint {
    pub seeked: bool,
}

impl VideoSeekHint {
    pub fn new() -> (r: VideoSeekHint)
        ensures
            !r.seeked,
    {
        VideoSeekHint { seeked: false }
    }

    /// Playback was moved: the video output should drop its frame.
    pub fn hint_seeked(&mut self)
        ensures
            final(self).seeked,
    {
        self.seeked = true;
    }

    /// Takes the seek hint.
    pub fn take_seek_hint(&mut self) -> (r: bool)
        ensures
            r == old(self).seeked,
            !final(self).seeked,
    {
        let r = self.seeked;
        self.seeked = false;
        r
    }
}

/// Ends the decoding: decoding is marked as ended and playback resumes, so
/// that the audio and video outputs run out and stop.
pub fn notify_quit(state: &mut AVSyncState, now: u64)
    requires
        old(state).wf(now),
    ensures
        *final(state) == spec_set_pause(AVSyncState { decode_end: true, ..*old(state) }, false, now),
        final(state).wf(now),
        final(state).decode_end,
        !final(state).paused,
{
    crate::avsync::end_decode(state);
    crate::avsync::resume(state, now);
}

/// The source of terminal ids: each new terminal takes the next number.
pub struct TermIds {
    pub next: i32,
}

impl TermIds {
    /// Ids start at 1.
    pub fn new() -> (r: TermIds)
        ensures
            r.next == 1,
    {
        TermIds { next: 1 }
    }

    /// Takes an id; the counter wraps as the atomic counter does.
    pub fn next_term_id(&mut self) -> (r: i32)
        ensures
            r == old(self).next,
            final(self).next == (if old(self).next == i32::MAX {
                i32::MIN
            } else {
                (old(self).next + 1) as i32
            }),
    {
        let r = self.next;
        self.next = if self.next == i32::MAX {
            i32::MIN
        } else {
            self.next + 1
        };
        r
    }
}

} // verus!
