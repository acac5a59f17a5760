//! The decisions of the decoding and output loops: timestamps in a stream's
//! time base, which video frames are shown and how long the video output
//! waits for them, the audio output's channel layouts and its buffer of
//! decoded frames, and the packet queues that feed the decoders.
use vstd::prelude::*;
use std::collections::VecDeque;
use crate::playback::VideoSeekHint;

verus! {

/// Ticks per second of a container's duration (microseconds).
pub const AV_TIME_BASE: u64 = 1_000_000;

/// A video frame more than this far behind the playback clock is dropped
/// (nanoseconds).
pub const LATE_FRAME_NS: u64 = 100_000_000;

/// The video output waits for a frame only when it is more than this far
/// ahead of the playback clock (nanoseconds).
pub const EARLY_FRAME_NS: u64 = 5_000_000;

/// How often a paused video output looks for a redraw request or the end
/// (milliseconds).
pub const PAUSED_POLL_MS: u64 = 33;

/// How long the decoder sleeps between rounds when nobody wakes it
/// (milliseconds).
pub const DECODER_POLL_MS: u64 = 50;

/// The smallest number of samples per channel the audio buffer may hold
/// before the decoder waits.
pub const AUDIO_MIN_BUFFER: usize = 1024;

// ===== timestamps =====

/// `pts` ticks of `num / den` seconds each: whole seconds and the
/// nanoseconds beyond them (rounded down).
pub open spec fn tick_time(pts: int, num: int, den: int) -> (int, int) {
    ((pts * num) / den, ((pts * num) % den) * 1_000_000_000 / den)
}

/// The time of `pts` ticks in the time base `num / den` as seconds and
/// nanoseconds.
pub fn timestamp(pts: u64, num: u64, den: u64) -> (r: (u64, u32))
    requires
        den > 0,
        pts * num <= u64::MAX,
        ((pts * num) % (den as int)) * 1_000_000_000 <= u64::MAX,
    ensures
        (r.0 as int, r.1 as int) == tick_time(pts as int, num as int, den as int),
        r.1 < 1_000_000_000,
{
    let t = pts * num;
    let secs = t / den;
    let rest = t % den;
    assert(rest < den);
    let scaled = rest * 1_000_000_000;
    let nanos = scaled / den;
    proof {
        let a: int = scaled as int;
        let b: int = den as int;
        assert(a < b * 1_000_000_000) by (nonlinear_arith)
            requires
                a == rest * 1_000_000_000,
                rest < b,
        ;
        assert(a / b < 1_000_000_000) by (nonlinear_arith)
            requires
                0 <= a < b * 1_000_000_000,
                b > 0,
        ;
    }
    (secs, nanos as u32)
}

/// A time of `secs` seconds and `nanos` nanoseconds in nanoseconds, held at
/// the largest `u64` where it does not fit.
pub open spec fn time_ns(secs: int, nanos: int) -> int {
    if secs * 1_000_000_000 + nanos <= u64::MAX {
        secs * 1_000_000_000 + nanos
    } else {
        u64::MAX as int
    }
}

/// The nanoseconds of a time given in seconds and nanoseconds, held at the
/// largest `u64`.
pub fn nanos_of(secs: u64, nanos: u32) -> (r: u64)
    ensures
        r == time_ns(secs as int, nanos as int),
{
    match secs.checked_mul(1_000_000_000) {
        Some(s) => match s.checked_add(nanos as u64) {
            Some(t) => t,
            None => u64::MAX,
        },
        None => u64::MAX,
    }
}

/// The time of one video frame in microseconds at a frame rate of
/// `rate_num / rate_den` frames per second.
pub fn frame_period_us(rate_num: u64, rate_den: u64) -> (r: u64)
    requires
        rate_num > 0,
        rate_den * 1_000_000 <= u64::MAX,
    ensures
        r == rate_den * 1_000_000 / (rate_num as int),
{
    rate_den * 1_000_000 / rate_num
}

/// When a subtitle is shown: from `start_ms` to `end_ms` milliseconds after
/// its packet's time of `secs` seconds and `nanos` nanoseconds, in
/// nanoseconds.
pub fn subtitle_span(secs: u64, nanos: u32, start_ms: u32, end_ms: u32) -> (r: (u128, u128))
    requires
        nanos < 1_000_000_000,
        secs * 1_000_000_000 + nanos + start_ms * 1_000_000 < (u64::MAX + 1) * 1_000_000_000,
        secs * 1_000_000_000 + nanos + end_ms * 1_000_000 < (u64::MAX + 1) * 1_000_000_000,
    ensures
        r.0 == secs * 1_000_000_000 + nanos + start_ms * 1_000_000,
        r.1 == secs * 1_000_000_000 + nanos + end_ms * 1_000_000,
{
    let base: u128 = secs as u128 * 1_000_000_000 + nanos as u128;
    (base + start_ms as u128 * 1_000_000, base + end_ms as u128 * 1_000_000)
}

// ===== the video output =====

/// What the video output does with a decoded frame.
#[derive(PartialEq, Eq, Structural, Clone, Copy, Debug)]
pub enum FrameVerdict {
    /// The frame has no pixels: it is skipped with an error.
    Empty,
    /// The frame is too far behind the playback clock: it is counted as
    /// skipped.
    Late,
    /// The frame is scaled and shown.
    Show,
}

/// A frame of `width` by `height` pixels at `frame_ns`, with the playback
/// clock at `played_ns`: a frame with no pixels is dropped, and one more
/// than [`LATE_FRAME_NS`] behind the clock too, unless playback was just
/// moved (then one old frame is shown so that the picture does not stall).
pub open spec fn frame_verdict(width: int, height: int, seeked: bool, frame_ns: int, played_ns: int) -> FrameVerdict {
    if width == 0 || height == 0 {
        FrameVerdict::Empty
    } else if !seeked && frame_ns + LATE_FRAME_NS < played_ns {
        FrameVerdict::Late
    } else {
        FrameVerdict::Show
    }
}

/// Decides what becomes of a decoded frame; a frame with pixels takes the
/// seek hint.
pub fn admit_frame(hint: &mut VideoSeekHint, width: u32, height: u32, frame_ns: u64, played_ns: u64) -> (r: FrameVerdict)
    ensures
        r == frame_verdict(width as int, height as int, old(hint).seeked, frame_ns as int, played_ns as int),
        r == FrameVerdict::Empty ==> final(hint).seeked == old(hint).seeked,
        r != FrameVerdict::Empty ==> !final(hint).seeked,
{
    if width == 0 || height == 0 {
        return FrameVerdict::Empty;
    }
    let seeked = hint.take_seek_hint();
    if !seeked && played_ns > LATE_FRAME_NS && frame_ns < played_ns - LATE_FRAME_NS {
        FrameVerdict::Late
    } else {
        FrameVerdict::Show
    }
}

/// How long the video output waits before or after showing a frame at
/// `frame_ns` with the clock at `played_ns`: while playing and more than
/// [`EARLY_FRAME_NS`] early, until the frame's time but at most two frame
/// periods of `period_us` microseconds; otherwise not at all.
pub open spec fn frame_wait(paused: bool, frame_ns: int, played_ns: int, period_us: int) -> Option<int> {
    if !paused && frame_ns > played_ns + EARLY_FRAME_NS {
        let remaining = frame_ns - played_ns;
        let cap = period_us * 2 * 1000;
        Some(if remaining < cap { remaining } else { cap })
    } else {
        None
    }
}

/// The wait before or after showing a frame, in nanoseconds.
pub fn frame_wait_ns(paused: bool, frame_ns: u64, played_ns: u64, period_us: u64) -> (r: Option<u64>)
    requires
        period_us * 2 <= u64::MAX,
    ensures
        r matches Some(w) ==> frame_wait(paused, frame_ns as int, played_ns as int, period_us as int) == Some(w as int),
        r is None ==> frame_wait(paused, frame_ns as int, played_ns as int, period_us as int) is None,
{
    if paused || played_ns > u64::MAX - EARLY_FRAME_NS || frame_ns <= played_ns + EARLY_FRAME_NS {
        return None;
    }
    let remaining = frame_ns - played_ns;
    if period_us > u64::MAX / 2000 {
        return Some(remaining);
    }
    let cap = period_us * 2 * 1000;
    if remaining < cap {
        Some(remaining)
    } else {
        Some(cap)
    }
}

/// What a scaler was made for: the source's pixel format and size and the
/// size it scales to.
#[derive(PartialEq, Eq, Structural, Clone, Copy, Debug)]
pub struct ScalerKey {
    pub format: i32,
    pub src_width: u32,
    pub src_height: u32,
    pub dst_width: usize,
    pub dst_height: usize,
}

/// A new scaler is needed unless the one at hand was made for the same
/// format and sizes.
pub fn scaler_stale(cached: &Option<ScalerKey>, want: &ScalerKey) -> (r: bool)
    ensures
        r == (*cached != Some(*want)),
{
    match cached {
        Some(k) => !(k.format == want.format && k.src_width == want.src_width && k.src_height == want.src_height
            && k.dst_width == want.dst_width && k.dst_height == want.dst_height),
        None => true,
    }
}

// ===== the audio output =====

/// The channel layouts the audio output can resample to.
#[derive(PartialEq, Eq, Structural, Clone, Copy, Debug)]
pub enum ChannelLayout {
    Mono,
    Stereo,
    Surround,
    Quad,
    FourPointOne,
    FivePointOne,
    SixPointOne,
    SevenPointOne,
}

/// The layout for a device with `channels` channels: one to eight have
/// one each; other counts are not supported.
pub open spec fn layout_for(channels: int) -> Option<ChannelLayout> {
    if channels == 1 {
        Some(ChannelLayout::Mono)
    } else if channels == 2 {
        Some(ChannelLayout::Stereo)
    } else if channels == 3 {
        Some(ChannelLayout::Surround)
    } else if channels == 4 {
        Some(ChannelLayout::Quad)
    } else if channels == 5 {
        Some(ChannelLayout::FourPointOne)
    } else if channels == 6 {
        Some(ChannelLayout::FivePointOne)
    } else if channels == 7 {
        Some(ChannelLayout::SixPointOne)
    } else if channels == 8 {
        Some(ChannelLayout::SevenPointOne)
    } else {
        None
    }
}

/// The channel count of a layout.
pub open spec fn layout_channels(l: ChannelLayout) -> int {
    match l {
        ChannelLayout::Mono => 1,
        ChannelLayout::Stereo => 2,
        ChannelLayout::Surround => 3,
        ChannelLayout::Quad => 4,
        ChannelLayout::FourPointOne => 5,
        ChannelLayout::FivePointOne => 6,
        ChannelLayout::SixPointOne => 7,
        ChannelLayout::SevenPointOne => 8,
    }
}

/// The layout for a device's channel count.
pub fn channel_layout(channels: u16) -> (r: Option<ChannelLayout>)
    ensures
        r == layout_for(channels as int),
{
    match channels {
        1 => Some(ChannelLayout::Mono),
        2 => Some(ChannelLayout::Stereo),
        3 => Some(ChannelLayout::Surround),
        4 => Some(ChannelLayout::Quad),
        5 => Some(ChannelLayout::FourPointOne),
        6 => Some(ChannelLayout::FivePointOne),
        7 => Some(ChannelLayout::SixPointOne),
        8 => Some(ChannelLayout::SevenPointOne),
        _ => None,
    }
}

impl ChannelLayout {
    /// The number of channels of the layout.
    pub fn channels(&self) -> (r: u16)
        ensures
            r == layout_channels(*self),
    {
        match self {
            ChannelLayout::Mono => 1,
            ChannelLayout::Stereo => 2,
            ChannelLayout::Surround => 3,
            ChannelLayout::Quad => 4,
            ChannelLayout::FourPointOne => 5,
            ChannelLayout::FivePointOne => 6,
            ChannelLayout::SixPointOne => 7,
            ChannelLayout::SevenPointOne => 8,
        }
    }
}

/// A layout is the one chosen for its own channel count, and a supported
/// count is the channel count of its layout.
pub proof fn lemma_layout_round_trip(l: ChannelLayout, channels: int)
    ensures
        layout_for(layout_channels(l)) == Some(l),
        layout_for(channels) matches Some(m) ==> layout_channels(m) == channels,
        layout_for(channels) is Some <==> 1 <= channels <= 8,
{
}

/// The most samples per channel the audio buffer holds before the decoder
/// waits: twice what the device asks for at a time, and at least
/// [`AUDIO_MIN_BUFFER`].
pub fn buffer_limit(device_len: usize) -> (r: usize)
    requires
        device_len * 2 <= usize::MAX,
    ensures
        r == (if device_len * 2 > AUDIO_MIN_BUFFER { device_len * 2 } else { AUDIO_MIN_BUFFER as int }),
{
    let twice = device_len * 2;
    if twice > AUDIO_MIN_BUFFER {
        twice
    } else {
        AUDIO_MIN_BUFFER
    }
}

// ===== the audio buffer =====

/// A decoded audio frame waiting for the output: its time (seconds and
/// nanoseconds), the frame, its length in samples over all channels, how
/// many of them were played, and the times of the frames queued just before
/// and after it (the output fades in or out where time jumps between them).
pub struct AudioEntry<F> {
    pub ts: (u64, u32),
    pub frame: F,
    pub full_len: usize,
    pub cons: usize,
    pub prev_ts: Option<(u64, u32)>,
    pub next_ts: Option<(u64, u32)>,
}

impl<F> AudioEntry<F> {
    /// The frame's time while none of it was played; the output sets its
    /// clock to it when it starts the frame.
    pub fn timestamp(&self) -> (r: Option<(u64, u32)>)
        ensures
            r == (if self.cons == 0 { Some(self.ts) } else { None::<(u64, u32)> }),
    {
        if self.cons == 0 {
            Some(self.ts)
        } else {
            None
        }
    }
}

/// The samples of an entry not played yet.
pub open spec fn left<F>(e: AudioEntry<F>) -> int {
    e.full_len - e.cons
}

/// The samples of all entries not played yet.
pub open spec fn left_total<F>(q: Seq<AudioEntry<F>>) -> int
    decreases q.len(),
{
    if q.len() == 0 {
        0
    } else {
        left_total(q.drop_last()) + left(q.last())
    }
}

/// The queue after pushing a frame: the last entry learns the new frame's
/// time, and the new entry the time of the frame pushed before it.
pub open spec fn linked_push<F>(
    q: Seq<AudioEntry<F>>,
    last: Option<(u64, u32)>,
    ts: (u64, u32),
    frame: F,
    full_len: int,
) -> Seq<AudioEntry<F>> {
    let q1 = if q.len() > 0 {
        let b = q.last();
        q.update(
            q.len() - 1,
            AudioEntry { ts: b.ts, frame: b.frame, full_len: b.full_len, cons: b.cons, prev_ts: b.prev_ts, next_ts: Some(ts) },
        )
    } else {
        q
    };
    q1.push(AudioEntry { ts, frame, full_len: full_len as usize, cons: 0, prev_ts: last, next_ts: None })
}

/// Filling `data_len` output samples from the entries `k..` of `q`, with `i`
/// samples filled so far and `dur`, `add` the clock updates so far: each
/// entry not started sets the clock to its time; an entry that reaches the
/// end of the output is played in part and stays, and the clock then moves
/// on by the samples per channel played of it. The result: where it
/// stopped, how much of that entry was played, the samples filled, and the
/// clock updates.
pub open spec fn drain_from<F>(
    q: Seq<AudioEntry<F>>,
    k: int,
    i: int,
    data_len: int,
    ch: int,
    dur: Option<(u64, u32)>,
    add: Option<u64>,
) -> (int, Option<int>, int, Option<(u64, u32)>, Option<u64>)
    decreases q.len() - k,
{
    if k < 0 || k >= q.len() {
        (k, None, i, dur, add)
    } else {
        let e = q[k];
        let dur2 = if e.cons == 0 { Some(e.ts) } else { dur };
        let add2 = if e.cons == 0 { None } else { add };
        if left(e) > 0 && i + left(e) >= data_len {
            (k, Some(data_len - i), data_len, dur2, Some(((data_len - i) / ch) as u64))
        } else {
            drain_from(q, k + 1, i + left(e), data_len, ch, dur2, add2)
        }
    }
}

/// The queue left after a fill that stopped at entry `k`, having played `p`
/// samples of it.
pub open spec fn drained_queue<F>(q: Seq<AudioEntry<F>>, k: int, p: Option<int>) -> Seq<AudioEntry<F>> {
    match p {
        Some(n) => {
            let e = q[k];
            q.skip(k).update(
                0,
                AudioEntry { ts: e.ts, frame: e.frame, full_len: e.full_len, cons: (e.cons + n) as usize, prev_ts: e.prev_ts, next_ts: e.next_ts },
            )
        },
        None => q.skip(k),
    }
}

proof fn lemma_left_total_concat<F>(a: Seq<AudioEntry<F>>, b: Seq<AudioEntry<F>>)
    ensures
        left_total(a + b) == left_total(a) + left_total(b),
    decreases b.len(),
{
    if b.len() == 0 {
        assert(a + b =~= a);
    } else {
        lemma_left_total_concat(a, b.drop_last());
        assert((a + b).drop_last() =~= a + b.drop_last());
        assert((a + b).last() == b.last());
    }
}

proof fn lemma_left_total_single<F>(x: AudioEntry<F>)
    ensures
        left_total(seq![x]) == left(x),
{
    assert(seq![x].drop_last() =~= Seq::<AudioEntry<F>>::empty());
    assert(left_total(Seq::<AudioEntry<F>>::empty()) == 0);
    assert(seq![x].last() == x);
}

proof fn lemma_left_total_nonneg<F>(q: Seq<AudioEntry<F>>)
    requires
        forall|j: int| 0 <= j < q.len() ==> (#[trigger] q[j]).cons <= q[j].full_len,
    ensures
        left_total(q) >= 0,
    decreases q.len(),
{
    if q.len() > 0 {
        lemma_left_total_nonneg(q.drop_last());
        assert(q.last() == q[q.len() - 1]);
    }
}

proof fn lemma_left_total_multiple<F>(q: Seq<AudioEntry<F>>, ch: int)
    requires
        ch > 0,
        forall|j: int| 0 <= j < q.len() ==> left(#[trigger] q[j]) % ch == 0,
    ensures
        left_total(q) % ch == 0,
    decreases q.len(),
{
    if q.len() > 0 {
        lemma_left_total_multiple(q.drop_last(), ch);
        assert(q.last() == q[q.len() - 1]);
        let a = left_total(q.drop_last());
        let b = left(q.last());
        vstd::arithmetic::div_mod::lemma_add_mod_noop(a, b, ch);
        assert(0int % ch == 0);
    }
}

proof fn lemma_left_total_drained<F>(q: Seq<AudioEntry<F>>, k: int, n: int)
    requires
        0 <= k < q.len(),
        0 <= n <= left(q[k]),
    ensures
        left_total(drained_queue(q, k, Some(n))) == left_total(q) - left_total(q.take(k)) - n,
{
    let d = drained_queue(q, k, Some(n));
    assert(q =~= q.take(k) + q.skip(k));
    lemma_left_total_concat(q.take(k), q.skip(k));
    assert(q.skip(k) =~= seq![q[k]] + q.skip(k + 1));
    lemma_left_total_concat(seq![q[k]], q.skip(k + 1));
    lemma_left_total_single(q[k]);
    assert(d =~= seq![d[0]] + q.skip(k + 1));
    lemma_left_total_concat(seq![d[0]], q.skip(k + 1));
    lemma_left_total_single(d[0]);
}

/// The decoded audio waiting for the output device, in the order it
/// plays: the entries, the samples per channel counted as held (the
/// decoder waits while too many are), the time of the last frame pushed,
/// and the output's channel count.
pub struct AudioBuffer<F> {
    entries: VecDeque<AudioEntry<F>>,
    held: usize,
    last_ts: Option<(u64, u32)>,
    channels: usize,
}

/// What one fill of the output took from the buffer.
pub struct Drained<F> {
    /// The entries played to their end and removed, in order, each with
    /// the place in the output where its unplayed samples (from its `cons`
    /// to its `full_len`) went.
    pub done: Vec<(AudioEntry<F>, usize)>,
    /// The samples played of the entry now at the front: from, to, and the
    /// place in the output.
    pub partial: Option<(usize, usize, usize)>,
    /// The output samples filled; the rest of the output is silence.
    pub filled: usize,
    /// The time the output clock is set to, if an entry was started.
    pub set_time: Option<(u64, u32)>,
    /// The samples per channel the clock moves on by after that.
    pub add_samples: Option<u64>,
}

impl<F> AudioBuffer<F> {
    pub closed spec fn queue(&self) -> Seq<AudioEntry<F>> {
        self.entries@
    }

    pub closed spec fn held_samples(&self) -> int {
        self.held as int
    }

    pub closed spec fn last_time(&self) -> Option<(u64, u32)> {
        self.last_ts
    }

    pub closed spec fn channel_count(&self) -> int {
        self.channels as int
    }

    /// The entries are whole samples of every channel, none played past
    /// its end, and the count held is what is left of them per channel.
    pub open spec fn wf(&self) -> bool {
        &&& self.channel_count() > 0
        &&& forall|j: int|
            0 <= j < self.queue().len() ==> (#[trigger] self.queue()[j]).cons <= self.queue()[j].full_len && left(
                self.queue()[j],
            ) % self.channel_count() == 0
        &&& self.held_samples() * self.channel_count() == left_total(self.queue())
    }

    /// An empty buffer for an output with `channels` channels.
    pub fn new(channels: usize) -> (r: AudioBuffer<F>)
        requires
            channels > 0,
        ensures
            r.wf(),
            r.queue() =~= Seq::<AudioEntry<F>>::empty(),
            r.held_samples() == 0,
            r.last_time() is None,
            r.channel_count() == channels,
    {
        AudioBuffer { entries: VecDeque::new(), held: 0, last_ts: None, channels }
    }

    /// The samples per channel held.
    pub fn held(&self) -> (r: usize)
        ensures
            r == self.held_samples(),
    {
        self.held
    }

    /// The output's channel count.
    pub fn channels(&self) -> (r: usize)
        ensures
            r == self.channel_count(),
    {
        self.channels
    }

    /// The entry at the front, the next to play.
    pub fn front(&self) -> (r: Option<&AudioEntry<F>>)
        ensures
            r matches Some(e) ==> self.queue().len() > 0 && *e == self.queue()[0],
            r is None ==> self.queue().len() == 0,
    {
        if self.entries.len() > 0 {
            Some(&self.entries[0])
        } else {
            None
        }
    }

    /// Queues a frame of `samples` samples per channel at time `ts`.
    pub fn push_frame(&mut self, ts: (u64, u32), frame: F, samples: usize)
        requires
            old(self).wf(),
            samples * old(self).channel_count() <= usize::MAX,
            old(self).held_samples() + samples <= usize::MAX,
        ensures
            final(self).wf(),
            final(self).queue() == linked_push(
                old(self).queue(),
                old(self).last_time(),
                ts,
                frame,
                samples * old(self).channel_count(),
            ),
            final(self).held_samples() == old(self).held_samples() + samples,
            final(self).last_time() == Some(ts),
            final(self).channel_count() == old(self).channel_count(),
    {
        let ghost q = self.entries@;
        let ghost ch = self.channels as int;
        if let Some(mut back) = self.entries.pop_back() {
            back.next_ts = Some(ts);
            self.entries.push_back(back);
        }
        let ghost q1 = self.entries@;
        proof {
            if q.len() > 0 {
                assert(q1.drop_last() =~= q.drop_last());
                assert(q1.last() == q1[q1.len() - 1]);
                assert(q.last() == q[q.len() - 1]);
                assert(left(q1.last()) == left(q.last()));
                assert(left_total(q1) == left_total(q1.drop_last()) + left(q1.last()));
                assert(left_total(q) == left_total(q.drop_last()) + left(q.last()));
            } else {
                assert(q1 =~= q);
            }
            assert(left_total(q1) == left_total(q));
            assert forall|j: int| 0 <= j < q1.len() implies (#[trigger] q1[j]).cons <= q1[j].full_len && left(q1[j]) % ch == 0 by {
                assert(q1[j].cons == q[j].cons && q1[j].full_len == q[j].full_len);
            }
        }
        let full_len = samples * self.channels;
        let entry = AudioEntry { ts, frame, full_len, cons: 0, prev_ts: self.last_ts, next_ts: None };
        self.entries.push_back(entry);
        self.held = self.held + samples;
        self.last_ts = Some(ts);
        proof {
            let q2 = self.entries@;
            assert(q2.drop_last() =~= q1);
            assert(q2.last() == entry);
            assert(q2 =~= linked_push(q, old(self).last_ts, ts, frame, samples * ch));
            assert(left_total(q2) == left_total(q1) + left(entry));
            assert(left(entry) == samples * ch);
            let h = old(self).held as int;
            let s = samples as int;
            assert((h + s) * ch == h * ch + s * ch) by (nonlinear_arith);
            assert((s * ch) % ch == 0) by (nonlinear_arith)
                requires
                    ch > 0,
            ;
            assert forall|j: int| 0 <= j < q2.len() implies (#[trigger] q2[j]).cons <= q2[j].full_len && left(q2[j]) % ch == 0 by {
                if j < q1.len() {
                    assert(q2[j] == q1[j]);
                }
            }
        }
    }

    /// Drops everything queued (playback was moved); the time of the last
    /// frame pushed stays.
    pub fn clear(&mut self)
        requires
            old(self).wf(),
        ensures
            final(self).wf(),
            final(self).queue() =~= Seq::<AudioEntry<F>>::empty(),
            final(self).held_samples() == 0,
            final(self).last_time() == old(self).last_time(),
            final(self).channel_count() == old(self).channel_count(),
    {
        self.entries.clear();
        self.held = 0;
    }

    /// Fills an output of `data_len` samples (all channels interleaved)
    /// from the front of the buffer: entries are played from where they
    /// stopped, an entry played to its end leaves, and the one that reaches
    /// the end of the output stays with its count of played samples moved
    /// on. While paused nothing is taken. The output gets exactly the
    /// samples left in the buffer, up to its length.
    pub fn drain(&mut self, data_len: usize, paused: bool) -> (r: Drained<F>)
        requires
            old(self).wf(),
            data_len > 0,
            data_len as int % old(self).channel_count() == 0,
        ensures
            final(self).wf(),
            final(self).last_time() == old(self).last_time(),
            final(self).channel_count() == old(self).channel_count(),
            paused ==> {
                &&& r.done@.len() == 0
                &&& r.partial is None
                &&& r.filled == 0
                &&& r.set_time is None
                &&& r.add_samples is None
                &&& final(self).queue() == old(self).queue()
                &&& final(self).held_samples() == old(self).held_samples()
            },
            !paused ==> {
                let q = old(self).queue();
                let res = drain_from(q, 0, 0, data_len as int, old(self).channel_count(), None, None);
                &&& r.done@.len() == res.0
                &&& forall|j: int|
                    0 <= j < res.0 ==> (#[trigger] r.done@[j]).0 == q[j] && r.done@[j].1 == left_total(q.take(j))
                &&& r.partial == (match res.1 {
                    Some(n) => Some(((q[res.0].cons) as usize, (q[res.0].cons + n) as usize, (data_len - n) as usize)),
                    None => None::<(usize, usize, usize)>,
                })
                &&& r.filled == res.2
                &&& r.filled == (if left_total(q) < data_len { left_total(q) } else { data_len as int })
                &&& r.set_time == res.3
                &&& r.add_samples == res.4
                &&& final(self).queue() == drained_queue(q, res.0, res.1)
                &&& final(self).held_samples() == old(self).held_samples() - r.filled as int / old(self).channel_count()
            },
    {
        let mut done: Vec<(AudioEntry<F>, usize)> = Vec::new();
        if paused {
            return Drained { done, partial: None, filled: 0, set_time: None, add_samples: None };
        }
        let ghost q0 = self.entries@;
        let ghost ch = self.channels as int;
        let ghost dl = data_len as int;
        let mut i: usize = 0;
        let mut dur: Option<(u64, u32)> = None;
        let mut add: Option<u64> = None;
        let mut partial: Option<(usize, usize, usize)> = None;
        let ghost mut k: int = 0;
        proof {
            lemma_left_total_nonneg(q0);
            assert(q0.take(0) =~= Seq::<AudioEntry<F>>::empty());
            assert(q0.skip(0) =~= q0);
        }
        loop
            invariant_except_break
                self.entries@ == q0.skip(k),
                partial is None,
                i < data_len,
                i == left_total(q0.take(k)),
                drain_from(q0, 0, 0, dl, ch, None, None) == drain_from(q0, k, i as int, dl, ch, dur, add),
            invariant
                self.channels as int == ch,
                ch > 0,
                dl == data_len as int,
                dl % ch == 0,
                self.held == old(self).held,
                self.last_ts == old(self).last_ts,
                q0 == old(self).entries@,
                forall|j: int| 0 <= j < q0.len() ==> (#[trigger] q0[j]).cons <= q0[j].full_len && left(q0[j]) % ch == 0,
                old(self).held * ch == left_total(q0),
                0 <= k <= q0.len(),
                done@.len() == k,
                forall|j: int| 0 <= j < k ==> (#[trigger] done@[j]).0 == q0[j] && done@[j].1 == left_total(q0.take(j)),
            ensures
                partial is None ==> k == q0.len() && self.entries@ =~= Seq::<AudioEntry<F>>::empty() && i == left_total(q0)
                    && i < data_len && drain_from(q0, 0, 0, dl, ch, None, None) == (k, None::<int>, i as int, dur, add),
                partial matches Some(p) ==> k < q0.len() && i == data_len && p.0 == q0[k].cons && p.0 <= p.1
                    && p.1 == q0[k].cons + (p.1 - p.0) && p.2 == data_len - (p.1 - p.0)
                    && p.2 == left_total(q0.take(k)) && left(q0[k]) >= p.1 - p.0 && p.1 > p.0
                    && drain_from(q0, 0, 0, dl, ch, None, None) == (k, Some(p.1 - p.0), dl, dur, add)
                    && self.entries@ == drained_queue(q0, k, Some(p.1 - p.0)),
            decreases q0.len() - k,
        {
            proof {
                assert(q0.skip(k).len() == q0.len() - k);
            }
            match self.entries.pop_front() {
                None => {
                    proof {
                        assert(k == q0.len());
                        assert(q0.take(k) =~= q0);
                    }
                    break;
                },
                Some(mut e) => {
                    proof {
                        assert(e == q0[k]);
                        assert(self.entries@ =~= q0.skip(k + 1));
                    }
                    if e.cons == 0 {
                        dur = Some(e.ts);
                        add = None;
                    }
                    let rem = e.full_len - e.cons;
                    if rem > 0 && rem >= data_len - i {
                        let n = data_len - i;
                        let from = e.cons;
                        e.cons = e.cons + n;
                        add = Some((n / self.channels) as u64);
                        self.entries.push_front(e);
                        partial = Some((from, from + n, i));
                        proof {
                            assert(self.entries@ =~= drained_queue(q0, k, Some(n as int)));
                        }
                        i = data_len;
                        break;
                    } else {
                        done.push((e, i));
                        proof {
                            assert(q0.take(k + 1).drop_last() =~= q0.take(k));
                            assert(q0.take(k + 1).last() == q0[k]);
                        }
                        i = i + rem;
                        proof {
                            k = k + 1;
                        }
                    }
                },
            }
        }
        proof {
            if let Some(p) = partial {
                let n: int = p.1 - p.0;
                lemma_left_total_drained(q0, k, n);
                let d = drained_queue(q0, k, Some(n));
                assert forall|j: int| 0 <= j < d.len() implies (#[trigger] d[j]).cons <= d[j].full_len by {
                    if j > 0 {
                        assert(d[j] == q0[k + j]);
                    }
                }
                lemma_left_total_nonneg(d);
                assert(i as int % ch == 0);
            } else {
                vstd::arithmetic::div_mod::lemma_mod_multiples_basic(old(self).held as int, ch);
                assert(i as int == old(self).held as int * ch);
            }
            vstd::arithmetic::div_mod::lemma_fundamental_div_mod(i as int, ch);
            let m: int = i as int / ch;
            let h: int = old(self).held as int;
            assert(m <= h) by (nonlinear_arith)
                requires
                    i as int == ch * m,
                    i as int <= h * ch,
                    ch > 0,
            ;
            assert((h - m) * ch == h * ch - ch * m) by (nonlinear_arith);
        }
        self.held = self.held - i / self.channels;
        proof {
            let q1 = self.entries@;
            if let Some(p) = partial {
                let n: int = p.1 - p.0;
                assert(n % ch == 0) by {
                    let t = left_total(q0.take(k));
                    assert forall|j: int| 0 <= j < q0.take(k).len() implies left(#[trigger] q0.take(k)[j]) % ch == 0 by {
                        assert(q0.take(k)[j] == q0[j]);
                    }
                    lemma_left_total_multiple(q0.take(k), ch);
                    vstd::arithmetic::div_mod::lemma_sub_mod_noop(dl, t, ch);
                    assert(0int % ch == 0);
                }
                assert forall|j: int| 0 <= j < q1.len() implies (#[trigger] q1[j]).cons <= q1[j].full_len && left(q1[j]) % ch == 0 by {
                    if j > 0 {
                        assert(q1[j] == q0[k + j]);
                    } else {
                        vstd::arithmetic::div_mod::lemma_sub_mod_noop(left(q0[k]), n, ch);
                        assert(0int % ch == 0);
                    }
                }
            }
        }
        Drained { done, partial, filled: i, set_time: dur, add_samples: add }
    }

    /// Whether the decoder should wait: more is held than
    /// [`buffer_limit`] of the device's `device_len` samples per channel.
    pub fn is_full(&self, device_len: usize) -> (r: bool)
        requires
            device_len * 2 <= usize::MAX,
        ensures
            r == (self.held_samples() > (if device_len * 2 > AUDIO_MIN_BUFFER { device_len * 2 } else {
                AUDIO_MIN_BUFFER as int
            })),
    {
        self.held > buffer_limit(device_len)
    }
}

// ===== the decoder's packet queues =====

/// Where a packet read from the container goes.
pub enum Routed<P> {
    /// Into the video or audio queue.
    Queued,
    /// To the subtitle decoder.
    Subtitle(P),
    /// Nowhere: its stream is not played.
    Dropped,
}

/// The packets read and not yet decoded, one queue for the video stream
/// and one for the audio stream, with the indices of the streams played.
pub struct DecodeQueues<P> {
    video: Option<usize>,
    audio: Option<usize>,
    subtitle: Option<usize>,
    video_queue: VecDeque<P>,
    audio_queue: VecDeque<P>,
}

impl<P> DecodeQueues<P> {
    pub closed spec fn video_stream(&self) -> Option<usize> {
        self.video
    }

    pub closed spec fn audio_stream(&self) -> Option<usize> {
        self.audio
    }

    pub closed spec fn subtitle_stream(&self) -> Option<usize> {
        self.subtitle
    }

    pub closed spec fn video_packets(&self) -> Seq<P> {
        self.video_queue@
    }

    pub closed spec fn audio_packets(&self) -> Seq<P> {
        self.audio_queue@
    }

    /// Empty queues for the streams chosen from the container.
    pub fn new(video: Option<usize>, audio: Option<usize>, subtitle: Option<usize>) -> (r: DecodeQueues<P>)
        ensures
            r.video_stream() == video && r.audio_stream() == audio && r.subtitle_stream() == subtitle,
            r.video_packets() =~= Seq::<P>::empty(),
            r.audio_packets() =~= Seq::<P>::empty(),
    {
        DecodeQueues { video, audio, subtitle, video_queue: VecDeque::new(), audio_queue: VecDeque::new() }
    }

    /// Whether there is anything to play: a video or an audio stream (a
    /// file with neither is refused).
    pub fn has_media(&self) -> (r: bool)
        ensures
            r == (self.video_stream() is Some || self.audio_stream() is Some),
    {
        self.video.is_some() || self.audio.is_some()
    }

    /// Sends a packet of stream `stream` where it belongs: the video
    /// stream's and the audio stream's to the back of their queues, the
    /// subtitle stream's back to the caller, others nowhere.
    pub fn route(&mut self, stream: usize, packet: P) -> (r: Routed<P>)
        ensures
            final(self).video_stream() == old(self).video_stream(),
            final(self).audio_stream() == old(self).audio_stream(),
            final(self).subtitle_stream() == old(self).subtitle_stream(),
            old(self).video_stream() == Some(stream) ==> {
                &&& r is Queued
                &&& final(self).video_packets() == old(self).video_packets().push(packet)
                &&& final(self).audio_packets() == old(self).audio_packets()
            },
            old(self).video_stream() != Some(stream) && old(self).audio_stream() == Some(stream) ==> {
                &&& r is Queued
                &&& final(self).audio_packets() == old(self).audio_packets().push(packet)
                &&& final(self).video_packets() == old(self).video_packets()
            },
            old(self).video_stream() != Some(stream) && old(self).audio_stream() != Some(stream) ==> {
                &&& final(self).video_packets() == old(self).video_packets()
                &&& final(self).audio_packets() == old(self).audio_packets()
                &&& (if old(self).subtitle_stream() == Some(stream) { r == Routed::Subtitle(packet) } else { r is Dropped })
            },
    {
        if self.video == Some(stream) {
            self.video_queue.push_back(packet);
            Routed::Queued
        } else if self.audio == Some(stream) {
            self.audio_queue.push_back(packet);
            Routed::Queued
        } else if self.subtitle == Some(stream) {
            Routed::Subtitle(packet)
        } else {
            Routed::Dropped
        }
    }

    /// Whether the decoders can run a round: every stream played has a
    /// packet waiting.
    pub fn ready(&self) -> (r: bool)
        ensures
            r == ((self.audio_stream() is None || self.audio_packets().len() > 0) && (self.video_stream() is None
                || self.video_packets().len() > 0)),
    {
        (self.audio.is_none() || self.audio_queue.len() > 0) && (self.video.is_none() || self.video_queue.len() > 0)
    }

    /// The oldest video packet not decoded.
    pub fn next_video(&mut self) -> (r: Option<P>)
        ensures
            final(self).video_stream() == old(self).video_stream(),
            final(self).audio_stream() == old(self).audio_stream(),
            final(self).subtitle_stream() == old(self).subtitle_stream(),
            final(self).audio_packets() == old(self).audio_packets(),
            old(self).video_packets().len() == 0 ==> r is None && final(self).video_packets() == old(self).video_packets(),
            old(self).video_packets().len() > 0 ==> r == Some(old(self).video_packets()[0])
                && final(self).video_packets() == old(self).video_packets().drop_first(),
    {
        let r = self.video_queue.pop_front();
        proof {
            if old(self).video_queue@.len() > 0 {
                assert(self.video_queue@ =~= old(self).video_queue@.drop_first());
            }
        }
        r
    }

    /// The oldest audio packet not decoded.
    pub fn next_audio(&mut self) -> (r: Option<P>)
        ensures
            final(self).video_stream() == old(self).video_stream(),
            final(self).audio_stream() == old(self).audio_stream(),
            final(self).subtitle_stream() == old(self).subtitle_stream(),
            final(self).video_packets() == old(self).video_packets(),
            old(self).audio_packets().len() == 0 ==> r is None && final(self).audio_packets() == old(self).audio_packets(),
            old(self).audio_packets().len() > 0 ==> r == Some(old(self).audio_packets()[0])
                && final(self).audio_packets() == old(self).audio_packets().drop_first(),
    {
        let r = self.audio_queue.pop_front();
        proof {
            if old(self).audio_queue@.len() > 0 {
                assert(self.audio_queue@ =~= old(self).audio_queue@.drop_first());
            }
        }
        r
    }

    /// Drops the packets not decoded (playback was moved).
    pub fn clear(&mut self)
        ensures
            final(self).video_stream() == old(self).video_stream(),
            final(self).audio_stream() == old(self).audio_stream(),
            final(self).subtitle_stream() == old(self).subtitle_stream(),
            final(self).video_packets() =~= Seq::<P>::empty(),
            final(self).audio_packets() =~= Seq::<P>::empty(),
    {
        self.video_queue.clear();
        self.audio_queue.clear();
    }
}

// ===== the playlist run =====

/// The items in a row that could not be played; the player stops when
/// there are as many as the playlist holds.
pub struct FailureStreak {
    count: usize,
}

impl FailureStreak {
    pub closed spec fn failures(&self) -> int {
        self.count as int
    }

    pub fn new() -> (r: FailureStreak)
        ensures
            r.failures() == 0,
    {
        FailureStreak { count: 0 }
    }

    /// The failures in a row so far.
    pub fn count(&self) -> (r: usize)
        ensures
            r == self.failures(),
    {
        self.count
    }

    /// Counts an item played (the streak ends) or not (it grows).
    pub fn record(&mut self, played: bool)
        requires
            played || old(self).failures() < usize::MAX,
        ensures
            final(self).failures() == (if played { 0 } else { old(self).failures() + 1 }),
    {
        if played {
            self.count = 0;
        } else {
            self.count = self.count + 1;
        }
    }

    /// Whether to stop: as many failures in a row as there are items.
    pub fn gives_up(&self, playlist_len: usize) -> (r: bool)
        ensures
            r == (self.failures() >= playlist_len),
    {
        self.count >= playlist_len
    }
}

} // verus!
