use tvid::media::{
    admit_frame, buffer_limit, channel_layout, frame_period_us, frame_wait_ns, nanos_of, scaler_stale, subtitle_span,
    timestamp, AudioBuffer, ChannelLayout, DecodeQueues, FailureStreak, FrameVerdict, Routed, ScalerKey, AV_TIME_BASE,
};
use tvid::playback::VideoSeekHint;

#[test]
fn timestamp_in_a_time_base() {
    assert_eq!(timestamp(90_000, 1, 90_000), (1, 0));
    assert_eq!(timestamp(45_045, 1, 30_000), (1, 501_500_000));
    assert_eq!(timestamp(3_500_000, 1, AV_TIME_BASE), (3, 500_000_000));
    assert_eq!(timestamp(0, 1, 1000), (0, 0));
}

#[test]
fn nanoseconds_of_a_time() {
    assert_eq!(nanos_of(1, 5), 1_000_000_005);
    assert_eq!(nanos_of(0, 999_999_999), 999_999_999);
    assert_eq!(nanos_of(u64::MAX, 0), u64::MAX);
    assert_eq!(nanos_of(18_446_744_073, 709_551_616), u64::MAX);
}

#[test]
fn frame_period_from_the_rate() {
    assert_eq!(frame_period_us(30_000, 1001), 33_366);
    assert_eq!(frame_period_us(25, 1), 40_000);
}

#[test]
fn subtitle_shown_from_start_to_end() {
    assert_eq!(subtitle_span(1, 500, 100, 2000), (1_100_000_500, 3_000_000_500));
    assert_eq!(subtitle_span(0, 0, 0, 0), (0, 0));
}

#[test]
fn empty_frame_keeps_the_seek_hint() {
    let mut hint = VideoSeekHint::new();
    hint.hint_seeked();
    assert_eq!(admit_frame(&mut hint, 0, 10, 0, 0), FrameVerdict::Empty);
    assert!(hint.take_seek_hint());
}

#[test]
fn late_frame_is_dropped_unless_seeked() {
    let mut hint = VideoSeekHint::new();
    assert_eq!(admit_frame(&mut hint, 4, 4, 0, 200_000_000), FrameVerdict::Late);
    assert_eq!(admit_frame(&mut hint, 4, 4, 100_000_000, 200_000_000), FrameVerdict::Show);
    assert_eq!(admit_frame(&mut hint, 4, 4, 99_999_999, 200_000_000), FrameVerdict::Late);
    assert_eq!(admit_frame(&mut hint, 4, 4, 150_000_000, 200_000_000), FrameVerdict::Show);
    hint.hint_seeked();
    assert_eq!(admit_frame(&mut hint, 4, 4, 0, 200_000_000), FrameVerdict::Show);
    assert!(!hint.take_seek_hint());
}

#[test]
fn wait_for_an_early_frame() {
    assert_eq!(frame_wait_ns(true, 1_000_000_000, 0, 33_333), None);
    assert_eq!(frame_wait_ns(false, 100_000_000, 90_000_000, 33_333), Some(10_000_000));
    assert_eq!(frame_wait_ns(false, 1_000_000_000, 0, 33_333), Some(66_666_000));
    assert_eq!(frame_wait_ns(false, 95_000_000, 90_000_000, 33_333), None);
    assert_eq!(frame_wait_ns(false, 95_000_001, 90_000_000, 33_333), Some(5_000_001));
    assert_eq!(frame_wait_ns(false, 0, 90_000_000, 33_333), None);
}

#[test]
fn scaler_made_again_when_anything_changes() {
    let key = ScalerKey { format: 0, src_width: 640, src_height: 480, dst_width: 80, dst_height: 60 };
    assert!(scaler_stale(&None, &key));
    assert!(!scaler_stale(&Some(key), &key));
    let other = ScalerKey { dst_width: 81, ..key };
    assert!(scaler_stale(&Some(key), &other));
    let format = ScalerKey { format: 3, ..key };
    assert!(scaler_stale(&Some(key), &format));
}

#[test]
fn channel_layouts_for_one_to_eight() {
    assert_eq!(channel_layout(1), Some(ChannelLayout::Mono));
    assert_eq!(channel_layout(2), Some(ChannelLayout::Stereo));
    assert_eq!(channel_layout(6), Some(ChannelLayout::FivePointOne));
    assert_eq!(channel_layout(8), Some(ChannelLayout::SevenPointOne));
    assert_eq!(channel_layout(0), None);
    assert_eq!(channel_layout(9), None);
    for n in 1..=8u16 {
        assert_eq!(channel_layout(n).map(|l| l.channels()), Some(n));
    }
}

#[test]
fn audio_buffer_limit() {
    assert_eq!(buffer_limit(0), 1024);
    assert_eq!(buffer_limit(512), 1024);
    assert_eq!(buffer_limit(513), 1026);
    assert_eq!(buffer_limit(1000), 2000);
}

#[test]
fn pushed_frames_are_linked() {
    let mut b: AudioBuffer<&str> = AudioBuffer::new(2);
    b.push_frame((0, 0), "a", 4);
    b.push_frame((0, 100), "b", 3);
    assert_eq!(b.held(), 7);
    let front = b.front().unwrap();
    assert_eq!(front.frame, "a");
    assert_eq!(front.full_len, 8);
    assert_eq!(front.cons, 0);
    assert_eq!(front.prev_ts, None);
    assert_eq!(front.next_ts, Some((0, 100)));
    assert_eq!(front.timestamp(), Some((0, 0)));
    b.clear();
    assert_eq!(b.held(), 0);
    assert!(b.front().is_none());
    b.push_frame((1, 0), "c", 1);
    assert_eq!(b.front().unwrap().prev_ts, Some((0, 100)));
}

#[test]
fn drain_plays_in_order_and_keeps_the_rest() {
    let mut b: AudioBuffer<&str> = AudioBuffer::new(2);
    b.push_frame((0, 0), "a", 4);
    b.push_frame((0, 100), "b", 4);

    let d = b.drain(6, false);
    assert!(d.done.is_empty());
    assert_eq!(d.partial, Some((0, 6, 0)));
    assert_eq!(d.filled, 6);
    assert_eq!(d.set_time, Some((0, 0)));
    assert_eq!(d.add_samples, Some(3));
    assert_eq!(b.held(), 5);
    assert_eq!(b.front().unwrap().cons, 6);
    assert_eq!(b.front().unwrap().timestamp(), None);

    let d = b.drain(12, false);
    assert_eq!(d.done.len(), 2);
    assert_eq!(d.done[0].0.frame, "a");
    assert_eq!(d.done[0].0.cons, 6);
    assert_eq!(d.done[0].1, 0);
    assert_eq!(d.done[1].0.frame, "b");
    assert_eq!(d.done[1].1, 2);
    assert_eq!(d.partial, None);
    assert_eq!(d.filled, 10);
    assert_eq!(d.set_time, Some((0, 100)));
    assert_eq!(d.add_samples, None);
    assert_eq!(b.held(), 0);
    assert!(b.front().is_none());
}

#[test]
fn drain_while_paused_takes_nothing() {
    let mut b: AudioBuffer<&str> = AudioBuffer::new(1);
    b.push_frame((2, 0), "a", 10);
    let d = b.drain(4, true);
    assert!(d.done.is_empty());
    assert_eq!(d.partial, None);
    assert_eq!(d.filled, 0);
    assert_eq!(d.set_time, None);
    assert_eq!(b.held(), 10);
}

#[test]
fn drain_an_empty_buffer() {
    let mut b: AudioBuffer<&str> = AudioBuffer::new(2);
    let d = b.drain(8, false);
    assert!(d.done.is_empty());
    assert_eq!(d.filled, 0);
    assert_eq!(d.set_time, None);
    assert_eq!(d.add_samples, None);
}

#[test]
fn drain_exactly_one_frame() {
    let mut b: AudioBuffer<&str> = AudioBuffer::new(2);
    b.push_frame((5, 0), "a", 2);
    let d = b.drain(4, false);
    assert!(d.done.is_empty());
    assert_eq!(d.partial, Some((0, 4, 0)));
    assert_eq!(d.add_samples, Some(2));
    assert_eq!(b.held(), 0);
    let d = b.drain(4, false);
    assert_eq!(d.done.len(), 1);
    assert_eq!(d.filled, 0);
    assert_eq!(d.set_time, None);
    assert!(b.front().is_none());
}

#[test]
fn buffer_full_above_the_limit() {
    let mut b: AudioBuffer<&str> = AudioBuffer::new(2);
    b.push_frame((0, 0), "a", 1024);
    assert!(!b.is_full(100));
    b.push_frame((0, 1), "b", 1);
    assert!(b.is_full(100));
    assert!(!b.is_full(600));
}

#[test]
fn packets_routed_by_stream() {
    let mut q: DecodeQueues<char> = DecodeQueues::new(Some(0), Some(1), Some(2));
    assert!(q.has_media());
    assert!(matches!(q.route(0, 'v'), Routed::Queued));
    assert!(matches!(q.route(3, 'x'), Routed::Dropped));
    assert!(matches!(q.route(2, 's'), Routed::Subtitle('s')));
    assert!(!q.ready());
    assert!(matches!(q.route(1, 'a'), Routed::Queued));
    assert!(q.ready());
    assert!(matches!(q.route(0, 'w'), Routed::Queued));
    assert_eq!(q.next_video(), Some('v'));
    assert_eq!(q.next_video(), Some('w'));
    assert_eq!(q.next_video(), None);
    assert!(!q.ready());
    assert_eq!(q.next_audio(), Some('a'));
    q.route(0, 'z');
    q.clear();
    assert_eq!(q.next_video(), None);
}

#[test]
fn no_media_without_video_or_audio() {
    let q: DecodeQueues<char> = DecodeQueues::new(None, None, Some(0));
    assert!(!q.has_media());
    let q: DecodeQueues<char> = DecodeQueues::new(None, Some(0), None);
    assert!(q.has_media());
    assert!(!q.ready());
}

#[test]
fn failures_in_a_row() {
    let mut f = FailureStreak::new();
    f.record(false);
    f.record(false);
    assert!(!f.gives_up(3));
    f.record(true);
    assert_eq!(f.count(), 0);
    f.record(false);
    f.record(false);
    f.record(false);
    assert!(f.gives_up(3));
}
