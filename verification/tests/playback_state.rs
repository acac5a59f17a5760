use tvid::avsync::{
    audio_played_time_or_none, audio_played_time_or_zero, decode_ended, end_decode, has_audio, has_video, hint_audio_played_time,
    hint_seeked, hint_video_played_time, is_paused, pause, played_time_or_none, played_time_or_zero, reset, resume,
    switch_pause_state, total_duration, video_played_time_or_none, video_played_time_or_zero, AVSyncState,
};
use tvid::error::{error_line, remove_expired_errors, send_error, ErrorLog};
use tvid::logging::{debug, error, info, message_line, remove_expired_messages, send_message, warning, MessageLevel, Messages};
use tvid::osc8::{begin_link, end_link, format_link};
use tvid::playback::{notify_quit, AudioClock, TermIds, VideoSeekHint};
use tvid::playlist::{overlay_key, toggle_show_playlist, OverlayAction, Playlist, PlaylistOverlay};
use tvid::statistics::{
    increment_total_output_bytes, increment_video_skipped_frames, set_escape_string_encode_time, set_output_bytes,
    set_output_time, set_render_time, MaxSizedQueue, Statistics,
};
use tvid::stdin::Key;
use tvid::stdout::{print_all_step, OutputQueue, WriteProgress};
use tvid::util::Color;

const S: u64 = 1_000_000_000;

// ===== the playback clock =====

#[test]
fn clock_before_any_seek() {
    let mut s = AVSyncState::new(10 * S, true, false);
    assert_eq!(total_duration(&s), 10 * S);
    assert!(has_audio(&s) && !has_video(&s));
    assert_eq!(played_time_or_none(&mut s, 5), None);
    assert_eq!(played_time_or_zero(&mut s, 5), 0);
    assert_eq!(audio_played_time_or_zero(&mut s, 5), 0);
    assert_eq!(video_played_time_or_none(&mut s, 5), None);
}

#[test]
fn clock_runs_from_seek() {
    let mut s = AVSyncState::new(10 * S, false, false);
    hint_seeked(&mut s, 5 * S, 6 * S);
    assert_eq!(played_time_or_zero(&mut s, 7 * S), 6 * S);
    assert_eq!(played_time_or_none(&mut s, 9 * S), Some(8 * S));
}

#[test]
fn pause_freezes_and_resume_continues() {
    let mut s = AVSyncState::new(10 * S, false, false);
    hint_seeked(&mut s, 0, 1 * S);
    pause(&mut s, 3 * S);
    assert!(is_paused(&s));
    assert_eq!(played_time_or_zero(&mut s, 20 * S), 2 * S);
    resume(&mut s, 20 * S);
    assert!(!is_paused(&s));
    assert_eq!(played_time_or_zero(&mut s, 21 * S), 3 * S);
    switch_pause_state(&mut s, 21 * S);
    assert!(is_paused(&s));
    switch_pause_state(&mut s, 30 * S);
    assert_eq!(played_time_or_zero(&mut s, 31 * S), 4 * S);
}

#[test]
fn clock_follows_audio_beyond_tolerance() {
    let mut s = AVSyncState::new(10 * S, true, true);
    hint_seeked(&mut s, 0, 1 * S);
    // audio 10 ms behind: within tolerance
    hint_audio_played_time(&mut s, S - 10_000_000, 2 * S);
    assert_eq!(played_time_or_zero(&mut s, 2 * S), S);
    assert_eq!(audio_played_time_or_zero(&mut s, 2 * S), S - 10_000_000);
    // audio 100 ms behind: the clock jumps to it
    hint_audio_played_time(&mut s, S, 2 * S + 100_000_000);
    assert_eq!(played_time_or_zero(&mut s, 3 * S), 1_900_000_000);
    assert_eq!(audio_played_time_or_none(&mut s, 3 * S), Some(1_900_000_000));
}

#[test]
fn clock_follows_video_without_audio() {
    let mut s = AVSyncState::new(10 * S, false, true);
    hint_seeked(&mut s, 0, S);
    hint_video_played_time(&mut s, 0, 2 * S);
    assert_eq!(video_played_time_or_zero(&mut s, 3 * S), S);
    assert_eq!(played_time_or_zero(&mut s, 3 * S), S);
}

#[test]
fn decoding_end_and_reset() {
    let mut s = AVSyncState::new(10 * S, true, true);
    assert!(!decode_ended(&s));
    end_decode(&mut s);
    assert!(decode_ended(&s));
    reset(&mut s, 3 * S, false, true);
    assert!(!decode_ended(&s));
    assert_eq!(total_duration(&s), 3 * S);
    assert!(!has_audio(&s));
}

#[test]
fn quitting_playback_resumes() {
    let mut s = AVSyncState::new(10 * S, false, false);
    hint_seeked(&mut s, 0, S);
    pause(&mut s, 2 * S);
    notify_quit(&mut s, 5 * S);
    assert!(decode_ended(&s));
    assert!(!is_paused(&s));
    assert_eq!(played_time_or_zero(&mut s, 6 * S), 2 * S);
}

#[test]
fn audio_sample_clock() {
    let mut c = AudioClock::new();
    c.samplerate = 48_000;
    assert_eq!(c.update_vtime(0), None);
    assert_eq!(c.update_vtime(48_000), Some((0, 0)));
    assert_eq!(c.update_vtime(24_000), Some((1, 0)));
    assert_eq!(c.update_vtime(1), Some((1, 500_000_000)));
    c.set_vtime(2, 500_000_000);
    assert_eq!(c.played_samples, 120_000);
    assert!(!c.take_seek_hint());
    c.hint_seeked();
    assert!(c.take_seek_hint());
    assert!(!c.take_seek_hint());
    let mut v = VideoSeekHint::new();
    v.hint_seeked();
    assert!(v.take_seek_hint());
    assert!(!v.take_seek_hint());
}

#[test]
fn terminal_ids_count_up() {
    let mut t = TermIds::new();
    assert_eq!(t.next_term_id(), 1);
    assert_eq!(t.next_term_id(), 2);
    t.next = i32::MAX;
    assert_eq!(t.next_term_id(), i32::MAX);
    assert_eq!(t.next_term_id(), i32::MIN);
}

// ===== the playlist =====

fn list(items: &[&str]) -> Playlist {
    let mut p = Playlist::new();
    p.extend(items.iter().map(|s| s.to_string()).collect());
    p
}

#[test]
fn playlist_starts_with_first_item() {
    let mut p = list(&["a", "b", "c"]);
    assert_eq!(p.len(), 3);
    assert_eq!(p.next().cloned(), Some("a".to_string()));
    assert_eq!(p.next().cloned(), Some("b".to_string()));
    assert_eq!(p.current().cloned(), Some("b".to_string()));
    assert_eq!(p.get_pos(), 1);
}

#[test]
fn empty_playlist_moves_nowhere() {
    let mut p = Playlist::new();
    assert!(p.setnext_ok());
    assert_eq!(p.next(), None);
    assert_eq!(p.prev(), None);
    assert_eq!(p.get_pos(), 0);
}

#[test]
fn playlist_runs_off_the_end_without_looping() {
    let mut p = list(&["a", "b"]);
    p.next();
    p.next();
    assert_eq!(p.next(), None);
    assert_eq!(p.get_pos(), 2);
    assert_eq!(p.current(), None);
    assert_eq!(p.prev().cloned(), Some("b".to_string()));
}

#[test]
fn playlist_loops() {
    let mut p = list(&["a", "b"]);
    p.set_looping(true);
    assert!(p.get_looping());
    p.next();
    p.next();
    assert_eq!(p.next().cloned(), Some("a".to_string()));
    assert_eq!(p.prev().cloned(), Some("b".to_string()));
}

#[test]
fn playlist_prev_stays_at_first() {
    let mut p = list(&["a", "b"]);
    p.next();
    assert_eq!(p.prev().cloned(), Some("a".to_string()));
    assert_eq!(p.get_pos(), 0);
}

#[test]
fn playlist_prev_undoes_next() {
    let mut p = list(&["a", "b", "c"]);
    p.next();
    p.next();
    let here = p.get_pos();
    p.next();
    p.prev();
    assert_eq!(p.get_pos(), here);
}

#[test]
fn playlist_setnext_and_push() {
    let mut p = list(&["a", "b", "c"]);
    p.next();
    p.setnext(2);
    assert_eq!(p.next().cloned(), Some("c".to_string()));
    p.push_and_setnext("d");
    assert_eq!(p.get_items().len(), 4);
    assert_eq!(p.next().cloned(), Some("d".to_string()));
    p.clear();
    assert_eq!(p.len(), 0);
    assert_eq!(p.next(), None);
    let mut q = Playlist::new();
    q.push("x");
    assert_eq!(q.next().cloned(), Some("x".to_string()));
}

#[test]
fn playlist_overlay_keys() {
    let mut p = list(&["a", "b", "c"]);
    p.next();
    let mut o = PlaylistOverlay::new();
    assert_eq!(overlay_key(&mut o, &mut p, Key::Down), OverlayAction::Ignored);
    toggle_show_playlist(&mut o);
    assert!(o.show);
    assert_eq!(o.selected, -1);
    assert_eq!(overlay_key(&mut o, &mut p, Key::Normal(' ')), OverlayAction::Handled);
    assert_eq!(overlay_key(&mut o, &mut p, Key::Down), OverlayAction::Handled);
    assert_eq!(o.selected, 1);
    assert_eq!(overlay_key(&mut o, &mut p, Key::Normal('s')), OverlayAction::Handled);
    assert_eq!(overlay_key(&mut o, &mut p, Key::Down), OverlayAction::Handled);
    assert_eq!(o.selected, 2);
    assert_eq!(overlay_key(&mut o, &mut p, Key::Up), OverlayAction::Handled);
    assert_eq!(o.selected, 1);
    assert_eq!(overlay_key(&mut o, &mut p, Key::Left), OverlayAction::Handled);
    assert_eq!(overlay_key(&mut o, &mut p, Key::Normal('x')), OverlayAction::Ignored);
    assert_eq!(overlay_key(&mut o, &mut p, Key::Enter), OverlayAction::PlaySelected);
    assert!(!o.show);
    assert_eq!(p.next().cloned(), Some("b".to_string()));
    toggle_show_playlist(&mut o);
    assert_eq!(overlay_key(&mut o, &mut p, Key::Normal('q')), OverlayAction::Handled);
    assert!(!o.show);
}

// ===== statistics =====

#[test]
fn bounded_queue_keeps_last_items() {
    let mut q: MaxSizedQueue<u64, 3> = MaxSizedQueue::new();
    assert_eq!(q.last_or_none(), None);
    assert_eq!(q.avg_or_none(), None);
    assert_eq!(q.avg(), 0);
    for i in 1..=4 {
        q.push_back(i);
    }
    assert_eq!(q.len(), 3);
    assert_eq!(q.iter(), vec![2, 3, 4]);
    assert_eq!(q.last(), 4);
    assert_eq!(q.last_or_none(), Some(4));
    assert_eq!(q.avg(), 3);
    q.push_back(10);
    assert_eq!(q.avg_or_none(), Some(17 / 3));
}

#[test]
fn statistics_setters() {
    let mut s = Statistics::new();
    set_render_time(&mut s, 5);
    set_escape_string_encode_time(&mut s, 6);
    set_output_time(&mut s, 7);
    set_output_bytes(&mut s, 8);
    increment_video_skipped_frames(&mut s, 2);
    increment_video_skipped_frames(&mut s, 3);
    increment_total_output_bytes(&mut s, 100);
    assert_eq!(s.render_time.last(), 5);
    assert_eq!(s.escape_string_encode_time.last(), 6);
    assert_eq!(s.output_time.last(), 7);
    assert_eq!(s.output_bytes.last(), 8);
    assert_eq!(s.video_skipped_frames, 5);
    assert_eq!(s.total_output_bytes, 100);
}

// ===== output =====

#[test]
fn output_queue_is_first_in_first_out() {
    let mut q = OutputQueue::new();
    assert_eq!(q.pop_frame(), None);
    q.pend_print(vec![1]);
    q.pend_print(vec![2, 3]);
    assert_eq!(q.pending_frames(), 2);
    assert_eq!(q.pop_frame(), Some(vec![1]));
    assert_eq!(q.pop_frame(), Some(vec![2, 3]));
    q.pend_print(vec![4]);
    q.remove_pending_frames();
    assert_eq!(q.pending_frames(), 0);
}

#[test]
fn write_steps() {
    assert_eq!(print_all_step(0, 10, Some(4)), WriteProgress::Continue(4));
    assert_eq!(print_all_step(4, 10, Some(6)), WriteProgress::Done);
    assert_eq!(print_all_step(4, 10, None), WriteProgress::Failed);
    assert_eq!(print_all_step(4, 10, Some(0)), WriteProgress::Continue(4));
}

#[test]
fn hyperlinks() {
    assert_eq!(begin_link("http://a;b\\c"), "\x1b]8;;http\\://a\\;b\\\\c\x1b\\");
    assert_eq!(end_link(), "\x1b]8;;\x1b\\");
    assert_eq!(format_link("text", "x:y"), "\x1b]8;;x\\:y\x1b\\text\x1b]8;;\x1b\\");
}

// ===== messages =====

#[test]
fn messages_expire_in_order() {
    let mut m = Messages::new();
    info(&mut m, "one", None, None, 0);
    warning(&mut m, "two", None, None, 3 * S as u128);
    send_message(&mut m, MessageLevel::Fatal, "three", None, None, 4 * S as u128);
    remove_expired_messages(&mut m, 5 * S as u128);
    assert_eq!(m.queue.len(), 2);
    assert_eq!(m.queue[0].msg, "two");
    remove_expired_messages(&mut m, 8 * S as u128);
    assert_eq!(m.queue.len(), 1);
    assert_eq!(m.queue[0].lv, MessageLevel::Fatal);
    debug(&mut m, "d", None, None, 9 * S as u128);
    error(&mut m, "e", None, None, 9 * S as u128);
    assert_eq!(m.queue.len(), 3);
}

#[test]
fn message_levels() {
    assert_eq!(MessageLevel::Info.level_str(), "[Info ]");
    assert_eq!(MessageLevel::Error.level_str(), "[Error]");
    assert_eq!(MessageLevel::Debug.level_color(), Color::new(128, 192, 255));
    assert_eq!(MessageLevel::Fatal.level_color(), Color::new(255, 64, 64));
}

#[test]
fn message_printed_line() {
    let mut m = Messages::new();
    info(&mut m, "hello", None, Some(Color::new(1, 2, 3)), 0);
    let line = message_line(&m.queue[0], "12:00:00");
    assert_eq!(
        line,
        "[\x1b[38;2;64;192;128m12:00:00\x1b[0m] \x1b[48;2;64;192;128m[Info ]\x1b[0m \x1b[38;2;64;192;128m\x1b[48;2;1;2;3mhello\x1b[0m\n"
    );
}

#[test]
fn errors_expire_after_five_seconds() {
    let mut log = ErrorLog::new();
    send_error(&mut log, "a", None, None, 0);
    send_error(&mut log, "b", Some(Color::new(9, 9, 9)), None, 2 * S);
    remove_expired_errors(&mut log, 5 * S - 1);
    assert_eq!(log.errors.len(), 2);
    remove_expired_errors(&mut log, 5 * S);
    assert_eq!(log.errors.len(), 1);
    assert_eq!(error_line(&log.errors[0], "t"), "[t] \x1b[38;2;9;9;9mb\x1b[0m\n");
    send_error(&mut log, "plain", None, None, 6 * S);
    assert_eq!(error_line(&log.errors[1], "u"), "[u] plain\n");
}
