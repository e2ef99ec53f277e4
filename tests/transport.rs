use rustydj::cursor::{renormalize, FRAME_SPAN};
use rustydj::engine::{
    accept_frame, nearest_marker, Chunk, Engine, Frame, Output, PlayerCommand, PlayerStatus, RawFrame,
};
use rustydj::library::{Cue, Track};
use rustydj::playhead::{after_fill, hand_back, must_wait, take_chunk, FillEnd, Held, Playhead};
use rustydj::speed::{
    effective_speed, scratch_bend_paused, scratch_bend_playing, sustained_speed, ONE, SPEED_CAP,
};

fn frames(n: usize) -> Vec<Frame> {
    (0..n)
        .map(|i| Frame {
            left: vec![i as i32; 1152],
            right: vec![-(i as i32); 1152],
            position_ms: 26 * i as u64,
            duration_ms: 26,
            sample_rate: 44100,
        })
        .collect()
}

fn track(cues: &[usize], first_beat: usize) -> Track {
    Track {
        id: 7,
        path: "/music/a.mp3".to_string(),
        info: vec![("Artist".to_string(), "X".to_string())],
        bpm: 120,
        sample_rate: 44100,
        cues: cues
            .iter()
            .enumerate()
            .map(|(i, s)| Cue { name: format!("cue{}", i), start: *s, type_: 0 })
            .collect(),
        first_beat,
    }
}

fn loaded(cues: &[usize], first_beat: usize, n: usize) -> Engine {
    let mut e = Engine::new(44100);
    e.open(track(cues, first_beat), Some(frames(n)));
    e
}

fn audio_chunks(outs: &[Output]) -> Vec<Chunk> {
    outs.iter()
        .filter_map(|o| match o {
            Output::Chunk(c) if c.frame.is_some() => Some(*c),
            _ => None,
        })
        .collect()
}

fn last_speed_status(outs: &[Output]) -> Option<i64> {
    outs.iter()
        .filter_map(|o| match o {
            Output::Status(PlayerStatus::Speed(s)) => Some(*s),
            _ => None,
        })
        .last()
}

/// Walks outputs and reports whether a chunk with audio was sent while
/// another was still with the callback.
fn check_lock_step(in_flight: &mut bool, outs: &[Output]) -> bool {
    for o in outs {
        match o {
            Output::Chunk(c) => {
                if *in_flight {
                    return false;
                }
                *in_flight = c.frame.is_some();
            }
            Output::AwaitConsumed => {
                if !*in_flight {
                    return false;
                }
                *in_flight = false;
            }
            Output::Status(_) => {}
        }
    }
    true
}

#[test]
fn open_track_with_three_cues() {
    let mut e = Engine::new(44100);
    let outs = e.open(track(&[2304, 5000, 9000], 100), Some(frames(20)));
    assert!(e.loaded);
    assert!(!e.playing);
    assert_eq!(e.pos, 2304 * ONE);
    assert_eq!(e.cue_markers, vec![2304 * ONE, 5000 * ONE, 9000 * ONE]);
    assert_eq!(e.hotcues.len(), 3);
    assert_eq!(e.hotcues[&2], 9000 * ONE);
    assert!(audio_chunks(&outs).is_empty());
    match outs.last() {
        Some(Output::Status(PlayerStatus::TrackInfo(Some(t), d, r))) => {
            assert_eq!(t.id, 7);
            assert_eq!(*d, 20 * 26);
            assert_eq!(*r, 44100);
        }
        other => panic!("unexpected {:?}", other),
    }
}

#[test]
fn open_without_cues_starts_at_first_beat() {
    let e = loaded(&[], 3000, 10);
    assert_eq!(e.pos, 3000 * ONE);
    assert!(e.hotcues.is_empty());
}

#[test]
fn open_failure_leaves_previous_track() {
    let mut e = loaded(&[100], 0, 10);
    let before = e.pos;
    let outs = e.open(track(&[], 0), None);
    assert_eq!(outs.len(), 1);
    assert!(matches!(outs[0], Output::Status(PlayerStatus::Print(_))));
    assert_eq!(e.pos, before);
    assert_eq!(e.frames.len(), 10);
    assert!(e.loaded);
}

#[test]
fn open_rejects_frames_of_wrong_length() {
    let mut e = Engine::new(44100);
    let mut fs = frames(3);
    fs[1].left.pop();
    let outs = e.open(track(&[], 0), Some(fs));
    assert!(!e.loaded);
    assert_eq!(outs.len(), 1);
}

#[test]
fn open_derives_resampling_factor() {
    let mut e = Engine::new(48000);
    e.open(track(&[], 0), Some(frames(2)));
    assert_eq!(e.resample, 44100 * ONE / 48000);
}

#[test]
fn open_resumes_play() {
    let mut e = loaded(&[], 0, 10);
    e.handle(PlayerCommand::PlayPause);
    assert!(e.playing && e.true_playing);
    let outs = e.open(track(&[1152 * 3], 0), Some(frames(10)));
    assert!(e.playing && e.true_playing);
    let chunks = audio_chunks(&outs);
    assert_eq!(chunks.len(), 1);
    assert_eq!(chunks[0].frame, Some(3));
    assert_eq!(chunks[0].start, 0);
    // the track is reported before its first chunk
    let info = outs.iter().position(|o| matches!(o, Output::Status(PlayerStatus::TrackInfo(..)))).unwrap();
    let first = outs.iter().position(|o| matches!(o, Output::Chunk(Chunk { frame: Some(_), .. }))).unwrap();
    assert!(info < first);
}

#[test]
fn open_resets_bend_and_cue() {
    let mut e = loaded(&[], 500, 10);
    e.handle(PlayerCommand::Cue(true));
    e.handle(PlayerCommand::Speed(ONE / 2));
    e.handle(PlayerCommand::SpeedDiff(2 * ONE));
    e.handle(PlayerCommand::SpeedDiff(3 * ONE));
    assert_eq!(e.cue_sample, 500 * ONE);
    e.open(track(&[], 0), Some(frames(10)));
    assert_eq!(e.bend, ONE);
    assert_eq!(e.fader, ONE / 2);
    assert_eq!(e.cue_sample, 0);
}

#[test]
fn scratch_then_release_paused() {
    let mut e = loaded(&[], 0, 10);
    let outs = e.handle(PlayerCommand::Scratch(-64));
    assert!(e.playing);
    assert!(!e.true_playing);
    assert_eq!(e.bend, -(68719476736 / 10));
    assert_eq!(audio_chunks(&outs).len(), 1);
    let outs = e.handle(PlayerCommand::Scratch(0));
    assert!(!e.playing);
    assert_eq!(e.bend, ONE);
    assert!(matches!(outs.last(), Some(Output::Chunk(Chunk { frame: None, .. }))));
    assert!(outs.iter().any(|o| matches!(o, Output::AwaitConsumed)));
    assert_eq!(last_speed_status(&outs), Some(ONE));
}

#[test]
fn scratch_zero_paused_after_any_velocity() {
    for v in [-64i64, -1, 1, 17, 64] {
        let mut e = loaded(&[], 0, 10);
        e.handle(PlayerCommand::Scratch(v));
        e.handle(PlayerCommand::Scratch(0));
        assert_eq!(e.bend, ONE);
        assert!(!e.playing);
    }
}

#[test]
fn scratch_in_sustained_play_bends_linearly() {
    let mut e = loaded(&[], 0, 10);
    e.handle(PlayerCommand::PlayPause);
    e.handle(PlayerCommand::Scratch(-64));
    assert_eq!(e.bend, ONE / 2);
    assert!(e.playing);
    e.handle(PlayerCommand::Scratch(32));
    assert_eq!(e.bend, ONE + ONE / 2);
    e.handle(PlayerCommand::Scratch(0));
    assert_eq!(e.bend, ONE);
    assert!(e.playing);
}

#[test]
fn scratch_curve_values() {
    assert_eq!(scratch_bend_playing(-64), ONE / 2);
    assert_eq!(scratch_bend_playing(-32), 3 * ONE / 4);
    assert_eq!(scratch_bend_playing(0), ONE);
    assert_eq!(scratch_bend_playing(64), 2 * ONE);
    assert_eq!(scratch_bend_paused(0), ONE);
    assert_eq!(scratch_bend_paused(64), 6871947673);
    assert_eq!(scratch_bend_paused(32), 6710886);
    assert_eq!(scratch_bend_paused(-32), -6710886);
    // 4^(10/64) / 10 with 16 fractional bits
    assert_eq!(scratch_bend_paused(1), 8138);
}

#[test]
fn speed_composition() {
    assert_eq!(effective_speed(2 * ONE, 3 * ONE / 2, ONE / 2), 3 * ONE / 2);
    assert_eq!(effective_speed(ONE, -ONE, ONE), -ONE);
    assert_eq!(effective_speed(ONE, 1 << 36, 1 << 36), SPEED_CAP);
    assert_eq!(sustained_speed(ONE / 2, 4 * ONE), 2 * ONE);
}

#[test]
fn speed_and_bend_are_independent() {
    let mut e = loaded(&[], 0, 10);
    e.handle(PlayerCommand::PlayPause);
    e.handle(PlayerCommand::SpeedDiff(2 * ONE));
    let outs = e.handle(PlayerCommand::Speed(ONE / 2));
    assert_eq!(e.fader, ONE / 2);
    assert_eq!(e.bend, 2 * ONE);
    assert_eq!(last_speed_status(&outs), Some(ONE));
    e.handle(PlayerCommand::SpeedDiff(3 * ONE));
    assert_eq!(e.fader, ONE / 2);
    assert_eq!(e.bend, 3 * ONE);
}

#[test]
fn speed_diff_previews_when_paused() {
    let mut e = loaded(&[], 0, 10);
    e.handle(PlayerCommand::SpeedDiff(4 * ONE));
    assert!(e.playing && !e.true_playing);
    e.handle(PlayerCommand::SpeedDiff(ONE));
    assert!(!e.playing);
}

#[test]
fn cue_press_twice_keeps_cue() {
    let mut e = loaded(&[], 1000, 10);
    e.handle(PlayerCommand::Cue(true));
    assert_eq!(e.cue_sample, 1000 * ONE);
    assert!(!e.playing);
    e.handle(PlayerCommand::Cue(true));
    assert_eq!(e.cue_sample, 1000 * ONE);
    assert!(e.playing);
    e.handle(PlayerCommand::Cue(false));
    assert!(!e.playing);
    assert_eq!(e.pos, 1000 * ONE);
    e.handle(PlayerCommand::Cue(true));
    assert_eq!(e.cue_sample, 1000 * ONE);
    assert!(e.playing);
}

#[test]
fn cue_release_in_sustained_play_keeps_playing() {
    let mut e = loaded(&[], 0, 10);
    e.handle(PlayerCommand::PlayPause);
    e.handle(PlayerCommand::Seek(500 * ONE));
    e.handle(PlayerCommand::Cue(false));
    assert!(e.playing);
    assert_eq!(e.pos, 500 * ONE);
}

#[test]
fn hot_cue_first_press_captures() {
    let mut e = loaded(&[], 0, 10);
    e.handle(PlayerCommand::Seek(2500 * ONE));
    let outs = e.handle(PlayerCommand::HotCue(4, true));
    assert!(outs.is_empty());
    assert_eq!(e.hotcues[&4], 2500 * ONE);
    assert_eq!(e.pos, 2500 * ONE);
    e.handle(PlayerCommand::HotCue(4, false));
    e.handle(PlayerCommand::Seek(9000 * ONE));
    e.handle(PlayerCommand::HotCue(4, true));
    assert_eq!(e.pos, 2500 * ONE);
    assert!(e.playing);
    e.handle(PlayerCommand::HotCue(4, false));
    assert!(!e.playing);
    assert_eq!(e.pos, 2500 * ONE);
}

#[test]
fn cue_move_finds_nearest() {
    let mut e = loaded(&[5000, 1000, 3000], 2000, 10);
    // hot cue 0 wins over the first beat
    assert_eq!(e.pos, 5000 * ONE);
    e.handle(PlayerCommand::CueMove(false));
    assert_eq!(e.pos, 3000 * ONE);
    e.handle(PlayerCommand::CueMove(false));
    assert_eq!(e.pos, 1000 * ONE);
    let outs = e.handle(PlayerCommand::CueMove(false));
    assert!(outs.is_empty());
    assert_eq!(e.pos, 1000 * ONE);
    e.handle(PlayerCommand::CueMove(true));
    assert_eq!(e.pos, 3000 * ONE);
    assert_eq!(nearest_marker(&vec![10, 20, 30], 20, true), Some(30));
    assert_eq!(nearest_marker(&vec![10, 20, 30], 20, false), Some(10));
    assert_eq!(nearest_marker(&vec![10, 20, 30], 30, true), None);
    assert_eq!(nearest_marker(&vec![], 0, false), None);
}

#[test]
fn seek_clamps_and_reports() {
    let mut e = loaded(&[], 0, 10);
    let outs = e.handle(PlayerCommand::Seek(-5));
    assert_eq!(e.pos, 0);
    assert!(matches!(outs[0], Output::Status(PlayerStatus::Pos(0, 0))));
    e.handle(PlayerCommand::SeekS(1));
    assert_eq!(e.pos, 44100 * ONE);
    let outs = e.handle(PlayerCommand::Seek(1152 * ONE + 441 * ONE));
    // frame 1 starts at 26 ms; 441 samples are 10 ms
    assert!(matches!(outs[0], Output::Status(PlayerStatus::Pos(36, _))));
    let outs = e.handle(PlayerCommand::GetPos);
    assert_eq!(outs.len(), 1);
    assert!(matches!(outs[0], Output::Status(PlayerStatus::Pos(36, p)) if p == 1593 * ONE));
}

#[test]
fn play_pause_needs_a_track() {
    let mut e = Engine::new(44100);
    let outs = e.handle(PlayerCommand::PlayPause);
    assert!(outs.is_empty());
    assert!(!e.playing && !e.true_playing);
}

#[test]
fn end_of_track_stops() {
    let mut e = loaded(&[], 0, 2);
    e.handle(PlayerCommand::Seek(2 * 1152 * ONE - ONE));
    e.handle(PlayerCommand::PlayPause);
    assert!(e.playing);
    let outs = e.on_consumed(FRAME_SPAN + ONE);
    assert!(!e.playing);
    assert!(!e.loaded);
    assert!(matches!(outs.last(), Some(Output::Chunk(Chunk { frame: None, .. }))));
}

#[test]
fn renormalize_keeps_absolute_position() {
    assert_eq!(renormalize(3, -1), (2, FRAME_SPAN - 1));
    assert_eq!(renormalize(0, 2 * FRAME_SPAN + 5), (2, 5));
    assert_eq!(renormalize(5, 0), (5, 0));
    assert_eq!(renormalize(1, -FRAME_SPAN), (0, 0));
    for (i, o) in [(4i64, -3 * FRAME_SPAN - 7), (0, FRAME_SPAN * 9 + 1), (2, -1)] {
        let (ni, no) = renormalize(i, o);
        assert!(0 <= no && no < FRAME_SPAN);
        assert_eq!(ni * FRAME_SPAN + no, i * FRAME_SPAN + o);
    }
}

/// Runs the engine against a simulated callback for `rounds` buffers.
fn simulate(e: &mut Engine, outs: Vec<Output>, rounds: usize, buffer: usize) -> bool {
    let mut in_flight = false;
    if !check_lock_step(&mut in_flight, &outs) {
        return false;
    }
    let mut held = audio_chunks(&outs).last().copied();
    let mut out_l = vec![0i32; buffer];
    let mut out_r = vec![0i32; buffer];
    for _ in 0..rounds {
        let c = match held {
            Some(c) => c,
            None => return true,
        };
        let f = &e.frames[c.frame.unwrap()];
        let mut p = Playhead::new(c.start, c.speed, f.left.len());
        let end = p.fill(&f.left, &f.right, &mut out_l, &mut out_r, 0);
        if let FillEnd::Exhausted(n) = end {
            assert!(n > 0);
        }
        // the callback hands back where it stopped
        if !in_flight {
            return false;
        }
        in_flight = false;
        let next = e.on_consumed(p.offset);
        if !check_lock_step(&mut in_flight, &next) {
            return false;
        }
        held = audio_chunks(&next).last().copied();
    }
    true
}

#[test]
fn lock_step_forward_and_reverse() {
    let mut e = loaded(&[], 0, 8);
    e.handle(PlayerCommand::Seek(3 * FRAME_SPAN));
    let outs = e.handle(PlayerCommand::PlayPause);
    assert!(simulate(&mut e, outs, 20, 256));
    let p = e.pos;
    assert!(p > 3 * FRAME_SPAN);
    let mut e2 = loaded(&[], 0, 8);
    e2.handle(PlayerCommand::Seek(3 * FRAME_SPAN));
    e2.handle(PlayerCommand::Speed(-ONE));
    let outs = e2.handle(PlayerCommand::PlayPause);
    assert!(simulate(&mut e2, outs, 20, 256));
    assert!(e2.pos < 3 * FRAME_SPAN);
    let mut e3 = loaded(&[], 0, 8);
    e3.handle(PlayerCommand::Speed(3 * ONE / 2));
    let outs = e3.handle(PlayerCommand::PlayPause);
    assert!(simulate(&mut e3, outs, 50, 100));
}

#[test]
fn jump_while_in_flight_is_deferred() {
    let mut e = loaded(&[], 0, 8);
    e.handle(PlayerCommand::PlayPause);
    let outs = e.handle(PlayerCommand::Seek(5 * FRAME_SPAN));
    assert!(audio_chunks(&outs).is_empty());
    let next = e.on_consumed(300 * ONE);
    assert_eq!(e.pos, 5 * FRAME_SPAN);
    let chunks = audio_chunks(&next);
    assert_eq!(chunks.len(), 1);
    assert_eq!(chunks[0].frame, Some(5));
}

#[test]
fn playhead_reads_at_speed() {
    let left: Vec<i32> = (0..1152).collect();
    let right: Vec<i32> = (0..1152).map(|x| -x).collect();
    let mut out_l = vec![0; 4];
    let mut out_r = vec![0; 4];
    let mut p = Playhead::new(10 * ONE, 2 * ONE, 1152);
    assert_eq!(p.fill(&left, &right, &mut out_l, &mut out_r, 0), FillEnd::BufferFull);
    assert_eq!(out_l, vec![10, 12, 14, 16]);
    assert_eq!(out_r, vec![-10, -12, -14, -16]);
    assert_eq!(p.offset, 18 * ONE);
    let mut p = Playhead::new(ONE, -ONE, 1152);
    assert_eq!(p.fill(&left, &right, &mut out_l, &mut out_r, 1), FillEnd::Exhausted(3));
    assert_eq!(out_l, vec![10, 1, 0, 16]);
    assert_eq!(p.offset, -ONE);
    let mut p = Playhead::new(1151 * ONE + ONE / 2, ONE / 2, 1152);
    assert_eq!(p.fill(&left, &right, &mut out_l, &mut out_r, 0), FillEnd::Exhausted(1));
    assert_eq!(out_l[0], 1151);
}

#[test]
fn accept_frame_checks_channels() {
    let ok = RawFrame { channels: vec![vec![1; 1152], vec![2; 1152]], position_ms: 5, duration_ms: 26, sample_rate: 48000 };
    let f = accept_frame(ok).unwrap();
    assert_eq!(f.left[0], 1);
    assert_eq!(f.right[0], 2);
    assert_eq!(f.sample_rate, 48000);
    let mono = RawFrame { channels: vec![vec![1; 1152]], position_ms: 0, duration_ms: 26, sample_rate: 48000 };
    assert!(accept_frame(mono).is_none());
    let uneven = RawFrame { channels: vec![vec![1; 1152], vec![2; 1151]], position_ms: 0, duration_ms: 26, sample_rate: 48000 };
    assert!(accept_frame(uneven).is_none());
    let short = RawFrame { channels: vec![vec![3; 576], vec![4; 576]], position_ms: 0, duration_ms: 13, sample_rate: 24000 };
    assert_eq!(accept_frame(short).unwrap().left.len(), 576);
    let three = RawFrame { channels: vec![vec![1; 576], vec![2; 576], vec![3; 576]], position_ms: 0, duration_ms: 13, sample_rate: 24000 };
    assert!(accept_frame(three).is_none());
}

fn short_frames(n: usize) -> Vec<Frame> {
    (0..n)
        .map(|i| Frame {
            left: vec![i as i32; 576],
            right: vec![i as i32; 576],
            position_ms: 24 * i as u64,
            duration_ms: 24,
            sample_rate: 24000,
        })
        .collect()
}

#[test]
fn short_frames_play_through() {
    let mut e = Engine::new(24000);
    e.open(track(&[], 0), Some(short_frames(4)));
    assert!(e.loaded);
    // a seek into the gap after a short frame lands on the next frame
    e.handle(PlayerCommand::Seek(700 * ONE));
    assert_eq!(e.pos, FRAME_SPAN);
    let outs = e.handle(PlayerCommand::PlayPause);
    let c = audio_chunks(&outs)[0];
    assert_eq!(c.frame, Some(1));
    assert_eq!(c.start, 0);
    // the callback runs off the end of the 576-sample frame
    let outs = e.on_consumed(576 * ONE + ONE);
    assert_eq!(e.pos, 2 * FRAME_SPAN);
    assert_eq!(audio_chunks(&outs)[0].frame, Some(2));
    let mut e2 = Engine::new(24000);
    e2.open(track(&[], 0), Some(short_frames(4)));
    let outs = e2.handle(PlayerCommand::PlayPause);
    assert!(simulate(&mut e2, outs, 40, 100));
    assert!(!e2.loaded);
}

#[test]
fn reverse_into_short_frame_lands_on_its_last_sample() {
    let mut e = Engine::new(24000);
    e.open(track(&[], 0), Some(short_frames(4)));
    e.handle(PlayerCommand::Seek(2 * FRAME_SPAN));
    e.handle(PlayerCommand::Speed(-ONE));
    e.handle(PlayerCommand::PlayPause);
    e.on_consumed(-ONE);
    assert_eq!(e.pos, FRAME_SPAN + 576 * ONE - 1);
    assert!(e.playing);
}

#[test]
fn callback_steps() {
    assert_eq!(take_chunk(0, 0, ONE), Held::Silent);
    assert_eq!(take_chunk(576, 576 * ONE, ONE), Held::Silent);
    match take_chunk(576, 5 * ONE, -ONE) {
        Held::Playing(p) => {
            assert_eq!(p.offset, 5 * ONE);
            assert_eq!(hand_back(Held::Playing(p)), (Held::Awaiting, Some(5 * ONE)));
        }
        other => panic!("unexpected {:?}", other),
    }
    assert_eq!(hand_back(Held::Silent), (Held::Silent, None));
    let p = Playhead::new(ONE, ONE, 1152);
    assert_eq!(after_fill(p, FillEnd::BufferFull, 64), (Held::Playing(p), None, 64));
    assert_eq!(after_fill(p, FillEnd::Exhausted(7), 64), (Held::Awaiting, Some(ONE), 7));
    assert!(must_wait(Held::Awaiting));
    assert!(!must_wait(Held::Silent));
    assert!(!must_wait(Held::Playing(p)));
    assert_eq!(hand_back(Held::Awaiting), (Held::Awaiting, None));
}

#[test]
fn stop_waits_then_silences() {
    let mut e = loaded(&[], 0, 10);
    e.handle(PlayerCommand::PlayPause);
    let outs = e.handle(PlayerCommand::PlayPause);
    assert_eq!(outs.len(), 2);
    assert!(matches!(outs[0], Output::AwaitConsumed));
    assert!(matches!(outs[1], Output::Chunk(Chunk { frame: None, .. })));
    // every chunk with audio comes with the speed
    let outs = e.handle(PlayerCommand::PlayPause);
    assert!(matches!(outs[0], Output::Chunk(Chunk { frame: Some(0), .. })));
    assert!(matches!(outs[1], Output::Status(PlayerStatus::Speed(s)) if s == ONE));
}

#[test]
fn open_during_preview_does_not_resume() {
    let mut e = loaded(&[], 0, 10);
    e.handle(PlayerCommand::SpeedDiff(2 * ONE));
    assert!(e.playing && !e.true_playing);
    let outs = e.open(track(&[], 0), Some(frames(10)));
    assert!(!e.playing);
    assert!(audio_chunks(&outs).is_empty());
    assert!(outs.iter().any(|o| matches!(o, Output::AwaitConsumed)));
}
