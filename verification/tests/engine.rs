use std::collections::VecDeque;

use transcribe::engine::{
    fill_silence, EngineState, FeedStep, StretchOp, CHUNK_SIZE, POSITION_UPDATE_INTERVAL,
};
use transcribe::types::{AudioCommand, AudioData, AudioEvent};

fn zeros(frames: usize, rate: u32, channels: u16) -> AudioData {
    AudioData {
        samples: vec![0; frames * channels as usize],
        sample_rate: rate,
        channels,
    }
}

fn ramp(frames: usize, rate: u32) -> AudioData {
    AudioData {
        samples: (0..frames as i32).collect(),
        sample_rate: rate,
        channels: 1,
    }
}

fn engine_with(audio: AudioData) -> EngineState {
    let mut e = EngineState::new(48000);
    e.handle_command(AudioCommand::LoadAudio(audio));
    e
}

#[test]
fn new_engine_is_at_rest() {
    let e = EngineState::new(48000);
    assert!(e.audio.is_none());
    assert_eq!(e.position, 0);
    assert!(!e.playing);
    assert_eq!(e.tempo_permille, 1000);
    assert!(e.loop_region.is_none());
    assert_eq!(e.output_sample_rate, 48000);
    assert_eq!(e.frames_since_update, 0);
}

#[test]
fn load_audio_resets_state_and_reconfigures() {
    let mut e = EngineState::new(48000);
    e.handle_command(AudioCommand::SetTempo(500));
    e.handle_command(AudioCommand::LoadAudio(zeros(1000, 44100, 2)));
    e.handle_command(AudioCommand::Play);
    e.handle_command(AudioCommand::Seek(10));
    e.handle_command(AudioCommand::SetLoopRegion(Some((0, 20))));
    let (events, ops) = e.handle_command(AudioCommand::LoadAudio(zeros(500, 22050, 1)));
    assert!(events.is_empty());
    assert_eq!(ops, vec![StretchOp::Reconfigure {
        sample_rate: 22050,
        channels: 1,
        tempo_permille: 500,
    }]);
    assert_eq!(e.position, 0);
    assert!(!e.playing);
    assert!(e.loop_region.is_none());
    assert_eq!(e.tempo_permille, 500);
}

#[test]
fn play_without_audio_is_a_no_op() {
    let mut e = EngineState::new(48000);
    let (events, ops) = e.handle_command(AudioCommand::Play);
    assert!(events.is_empty());
    assert!(ops.is_empty());
    assert!(!e.playing);
}

#[test]
fn play_and_pause_toggle_playing() {
    let mut e = engine_with(zeros(1000, 44100, 1));
    e.handle_command(AudioCommand::Play);
    assert!(e.playing);
    e.handle_command(AudioCommand::Pause);
    assert!(!e.playing);
    // Pause keeps the position.
    e.handle_command(AudioCommand::Seek(10));
    let pos = e.position;
    e.handle_command(AudioCommand::Pause);
    assert_eq!(e.position, pos);
}

#[test]
fn stop_twice_is_idempotent() {
    // Law scenario: both stops leave position 0 and playing false and
    // report position zero.
    let mut e = engine_with(zeros(5000, 1000, 1));
    e.handle_command(AudioCommand::Play);
    e.handle_command(AudioCommand::Seek(1500));
    let (events1, ops1) = e.handle_command(AudioCommand::Stop);
    assert_eq!(e.position, 0);
    assert!(!e.playing);
    assert_eq!(events1, vec![AudioEvent::PositionChanged(0)]);
    assert_eq!(ops1, vec![StretchOp::Clear]);
    let (events2, ops2) = e.handle_command(AudioCommand::Stop);
    assert_eq!(e.position, 0);
    assert!(!e.playing);
    assert_eq!(events2, vec![AudioEvent::PositionChanged(0)]);
    assert_eq!(ops2, vec![StretchOp::Clear]);
}

#[test]
fn seek_reports_the_landed_frame() {
    // 1000 Hz: milliseconds and frames coincide, so the report is exact.
    let mut e = engine_with(zeros(5000, 1000, 1));
    let (events, ops) = e.handle_command(AudioCommand::Seek(1500));
    assert_eq!(e.position, 1500);
    assert_eq!(events, vec![AudioEvent::PositionChanged(1500)]);
    assert_eq!(ops, vec![StretchOp::Clear]);
}

#[test]
fn seek_quantizes_to_the_frame_below() {
    // 44100 Hz: 1234 ms lands on floor(1234 * 44100 / 1000) = 54419.
    let mut e = engine_with(zeros(441000, 44100, 2));
    let (events, _) = e.handle_command(AudioCommand::Seek(1234));
    assert_eq!(e.position, 54419);
    assert_eq!(events, vec![AudioEvent::PositionChanged(54419)]);
}

#[test]
fn seek_clamps_to_the_end() {
    let mut e = engine_with(zeros(5000, 1000, 1));
    let (events, _) = e.handle_command(AudioCommand::Seek(99999));
    assert_eq!(e.position, 5000);
    assert_eq!(events, vec![AudioEvent::PositionChanged(5000)]);
}

#[test]
fn seek_without_audio_does_nothing() {
    let mut e = EngineState::new(48000);
    let (events, ops) = e.handle_command(AudioCommand::Seek(100));
    assert!(events.is_empty());
    assert!(ops.is_empty());
    assert_eq!(e.position, 0);
}

#[test]
fn set_loop_region_without_audio_is_ignored() {
    let mut e = EngineState::new(48000);
    let (events, ops) = e.handle_command(AudioCommand::SetLoopRegion(Some((0, 1000))));
    assert!(events.is_empty());
    assert!(ops.is_empty());
    assert_eq!(e.loop_region, None);
}

#[test]
fn shutdown_changes_nothing() {
    let mut e = engine_with(zeros(1000, 44100, 1));
    e.handle_command(AudioCommand::Play);
    let (events, ops) = e.handle_command(AudioCommand::Shutdown);
    assert!(events.is_empty());
    assert!(ops.is_empty());
    assert!(e.playing);
}

#[test]
fn set_tempo_stores_and_forwards() {
    let mut e = engine_with(zeros(1000, 44100, 1));
    let (events, ops) = e.handle_command(AudioCommand::SetTempo(250));
    assert!(events.is_empty());
    assert_eq!(ops, vec![StretchOp::SetTempo(250)]);
    assert_eq!(e.tempo_permille, 250);
}

#[test]
fn set_loop_region_converts_and_clamps() {
    let mut e = engine_with(zeros(5000, 1000, 1));
    e.handle_command(AudioCommand::SetLoopRegion(Some((1000, 2000))));
    assert_eq!(e.loop_region, Some((1000, 2000)));
    // End past the audio clamps to its length.
    e.handle_command(AudioCommand::SetLoopRegion(Some((1000, 99999))));
    assert_eq!(e.loop_region, Some((1000, 5000)));
    // A region that is empty after conversion disables looping.
    e.handle_command(AudioCommand::SetLoopRegion(Some((1000, 1000))));
    assert_eq!(e.loop_region, None);
    e.handle_command(AudioCommand::SetLoopRegion(Some((1000, 2000))));
    e.handle_command(AudioCommand::SetLoopRegion(None));
    assert_eq!(e.loop_region, None);
}

#[test]
fn next_feed_hands_out_whole_chunks_then_finishes() {
    let mut e = engine_with(ramp(5000, 1000));
    e.handle_command(AudioCommand::Play);
    let mut starts = Vec::new();
    loop {
        match e.next_feed() {
            FeedStep::Feed { start, frames } => {
                assert!(frames >= 1 && frames <= CHUNK_SIZE);
                assert_eq!(e.position, start + frames);
                starts.push((start, frames));
            }
            FeedStep::Wrapped => panic!("no loop region is set"),
            FeedStep::Finished => break,
        }
    }
    assert_eq!(starts, vec![(0, 1024), (1024, 1024), (2048, 1024), (3072, 1024), (4096, 904)]);
    assert!(!e.playing);
    assert_eq!(e.position, 5000);
}

#[test]
fn loop_region_confines_the_position() {
    // Law scenario: with a loop of 1.0 s .. 2.0 s at 44100 Hz the
    // position never passes frame 88200 and wraps to frame 44100.
    let mut e = engine_with(zeros(220500, 44100, 1));
    e.handle_command(AudioCommand::SetLoopRegion(Some((1000, 2000))));
    assert_eq!(e.loop_region, Some((44100, 88200)));
    e.handle_command(AudioCommand::Play);
    let mut wraps = 0;
    for _ in 0..500 {
        match e.next_feed() {
            FeedStep::Feed { start, frames } => {
                assert!(start + frames <= 88200);
            }
            FeedStep::Wrapped => {
                assert_eq!(e.position, 44100);
                wraps += 1;
            }
            FeedStep::Finished => panic!("looping playback never finishes"),
        }
        assert!(e.position <= 88200);
    }
    assert!(wraps >= 2);
}

#[test]
fn seek_past_loop_end_wraps_before_feeding() {
    let mut e = engine_with(zeros(220500, 44100, 1));
    e.handle_command(AudioCommand::SetLoopRegion(Some((1000, 2000))));
    e.handle_command(AudioCommand::Seek(4000));
    assert_eq!(e.position, 176400);
    e.handle_command(AudioCommand::Play);
    assert_eq!(e.next_feed(), FeedStep::Wrapped);
    assert_eq!(e.position, 44100);
}

#[test]
fn write_received_remaps_channels_cyclically() {
    // Stereo source into a 3-channel output: the third channel repeats
    // the left one.
    let mut e = engine_with(zeros(1000, 44100, 2));
    let mut out = vec![9; 6];
    let recv = vec![11, 22, 33, 44];
    let ev = e.write_received(&mut out, 0, 3, &recv, 2);
    assert_eq!(out, vec![11, 22, 11, 33, 44, 33]);
    assert!(ev.is_none());
    assert_eq!(e.frames_since_update, 2);
}

#[test]
fn write_received_leaves_the_rest_of_the_output_alone() {
    let mut e = engine_with(zeros(1000, 44100, 1));
    let mut out = vec![7; 6];
    let recv = vec![5, 6];
    e.write_received(&mut out, 2, 1, &recv, 2);
    assert_eq!(out, vec![7, 7, 5, 6, 7, 7]);
}

#[test]
fn position_events_are_throttled() {
    let mut e = engine_with(zeros(100000, 44100, 1));
    e.handle_command(AudioCommand::Seek(100));
    let pos = e.position;
    let mut out = vec![0; POSITION_UPDATE_INTERVAL];
    let recv = vec![0; POSITION_UPDATE_INTERVAL];
    // One frame short of the interval: no event yet.
    let ev = e.write_received(&mut out, 0, 1, &recv, POSITION_UPDATE_INTERVAL - 1);
    assert!(ev.is_none());
    assert_eq!(e.frames_since_update, POSITION_UPDATE_INTERVAL - 1);
    // The next frame crosses it: one event, counter reset.
    let ev = e.write_received(&mut out, 0, 1, &recv, 1);
    assert_eq!(ev, Some(AudioEvent::PositionChanged(pos)));
    assert_eq!(e.frames_since_update, 0);
}

#[test]
fn fill_silence_zeroes_the_tail_only() {
    let mut out = vec![3; 5];
    fill_silence(&mut out, 2);
    assert_eq!(out, vec![3, 3, 0, 0, 0]);
}

/// Drive one hardware-callback's worth of output through the engine the
/// way the host does, with a pass-through stretch adapter.
fn fill_buffer(
    e: &mut EngineState,
    audio: &AudioData,
    pending: &mut VecDeque<i32>,
    out: &mut Vec<i32>,
    out_channels: u16,
    events: &mut Vec<AudioEvent>,
) {
    let och = out_channels as usize;
    let out_frames = out.len() / och;
    if !e.wants_audio() {
        fill_silence(out, 0);
        return;
    }
    let in_ch = audio.channels as usize;
    let mut out_pos = 0;
    while out_pos < out_frames {
        let need = out_frames - out_pos;
        let take = (need * in_ch).min(pending.len()) / in_ch * in_ch;
        if take > 0 {
            let recv: Vec<i32> = pending.drain(..take).collect();
            let got = take / in_ch;
            if let Some(ev) = e.write_received(out, out_pos, out_channels, &recv, got) {
                events.push(ev);
            }
            out_pos += got;
            continue;
        }
        match e.next_feed() {
            FeedStep::Feed { start, frames } => {
                pending.extend(
                    audio.samples[start * in_ch..(start + frames) * in_ch].iter().copied(),
                );
            }
            FeedStep::Wrapped => {
                pending.clear();
            }
            FeedStep::Finished => {
                events.push(AudioEvent::PlaybackFinished);
                fill_silence(out, out_pos * och);
                return;
            }
        }
    }
}

#[test]
fn playback_finishes_exactly_once_then_silence() {
    // Law scenario: a 5-second buffer played past its end emits exactly
    // one PlaybackFinished and every later buffer is all silence.
    let audio = AudioData {
        samples: vec![1000; 5000],
        sample_rate: 1000,
        channels: 1,
    };
    let mut e = engine_with(audio.clone());
    e.handle_command(AudioCommand::Play);
    let mut pending: VecDeque<i32> = VecDeque::new();
    let mut events = Vec::new();
    let mut requested = 0usize;
    let mut buffers = Vec::new();
    while requested <= 7000 {
        let mut out = vec![-1; 512];
        fill_buffer(&mut e, &audio, &mut pending, &mut out, 1, &mut events);
        requested += 512;
        buffers.push(out);
    }
    let finished: Vec<&AudioEvent> =
        events.iter().filter(|ev| **ev == AudioEvent::PlaybackFinished).collect();
    assert_eq!(finished.len(), 1);
    assert!(!e.playing);
    // Everything requested after the finish is silence.
    let mut seen_finish = false;
    for buf in &buffers {
        if seen_finish {
            assert!(buf.iter().all(|s| *s == 0));
        }
        if buf.iter().any(|s| *s == 0) {
            seen_finish = true;
        }
    }
    // And one more fill after the fact stays silent.
    let mut out = vec![-1; 512];
    fill_buffer(&mut e, &audio, &mut pending, &mut out, 1, &mut events);
    assert!(out.iter().all(|s| *s == 0));
}

#[test]
fn sustained_loop_playback_stays_inside_the_region() {
    // Law scenario: loop 1.0 s .. 2.0 s on a 5-second, 44100 Hz buffer;
    // the position never passes 2.0 * 44100 and wraps to 1.0 * 44100.
    let audio = zeros(220500, 44100, 1);
    let mut e = engine_with(audio.clone());
    e.handle_command(AudioCommand::SetLoopRegion(Some((1000, 2000))));
    e.handle_command(AudioCommand::Play);
    let mut pending: VecDeque<i32> = VecDeque::new();
    let mut events = Vec::new();
    for _ in 0..300 {
        let mut out = vec![0; 1024];
        fill_buffer(&mut e, &audio, &mut pending, &mut out, 1, &mut events);
        assert!(e.position <= 88200);
        assert!(e.playing);
    }
    assert!(events.iter().all(|ev| *ev != AudioEvent::PlaybackFinished));
}
