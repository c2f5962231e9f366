use thmp5::audio::decode::{
    decode_next_step, prime_step, reset_message, track_duration_ms, unsupported_codec,
    DecodeAction, DecodeEvent, DecoderStep,
};
use thmp5::audio::engine::{
    clamp_volume, open_failure, report_open_failure, AudioCommand, AudioEngineHandle, EngineAction,
    SharedState,
};
use thmp5::audio::output::{AudioCallbackCtx, CallbackEvent, TrackBuffer};
use thmp5::audio::resample::StreamResampler;
use thmp5::audio::{
    should_inhibit_for_status, status_from_u8, PlayRequest, MAX_BUFFER_FRAMES,
    PLAYER_POSITION_EVENT, PREBUFFER_FRAMES, STATUS_LOADING, STATUS_PAUSED, STATUS_PLAYING,
    STATUS_STOPPED,
};
use thmp5::file_issues::{FileIssueKind, FileIssueLog};
use thmp5::models::{PlaybackStatus, PlayerState};

fn request() -> PlayRequest {
    PlayRequest {
        recording_id: "r".into(),
        source_id: "s".into(),
        file_path: "/a.mp3".into(),
        title: Some("T".into()),
        artist: None,
        normalization_gain_bits: 0.5f32.to_bits(),
        normalization_source: "ReplayGain".into(),
    }
}

#[test]
fn test_audio_callback_ctx_normalization_defaults() {
    let ctx = AudioCallbackCtx::new(44100, 2);
    assert_eq!(f32::from_bits(ctx.normalization_gain_bits), 1.0);
    assert!(!ctx.normalization_enabled);
}

#[test]
fn test_shared_state_normalization_source_default() {
    let state = SharedState::new();
    assert_eq!(state.normalization_source, "None");
}

#[test]
fn test_shared_state_clear_track_resets_normalization_source() {
    let mut state = SharedState::new();
    state.normalization_source = "ReplayGain".into();

    let mut ctx = AudioCallbackCtx::new(44100, 2);

    state.clear_track(&mut ctx);
    assert_eq!(state.normalization_source, "None");
}

#[test]
fn test_player_state_default_normalization_fields() {
    let state = PlayerState::default();
    assert!(!state.normalization_enabled);
    assert_eq!(f32::from_bits(state.normalization_gain_bits), 1.0);
    assert_eq!(state.normalization_source, "");
}

#[test]
fn status_codes() {
    assert_eq!(status_from_u8(STATUS_LOADING), PlaybackStatus::Loading);
    assert_eq!(status_from_u8(STATUS_PLAYING), PlaybackStatus::Playing);
    assert_eq!(status_from_u8(STATUS_PAUSED), PlaybackStatus::Paused);
    assert_eq!(status_from_u8(STATUS_STOPPED), PlaybackStatus::Stopped);
    assert_eq!(status_from_u8(99), PlaybackStatus::Stopped);
    assert!(should_inhibit_for_status(&PlaybackStatus::Loading));
    assert!(should_inhibit_for_status(&PlaybackStatus::Playing));
    assert!(!should_inhibit_for_status(&PlaybackStatus::Paused));
    assert!(!should_inhibit_for_status(&PlaybackStatus::Stopped));
    assert_eq!(PLAYER_POSITION_EVENT, "player-position");
}

#[test]
fn volumes_are_clamped() {
    let clamp = |x: f32| f32::from_bits(clamp_volume(x.to_bits()));
    for x in [0.0, 0.25, 1.0, 1.5, 2.0, -1.0, -0.5, f32::INFINITY, f32::NEG_INFINITY, 1e-40] {
        assert_eq!(clamp(x), x.clamp(0.0, 1.5));
    }
    assert!(clamp(f32::NAN).is_nan());
}

#[test]
fn a_track_is_played_paused_and_stopped() {
    let mut player = AudioEngineHandle::new(1000, 2);
    assert!(player.seek(5).is_err());
    match player.play(request()) {
        EngineAction::Open(r, 0) => player.start_playback(r, 400, 90_000),
        _ => panic!("a track is opened from its start"),
    }
    let s = player.snapshot();
    assert_eq!(s.status, PlaybackStatus::Loading);
    assert_eq!(s.recording_id.as_deref(), Some("r"));
    assert_eq!(s.duration_ms, Some(90_000));
    assert_eq!(s.position_ms, 400);
    assert_eq!(f32::from_bits(s.normalization_gain_bits), 0.5);
    assert_eq!(s.normalization_source, "ReplayGain");
    assert_eq!(player.ctx.last_position_emit_ms, 150);
    player.pause();
    assert_eq!(player.snapshot().status, PlaybackStatus::Paused);
    player.resume();
    assert_eq!(player.snapshot().status, PlaybackStatus::Loading);
    match player.seek(7000) {
        Ok(EngineAction::Open(r, 7000)) => assert_eq!(r.file_path, "/a.mp3"),
        _ => panic!("seeking opens the track again"),
    }
    player.set_volume(0.75f32.to_bits());
    player.set_normalization_enabled(true);
    assert!(matches!(player.stop(), EngineAction::DropTrack));
    let s = player.snapshot();
    assert_eq!(s.status, PlaybackStatus::Stopped);
    assert_eq!((s.recording_id, s.duration_ms, s.position_ms), (None, None, 0));
    assert_eq!(f32::from_bits(s.volume_bits), 0.75);
    assert!(s.normalization_enabled);
    assert_eq!(s.normalization_source, "None");
    // Without a track there is nothing to go on with.
    player.resume();
    assert_eq!(player.snapshot().status, PlaybackStatus::Stopped);
    assert_eq!(
        player.handle_command(AudioCommand::Seek(1)).err().as_deref(),
        Some("No active track to seek")
    );
}

#[test]
fn errors_of_the_engine_are_kept() {
    let mut player = AudioEngineHandle::new(48_000, 2);
    assert_eq!(player.unavailable_message(), "Audio engine is unavailable");
    player.set_engine_error("no device".into());
    assert_eq!(player.unavailable_message(), "no device");
    player.use_device(44_100, 6);
    assert_eq!(player.unavailable_message(), "Audio engine is unavailable");
    assert_eq!((player.ctx.output_sample_rate, player.ctx.output_channels), (44_100, 6));
    let mut log = FileIssueLog::new();
    report_open_failure(&mut log, "/a.mp3");
    assert_eq!(log.all()[0].kind, FileIssueKind::PlaybackError);
    assert_eq!(log.all()[0].message, open_failure("/a.mp3"));
}

#[test]
fn a_short_track_plays_to_its_end() {
    let mut player = AudioEngineHandle::new(1000, 2);
    player.start_playback(request(), 0, 4);
    let mut track = TrackBuffer::new();
    track.finish(&vec![1, 2, 3, 4]);
    // The first frame starts playing, the next two sound, the fourth ends it all.
    let (slots, events) = player.ctx.write_output_data(&mut track, 12);
    assert_eq!(
        slots,
        vec![None, None, Some(1), Some(2), Some(3), Some(4), None, None]
    );
    assert_eq!(events.len(), 2);
    match &events[0] {
        CallbackEvent::State(s) => {
            assert_eq!(s.status, PlaybackStatus::Playing);
            assert_eq!(s.recording_id.as_deref(), Some("r"));
        }
        _ => panic!("playing starts"),
    }
    match &events[1] {
        CallbackEvent::Ended(e) => {
            assert_eq!((e.recording_id.as_str(), e.source_id.as_str()), ("r", "s"));
            assert_eq!(e.position_ms, 2);
        }
        _ => panic!("the track ends"),
    }
    assert!(track.stop_requested);
    assert_eq!(player.ctx.status, STATUS_STOPPED);
    let s = player.track_ended();
    assert_eq!((s.status, s.position_ms), (PlaybackStatus::Stopped, 0));
    // Nothing is left: silence.
    let (slots, events) = player.ctx.write_output_data(&mut track, 3);
    assert_eq!(slots, vec![None, None, None]);
    assert!(events.is_empty());
}

#[test]
fn a_late_decoder_makes_the_track_load_again() {
    let mut ctx = AudioCallbackCtx::new(1000, 1);
    ctx.has_track = true;
    ctx.status = STATUS_PLAYING;
    let mut track = TrackBuffer::new();
    let (slots, events) = ctx.write_output_data(&mut track, 1);
    assert_eq!(slots, vec![None]);
    assert!(matches!(&events[0], CallbackEvent::State(s) if s.status == PlaybackStatus::Loading));
    assert_eq!(ctx.status, STATUS_LOADING);
    // Enough frames: it plays.
    assert!(track.accept(&vec![9; PREBUFFER_FRAMES]));
    let (slots, _) = ctx.write_output_data(&mut track, 2);
    assert_eq!(slots, vec![None, Some(9)]);
}

#[test]
fn a_paused_track_stays_where_it_is() {
    let mut ctx = AudioCallbackCtx::new(1000, 2);
    ctx.has_track = true;
    ctx.status = STATUS_PAUSED;
    let mut track = TrackBuffer::new();
    track.finish(&vec![1, 2]);
    let (slots, events) = ctx.write_output_data(&mut track, 5);
    assert_eq!(slots, vec![None; 5]);
    assert!(events.is_empty());
    assert_eq!(track.samples.len(), 2);
    assert_eq!(ctx.output_frame_position, 0);
}

#[test]
fn the_position_is_told_once_per_run() {
    let mut ctx = AudioCallbackCtx::new(1000, 1);
    ctx.has_track = true;
    ctx.status = STATUS_PLAYING;
    let mut track = TrackBuffer::new();
    track.finish(&vec![5; 1000]);
    let (_, events) = ctx.write_output_data(&mut track, 600);
    assert_eq!(events.len(), 1);
    assert!(matches!(events[0], CallbackEvent::Position(250)));
    let (_, events) = ctx.write_output_data(&mut track, 100);
    assert!(matches!(events[0], CallbackEvent::Position(601)));
    assert_eq!(ctx.position_ms(), 700);
}

#[test]
fn the_decoder_waits_and_stops() {
    let mut track = TrackBuffer::new();
    assert_eq!(track.decoder_step(2), DecoderStep::Decode);
    assert!(track.accept(&vec![0; 2 * MAX_BUFFER_FRAMES]));
    assert_eq!(track.buffered_frames(2), MAX_BUFFER_FRAMES);
    assert_eq!(track.buffered_frames(0), 0);
    assert_eq!(track.decoder_step(2), DecoderStep::Wait);
    track.request_stop();
    assert_eq!(track.decoder_step(2), DecoderStep::Stop);
    assert!(!track.accept(&vec![1]));
    assert!(track.accept(&vec![]));
    assert_eq!(track.samples.len(), 2 * MAX_BUFFER_FRAMES);
    let mut failed = TrackBuffer::new();
    failed.fail();
    assert!(failed.finished);
}

#[test]
fn packets_are_dealt_with() {
    assert_eq!(decode_next_step(DecodeEvent::Decoded), DecodeAction::Deliver);
    assert_eq!(decode_next_step(DecodeEvent::DamagedPacket), DecodeAction::Skip);
    assert_eq!(decode_next_step(DecodeEvent::OtherTrack), DecodeAction::Skip);
    assert_eq!(decode_next_step(DecodeEvent::EndOfFile), DecodeAction::End);
    assert_eq!(decode_next_step(DecodeEvent::EndInPacket), DecodeAction::End);
    assert_eq!(decode_next_step(DecodeEvent::ResetRequired), DecodeAction::FailReset);
    assert_eq!(decode_next_step(DecodeEvent::ReadFailed), DecodeAction::Fail);
    assert_eq!(decode_next_step(DecodeEvent::DecodeFailed), DecodeAction::Fail);
    assert_eq!(prime_step(DecodeEvent::EndOfFile), DecodeAction::Fail);
    assert_eq!(prime_step(DecodeEvent::Decoded), DecodeAction::Deliver);
    assert_eq!(reset_message(), "Decoder reset required during playback");
    assert_eq!(track_duration_ms(Some(44_100), Some(44_100)), 1000);
    assert_eq!(track_duration_ms(Some(44_100), Some(0)), 0);
    assert_eq!(track_duration_ms(None, Some(44_100)), 0);
    assert_eq!(unsupported_codec("Vorbis", false), "Unsupported audio codec: Vorbis");
    assert!(unsupported_codec("Opus", true).starts_with("Opus codec not supported"));
}

#[test]
fn equal_rates_pass_samples_on() {
    let mut r = StreamResampler::new(44_100, 2, 44_100, 2, 0);
    assert_eq!(r.push(&vec![1, 2, 3, 4]), vec![1, 2, 3, 4]);
    assert_eq!(r.push(&vec![5, 6]), vec![5, 6]);
    assert!(r.finish().is_empty());
}

#[test]
fn rates_and_channels_are_changed() {
    // Twice the rate: every frame twice. One channel: both are the same.
    let mut up = StreamResampler::new(24_000, 1, 48_000, 2, 0);
    assert_eq!(up.push(&vec![1, 2]), vec![1, 1, 1, 1, 2, 2, 2, 2]);
    // Half the rate: every other frame. A missing channel is the last one.
    let mut down = StreamResampler::new(48_000, 2, 24_000, 3, 0);
    assert_eq!(
        down.push(&vec![1, 2, 3, 4, 5, 6, 7, 8]),
        vec![1, 2, 2, 5, 6, 6]
    );
}

#[test]
fn pieces_of_a_stream_do_not_matter() {
    let samples: Vec<u32> = (0..300).collect();
    let mut whole = StreamResampler::new(32_000, 2, 44_100, 2, 0);
    let expected = whole.push(&samples);
    let mut pieces = StreamResampler::new(32_000, 2, 44_100, 2, 0);
    let mut found = Vec::new();
    for piece in samples.chunks(14) {
        found.extend(pieces.push(&piece.to_vec()));
    }
    found.extend(pieces.finish());
    assert_eq!(found, expected);
}

#[test]
fn a_stream_can_start_later() {
    let mut r = StreamResampler::new(1000, 1, 1000, 1, 5);
    assert_eq!(r.required_source_frame(), 5);
    assert_eq!(r.push(&vec![7, 8]), vec![7, 8]);
    // A frame that lies before what came is silent.
    let mut late = StreamResampler::new(48_000, 1, 44_100, 1, 1);
    assert_eq!(late.required_source_frame(), 47);
    assert_eq!(late.push(&vec![3])[0], 0);
}
