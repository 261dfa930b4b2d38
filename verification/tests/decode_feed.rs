use fomu::audio::decoder::{
    interleave_stereo, push_samples_to_buffer, select_track, to_stereo_samples, AudioDecoder,
    DecodeOutcome, DecodeSession, DecodeStep, DecodedAudio, DecoderError, FeedAction,
    FinishedFlag, PacketFeed,
    PacketOutcome, SessionState, StopWait, TrackInfo, stop_step, BACKOFF_MILLIS,
    STOP_POLL_MILLIS, STOP_TIMEOUT_MILLIS,
};
use fomu::channel::SampleChannel;

fn bits(values: &[f32]) -> Vec<u32> {
    values.iter().map(|v| v.to_bits()).collect()
}

#[test]
fn mono_float_packet_gives_each_sample_twice() {
    let decoded = DecodedAudio::F32(vec![bits(&[0.25, -0.5, 1.0])]);
    let out = to_stereo_samples(&decoded);
    assert_eq!(out, bits(&[0.25, 0.25, -0.5, -0.5, 1.0, 1.0]));
}

#[test]
fn mono_integer_packets_give_identical_left_and_right() {
    let s16 = to_stereo_samples(&DecodedAudio::S16(vec![vec![-32768, -1, 0, 1, 32767]]));
    let s32 = to_stereo_samples(&DecodedAudio::S32(vec![vec![i32::MIN, -7, 0, 7, i32::MAX]]));
    let u8s = to_stereo_samples(&DecodedAudio::U8(vec![vec![0, 127, 128, 129, 255]]));
    for out in [s16, s32, u8s] {
        assert_eq!(out.len(), 10);
        for frame in 0..5 {
            assert_eq!(out[2 * frame], out[2 * frame + 1]);
        }
    }
}

#[test]
fn stereo_packet_is_interleaved_left_first() {
    let decoded = DecodedAudio::S16(vec![vec![16384, -16384], vec![8192, 0]]);
    let out = to_stereo_samples(&decoded);
    assert_eq!(out, bits(&[0.5, 0.25, -0.5, 0.0]));
}

#[test]
fn channels_beyond_the_second_are_dropped() {
    let decoded = DecodedAudio::U8(vec![vec![128, 192], vec![64, 0], vec![1, 2], vec![3, 4]]);
    let out = to_stereo_samples(&decoded);
    assert_eq!(out, bits(&[0.0, -0.5, 0.5, -1.0]));
}

#[test]
fn unsupported_encoding_and_no_channel_give_no_samples() {
    assert!(to_stereo_samples(&DecodedAudio::Unsupported).is_empty());
    assert!(to_stereo_samples(&DecodedAudio::F32(Vec::new())).is_empty());
    let none: Vec<Vec<i16>> = Vec::new();
    assert!(interleave_stereo(&none).is_empty());
}

#[test]
fn planes_of_unequal_length_give_the_frames_they_share() {
    let out = interleave_stereo(&vec![vec![1u32, 2, 3], vec![7u32, 8]]);
    assert_eq!(out, vec![1, 7, 2, 8]);
}

#[test]
fn feed_steps_continue_back_off_and_finish() {
    let (mut producer, mut consumer) = SampleChannel::new(4).split();
    let mut feed = PacketFeed::new(vec![1, 2, 3, 4, 5, 6]);
    assert_eq!(feed.remaining(), 6);
    assert_eq!(feed.step(&mut producer, false), FeedAction::Continue);
    assert_eq!(feed.remaining(), 2);
    assert_eq!(feed.step(&mut producer, false), FeedAction::Backoff);
    assert_eq!(feed.remaining(), 2);
    assert_eq!(consumer.try_read_one(), Some(1));
    assert_eq!(feed.step(&mut producer, false), FeedAction::Continue);
    assert_eq!(feed.remaining(), 1);
    assert_eq!(consumer.try_read_one(), Some(2));
    assert_eq!(feed.step(&mut producer, false), FeedAction::Done);
    assert_eq!(feed.remaining(), 0);
    assert_eq!(feed.step(&mut producer, true), FeedAction::Done);
    for expected in [3, 4, 5, 6] {
        assert_eq!(consumer.try_read_one(), Some(expected));
    }
    assert_eq!(consumer.try_read_one(), None);
}

#[test]
fn a_stop_ends_a_feed_that_is_blocked_on_a_full_channel() {
    let (mut producer, mut consumer) = SampleChannel::new(2).split();
    let mut feed = PacketFeed::new(vec![1, 2, 3]);
    assert_eq!(feed.step(&mut producer, false), FeedAction::Continue);
    assert_eq!(feed.step(&mut producer, false), FeedAction::Backoff);
    assert_eq!(feed.step(&mut producer, true), FeedAction::Stopped);
    assert_eq!(feed.remaining(), 1);
    assert_eq!(consumer.try_read_one(), Some(1));
    assert_eq!(consumer.try_read_one(), Some(2));
    assert_eq!(consumer.try_read_one(), None);
}

#[test]
fn an_empty_feed_is_done_at_once() {
    let (mut producer, _consumer) = SampleChannel::new(2).split();
    let mut feed = PacketFeed::from_decoded(&DecodedAudio::Unsupported);
    assert_eq!(feed.step(&mut producer, false), FeedAction::Done);
}

#[test]
fn the_analysis_channel_is_offered_the_packet_once_and_drops_what_does_not_fit() {
    let (mut playback, mut playback_out) = SampleChannel::new(2).split();
    let (analysis_in, mut analysis_out) = SampleChannel::new(3).split();
    let mut analysis = Some(analysis_in);
    let mut feed = PacketFeed::new(vec![1, 2, 3, 4]);
    let first = push_samples_to_buffer(&mut feed, &mut playback, false, &mut analysis);
    assert_eq!(first, (FeedAction::Continue, 0));
    assert_eq!(analysis_out.try_read_one(), None);
    assert_eq!(playback_out.try_read_one(), Some(1));
    assert_eq!(playback_out.try_read_one(), Some(2));
    let second = push_samples_to_buffer(&mut feed, &mut playback, false, &mut analysis);
    assert_eq!(second, (FeedAction::Done, 3));
    assert_eq!(analysis_out.try_read_one(), Some(1));
    assert_eq!(analysis_out.try_read_one(), Some(2));
    assert_eq!(analysis_out.try_read_one(), Some(3));
    assert_eq!(analysis_out.try_read_one(), None);
}

#[test]
fn a_stopped_feed_still_offers_the_packet_to_analysis() {
    let (mut playback, _playback_out) = SampleChannel::new(1).split();
    let (analysis_in, mut analysis_out) = SampleChannel::new(8).split();
    let mut analysis = Some(analysis_in);
    let mut feed = PacketFeed::new(vec![9, 8, 7]);
    let r = push_samples_to_buffer(&mut feed, &mut playback, true, &mut analysis);
    assert_eq!(r, (FeedAction::Stopped, 3));
    assert_eq!(analysis_out.try_read_one(), Some(9));
    let mut none = None;
    let mut feed = PacketFeed::new(vec![5]);
    let r = push_samples_to_buffer(&mut feed, &mut playback, false, &mut none);
    assert_eq!(r, (FeedAction::Done, 0));
}

#[test]
fn a_stop_waits_half_a_second_at_most() {
    assert_eq!(stop_step(true, 0), StopWait::Join);
    assert_eq!(stop_step(true, 9999), StopWait::Join);
    assert_eq!(stop_step(false, 0), StopWait::Poll);
    assert_eq!(stop_step(false, 500), StopWait::Poll);
    assert_eq!(stop_step(false, 501), StopWait::Detach);
    assert_eq!(stop_step(false, u64::MAX), StopWait::Detach);
}

#[test]
fn backoff_and_stop_times() {
    assert_eq!(BACKOFF_MILLIS, 5);
    assert_eq!(STOP_TIMEOUT_MILLIS, 500);
    assert_eq!(STOP_POLL_MILLIS, 10);
}

fn track(id: u32, playable: bool, sample_rate: Option<u32>) -> TrackInfo {
    TrackInfo { id, playable, sample_rate }
}

#[test]
fn the_first_track_with_a_codec_is_selected() {
    let tracks = vec![track(7, false, None), track(3, true, Some(48000)), track(4, true, None)];
    assert_eq!(select_track(&tracks), Some(1));
    assert_eq!(select_track(&vec![track(1, false, None)]), None);
    assert_eq!(select_track(&Vec::new()), None);
}

#[test]
fn a_session_follows_the_selected_track() {
    let mut flag = FinishedFlag::new();
    let tracks = vec![track(7, false, None), track(3, true, Some(48000))];
    let session = match DecodeSession::open(Some(&tracks), 44100, &mut flag) {
        Ok(session) => session,
        Err(_) => panic!("a playable track was offered"),
    };
    assert!(!flag.is_set());
    assert_eq!(session.track_id(), 3);
    assert_eq!(session.sample_rate(), 48000);
    let tracks = vec![track(9, true, None)];
    let session = match DecodeSession::open(Some(&tracks), 44100, &mut flag) {
        Ok(session) => session,
        Err(_) => panic!("a playable track was offered"),
    };
    assert_eq!(session.sample_rate(), 44100);
    assert_eq!(session.at_loop_top(false, &mut flag), DecodeStep::ReadPacket);
    let own = PacketOutcome::Packet { track_id: 9 };
    let other = PacketOutcome::Packet { track_id: 8 };
    assert_eq!(session.after_read(own, &mut flag), DecodeStep::Decode);
    assert_eq!(session.after_read(other, &mut flag), DecodeStep::ReadPacket);
    assert_eq!(session.after_decode(DecodeOutcome::Decoded, &mut flag), DecodeStep::Push);
    assert_eq!(session.after_decode(DecodeOutcome::Malformed, &mut flag), DecodeStep::ReadPacket);
    assert!(!flag.is_set());
}

fn open_session() -> DecodeSession {
    let mut flag = FinishedFlag::new();
    match DecodeSession::open(Some(&vec![track(9, true, None)]), 44100, &mut flag) {
        Ok(session) => session,
        Err(_) => panic!("a playable track was offered"),
    }
}

#[test]
fn every_end_of_the_loop_marks_the_session_finished() {
    let session = open_session();
    let mut flag = FinishedFlag::new();
    assert_eq!(session.at_loop_top(true, &mut flag), DecodeStep::Finish);
    assert!(flag.is_set());
    let mut flag = FinishedFlag::new();
    assert_eq!(session.after_read(PacketOutcome::EndOfStream, &mut flag), DecodeStep::Finish);
    assert!(flag.is_set());
    let mut flag = FinishedFlag::new();
    assert_eq!(session.after_read(PacketOutcome::Failed, &mut flag), DecodeStep::Finish);
    assert!(flag.is_set());
    let mut flag = FinishedFlag::new();
    assert_eq!(session.after_decode(DecodeOutcome::Failed, &mut flag), DecodeStep::Finish);
    assert!(flag.is_set());
    // A finished session takes no step but the last.
    assert_eq!(session.at_loop_top(false, &mut flag), DecodeStep::Finish);
    let own = PacketOutcome::Packet { track_id: 9 };
    assert_eq!(session.after_read(own, &mut flag), DecodeStep::Finish);
    assert_eq!(session.after_decode(DecodeOutcome::Decoded, &mut flag), DecodeStep::Finish);
    assert!(flag.is_set());
    let mut flag = FinishedFlag::new();
    assert!(!flag.is_set());
    flag.set();
    assert!(flag.is_set());
}

#[test]
fn a_source_without_tracks_or_without_a_codec_is_refused() {
    let mut flag = FinishedFlag::new();
    assert!(matches!(
        DecodeSession::open(None, 44100, &mut flag),
        Err(DecoderError::SourceError)
    ));
    assert!(flag.is_set());
    let mut flag = FinishedFlag::new();
    let tracks = vec![track(1, false, Some(44100))];
    assert!(matches!(
        DecodeSession::open(Some(&tracks), 44100, &mut flag),
        Err(DecoderError::NoAudioTrack)
    ));
    assert!(flag.is_set());
}

#[test]
fn only_one_worker_at_a_time() {
    let mut decoder = AudioDecoder::new();
    assert_eq!(decoder.state(), SessionState::Idle);
    assert!(!decoder.is_running(false));
    assert_eq!(decoder.stop(false, 0), StopWait::NoWorker);
    assert!(decoder.start());
    assert_eq!(decoder.state(), SessionState::Running);
    assert!(decoder.is_running(false));
    assert!(!decoder.is_running(true));
    assert!(!decoder.start());
    assert_eq!(decoder.state(), SessionState::Running);
}

#[test]
fn a_stop_joins_a_worker_that_ends_and_lets_go_of_one_that_does_not() {
    let mut decoder = AudioDecoder::new();
    assert!(decoder.start());
    assert_eq!(decoder.stop(false, 0), StopWait::Poll);
    assert_eq!(decoder.state(), SessionState::StopRequested);
    assert!(!decoder.start());
    assert_eq!(decoder.stop(false, 10), StopWait::Poll);
    assert_eq!(decoder.stop(true, 20), StopWait::Join);
    assert_eq!(decoder.state(), SessionState::Idle);
    assert!(decoder.start());
    let mut waited = 0;
    let mut steps = 0;
    loop {
        steps += 1;
        match decoder.stop(false, waited) {
            StopWait::Poll => waited += STOP_POLL_MILLIS,
            other => {
                assert_eq!(other, StopWait::Detach);
                break;
            }
        }
    }
    assert_eq!(steps, 52);
    assert_eq!(waited, 510);
    assert_eq!(decoder.state(), SessionState::Idle);
    assert!(decoder.start());
    assert_eq!(decoder.stop(false, 500), StopWait::Poll);
    assert_eq!(decoder.stop(false, 501), StopWait::Detach);
}
