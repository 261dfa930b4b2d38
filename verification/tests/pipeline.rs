use fomu::audio::analyzer::{AnalysisStep, AudioAnalyzer, FFT_SIZE, USEFUL_BINS};
use fomu::audio::decoder::{
    push_samples_to_buffer, AudioDecoder, DecodedAudio, FeedAction, PacketFeed, SessionState,
    StopWait,
};
use fomu::audio::player::{render, AudioPlayer, RING_BUFFER_SIZE, SAMPLE_RATE};
use rustfft::num_complex::Complex;
use rustfft::FftPlanner;

const FRAMES_PER_PACKET: usize = 1152;
const FRAMES_PER_BLOCK: usize = 512;

fn tone_sample(frame: usize) -> i16 {
    let phase = 2.0 * std::f64::consts::PI * 440.0 * frame as f64 / SAMPLE_RATE as f64;
    (0.3 * 32767.0 * phase.sin()) as i16
}

fn spectrum(input: &[u32]) -> Vec<u32> {
    let mut buffer: Vec<Complex<f32>> = input
        .iter()
        .enumerate()
        .map(|(i, s)| {
            let phase = 2.0 * std::f32::consts::PI * i as f32 / (FFT_SIZE - 1) as f32;
            Complex::new(f32::from_bits(*s) * (0.5 * (1.0 - phase.cos())), 0.0)
        })
        .collect();
    FftPlanner::new().plan_fft_forward(FFT_SIZE).process(&mut buffer);
    buffer[..USEFUL_BINS].iter().map(|c| c.norm().to_bits()).collect()
}

/// Plays one second of a mono tone of three seconds and says whether the decoder came to the
/// end of it, what loudness is shown, and how many samples were played.
fn play_one_second_of_three() -> (bool, u32, usize) {
    let total_frames = 3 * SAMPLE_RATE as usize;
    let mut player = AudioPlayer::new();
    let volume = player.volume();
    let (mut playback, mut consumer) = player.init_buffer();
    let mut analyzer = AudioAnalyzer::new();
    let mut analysis = Some(analyzer.create_buffer());
    let mut decoder = AudioDecoder::new();
    assert!(decoder.start());

    let mut next_frame = 0;
    let mut feed: Option<PacketFeed> = None;
    let mut finished = false;
    let mut played = 0;
    let mut since_update = 0;
    while played < 2 * SAMPLE_RATE as usize {
        // The decoder runs until the playback channel holds it back.
        while !finished {
            if feed.is_none() {
                if next_frame >= total_frames {
                    finished = true;
                    break;
                }
                let frames = FRAMES_PER_PACKET.min(total_frames - next_frame);
                let plane: Vec<i16> = (next_frame..next_frame + frames).map(tone_sample).collect();
                next_frame += frames;
                feed = Some(PacketFeed::from_decoded(&DecodedAudio::S16(vec![plane])));
            }
            let packet = feed.as_mut().unwrap();
            let (action, _) = push_samples_to_buffer(packet, &mut playback, false, &mut analysis);
            match action {
                FeedAction::Continue => {}
                FeedAction::Backoff => break,
                FeedAction::Done => feed = None,
                FeedAction::Stopped => panic!("no stop was requested"),
            }
        }
        // The device asks for a block.
        let mut output = [0u32; 2 * FRAMES_PER_BLOCK];
        render(&mut consumer, player.is_paused(), volume, &mut output);
        for (slot, sample) in output.iter().enumerate() {
            let frame = (played + slot) / 2;
            let expected = tone_sample(frame) as f32 / 32768.0 * f32::from_bits(volume);
            assert_eq!(*sample, expected.to_bits(), "sample {}", played + slot);
        }
        played += output.len();
        // The levels are brought up to date fifteen times a second.
        since_update += FRAMES_PER_BLOCK;
        if since_update >= SAMPLE_RATE as usize / 15 {
            since_update = 0;
            if let AnalysisStep::Transform(window) = analyzer.update() {
                analyzer.process_fft(&spectrum(&window));
            }
        }
    }
    // The listener stops the track.
    if let Some(packet) = feed.as_mut() {
        let (action, _) = push_samples_to_buffer(packet, &mut playback, true, &mut analysis);
        assert_eq!(action, FeedAction::Stopped);
    }
    assert_eq!(decoder.stop(true, 0), StopWait::Join);
    assert_eq!(decoder.state(), SessionState::Idle);
    // The decoder never ran further ahead than the channel let it.
    assert!(2 * next_frame <= played + RING_BUFFER_SIZE + 2 * FRAMES_PER_PACKET);
    (finished, analyzer.rms(), played)
}

#[test]
fn a_track_stopped_after_a_second_has_not_finished_and_shows_its_loudness() {
    let (finished, loudness, played) = play_one_second_of_three();
    assert!(!finished);
    assert!(played >= 2 * SAMPLE_RATE as usize);
    let shown = f32::from_bits(loudness);
    assert!(0.0 < shown && shown < 1.0, "loudness {}", shown);
    // A tone of the amplitude 0.3 has the loudness 0.21; three times that is shown.
    assert!(0.4 < shown && shown < 0.7, "loudness {}", shown);
    let (again_finished, again_loudness, again_played) = play_one_second_of_three();
    assert_eq!((finished, loudness, played), (again_finished, again_loudness, again_played));
}

#[test]
fn a_pause_holds_the_decoder_back() {
    let mut player = AudioPlayer::new();
    let (mut playback, mut consumer) = player.init_buffer();
    assert!(player.toggle_pause());
    let mut none = None;
    let mut feed = PacketFeed::new(vec![0x3F00_0000; 3 * RING_BUFFER_SIZE]);
    let mut output = vec![1u32; 4096];
    for _ in 0..50 {
        let (action, _) = push_samples_to_buffer(&mut feed, &mut playback, false, &mut none);
        assert!(action == FeedAction::Continue || action == FeedAction::Backoff);
        render(&mut consumer, player.is_paused(), player.volume(), &mut output);
        assert!(output.iter().all(|s| *s == 0));
    }
    assert_eq!(feed.remaining(), 2 * RING_BUFFER_SIZE);
    assert!(!player.toggle_pause());
    render(&mut consumer, player.is_paused(), player.volume(), &mut output);
    assert!(output.iter().all(|s| *s == (0.5f32 * 0.8f32).to_bits()));
    let (action, _) = push_samples_to_buffer(&mut feed, &mut playback, false, &mut none);
    assert_eq!(action, FeedAction::Continue);
    assert_eq!(feed.remaining(), 2 * RING_BUFFER_SIZE - 4096);
}
