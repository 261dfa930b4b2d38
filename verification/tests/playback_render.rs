use fomu::audio::player::{
    render, render_slot, slot_sample, AudioPlayer, BUFFER_SIZE, CHANNELS, INITIAL_VOLUME,
    RING_BUFFER_SIZE, SAMPLE_RATE, VOLUME_STEP,
};
use fomu::channel::SampleChannel;
use fomu::sample::{clamp_unit, SILENCE, UNITY};

#[test]
fn operating_parameters() {
    assert_eq!(RING_BUFFER_SIZE, 44100);
    assert_eq!(SAMPLE_RATE, 44100);
    assert_eq!(CHANNELS, 2);
    assert_eq!(BUFFER_SIZE, 512);
    assert_eq!(INITIAL_VOLUME, 0.8f32.to_bits());
    assert_eq!(VOLUME_STEP, 0.05f32.to_bits());
}

fn bits(values: &[f32]) -> Vec<u32> {
    values.iter().map(|v| v.to_bits()).collect()
}

#[test]
fn every_sample_is_multiplied_by_the_volume() {
    let (mut producer, mut consumer) = SampleChannel::new(16).split();
    let samples = [0.5f32, -0.25, 1.0, -1.0, 0.0, 0.333, 1.0e-40, -0.75];
    assert_eq!(producer.write(&bits(&samples)), 8);
    let volume = 0.8f32;
    let mut output = [0u32; 10];
    render(&mut consumer, false, volume.to_bits(), &mut output);
    for (i, sample) in samples.iter().enumerate() {
        assert_eq!(output[i], (sample * volume).to_bits(), "slot {}", i);
    }
    assert_eq!(output[8], SILENCE);
    assert_eq!(output[9], SILENCE);
    assert_eq!(output[0], 0.4f32.to_bits());
    assert_eq!(output[3], (-0.8f32).to_bits());
}

#[test]
fn full_volume_passes_samples_on_and_no_volume_silences_them() {
    let (mut producer, mut consumer) = SampleChannel::new(16).split();
    let samples = bits(&[0.5, -0.25, 0.125, 0.9]);
    assert_eq!(producer.write(&samples), 4);
    let mut output = [7u32; 2];
    render(&mut consumer, false, UNITY, &mut output);
    assert_eq!(output, [samples[0], samples[1]]);
    render(&mut consumer, false, SILENCE, &mut output);
    assert_eq!(output, [SILENCE, SILENCE]);
}

#[test]
fn a_paused_render_is_silent_and_leaves_the_channel_alone() {
    let (mut producer, mut consumer) = SampleChannel::new(8).split();
    assert_eq!(producer.write(&[11, 12, 13]), 3);
    let mut output = [77u32; 6];
    render(&mut consumer, true, UNITY, &mut output);
    assert_eq!(output, [SILENCE; 6]);
    assert_eq!(producer.write(&[14, 15, 16, 17, 18, 19]), 5);
    render(&mut consumer, true, UNITY, &mut output);
    assert_eq!(output, [SILENCE; 6]);
    assert_eq!(producer.write(&[20]), 0);
    let mut rest = [0u32; 9];
    render(&mut consumer, false, UNITY, &mut rest);
    assert_eq!(rest, [11, 12, 13, 14, 15, 16, 17, 18, SILENCE]);
}

#[test]
fn render_hands_out_the_samples_in_order_and_silence_on_underrun() {
    let (mut producer, mut consumer) = SampleChannel::new(8).split();
    assert_eq!(producer.write(&[1, 2, 3, 4, 5]), 5);
    let mut output = [9u32; 3];
    render(&mut consumer, false, UNITY, &mut output);
    assert_eq!(output, [1, 2, 3]);
    let mut output = [9u32; 4];
    render(&mut consumer, false, UNITY, &mut output);
    assert_eq!(output, [4, 5, SILENCE, SILENCE]);
    let mut nothing: [u32; 0] = [];
    render(&mut consumer, false, UNITY, &mut nothing);
}

#[test]
fn one_slot_at_a_time() {
    let (mut producer, mut consumer) = SampleChannel::new(2).split();
    assert_eq!(producer.write(&[5]), 1);
    assert_eq!(render_slot(&mut consumer, true, UNITY), SILENCE);
    assert_eq!(render_slot(&mut consumer, false, UNITY), 5);
    assert_eq!(render_slot(&mut consumer, false, UNITY), SILENCE);
    assert_eq!(slot_sample(Some(3), UNITY), 3);
    assert_eq!(slot_sample(None, UNITY), SILENCE);
    assert_eq!(slot_sample(Some(0.5f32.to_bits()), 0.5f32.to_bits()), 0.25f32.to_bits());
}

#[test]
fn volume_is_clamped_to_the_range_from_zero_to_one() {
    let mut player = AudioPlayer::new();
    assert_eq!(player.volume(), 0.8f32.to_bits());
    player.set_volume(1.5f32.to_bits());
    assert_eq!(player.volume(), 1.0f32.to_bits());
    player.set_volume((-0.25f32).to_bits());
    assert_eq!(player.volume(), 0.0f32.to_bits());
    player.set_volume(0.35f32.to_bits());
    assert_eq!(player.volume(), 0.35f32.to_bits());
    player.set_volume(f32::INFINITY.to_bits());
    assert_eq!(player.volume(), UNITY);
    player.set_volume(f32::NEG_INFINITY.to_bits());
    assert_eq!(player.volume(), SILENCE);
}

#[test]
fn clamp_agrees_with_the_clamp_of_floats() {
    let picks = [
        0.0f32,
        -0.0,
        1.0,
        -1.0,
        0.5,
        1.0000001,
        0.99999994,
        -1.0e-45,
        1.0e-45,
        3.4e38,
        -3.4e38,
        f32::INFINITY,
        f32::NEG_INFINITY,
    ];
    for v in picks {
        assert_eq!(clamp_unit(v.to_bits()), v.clamp(0.0, 1.0).to_bits(), "v = {}", v);
    }
    // A NaN is no number from zero to one: it becomes zero.
    assert_eq!(clamp_unit(f32::NAN.to_bits()), SILENCE);
    assert_eq!(clamp_unit(0xFFC0_0001), SILENCE);
    assert_eq!(clamp_unit(0x7F80_0001), SILENCE);
    let mut b: u64 = 0;
    while b <= u32::MAX as u64 {
        let v = f32::from_bits(b as u32);
        if !v.is_nan() {
            assert_eq!(clamp_unit(b as u32), v.clamp(0.0, 1.0).to_bits(), "bits = {:#x}", b);
        } else {
            assert_eq!(clamp_unit(b as u32), SILENCE);
        }
        b += 65_521;
    }
}

#[test]
fn pause_toggles_and_a_new_track_ends_it() {
    let mut player = AudioPlayer::new();
    assert!(!player.is_paused());
    assert!(player.is_playing());
    assert!(player.toggle_pause());
    assert!(player.is_paused());
    assert!(!player.is_playing());
    assert!(!player.toggle_pause());
    assert!(player.toggle_pause());
    player.set_volume(0.25f32.to_bits());
    let (mut producer, mut consumer) = player.init_buffer();
    assert!(!player.is_paused());
    assert_eq!(player.volume(), 0.25f32.to_bits());
    assert_eq!(consumer.try_read_one(), None);
    let block = vec![1u32; RING_BUFFER_SIZE + 10];
    assert_eq!(producer.write(&block), RING_BUFFER_SIZE);
}

#[test]
fn volume_steps_up_to_one_and_down_to_zero() {
    let mut player = AudioPlayer::new();
    let mut expected = 0.8f32;
    for _ in 0..6 {
        expected = (expected + 0.05).min(1.0);
        assert_eq!(player.volume_up(), expected.to_bits());
        assert_eq!(player.volume(), expected.clamp(0.0, 1.0).to_bits());
    }
    assert_eq!(player.volume(), UNITY);
    for _ in 0..25 {
        expected = (expected - 0.05).max(0.0);
        assert_eq!(player.volume_down(), expected.to_bits());
        assert_eq!(player.volume(), expected.clamp(0.0, 1.0).to_bits());
    }
    assert_eq!(player.volume(), SILENCE);
    player.set_volume(0.8f32.to_bits());
    assert_eq!(player.volume_up(), 0x3F59_999A);
    assert_eq!(player.volume_down(), 0x3F4C_CCCD);
}

#[test]
fn the_volume_is_from_zero_to_one_whatever_is_set() {
    let mut player = AudioPlayer::new();
    let in_range = |bits: u32| {
        let v = f32::from_bits(bits);
        0.0 <= v && v <= 1.0
    };
    assert!(in_range(player.volume()));
    let mut state: u64 = 0x6A09_E667_F3BC_C908;
    for round in 0..20_000 {
        state ^= state << 13;
        state ^= state >> 7;
        state ^= state << 17;
        match round % 5 {
            0 => {
                player.volume_up();
            }
            1 => {
                player.volume_down();
            }
            2 => player.set_volume(f32::NAN.to_bits() | (state as u32 & 0x803F_FFFF)),
            _ => player.set_volume(state as u32),
        }
        assert!(in_range(player.volume()), "round {}: {:#x}", round, player.volume());
    }
    player.set_volume(f32::NAN.to_bits());
    assert_eq!(player.volume(), SILENCE);
    assert_eq!(player.volume_up(), 0.05f32.to_bits());
    // At such a volume a slot of a channel that has run dry is silent.
    let (_producer, mut consumer) = player.init_buffer();
    let mut output = [1u32; 4];
    render(&mut consumer, false, player.volume(), &mut output);
    assert_eq!(output, [SILENCE; 4]);
}

#[test]
fn a_new_track_takes_back_the_mark_of_the_finished_session() {
    let mut player = AudioPlayer::new();
    assert!(!player.is_finished());
    player.mark_finished();
    assert!(player.is_finished());
    player.set_volume(0.5f32.to_bits());
    assert!(player.toggle_pause());
    assert!(player.is_finished());
    let _ends = player.init_buffer();
    assert!(!player.is_finished());
    assert!(!player.is_paused());
    assert_eq!(player.volume(), 0.5f32.to_bits());
    player.mark_finished();
    player.mark_finished();
    assert!(player.is_finished());
}
