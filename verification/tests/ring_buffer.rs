use talkkeeper_audio::mixer::{mixing_window_samples, AudioMixerRingBuffer, SourceTimeline};
use talkkeeper_audio::recording_state::DeviceType;

const MILLI: u64 = 1_000_000;

/// Capture callbacks arrive a few milliseconds early or late; the stream must come out of
/// the buffer exactly as it went in.
#[test]
fn arrival_jitter_does_not_cut_into_the_stream() {
    let sample_rate = 48_000u32;
    let mut buffer = AudioMixerRingBuffer::new(sample_rate, true, false, 0.0f32);

    let block = sample_rate as usize / 100;
    let blocks = 200;
    let mut sent: Vec<f32> = Vec::new();
    let mut received: Vec<f32> = Vec::new();
    let mut clock: i64 = 0;

    for index in 0..blocks {
        let samples: Vec<f32> = (0..block).map(|i| (index * block + i) as f32).collect();
        sent.extend_from_slice(&samples);
        clock += 10_000_000;
        let jitter = ((index % 9) as i64 - 4) * 1_000_000;
        buffer.add_samples(DeviceType::Microphone, samples, (clock + jitter) as u64);
        while let Some((mic, _)) = buffer.extract_window() {
            received.extend_from_slice(&mic);
        }
    }
    while let Some((mic, _)) = buffer.extract_remaining() {
        received.extend_from_slice(&mic);
    }

    assert_eq!(received.len(), sent.len());
    assert_eq!(received, sent, "the samples came back re-cut");
}

fn run_blocks(
    buffer: &mut AudioMixerRingBuffer<f32>,
    sample_rate: u32,
    clock: &mut u64,
    blocks: usize,
    late_by: u64,
) -> Vec<f32> {
    let block = sample_rate as usize / 100;
    let mut received = Vec::new();
    for index in 0..blocks {
        *clock += 10 * MILLI;
        let arrival = *clock + if index == 0 { late_by } else { 0 };
        buffer.add_samples(DeviceType::Microphone, vec![1.0; block], arrival);
        while let Some((mic, _)) = buffer.extract_window() {
            received.extend_from_slice(&mic);
        }
    }
    received
}

fn silent(samples: &[f32]) -> usize {
    samples.iter().filter(|value| **value == 0.0).count()
}

#[test]
fn a_stall_in_the_middle_is_left_alone() {
    let sample_rate = 48_000u32;
    let mut buffer = AudioMixerRingBuffer::new(sample_rate, true, false, 0.0f32);
    let mut clock = 0;

    let mut received = run_blocks(&mut buffer, sample_rate, &mut clock, 1, 0);
    clock += 400 * MILLI;
    received.extend(run_blocks(&mut buffer, sample_rate, &mut clock, 300, 0));

    assert_eq!(silent(&received), 0);
}

#[test]
fn a_break_of_seconds_resets_the_timelines() {
    let sample_rate = 48_000u32;
    let mut buffer = AudioMixerRingBuffer::new(sample_rate, true, false, 0.0f32);
    let mut clock = 0;

    let mut received = run_blocks(&mut buffer, sample_rate, &mut clock, 200, 0);
    clock += 6_000 * MILLI;
    received.extend(run_blocks(&mut buffer, sample_rate, &mut clock, 300, 0));

    assert_eq!(buffer.timeline_resets, 1, "the break should have reset once");
    assert_eq!(silent(&received), 0, "a reset picks the stream up, it does not pad it");
    assert!(received.len() >= sample_rate as usize * 4);
}

#[test]
fn a_late_arrival_is_not_mistaken_for_a_gap() {
    let sample_rate = 48_000u32;
    let mut buffer = AudioMixerRingBuffer::new(sample_rate, true, false, 0.0f32);
    let mut clock = 0;

    let mut received = run_blocks(&mut buffer, sample_rate, &mut clock, 150, 0);
    received.extend(run_blocks(&mut buffer, sample_rate, &mut clock, 1, 250 * MILLI));
    received.extend(run_blocks(&mut buffer, sample_rate, &mut clock, 300, 0));

    assert_eq!(silent(&received), 0);
}

#[test]
fn a_handler_held_up_for_seconds_is_not_mistaken_for_a_gap() {
    let sample_rate = 48_000u32;
    let mut buffer = AudioMixerRingBuffer::new(sample_rate, true, false, 0.0f32);
    let mut clock = 0;

    let mut received = run_blocks(&mut buffer, sample_rate, &mut clock, 200, 0);
    for _ in 0..2 {
        for _ in 0..250 {
            received.extend(run_blocks(&mut buffer, sample_rate, &mut clock, 1, 120 * MILLI));
        }
        received.extend(run_blocks(&mut buffer, sample_rate, &mut clock, 200, 0));
    }

    assert_eq!(silent(&received), 0);
}

#[test]
fn aligns_late_source_to_recording_clock() {
    let mut ring = AudioMixerRingBuffer::with_window_ms(10, true, true, 600, 0.0f32);
    ring.add_samples(DeviceType::Microphone, vec![1.0; 6], 600 * MILLI);
    ring.add_samples(DeviceType::System, vec![2.0; 6], 1_000 * MILLI);

    let (mic, system) = ring.extract_window().unwrap();
    assert_eq!(mic, vec![1.0; 6]);
    assert_eq!(system, vec![0.0, 0.0, 0.0, 0.0, 2.0, 2.0]);
}

#[test]
fn falls_back_when_requested_source_did_not_start() {
    let mut ring = AudioMixerRingBuffer::with_window_ms(10, true, true, 600, 0.0f32);
    ring.add_samples(DeviceType::Microphone, vec![1.0; 6], 600 * MILLI);
    assert!(!ring.can_mix());

    ring.set_enabled(true, false);
    let (mic, system) = ring.extract_window().unwrap();
    assert_eq!(mic, vec![1.0; 6]);
    assert_eq!(system, vec![0.0; 6]);
}

#[test]
fn tail_tracks_keep_equal_lengths() {
    let mut ring = AudioMixerRingBuffer::with_window_ms(10, true, true, 600, 0.0f32);
    ring.add_samples(DeviceType::Microphone, vec![1.0; 4], 400 * MILLI);
    ring.add_samples(DeviceType::System, vec![2.0; 2], 200 * MILLI);

    let (mic, system) = ring.extract_remaining().unwrap();
    assert_eq!(mic.len(), system.len());
    assert_eq!(mic.len(), 4);
}

#[test]
fn long_clock_gap_resets_without_allocating_silence() {
    let mut ring = AudioMixerRingBuffer::with_window_ms(10, true, true, 600, 0.0f32);
    ring.add_samples(DeviceType::Microphone, vec![1.0; 2], 200 * MILLI);
    ring.add_samples(DeviceType::System, vec![2.0; 2], 200 * MILLI);

    let mut clock = 60_200 * MILLI;
    for _ in 0..12 {
        ring.add_samples(DeviceType::Microphone, vec![3.0; 2], clock);
        clock += 200 * MILLI;
    }

    assert_eq!(ring.timeline_resets, 1);
    assert!(ring.system_buffer.is_empty());
    assert!(ring.mic_inserted_samples < 10);
}

#[test]
fn production_window_is_fifty_milliseconds() {
    let ring = AudioMixerRingBuffer::new(48_000, true, true, 0.0f32);
    assert_eq!(ring.window_size_samples, 2_400);
    assert_eq!(ring.max_buffer_size, 48_000);
    assert_eq!(mixing_window_samples(48_000), 2_400);
    assert_eq!(mixing_window_samples(0), 1);
}

#[test]
fn production_window_aligns_split_callbacks_without_padding() {
    let mut ring = AudioMixerRingBuffer::new(48_000, true, true, 0.0f32);
    ring.add_samples(DeviceType::Microphone, vec![1.0; 2_400], 50 * MILLI);
    ring.add_samples(DeviceType::System, vec![2.0; 1_200], 25 * MILLI);
    assert!(!ring.can_mix());

    ring.add_samples(DeviceType::System, vec![2.0; 1_200], 50 * MILLI);
    let (mic, system) = ring.extract_window().unwrap();
    assert_eq!(mic, vec![1.0; 2_400]);
    assert_eq!(system, vec![2.0; 2_400]);
}

#[test]
fn a_mixed_block_is_not_a_source() {
    let mut ring = AudioMixerRingBuffer::with_window_ms(10, true, true, 600, 0.0f32);
    assert_eq!(ring.add_samples(DeviceType::Mixed, vec![1.0; 6], 600 * MILLI), None);
    assert!(ring.mic_buffer.is_empty());
    assert!(ring.extract_remaining().is_none());
}

#[test]
fn the_buffer_keeps_the_newest_samples_when_it_overflows() {
    let mut ring = AudioMixerRingBuffer::with_window_ms(10, true, true, 100, 0u8);
    // A window is one sample, so twenty are kept.
    assert_eq!(ring.max_buffer_size, 20);
    let samples: Vec<u8> = (0..25).collect();
    ring.add_samples(DeviceType::Microphone, samples, 2_500 * MILLI);
    assert_eq!(ring.dropped_samples, 5);
    let kept: Vec<u8> = ring.mic_buffer.iter().copied().collect();
    assert_eq!(kept, (5..25).collect::<Vec<u8>>());
}

#[test]
fn a_half_empty_window_is_padded_and_counted() {
    let mut ring = AudioMixerRingBuffer::with_window_ms(10, true, true, 200, 0u8);
    ring.add_samples(DeviceType::Microphone, vec![7; 24], 2_400 * MILLI);
    assert!(ring.can_mix(), "twelve windows ahead is as long as a partner is waited for");
    let (mic, system) = ring.extract_window().unwrap();
    assert_eq!(mic, vec![7, 7]);
    assert_eq!(system, vec![0, 0]);
    assert_eq!(ring.padded_mic_windows, 0);
    assert_eq!(ring.padded_system_windows, 1);
    assert_eq!(ring.output_samples, 2);
}

#[test]
fn a_shortfall_counts_only_once_it_has_lasted() {
    let mut line = SourceTimeline::new();
    let second = 1_000_000_000u64;
    // One sample a second: lags are billionths of a sample.
    assert_eq!(line.sustained_gap(0, 400_000_000, 1), 0);
    assert_eq!(line.sustained_gap(second, 500_000_000, 1), 0);
    assert_eq!(line.sustained_gap(2 * second, 450_000_000, 1), 400_000_000);
    // The readings were used up.
    assert_eq!(line.sustained_gap(3 * second, 450_000_000, 1), 0);
}
