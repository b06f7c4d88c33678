use talkkeeper_audio::mixer::MIXING_WINDOW_MS;
use talkkeeper_audio::own_speech::{
    echo_spans, is_only_the_speakers, measure_segment, OwnSpeechGate, WindowTimeline, MS,
};
use talkkeeper_audio::own_speech_record::{
    read_timelines, record_path, GateRecord, GateRecorder, RecordError,
};

const RATE: u32 = 48_000;
const WINDOW: u64 = 50 * MS;

fn loud(samples: usize) -> Vec<f32> {
    (0..samples)
        .map(|index| {
            let t = index as f32 / RATE as f32;
            (t * 300.0 * std::f32::consts::TAU).sin() * 0.4
        })
        .collect()
}

fn quiet(samples: usize) -> Vec<f32> {
    vec![0.0; samples]
}

fn window_samples() -> usize {
    2_400
}

/// Loudness is measured outside; -40 dBFS counts as speech.
fn speaking(window: Option<Vec<f32>>) -> Option<bool> {
    window.map(|samples| {
        let sum: f64 = samples.iter().map(|s| (*s as f64) * (*s as f64)).sum();
        (sum / samples.len() as f64).sqrt() as f32 >= 0.01
    })
}

#[test]
fn a_loud_window_is_the_owner_and_a_silent_one_is_not() {
    let mut gate = OwnSpeechGate::new();
    gate.opened(RATE);

    gate.push(&loud(window_samples()));
    assert_eq!(speaking(gate.take_window(WINDOW)), Some(true));

    gate.push(&quiet(window_samples()));
    assert_eq!(speaking(gate.take_window(WINDOW)), Some(false));
}

#[test]
fn a_detector_that_has_not_caught_up_says_nothing() {
    let mut gate = OwnSpeechGate::new();
    gate.opened(RATE);

    gate.push(&loud(window_samples() / 2));
    assert_eq!(speaking(gate.take_window(WINDOW)), None);

    gate.push(&loud(window_samples() / 2));
    assert_eq!(speaking(gate.take_window(WINDOW)), Some(true));
}

#[test]
fn a_gate_that_never_opened_says_nothing() {
    let mut gate = OwnSpeechGate::new();
    gate.push(&loud(window_samples()));
    assert_eq!(speaking(gate.take_window(WINDOW)), None);
    assert!(!gate.is_open());
}

#[test]
fn a_detector_that_runs_ahead_lets_the_oldest_go() {
    let mut gate = OwnSpeechGate::new();
    gate.opened(RATE);
    for _ in 0..100 {
        gate.push(&loud(window_samples()));
    }
    assert_eq!(gate.dropped_samples(), RATE as u64 * 3);
}

#[test]
fn windows_claimed_at_the_rate_windows_chose() {
    let mut gate = OwnSpeechGate::new();
    gate.opened(16_000);
    gate.push(&vec![0.4; 800]);
    assert_eq!(speaking(gate.take_window(WINDOW)), Some(true));
    assert_eq!(speaking(gate.take_window(WINDOW)), None);
}

#[test]
fn a_closed_gate_forgets_what_it_held() {
    let mut gate = OwnSpeechGate::new();
    gate.opened(RATE);
    gate.push(&loud(window_samples()));
    gate.closed();
    assert!(!gate.is_open());
    assert_eq!(gate.take_window(WINDOW), None);
}

#[test]
fn a_timeline_measures_the_part_of_a_span_that_was_flagged() {
    let mut timeline = WindowTimeline::new(WINDOW);
    for _ in 0..10 {
        timeline.push(Some(true));
    }
    for _ in 0..10 {
        timeline.push(Some(false));
    }
    assert_eq!(timeline.active_ms_between(0, 500 * MS, false), 500 * MS);
    assert_eq!(timeline.active_ms_between(500 * MS, 1000 * MS, false), 0);
    assert_eq!(timeline.active_ms_between(250 * MS, 750 * MS, false), 250 * MS);
    assert_eq!(timeline.active_ms_between(20 * MS, 70 * MS, false), 50 * MS);
    assert_eq!(timeline.active_ms_between(70 * MS, 20 * MS, false), 0);
}

#[test]
fn a_span_past_the_end_of_the_timeline_is_unknown() {
    let mut timeline = WindowTimeline::new(WINDOW);
    timeline.push(Some(true));
    assert_eq!(timeline.active_ms_between(0, 1000 * MS, false), 50 * MS);
    assert_eq!(timeline.active_ms_between(1000 * MS, 2000 * MS, true), 0);
}

#[test]
fn a_break_in_the_recording_leaves_the_skipped_span_unanswered() {
    let mut timeline = WindowTimeline::new(WINDOW);
    timeline.push(Some(true));
    timeline.skip_to(1_000 * MS);
    timeline.push(Some(true));

    assert_eq!(timeline.len(), 21);
    assert_eq!(timeline.active_ms_between(50 * MS, 1_000 * MS, false), 0);
    assert_eq!(timeline.active_ms_between(50 * MS, 1_000 * MS, true), 950 * MS);
}

#[test]
fn a_window_is_never_shorter_than_a_millisecond() {
    let mut timeline = WindowTimeline::new(0);
    timeline.push(Some(true));
    assert_eq!(timeline.active_ms_between(0, 10 * MS, false), MS);
}

#[test]
fn a_segment_over_playing_speakers_with_no_own_speech_is_echo() {
    assert!(is_only_the_speakers(0, 4_000 * MS));
    assert!(is_only_the_speakers(100 * MS, 4_000 * MS));
}

#[test]
fn a_word_said_over_the_speakers_is_kept() {
    assert!(!is_only_the_speakers(300 * MS, 4_000 * MS));
    assert!(!is_only_the_speakers(250 * MS, 4_000 * MS));
}

#[test]
fn a_segment_recorded_in_a_silent_room_is_kept() {
    assert!(!is_only_the_speakers(0, 0));
    assert!(!is_only_the_speakers(0, 200 * MS));
}

fn timelines(own: &[Option<bool>], far: &[Option<bool>]) -> (WindowTimeline, WindowTimeline) {
    let slot = MIXING_WINDOW_MS as u64 * MS;
    let mut own_timeline = WindowTimeline::new(slot);
    let mut far_timeline = WindowTimeline::new(slot);
    for value in own {
        own_timeline.push(*value);
    }
    for value in far {
        far_timeline.push(*value);
    }
    (own_timeline, far_timeline)
}

fn verdict(own: &[Option<bool>], far: &[Option<bool>]) -> bool {
    let (own_timeline, far_timeline) = timelines(own, far);
    let span = own.len().max(far.len()) as u64 * WINDOW;
    let (own_ms, far_ms) = measure_segment(&own_timeline, &far_timeline, 0, span);
    is_only_the_speakers(own_ms, far_ms)
}

#[test]
fn four_seconds_of_speakers_with_a_silent_detector_is_echo() {
    let windows = 80;
    assert!(verdict(&vec![Some(false); windows], &vec![Some(true); windows]));
}

#[test]
fn a_word_over_the_speakers_is_his_and_is_kept() {
    let windows = 80;
    let mut own = vec![Some(false); windows];
    for slot in own.iter_mut().skip(20).take(6) {
        *slot = Some(true);
    }
    assert!(!verdict(&own, &vec![Some(true); windows]));
}

#[test]
fn speech_in_a_silent_room_is_kept_however_quiet_the_detector_was() {
    let windows = 80;
    assert!(!verdict(&vec![Some(false); windows], &vec![Some(false); windows]));
}

#[test]
fn a_segment_the_detector_never_saw_is_kept() {
    let windows = 80;
    assert!(!verdict(&vec![None; windows], &vec![Some(true); windows]));
}

#[test]
fn a_gap_in_the_far_end_timeline_keeps_the_segment() {
    let windows = 80;
    assert!(!verdict(&vec![Some(false); windows], &vec![None; windows]));
}

#[test]
fn a_short_noise_with_the_speakers_quiet_is_kept() {
    assert!(!verdict(&vec![Some(false); 8], &vec![Some(false); 8]));
}

#[test]
fn only_long_stretches_of_the_speakers_alone_are_echo() {
    let mut own = vec![Some(false); 5];
    own.push(Some(true));
    own.extend(vec![Some(false); 6]);
    own.push(None);
    let far = vec![Some(true); own.len()];
    let (own, far) = timelines(&own, &far);
    // Five windows are too short, six are just enough.
    assert_eq!(echo_spans(&own, &far), vec![(300 * MS, 600 * MS)]);
}

const WINDOW_BITS: u32 = 0x4248_0000;

fn recorded(windows: &[(Option<bool>, Option<bool>)]) -> GateRecord {
    assert_eq!(WINDOW_BITS, 50.0f32.to_bits());
    let mut record = GateRecord::new(WINDOW_BITS);
    for (own, far) in windows {
        record.observe(*own, *far);
    }
    record
}

#[test]
fn a_record_reads_back_as_the_windows_it_was_given() {
    let windows = [
        (Some(true), Some(false)),
        (Some(false), Some(true)),
        (None, Some(true)),
        (None, None),
    ];
    let record = recorded(&windows);
    let read = GateRecord::decode(&record.encode()).expect("decodes");
    assert_eq!(read.encode(), record.encode());
    assert_eq!(read.windows(), 4);

    let (own, far) = read.timelines();
    assert_eq!(own.active_ms_between(0, 50 * MS, false), 50 * MS);
    assert_eq!(far.active_ms_between(0, 50 * MS, false), 0);
    assert_eq!(far.active_ms_between(50 * MS, 150 * MS, false), 100 * MS);
    assert_eq!(own.active_ms_between(100 * MS, 150 * MS, true), 50 * MS);
    assert_eq!(own.active_ms_between(100 * MS, 150 * MS, false), 0);
}

#[test]
fn the_bytes_of_a_record_are_as_laid_out() {
    let bytes = recorded(&[(Some(true), Some(false))]).encode();
    let mut expected = b"TKGATE\n\x01".to_vec();
    expected.extend_from_slice(&50.0f32.to_le_bytes());
    expected.extend_from_slice(&1u32.to_le_bytes());
    expected.push(0x12);
    assert_eq!(bytes, expected);
}

#[test]
fn the_verdict_survives_the_round_trip() {
    let mut windows = vec![(Some(false), Some(true)); 20];
    windows.extend(vec![(Some(true), Some(true)); 20]);
    let record = recorded(&windows);

    let (live_own, live_far) = record.timelines();
    let read = GateRecord::decode(&record.encode()).expect("decodes");
    let (own, far) = read.timelines();

    for (from, to, expected) in [(0, 1000 * MS, true), (1000 * MS, 2000 * MS, false)] {
        let live = {
            let (own_ms, far_ms) = measure_segment(&live_own, &live_far, from, to);
            is_only_the_speakers(own_ms, far_ms)
        };
        let stored = {
            let (own_ms, far_ms) = measure_segment(&own, &far, from, to);
            is_only_the_speakers(own_ms, far_ms)
        };
        assert_eq!(live, expected);
        assert_eq!(stored, live);
    }
}

#[test]
fn a_truncated_record_is_refused_rather_than_half_believed() {
    let record = recorded(&[(Some(true), Some(true)); 8]);
    let mut bytes = record.encode();
    bytes.truncate(bytes.len() - 3);
    assert!(GateRecord::decode(&bytes).is_err());
    assert_eq!(GateRecord::decode(&bytes).err(), Some(RecordError::WindowsMissing(5, 8)));
}

#[test]
fn something_that_is_not_a_record_is_refused() {
    assert!(GateRecord::decode(b"RIFF....WAVEfmt ").is_err());
    assert!(GateRecord::decode(&[]).is_err());
    assert_eq!(GateRecord::decode(b"RIFF....WAVEfmt ").err(), Some(RecordError::NotARecord));
    assert_eq!(GateRecord::decode(&[]).err(), Some(RecordError::TooShort));
}

#[test]
fn a_record_with_a_window_that_is_no_length_is_refused() {
    for bits in [0.0f32, -1.0, f32::NAN, f32::INFINITY].map(f32::to_bits) {
        let mut bytes = GateRecord::new(bits).encode();
        assert_eq!(GateRecord::decode(&bytes).err(), Some(RecordError::WindowLength(bits)));
        bytes.clear();
    }
}

#[test]
fn a_record_that_claims_too_many_windows_is_refused() {
    let mut bytes = GateRecord::new(WINDOW_BITS).encode();
    bytes[15] = 0xff;
    assert_eq!(GateRecord::decode(&bytes).err(), Some(RecordError::TooManyWindows(0xff00_0000)));
}

#[test]
fn a_fractional_window_keeps_its_length() {
    let mut record = GateRecord::new(12.5f32.to_bits());
    record.observe(Some(true), Some(true));
    let (own, _) = record.timelines();
    assert_eq!(own.active_ms_between(0, 100 * MS, false), 12_500_000);
}

#[test]
fn a_recording_with_the_detector_off_leaves_no_file() {
    let mut recorder = GateRecorder::new(WINDOW_BITS);
    recorder.open_in("/recordings/m");
    for _ in 0..10 {
        recorder.observe(None, Some(false));
    }
    assert!(recorder.finish(false, false).is_none());
    assert!(read_timelines(None).is_none());
}

#[test]
fn a_written_record_is_read_back_by_the_next_pass() {
    let mut recorder = GateRecorder::new(WINDOW_BITS);
    recorder.open_in("/recordings/m");
    for _ in 0..20 {
        recorder.observe(Some(false), Some(true));
    }
    for _ in 0..20 {
        recorder.observe(Some(true), Some(true));
    }
    let work = recorder.finish(false, false).expect("there is a record to write");
    assert_eq!(work.path, record_path("/recordings/m"));
    assert_eq!(work.path, "/recordings/m/.work/own-speech.tkgate");
    assert_eq!(work.partial, "/recordings/m/.work/own-speech.tkgate.part");
    assert!(recorder.finish(false, false).is_none(), "a record is handed out once");

    let (own, far) = read_timelines(Some(&work.bytes)).expect("the record is there");
    let (own_ms, far_ms) = measure_segment(&own, &far, 0, 1000 * MS);
    assert!(is_only_the_speakers(own_ms, far_ms));
    let (own_ms, far_ms) = measure_segment(&own, &far, 1000 * MS, 2000 * MS);
    assert!(!is_only_the_speakers(own_ms, far_ms));
}

#[test]
fn no_record_means_no_second_opinion() {
    assert!(read_timelines(None).is_none());
    assert!(read_timelines(Some(&b"something else entirely".to_vec())).is_none());
}

#[test]
fn a_timeline_knows_whether_its_end_can_be_said() {
    let mut line = WindowTimeline::new(u64::MAX);
    assert!(line.end_fits());
    line.push(Some(true));
    assert!(line.end_fits());
    line.push(None);
    assert!(!line.end_fits());
}

#[test]
fn a_locked_archive_gets_no_record() {
    for (protected, unlocked, written) in
        [(true, false, false), (true, true, true), (false, false, true), (false, true, true)]
    {
        let mut recorder = GateRecorder::new(50.0f32.to_bits());
        recorder.open_in("meetings/one");
        recorder.observe(Some(true), Some(false));
        assert_eq!(recorder.finish(protected, unlocked).is_some(), written);
        assert!(recorder.finish(false, true).is_none(), "there is no second try");
    }
}
