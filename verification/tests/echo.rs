use talkkeeper_audio::echo_offline::{
    covered_ms, echo_spans, measure, median, spans_of, speakers_reach, Envelope, WINDOW_MS,
};
use talkkeeper_audio::own_speech::MS;

const RATE: u32 = 16_000;

/// A burst of noise, which is as much like speech as this needs.
fn burst(samples: &mut [f32], from_ms: f64, to_ms: f64, level: f32, seed: &mut u32) {
    let first = ((from_ms / 1000.0) * RATE as f64) as usize;
    let last = (((to_ms / 1000.0) * RATE as f64) as usize).min(samples.len());
    for sample in &mut samples[first..last] {
        *seed = seed.wrapping_mul(1_664_525).wrapping_add(1_013_904_223);
        let noise = ((*seed >> 8) as f32 / 8_388_608.0) - 1.0;
        *sample += noise * level;
    }
}

fn silence(seconds: f64) -> Vec<f32> {
    vec![0.0; (seconds * RATE as f64) as usize]
}

fn a_call_with_echo() -> (Vec<f32>, Vec<f32>) {
    let mut system = silence(12.0);
    let mut mic = silence(12.0);

    let mut seed = 7;
    burst(&mut system, 1000.0, 3000.0, 0.30, &mut seed);
    burst(&mut system, 7000.0, 9000.0, 0.30, &mut seed);

    let mut echo_seed = 7;
    burst(&mut mic, 1120.0, 3120.0, 0.06, &mut echo_seed);
    burst(&mut mic, 7120.0, 9120.0, 0.06, &mut echo_seed);

    let mut own_seed = 42;
    burst(&mut mic, 4000.0, 6500.0, 0.30, &mut own_seed);

    (mic, system)
}

/// Loudness is measured outside, window by window.
fn envelope(samples: &[f32]) -> Envelope {
    let per_window = RATE as usize / 40;
    let rms = samples
        .chunks(per_window)
        .map(|window| {
            let sum: f64 = window.iter().map(|s| (*s as f64) * (*s as f64)).sum();
            ((sum / window.len() as f64).sqrt() * 1e9).round() as u64
        })
        .collect();
    Envelope { window_ms: WINDOW_MS, rms }
}

fn envelopes(mic: &[f32], system: &[f32]) -> (Envelope, Envelope) {
    (envelope(mic), envelope(system))
}

fn overlaps(spans: &[(u64, u64)], from_ms: u64, to_ms: u64) -> bool {
    spans.iter().any(|(from, to)| *from < to_ms * MS && *to > from_ms * MS)
}

#[test]
fn the_echo_is_found_where_the_speakers_played() {
    let (mic, system) = a_call_with_echo();
    let (mic, system) = envelopes(&mic, &system);
    let measured = measure(&mic, &system);
    assert!(measured.own_voice.is_some(), "their level was not learned");
    assert!(measured.playing_level.is_some());
    let covered = covered_ms(&measured.spans);
    assert!(covered > 3_500 * MS as u128, "only {covered} of about 4000 ms of echo was found");
    assert!(overlaps(&measured.spans, 1_500, 2_500));
    assert!(overlaps(&measured.spans, 7_500, 8_500));
}

#[test]
fn his_own_speech_is_never_cut() {
    let (mic, system) = a_call_with_echo();
    let (mic, system) = envelopes(&mic, &system);
    let spans = echo_spans(&mic, &system);
    assert!(!overlaps(&spans, 4_000, 6_500), "an answer was silenced as echo: {spans:?}");
}

#[test]
fn the_owner_talking_over_the_other_person_is_left_alone() {
    let (mut mic, system) = a_call_with_echo();
    let mut seed = 99;
    burst(&mut mic, 7500.0, 8500.0, 0.30, &mut seed);
    let (mic, system) = envelopes(&mic, &system);
    let spans = echo_spans(&mic, &system);
    assert!(!overlaps(&spans, 7_600, 8_400), "an own answer was silenced as echo: {spans:?}");
}

#[test]
fn a_canceller_that_mangled_the_echo_does_not_hide_it() {
    let mut system = silence(12.0);
    let mut mic = silence(12.0);
    let mut seed = 5;
    burst(&mut system, 1000.0, 3000.0, 0.30, &mut seed);
    let mut unrelated = 1234;
    burst(&mut mic, 1100.0, 3100.0, 0.05, &mut unrelated);
    let mut own_seed = 42;
    burst(&mut mic, 4000.0, 6500.0, 0.30, &mut own_seed);
    let (mic, system) = envelopes(&mic, &system);
    let measured = measure(&mic, &system);
    assert!(covered_ms(&measured.spans) > 1_500 * MS as u128);
    assert!(!overlaps(&measured.spans, 4_000, 6_500));
}

#[test]
fn a_recording_where_he_never_speaks_alone_is_left_alone() {
    let mut system = silence(10.0);
    let mut mic = silence(10.0);
    let mut seed = 5;
    burst(&mut system, 1000.0, 9000.0, 0.30, &mut seed);
    let mut echo_seed = 5;
    burst(&mut mic, 1100.0, 9100.0, 0.06, &mut echo_seed);
    let (mic, system) = envelopes(&mic, &system);
    let measured = measure(&mic, &system);
    assert!(measured.own_voice.is_none());
    assert!(measured.spans.is_empty());
}

#[test]
fn with_nothing_played_nothing_is_cut() {
    let mut seed = 3;
    let mut mic = silence(10.0);
    burst(&mut mic, 1000.0, 4000.0, 0.30, &mut seed);
    let system = silence(10.0);
    let (mic, system) = envelopes(&mic, &system);
    assert!(echo_spans(&mic, &system).is_empty());
}

#[test]
fn a_short_flicker_is_not_worth_a_span() {
    let marked = vec![false, true, true, false];
    assert!(spans_of(&marked, WINDOW_MS).is_empty());

    let long = vec![true; 20];
    assert_eq!(spans_of(&long, WINDOW_MS), vec![(0, 500 * MS)]);
}

#[test]
fn the_middle_of_the_levels_in_order() {
    assert_eq!(median(&vec![]), None);
    assert_eq!(median(&vec![5]), Some(5));
    assert_eq!(median(&vec![9, 1, 5]), Some(5));
    assert_eq!(median(&vec![4, 1, 3, 2]), Some(3));
    assert_eq!(median(&vec![u64::MAX, u64::MAX]), Some(u64::MAX));
}

#[test]
fn an_echo_reaches_only_so_far() {
    let system = vec![0, 2_000_000, 0, 0, 0];
    assert!(!speakers_reach(&system, 0, 2));
    assert!(speakers_reach(&system, 1, 2));
    assert!(speakers_reach(&system, 3, 2));
    assert!(!speakers_reach(&system, 4, 2));
    assert!(!speakers_reach(&vec![], 4, 2));
}
