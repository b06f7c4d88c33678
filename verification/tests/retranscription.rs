use talkkeeper_audio::common::StoredTranscript;
use talkkeeper_audio::corrections::{merged_transcript, StoredLine};
use talkkeeper_audio::common::{
    create_transcript_segments, timestamp_from_offset, EngineKind, Recognised,
};
use talkkeeper_audio::moments::Moment;
use talkkeeper_audio::own_speech::{WindowTimeline, MS};
use talkkeeper_audio::retranscription::{
    cancel_retranscription, cancel_retranscription_command, choose_engine, choose_tracks,
    create_source_labeled_segments, find_audio_file,
    find_retranscription_sources, is_retranscription_in_progress, known_audio_extension,
    needs_load, new_metadata, parakeet_model, recording_start, retranscribed_metadata, updated_metadata,
    retranscription_status_command, silence_the_speakers, unload_after_run, vocabulary_plan,
    whisper_model, RetranscriptionState, Speaker, Stretch, VocabularyPlan,
    VAD_REDEMPTION_TIME_MS,
};
use talkkeeper_audio::retranscription_run::{
    failure_message, vad_percent, RetranscriptionRun, RunError, RunEvent, RunStep,
};
use talkkeeper_audio::splitting::{sample_moment, split_points, split_segment_at_silence};
use talkkeeper_audio::vad::SpeechSegment;
use talkkeeper_audio::working_track::{working_track_path, WORKING_SAMPLE_RATE};

/// 2026-08-30T12:00:00Z.
fn test_recording_start() -> Moment {
    Moment { seconds: 1_788_091_200, nanos: 0 }
}

fn timelines_of(windows: &[(Option<bool>, Option<bool>)]) -> (WindowTimeline, WindowTimeline) {
    (
        WindowTimeline::from_slots(50 * MS, windows.iter().map(|(own, _)| *own).collect()),
        WindowTimeline::from_slots(50 * MS, windows.iter().map(|(_, far)| *far).collect()),
    )
}

fn silenced_ms(samples: usize) -> f64 {
    samples as f64 / WORKING_SAMPLE_RATE as f64 * 1000.0
}

#[test]
fn the_speakers_are_silenced_and_nothing_else_is() {
    let mut windows = vec![(Some(false), Some(true)); 10];
    windows.extend(vec![(Some(true), Some(true)); 10]);
    let (own, far) = timelines_of(&windows);

    let mut samples = vec![1.0f32; WORKING_SAMPLE_RATE as usize];
    let silenced = silence_the_speakers(&mut samples, WORKING_SAMPLE_RATE, &own, &far, 0.0);

    assert_eq!(silenced_ms(silenced), 500.0);
    let half = WORKING_SAMPLE_RATE as usize / 2;
    assert!(samples[..half].iter().all(|sample| *sample == 0.0));
    assert!(samples[half..].iter().all(|sample| *sample == 1.0));
}

#[test]
fn an_unanswered_record_silences_nothing() {
    let (own, far) = timelines_of(&[(None, Some(true)); 20]);
    let mut samples = vec![1.0f32; WORKING_SAMPLE_RATE as usize];
    let silenced = silence_the_speakers(&mut samples, WORKING_SAMPLE_RATE, &own, &far, 0.0);

    assert_eq!(silenced_ms(silenced), 0.0);
    assert!(samples.iter().all(|sample| *sample == 1.0));
}

#[test]
fn a_record_longer_than_the_track_stops_at_the_end_of_it() {
    let (own, far) = timelines_of(&[(Some(false), Some(true)); 40]);
    let mut samples = vec![1.0f32; WORKING_SAMPLE_RATE as usize / 2];
    let silenced = silence_the_speakers(&mut samples, WORKING_SAMPLE_RATE, &own, &far, 0.0);

    assert_eq!(silenced_ms(silenced), 500.0);
    assert!(samples.iter().all(|sample| *sample == 0.0));
}

fn recognised(text: &str, start_ms: u64, end_ms: u64) -> Recognised {
    Recognised { text: text.to_string(), start_ms: start_ms * MS, end_ms: end_ms * MS }
}

#[test]
fn test_create_transcript_segments_empty() {
    let segments = create_transcript_segments(&vec![], test_recording_start()).unwrap();
    assert!(segments.is_empty());
}

#[test]
fn test_create_transcript_segments_single() {
    let transcripts = vec![recognised("Hello world", 0, 1500)];
    let segments = create_transcript_segments(&transcripts, test_recording_start()).unwrap();

    assert_eq!(segments.len(), 1);
    assert_eq!(segments[0].text, "Hello world");
    assert_eq!(segments[0].audio_start_time, Some(0));
    assert_eq!(segments[0].audio_end_time, Some(1500 * MS));
    assert_eq!(segments[0].duration, Some(1_500_000_000));
    assert_eq!(segments[0].timestamp, "2026-08-30T12:00:00.000Z");
}

#[test]
fn test_create_transcript_segments_multiple() {
    let transcripts = vec![
        recognised("First segment", 0, 2000),
        recognised("Second segment", 3000, 5000),
        recognised("Third segment", 6500, 8000),
    ];
    let segments = create_transcript_segments(&transcripts, test_recording_start()).unwrap();

    assert_eq!(segments.len(), 3);
    assert_eq!(segments[0].text, "First segment");
    assert_eq!(segments[0].audio_start_time, Some(0));
    assert_eq!(segments[0].audio_end_time, Some(2000 * MS));
    assert_eq!(segments[0].duration, Some(2_000_000_000));
    assert_eq!(segments[1].text, "Second segment");
    assert_eq!(segments[1].audio_start_time, Some(3000 * MS));
    assert_eq!(segments[1].audio_end_time, Some(5000 * MS));
    assert_eq!(segments[1].duration, Some(2_000_000_000));
    assert_eq!(segments[2].text, "Third segment");
    assert_eq!(segments[2].audio_start_time, Some(6500 * MS));
    assert_eq!(segments[2].audio_end_time, Some(8000 * MS));
    assert_eq!(segments[2].duration, Some(1_500_000_000));
    assert_eq!(segments[2].timestamp, "2026-08-30T12:00:06.500Z");
}

#[test]
fn test_create_transcript_segments_trims_whitespace() {
    let transcripts = vec![recognised("  Hello with spaces  ", 0, 1000)];
    let segments = create_transcript_segments(&transcripts, test_recording_start()).unwrap();
    assert_eq!(segments.len(), 1);
    assert_eq!(segments[0].text, "Hello with spaces");
}

#[test]
fn test_create_transcript_segments_generates_unique_ids() {
    let transcripts = vec![recognised("Segment one", 0, 1000), recognised("Segment two", 1000, 2000)];
    let segments = create_transcript_segments(&transcripts, test_recording_start()).unwrap();
    assert_eq!(segments.len(), 2);
    assert_ne!(segments[0].id, segments[1].id);
    assert!(segments[0].id.starts_with("transcript-"));
    assert!(segments[1].id.starts_with("transcript-"));
    assert_eq!(segments[0].id.len(), "transcript-".len() + 36);
}

#[test]
fn a_start_beyond_the_calendar_is_an_error() {
    let beyond = Moment { seconds: i64::MAX, nanos: 0 };
    assert_eq!(timestamp_from_offset(beyond, 0), None);
    let transcripts = vec![recognised("late", 0, 1000)];
    assert_eq!(
        create_transcript_segments(&transcripts, beyond).unwrap_err(),
        "The recording's start is out of range"
    );
}

#[test]
fn source_hints_stay_aligned_with_successful_transcripts() {
    let transcripts = vec![
        recognised("Hello one two three", 14_970, 18_880),
        recognised("Remote speech", 16_770, 26_980),
    ];
    let segments = create_source_labeled_segments(
        &transcripts,
        &vec![Some(Speaker::You), Some(Speaker::Guest)],
        test_recording_start(),
    )
    .unwrap();

    assert_eq!(segments[0].speaker.as_deref(), Some("You"));
    assert_eq!(segments[1].speaker.as_deref(), Some("Guest"));
    assert_eq!(segments[0].audio_start_time, Some(14_970 * MS));
    assert_eq!(segments[0].timestamp, "2026-08-30T12:00:14.970Z");
}

#[test]
fn test_cancellation_flag() {
    let mut state = RetranscriptionState::new();
    assert!(!is_retranscription_in_progress(&state));

    cancel_retranscription(&mut state);
    assert!(state.cancelled);

    state.clear_cancelled();
    assert!(!state.cancelled);
}

#[test]
fn a_second_retranscription_is_refused_while_one_runs() {
    let mut state = RetranscriptionState::new();
    assert_eq!(
        cancel_retranscription_command(&mut state).unwrap_err(),
        "No retranscription in progress"
    );
    state.acquire("meeting-1").unwrap();
    assert!(is_retranscription_in_progress(&state));
    assert_eq!(state.acquire("meeting-2").unwrap_err(), "Retranscription already in progress");
    let status = retranscription_status_command(&state);
    assert!(status.in_progress);
    assert_eq!(status.meeting_id.as_deref(), Some("meeting-1"));
    cancel_retranscription_command(&mut state).unwrap();
    assert!(state.cancelled);
    state.release();
    assert!(!is_retranscription_in_progress(&state));
    assert_eq!(retranscription_status_command(&state).meeting_id, None);
}

#[test]
fn test_vad_redemption_time_constant() {
    assert_eq!(VAD_REDEMPTION_TIME_MS, 2000);
}

fn names(list: &[&str]) -> Vec<String> {
    list.iter().map(|name| name.to_string()).collect()
}

#[test]
fn test_find_audio_file_common_candidates() {
    assert!(find_audio_file("/m", &names(&[])).is_err());
    assert_eq!(find_audio_file("/m", &names(&["audio.mp4"])).unwrap(), "/m/audio.mp4");
}

#[test]
fn test_find_audio_file_non_mp4_extensions() {
    assert_eq!(find_audio_file("/m", &names(&["audio.wav"])).unwrap(), "/m/audio.wav");
}

#[test]
fn test_find_audio_file_fallback_scan() {
    let found = find_audio_file("/m", &names(&["notes.txt", "my_recording.flac"])).unwrap();
    assert_eq!(found, "/m/my_recording.flac");
    let found = find_audio_file("/m", &names(&["notes.txt", "TAKE.MKV"])).unwrap();
    assert_eq!(found, "/m/TAKE.MKV");
}

#[test]
fn test_find_audio_file_priority_order() {
    let found = find_audio_file("/m", &names(&["audio.m4a", "audio.mp4"])).unwrap();
    assert_eq!(found, "/m/audio.mp4");
}

#[test]
fn test_find_audio_file_empty_folder() {
    let result = find_audio_file("/m", &names(&[]));
    assert!(result.is_err());
    assert!(result.unwrap_err().contains("No audio file found"));
}

#[test]
fn test_find_audio_file_nonexistent_folder() {
    // A folder that is not there holds nothing.
    let result = find_audio_file("/nonexistent/path/12345", &names(&[]));
    assert!(result.is_err());
    assert_eq!(result.unwrap_err(), "No audio file found in: /nonexistent/path/12345");
}

#[test]
fn dual_track_sources_preserve_deterministic_speaker_hints() {
    let pair = choose_tracks("/m", None, None);
    let sources = find_retranscription_sources(pair, true, true, "/m/audio.mp4");
    assert_eq!(sources.len(), 2);
    assert_eq!(sources[0].speaker_hint, Some(Speaker::You));
    assert_eq!(sources[1].speaker_hint, Some(Speaker::Guest));
    assert_eq!(Speaker::You.label(), "You");
    assert_eq!(Speaker::Guest.label(), "Guest");
}

#[test]
fn mixed_source_has_no_speaker_hint() {
    let pair = choose_tracks("/m", None, None);
    let sources = find_retranscription_sources(pair, false, false, "/m/audio.mp4");
    assert_eq!(sources.len(), 1);
    assert_eq!(sources[0].speaker_hint, None);
}

#[test]
fn retained_tracks_are_transcribed_separately() {
    let pair = choose_tracks("/m", None, None);
    let sources = find_retranscription_sources(pair, true, true, "/m/audio.mp4");
    assert_eq!(sources.len(), 2);
    assert_eq!(sources[0].label, "microphone");
    assert_eq!(sources[0].positive_percent, 20);
    assert_eq!(sources[0].negative_percent, 10);
    assert_eq!(sources[1].label, "system audio");
    assert!(!sources[0].gated_by_the_record);
}

#[test]
fn the_working_tracks_are_read_in_place_of_the_delivery_tracks() {
    let pair = choose_tracks(
        "/m",
        Some(working_track_path("/m", "mic")),
        Some(working_track_path("/m", "system")),
    );
    let sources = find_retranscription_sources(pair, true, true, "/m/audio.mp4");
    assert_eq!(sources.len(), 2);
    assert_eq!(sources[0].path, "/m/.work/mic.flac");
    assert_eq!(sources[1].path, "/m/.work/system.flac");
    assert_eq!(sources[0].speaker_hint, Some(Speaker::You));
    assert_eq!(sources[1].speaker_hint, Some(Speaker::Guest));
    assert_eq!(sources[0].positive_percent, 20);
    assert!(sources[0].gated_by_the_record);
    assert!(!sources[1].gated_by_the_record);
}

#[test]
fn half_a_working_pair_is_ignored_rather_than_transcribed_alone() {
    let pair = choose_tracks("/m", Some(working_track_path("/m", "mic")), None);
    let sources = find_retranscription_sources(pair, true, true, "/m/audio.mp4");
    assert_eq!(sources.len(), 2);
    assert_eq!(sources[0].path, "/m/mic.mp4");
    assert_eq!(sources[1].path, "/m/system.mp4");
}

#[test]
fn working_tracks_do_not_stand_in_for_a_missing_recording() {
    let found = find_audio_file("/m", &names(&[".work", "audio.mp4"])).unwrap();
    assert_eq!(found, "/m/audio.mp4");
    assert!(find_audio_file("/m", &names(&[".work"])).is_err());
}

#[test]
fn old_recordings_fall_back_to_mixed_audio() {
    let pair = choose_tracks("/m", None, None);
    let sources = find_retranscription_sources(pair, false, false, "/m/audio.mp4");
    assert_eq!(sources.len(), 1);
    assert_eq!(sources[0].label, "mixed audio");
    assert_eq!(sources[0].path, "/m/audio.mp4");
}

#[test]
fn incomplete_retained_tracks_fall_back_to_mixed_audio() {
    let pair = choose_tracks("/m", None, None);
    let sources = find_retranscription_sources(pair, true, false, "/m/audio.mp4");
    assert_eq!(sources.len(), 1);
    assert_eq!(sources[0].label, "mixed audio");
    assert_eq!(sources[0].path, "/m/audio.mp4");
}

#[test]
fn test_audio_extensions_constant() {
    for known in ["mp4", "m4a", "wav", "mp3", "flac", "ogg", "aac", "mkv", "webm", "wma"] {
        assert!(known_audio_extension(known), "{known}");
    }
    assert!(!known_audio_extension("txt"));
    assert!(!known_audio_extension("pdf"));
}

#[test]
fn hints_are_kept_where_they_were_given_and_refused_where_there_are_none() {
    let terms = || Some("Kubernetes".to_string());
    assert!(matches!(vocabulary_plan(Some("parakeet"), None, None), Ok(VocabularyPlan::Without)));
    assert_eq!(
        vocabulary_plan(Some("parakeet"), terms(), None).unwrap_err(),
        "Vocabulary hints are only supported by Whisper"
    );
    assert!(matches!(vocabulary_plan(None, Some("  ".to_string()), None), Ok(VocabularyPlan::Read)));
    assert!(matches!(
        vocabulary_plan(None, terms(), None),
        Ok(VocabularyPlan::KeepForMeeting(kept)) if kept == "Kubernetes"
    ));
    assert!(matches!(
        vocabulary_plan(None, terms(), Some("global")),
        Ok(VocabularyPlan::KeepForAll(kept)) if kept == "Kubernetes"
    ));
    assert_eq!(vocabulary_plan(None, terms(), Some("team")).unwrap_err(), "Invalid vocabulary scope");
}

#[test]
fn the_engine_is_the_one_asked_for() {
    assert_eq!(choose_engine(None), EngineKind::Whisper);
    assert_eq!(choose_engine(Some("parakeet")), EngineKind::Parakeet);
    assert_eq!(choose_engine(Some("gigaam")), EngineKind::GigaAm);
    assert_eq!(choose_engine(Some("externalStt")), EngineKind::External);
    assert_eq!(unload_after_run(EngineKind::External), None);
    assert_eq!(unload_after_run(EngineKind::GigaAm), Some(EngineKind::GigaAm));
}

#[test]
fn the_model_is_the_one_asked_for_or_configured() {
    let configured = |provider: &str| Some((provider.to_string(), "large".to_string()));
    assert_eq!(whisper_model(Some("tiny".to_string()), configured("parakeet"), "base").unwrap(), "tiny");
    assert_eq!(whisper_model(None, configured("localWhisper"), "base").unwrap(), "large");
    assert_eq!(whisper_model(None, None, "base").unwrap(), "base");
    assert_eq!(
        whisper_model(None, configured("parakeet"), "base").unwrap_err(),
        "Retranscription requires Whisper. Current provider 'parakeet' does not support retranscription with language selection."
    );
    assert_eq!(parakeet_model(None, configured("parakeet"), "v3"), "large");
    assert_eq!(parakeet_model(None, configured("whisper"), "v3"), "v3");
    assert!(needs_load(None, "large"));
    assert!(needs_load(Some("tiny"), "large"));
    assert!(!needs_load(Some("large"), "large"));
}

#[test]
fn the_folder_decides_when_a_recording_began() {
    let stored = test_recording_start();
    let folder = Moment { seconds: stored.seconds - 5, nanos: 0 };
    assert_eq!(recording_start(None, stored), (stored, false));
    assert_eq!(recording_start(Some(folder), stored), (folder, true));
    assert_eq!(recording_start(Some(stored), stored), (stored, false));
}

#[test]
fn a_description_keeps_what_a_run_does_not_change() {
    let existing = r#"{"title": "Weekly", "status": "recording", "n": [1, {"a": null}],
        "detected_summary_language": "ru"}"#;
    let written = updated_metadata(existing, "2026-01-02T03:04:05+00:00").unwrap();
    let value: serde_json::Value = serde_json::from_str(&written).unwrap();
    assert_eq!(value["title"], "Weekly");
    assert_eq!(value["status"], "completed");
    assert_eq!(value["retranscribed_at"], "2026-01-02T03:04:05+00:00");
    assert_eq!(value["n"][1]["a"], serde_json::Value::Null);
    assert_eq!(value["n"][0], 1);
    assert_eq!(value.as_object().unwrap().len(), 4);
    assert!(written.contains('\n'), "it is written over several lines");

    // What is no object stays as a whole, and what is no JSON is not touched.
    assert_eq!(updated_metadata(" [1,2] ", "now").unwrap(), "[\n  1,\n  2\n]");
    assert_eq!(updated_metadata("{", "now"), None);
}

#[test]
fn a_meeting_without_a_description_gets_one() {
    let length = serde_json::Value::from(61.5);
    let written = new_metadata("m1", "now", "audio.mp4", length.clone()).unwrap();
    let value: serde_json::Value = serde_json::from_str(&written).unwrap();
    let fields = value.as_object().unwrap();
    assert_eq!(fields.len(), 9);
    for (name, text) in [
        ("version", "1.0"),
        ("meeting_id", "m1"),
        ("created_at", "now"),
        ("completed_at", "now"),
        ("retranscribed_at", "now"),
        ("audio_file", "audio.mp4"),
        ("status", "completed"),
        ("source", "retranscription"),
    ] {
        assert_eq!(fields[name], text, "{name}");
    }
    assert_eq!(fields["duration_seconds"], 61.5);

    let now = retranscribed_metadata(None, "m1", "audio.mp4", length.clone()).unwrap();
    let moment = serde_json::from_str::<serde_json::Value>(&now).unwrap()["created_at"].to_string();
    assert!(moment.starts_with("\"2") && moment.ends_with("+00:00\""), "{moment}");
    assert!(moment.contains('T'));
    let updated = retranscribed_metadata(Some("{\"a\": 1}"), "m1", "x", length.clone()).unwrap();
    assert!(updated.contains("\"a\": 1") && !updated.contains("meeting_id"));
    assert_eq!(retranscribed_metadata(Some("nonsense"), "m1", "x", length), None);
}

#[test]
fn a_long_stretch_is_cut_into_pieces_that_hold_all_of_it() {
    let loud = vec![1_000_000_000i32; 60 * 16_000];
    let long = Stretch::of(7, &loud, 0, 60_000 * MS);
    assert_eq!((long.id, long.samples), (7, 60 * 16_000));
    assert_eq!(long.cuts, split_points(&loud, 25 * 16_000));
    assert_eq!(long.cuts[0].0, 0);
    assert_eq!(long.cuts.last().unwrap().1, 60 * 16_000);
    for pair in long.cuts.windows(2) {
        assert_eq!(pair[0].1 - pair[1].0, 16_000);
    }
    assert_eq!(Stretch::of(0, &vec![1; 10], 5, 9).cuts, vec![(0, 10)]);
}

fn stretch(id: usize, samples: usize, start_ms: u64, end_ms: u64) -> Stretch {
    Stretch {
        id,
        samples,
        start_ms: start_ms * MS,
        end_ms: end_ms * MS,
        cuts: vec![(0, samples)],
    }
}

#[test]
fn a_run_recognises_both_tracks_in_the_order_they_were_spoken() {
    let mut run =
        RetranscriptionRun::new(vec![Some(Speaker::You), Some(Speaker::Guest)], EngineKind::Whisper);
    assert!(matches!(run.begin(false), RunStep::Decode(0, 5)));
    assert!(matches!(run.step(RunEvent::Decoded(9), false), RunStep::Listen(0)));
    let mic = vec![stretch(10, 16_000, 2000, 3000), stretch(11, 900, 5000, 5056)];
    assert!(matches!(run.step(RunEvent::Speech(mic), false), RunStep::Decode(1, 15)));
    assert!(matches!(run.step(RunEvent::Decoded(7), false), RunStep::Listen(1)));
    let system = vec![stretch(20, 16_000, 0, 1000), stretch(21, 16_000, 2000, 3000)];
    assert!(matches!(
        run.step(RunEvent::Speech(system), false),
        RunStep::LoadEngine(EngineKind::Whisper)
    ));
    assert_eq!(run.pieces.iter().map(|piece| piece.id).collect::<Vec<_>>(), vec![20, 10, 21, 11]);

    assert!(matches!(run.step(RunEvent::EngineReady, false), RunStep::Transcribe(0, 25)));
    assert!(matches!(
        run.step(RunEvent::Text("guest first".to_string()), false),
        RunStep::Transcribe(1, 38)
    ));
    assert!(matches!(run.step(RunEvent::Text("mine".to_string()), false), RunStep::Transcribe(2, 52)));
    assert!(matches!(run.step(RunEvent::Text("   ".to_string()), false), RunStep::Pass(3, 66)));
    assert!(matches!(run.step(RunEvent::Passed, false), RunStep::Save));

    let began = Moment { seconds: 1_700_000_000, nanos: 0 };
    let corrected = StoredLine {
        line: line("kept", "mine, corrected", Some((2_500 * MS, 2_600 * MS))),
        corrected: true,
    };
    let lines = run.to_store(began, vec![corrected]).unwrap();
    assert_eq!(
        lines.iter().map(|line| line.text.as_str()).collect::<Vec<_>>(),
        vec!["guest first", "mine, corrected"]
    );
    assert_eq!(lines[0].speaker.as_deref(), Some("Guest"));
    assert_eq!(run.to_store(began, Vec::new()).unwrap().len(), 2);
    let never = Moment { seconds: i64::MAX, nanos: 0 };
    assert!(run.to_store(never, Vec::new()).is_err());

    let (texts, hints) = run.recognised();
    assert_eq!(texts.iter().map(|t| t.text.as_str()).collect::<Vec<_>>(), vec!["guest first", "mine"]);
    assert_eq!(hints, vec![Some(Speaker::Guest), Some(Speaker::You)]);
    assert_eq!(run.duration_ms, 9);

    assert!(matches!(run.step(RunEvent::Saved, true), RunStep::Describe));
    assert!(matches!(run.step(RunEvent::Described, false), RunStep::Finish));
}

#[test]
fn a_cancelled_run_stops_before_it_replaces_anything() {
    let mut run = RetranscriptionRun::new(vec![None], EngineKind::Parakeet);
    assert!(matches!(run.begin(true), RunStep::Fail(RunError::Cancelled)));

    let mut run = RetranscriptionRun::new(vec![None], EngineKind::Parakeet);
    run.begin(false);
    run.step(RunEvent::Decoded(1), false);
    run.step(RunEvent::Speech(vec![stretch(0, 16_000, 0, 1000)]), false);
    run.step(RunEvent::EngineReady, false);
    let last = run.step(RunEvent::Text("words".to_string()), true);
    assert!(matches!(last, RunStep::Fail(RunError::Cancelled)));
}

#[test]
fn a_run_says_why_it_failed() {
    let mut run = RetranscriptionRun::new(vec![None], EngineKind::GigaAm);
    run.begin(false);
    run.step(RunEvent::Decoded(1), false);
    assert!(matches!(run.step(RunEvent::Speech(vec![]), false), RunStep::Fail(RunError::NoSpeech)));

    let engine = EngineKind::GigaAm;
    let say = |error: RunError| failure_message(&error, engine, "microphone");
    assert_eq!(say(RunError::Cancelled), "Retranscription cancelled");
    assert_eq!(say(RunError::NoSpeech), "No speech detected in audio file");
    assert_eq!(
        say(RunError::Listening(0, "no model".to_string())),
        "VAD processing failed for microphone: no model"
    );
    assert_eq!(
        say(RunError::Recognition(12, "boom".to_string())),
        "GigaAM transcription failed on segment 12: boom"
    );
    assert_eq!(say(RunError::Decoding("d".to_string())), "d");
    assert_eq!(say(RunError::Loading("l".to_string())), "l");
    assert_eq!(say(RunError::Saving("s".to_string())), "s");
    assert_eq!(vad_percent(0, 1, 0), 15);
    assert_eq!(vad_percent(1, 2, 100), 25);
}

#[test]
fn a_long_stretch_is_cut_where_it_is_quiet() {
    // Forty seconds of noise with a tenth of a second of silence after twenty-four.
    let mut samples = vec![1_000_000_000i32; 40 * 16_000];
    let quiet = 24 * 16_000;
    for sample in &mut samples[quiet..quiet + 1_600] {
        *sample = 0;
    }
    let pieces = split_points(&samples, 25 * 16_000);
    assert_eq!(pieces, vec![(0, quiet + 800), (quiet + 800, 40 * 16_000)]);

    let segment = SpeechSegment {
        samples,
        start_timestamp_ms: 0,
        end_timestamp_ms: 40_000 * MS,
        confidence: 0.5f32.to_bits(),
    };
    let parts = split_segment_at_silence(&segment, 25 * 16_000);
    assert_eq!(parts.len(), 2);
    assert_eq!(parts[0].end_timestamp_ms, 24_050 * MS);
    assert_eq!(parts[1].start_timestamp_ms, 24_050 * MS);
    assert_eq!(parts[1].end_timestamp_ms, 40_000 * MS);
    assert_eq!(parts[0].samples.len() + parts[1].samples.len(), 40 * 16_000);
    assert_eq!(parts[1].confidence, 0.5f32.to_bits());
}

#[test]
fn without_a_quiet_place_two_pieces_have_a_second_in_common() {
    let samples = vec![1_000_000_000i32; 60 * 16_000];
    let pieces = split_points(&samples, 25 * 16_000);
    // The first of equally loud places is taken.
    let first = 22 * 16_000 + 800;
    let second = first + 22 * 16_000 + 800;
    assert_eq!(
        pieces,
        vec![(0, first + 16_000), (first, second + 16_000), (second, 60 * 16_000)]
    );

    let segment = SpeechSegment {
        samples,
        start_timestamp_ms: 0,
        end_timestamp_ms: 60_000 * MS,
        confidence: 0.5f32.to_bits(),
    };
    let parts = split_segment_at_silence(&segment, 25 * 16_000);
    assert_eq!(parts[0].end_timestamp_ms, 23_050 * MS);
    assert_eq!(parts[1].start_timestamp_ms, 22_050 * MS);
}

#[test]
fn moments_can_run_backwards() {
    assert_eq!(sample_moment(100, 0, 3, 0), 100);
    assert_eq!(sample_moment(100, 0, 3, 1), 66);
    assert_eq!(sample_moment(100, 0, 3, 3), 0);
    assert_eq!(sample_moment(0, 100, 3, 1), 33);
}

#[test]
fn cutting_moves_on_even_where_nothing_is_asked_for() {
    let pieces = split_points(&vec![1_000_000_000i32; 19_000], 0);
    assert_eq!(pieces, vec![(0, 16_000), (16_000, 19_000)]);
}

#[test]
fn a_short_stretch_is_not_cut() {
    assert_eq!(split_points(&vec![5i32; 100], 400_000), vec![(0, 100)]);
}

fn line(id: &str, text: &str, span: Option<(u64, u64)>) -> StoredTranscript {
    StoredTranscript {
        id: id.to_string(),
        text: text.to_string(),
        timestamp: String::new(),
        audio_start_time: span.map(|(start, _)| start),
        audio_end_time: span.map(|(_, end)| end),
        duration: None,
        speaker: None,
    }
}

#[test]
fn what_the_owner_corrected_stays_and_is_filled_in_around() {
    let stored = |id: &str, text: &str, span, corrected| StoredLine {
        line: line(id, text, span),
        corrected,
    };
    let lines = merged_transcript(
        vec![
            stored("old-1", "helo", Some((0, 10)), false),
            stored("old-2", "as I said", Some((20, 30)), true),
            stored("note", "about the weather", None, true),
        ],
        vec![
            line("new-1", "hello", Some((0, 10))),
            line("new-2", "ass I sat", Some((19, 31))),
            line("new-3", "right", Some((30, 40))),
            line("new-4", "up to then", Some((10, 20))),
        ],
    );
    let told: Vec<(&str, &str)> =
        lines.iter().map(|line| (line.id.as_str(), line.text.as_str())).collect();
    assert_eq!(
        told,
        vec![
            ("note", "about the weather"),
            ("new-1", "hello"),
            ("new-4", "up to then"),
            ("old-2", "as I said"),
            ("new-3", "right"),
        ]
    );
    assert!(merged_transcript(Vec::new(), Vec::new()).is_empty());
}
