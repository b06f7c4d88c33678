use talkkeeper_audio::common::{
    dir_size_bytes, force_unload_all, force_unload_stt, llm_last_unload_secs, mark_llm_unloaded,
    mark_stt_activity, mark_stt_unloaded, prepare_for_llm, still_idle, stt_last_unload_secs,
    unload_engine_after_batch, unload_stt_if_idle, EngineKind, EngineTimes, STT_IDLE_UNLOAD_SECS,
};
use talkkeeper_audio::recording_commands::{
    announced_devices, attempt_device_reconnect, can_enter_compact_mode, compact_mode_allowed,
    device_failure_message, effective_meeting_name, engine_for_stopping, get_reconnection_status,
    get_recording_state, get_transcription_status, is_recording, is_recording_active,
    is_recording_paused, meeting_name_now, set_microphone_muted, set_system_audio_muted,
    recording_live_transcription, recording_would_be_live, require_recording, resolve_device,
    segment_of_update, DeviceAnswers, DeviceError, DeviceEvent, DeviceEventResponse,
    DeviceMonitorType, DeviceOrigin, DeviceRole, DeviceStep, RecordingFlags, StopOutcome,
    TranscriptUpdate,
};
use talkkeeper_audio::recording_lifecycle::{
    mark_started, mark_stopped, start_failure_message, DeviceChoice, SaveOutcome, StartError,
    StartEvent, StartRun, StartStep, StopEvent, StopRun, StopStep,
};
use talkkeeper_audio::stream::Platform;
use talkkeeper_audio::recording_state::RecordingState;
use talkkeeper_audio::recording_saver::{
    bare_segment, begun_metadata, complete_metadata, ended_metadata, finished_tracks, initial_metadata, no_tracks, upsert_transcript_segment,
    RecordingSaver, SaveEvent, SaveRun, SaveStep, Track, TranscriptSegment,
};

#[test]
fn compact_mode_requires_an_active_non_stopping_recording() {
    assert!(compact_mode_allowed(true, false));
    assert!(!compact_mode_allowed(false, false));
    assert!(!compact_mode_allowed(true, true));
    assert!(!compact_mode_allowed(false, true));
}

#[test]
fn a_recording_is_what_its_flags_say() {
    let mut flags = RecordingFlags::new();
    assert!(!is_recording_active(&flags) && !is_recording(&flags));
    assert!(!can_enter_compact_mode(&flags));
    mark_started(&mut flags, true);
    assert!(is_recording_active(&flags));
    assert!(recording_live_transcription(&flags));
    assert!(can_enter_compact_mode(&flags));
    assert!(engine_for_stopping(&flags));
    assert!(get_transcription_status(&flags).is_processing);
    assert!(require_recording(&flags, true).is_ok());
    assert_eq!(require_recording(&flags, false).unwrap_err(), "No recording manager found");
    mark_stopped(&mut flags);
    assert!(!recording_live_transcription(&flags));
    assert_eq!(require_recording(&flags, true).unwrap_err(), "No recording is currently active");
    assert!(recording_would_be_live(None, false));
    assert!(!recording_would_be_live(Some(false), false));
    assert!(!recording_would_be_live(Some(true), true));
}

fn answers(
    parsed: Option<Result<(), &str>>,
    available: Option<Result<(), &str>>,
    fallback: Option<Result<(), &str>>,
) -> DeviceAnswers {
    let own = |answer: Option<Result<(), &str>>| answer.map(|r| r.map_err(str::to_string));
    DeviceAnswers { parsed: own(parsed), available: own(available), fallback: own(fallback) }
}

#[test]
fn a_device_is_the_named_one_or_the_default_or_an_error() {
    let (preference, request) = (DeviceOrigin::Preference, DeviceOrigin::Request);
    let (microphone, system) = (DeviceRole::Microphone, DeviceRole::System);
    let ask = |role, origin, named, known: DeviceAnswers| resolve_device(role, origin, named, &known);
    assert!(matches!(ask(microphone, preference, true, DeviceAnswers::new()), DeviceStep::Parse));
    assert!(matches!(ask(microphone, preference, false, DeviceAnswers::new()), DeviceStep::FindDefault));
    let parsed = || answers(Some(Ok(())), None, None);
    assert!(matches!(ask(microphone, preference, true, parsed()), DeviceStep::Check));
    let there = answers(Some(Ok(())), Some(Ok(())), None);
    assert!(matches!(ask(microphone, request, true, there), DeviceStep::UseNamed));
    let gone = answers(Some(Ok(())), Some(Err("x")), Some(Ok(())));
    assert!(matches!(ask(system, request, true, gone), DeviceStep::UseDefault));

    let message = |role, origin, named, known: DeviceAnswers| match resolve_device(role, origin, named, &known) {
        DeviceStep::Fail(error) => device_failure_message(&error, "Mic"),
        other => panic!("{other:?}"),
    };
    assert_eq!(
        message(microphone, preference, true, answers(Some(Ok(())), Some(Err("x")), Some(Err("e")))),
        "No microphone device available. Preferred device 'Mic' was not found, and the default microphone is unavailable: e"
    );
    assert_eq!(
        message(microphone, preference, true, answers(Some(Err("x")), None, Some(Err("e")))),
        "No microphone device available. Preferred device 'Mic' not found, and default microphone unavailable: e"
    );
    assert_eq!(
        message(microphone, preference, false, answers(None, None, Some(Err("e")))),
        "No microphone device available: e"
    );
    assert_eq!(
        message(microphone, request, true, answers(Some(Err("e")), None, None)),
        "Invalid microphone device 'Mic': e"
    );
    assert_eq!(
        message(system, request, true, answers(Some(Err("e")), None, None)),
        "Invalid system device 'Mic': e"
    );
    assert_eq!(
        message(microphone, request, true, answers(Some(Ok(())), Some(Err("x")), Some(Err("e")))),
        "Requested microphone 'Mic' is unavailable and no default microphone exists: e"
    );
    assert_eq!(
        message(microphone, request, false, answers(None, None, Some(Err("e")))),
        "No default microphone device available: e"
    );
    let nothing = answers(Some(Err("x")), None, Some(Err("e")));
    assert!(matches!(ask(system, preference, true, nothing), DeviceStep::Without));
}

#[test]
fn a_recording_starts_with_the_preferred_devices() {
    let flags = RecordingFlags::new();
    let mut run = StartRun::begin(&flags, Platform::Windows, DeviceOrigin::Preference, None, None).ok().unwrap();
    assert!(matches!(run.step(StartEvent::Engine(true)), StartStep::ValidateModel));
    assert!(matches!(run.step(StartEvent::Model(Ok(()))), StartStep::LoadPreferences));
    let preferences = Some((false, Some("Headset".to_string()), None));
    assert!(matches!(
        run.step(StartEvent::Preferences(preferences)),
        StartStep::AskMicrophone(DeviceStep::Parse)
    ));
    assert!(matches!(
        run.step(StartEvent::Device(Ok(()))),
        StartStep::AskMicrophone(DeviceStep::Check)
    ));
    assert!(matches!(
        run.step(StartEvent::Device(Err("unplugged".to_string()))),
        StartStep::AskMicrophone(DeviceStep::FindDefault)
    ));
    assert!(matches!(
        run.step(StartEvent::Device(Ok(()))),
        StartStep::AskSystem(DeviceStep::FindDefault)
    ));
    assert!(matches!(
        run.step(StartEvent::Device(Err("none".to_string()))),
        StartStep::OpenStreams(DeviceChoice::Default, DeviceChoice::Without, false)
    ));
    assert!(matches!(run.step(StartEvent::Streams(Ok(()))), StartStep::Announce(true)));
}

#[test]
fn a_recording_starts_with_the_requested_devices() {
    let flags = RecordingFlags::new();
    let mic = Some("Mic".to_string());
    let system = Some("Speakers".to_string());
    let mut run = StartRun::begin(&flags, Platform::Windows, DeviceOrigin::Request, mic, system).ok().unwrap();
    assert!(matches!(
        run.step(StartEvent::Engine(false)),
        StartStep::AskMicrophone(DeviceStep::Parse)
    ));
    run.step(StartEvent::Device(Ok(())));
    assert!(matches!(run.step(StartEvent::Device(Ok(()))), StartStep::AskSystem(DeviceStep::Parse)));
    run.step(StartEvent::Device(Ok(())));
    assert!(matches!(run.step(StartEvent::Device(Ok(()))), StartStep::LoadPreferences));
    assert!(matches!(
        run.step(StartEvent::Preferences(None)),
        StartStep::OpenStreams(DeviceChoice::Named, DeviceChoice::Named, true)
    ));
    let failed = run.step(StartEvent::Streams(Err("busy".to_string())));
    let error = match failed {
        StartStep::Fail(error) => error,
        other => panic!("{other:?}"),
    };
    assert_eq!(start_failure_message(&error, "Mic", "Speakers"), "Failed to start recording: busy");
    assert_eq!(
        announced_devices(DeviceOrigin::Request, Some("Mic".to_string()), None),
        ("Mic".to_string(), "Default System Audio".to_string())
    );
    assert_eq!(
        announced_devices(DeviceOrigin::Preference, Some("Mic".to_string()), None).0,
        "Default Microphone"
    );
}

#[test]
fn a_mac_captures_wherever_the_output_is_routed() {
    let flags = RecordingFlags::new();
    let system = Some("Speakers".to_string());
    let origin = DeviceOrigin::Request;
    let mut run = StartRun::begin(&flags, Platform::MacOs, origin, None, system).ok().unwrap();
    assert!(matches!(
        run.step(StartEvent::Engine(false)),
        StartStep::AskMicrophone(DeviceStep::FindDefault)
    ));
    assert!(matches!(
        run.step(StartEvent::Device(Ok(()))),
        StartStep::AskSystem(DeviceStep::FindDefault)
    ));
}

#[test]
fn each_source_is_muted_on_its_own() {
    let mut flags = RecordingFlags::new();
    let mut state = RecordingState::new();
    assert_eq!(
        set_microphone_muted(&flags, true, &mut state, true).unwrap_err(),
        "No recording is currently active"
    );
    assert!(!state.microphone_muted);
    mark_started(&mut flags, false);
    assert_eq!(
        set_system_audio_muted(&flags, false, &mut state, true).unwrap_err(),
        "No recording manager found"
    );
    assert_eq!(set_microphone_muted(&flags, true, &mut state, true), Ok(true));
    assert!(state.microphone_muted && !state.system_audio_muted);
    assert_eq!(set_system_audio_muted(&flags, true, &mut state, true), Ok(true));
    assert_eq!(set_microphone_muted(&flags, true, &mut state, false), Ok(false));
    assert!(!state.microphone_muted && state.system_audio_muted);
    state.paused = true;
    assert!(is_recording_paused(Some(state)));
    assert!(!is_recording_paused(None));
    let shown = get_recording_state(&flags, None);
    assert!(shown.is_recording && !shown.is_paused && shown.durations.total_pause == 0);
}

#[test]
fn a_start_that_cannot_be_says_why() {
    let mut flags = RecordingFlags::new();
    mark_started(&mut flags, false);
    let refused = StartRun::begin(&flags, Platform::Windows, DeviceOrigin::Request, None, None).err().unwrap();
    assert_eq!(start_failure_message(&refused, "", ""), "Recording already in progress");
    let model = StartError::Model("still downloading".to_string());
    assert_eq!(start_failure_message(&model, "", ""), "still downloading");
    let system = StartError::System(DeviceError::InvalidSystem("e".to_string()));
    assert_eq!(start_failure_message(&system, "m", "s"), "Invalid system device 's': e");
    let mic = StartError::Microphone(DeviceError::NoMicrophone("e".to_string()));
    assert_eq!(start_failure_message(&mic, "m", "s"), "No microphone device available: e");
}

#[test]
fn a_stop_always_completes() {
    let mut flags = RecordingFlags::new();
    assert_eq!(StopRun::begin(&mut flags).err(), Some(StopOutcome::AlreadyStopped));
    mark_started(&mut flags, true);
    let (mut run, first) = StopRun::begin(&mut flags).ok().unwrap();
    assert!(matches!(first, StopStep::StopStreams));
    assert_eq!(run.percent(), 20);
    assert_eq!(StopRun::begin(&mut flags).err(), Some(StopOutcome::AlreadyStopping));
    let step = run.step(StopEvent::Streams(Err("stuck".to_string())));
    assert!(matches!(step, StopStep::AwaitTranscripts));
    assert!(matches!(run.step(StopEvent::Transcripts), StopStep::Unlisten));
    assert!(matches!(run.step(StopEvent::Unlistened), StopStep::ReadProvider));
    assert_eq!(run.percent(), 70);
    assert!(matches!(
        run.step(StopEvent::Provider(Some("parakeet".to_string()))),
        StopStep::UnloadModel(EngineKind::Parakeet)
    ));
    assert!(matches!(run.step(StopEvent::Unloaded), StopStep::Save));
    let folder = Some("/r/m".to_string());
    let report = match run.step(StopEvent::Saved(SaveOutcome::TimedOut, folder, None)) {
        StopStep::Finish(report) => report,
        other => panic!("{other:?}"),
    };
    assert_eq!(
        report.audio_save_error.as_deref(),
        Some("Failed to stop audio streams cleanly: stuck; Audio save timed out after 5 minutes")
    );
    assert_eq!(report.folder_path, None, "a folder without a name is not announced");
    assert_eq!(run.percent(), 100);
    mark_stopped(&mut flags);
    assert_eq!(StopRun::begin(&mut flags).err(), Some(StopOutcome::AlreadyStopped));
}

#[test]
fn a_recording_that_was_only_sound_unloads_nothing() {
    let mut flags = RecordingFlags::new();
    mark_started(&mut flags, false);
    let (mut run, _) = StopRun::begin(&mut flags).ok().unwrap();
    run.step(StopEvent::Streams(Ok(())));
    run.step(StopEvent::Transcripts);
    assert!(matches!(run.step(StopEvent::Unlistened), StopStep::KeepModel));
    assert_eq!(run.percent(), 70);
    assert!(matches!(run.step(StopEvent::Unloaded), StopStep::Save));
    assert_eq!(run.progress(false).0, "finalizing");
    let (folder, name) = (Some("/r/m".to_string()), Some("Call".to_string()));
    match run.step(StopEvent::Saved(SaveOutcome::Saved, folder, name)) {
        StopStep::Finish(report) => {
            assert_eq!(report.audio_save_error, None);
            assert_eq!(report.folder_path.as_deref(), Some("/r/m"));
            assert_eq!(report.meeting_name.as_deref(), Some("Call"));
        }
        other => panic!("{other:?}"),
    }
}

#[test]
fn a_line_of_live_text_becomes_a_line_of_transcript() {
    let update = |source: &str| TranscriptUpdate {
        text: "words".to_string(),
        timestamp: "12:00".to_string(),
        source: source.to_string(),
        sequence_id: 42,
        confidence: 0.5f32.to_bits(),
        audio_start_time: 1.0f64.to_bits(),
        audio_end_time: 2.0f64.to_bits(),
        duration: 1.0f64.to_bits(),
    };
    let segment = segment_of_update(update("Guest"));
    assert_eq!(segment.id, "seg_42");
    assert_eq!(segment.display_time, "12:00");
    assert_eq!(segment.speaker.as_deref(), Some("Guest"));
    assert_eq!(segment_of_update(update("  ")).speaker, None);
    assert_eq!(effective_meeting_name(None, "2025-10-03_08-25-23"), "Meeting 2025-10-03_08-25-23");
    assert_eq!(meeting_name_now(Some("Call".to_string())), "Call");
    let now = meeting_name_now(None);
    assert!(now.starts_with("Meeting 2"));
    assert_eq!(now.len(), "Meeting 2025-10-03_08-25-23".len());
    for (written, form) in now.chars().zip("Meeting 0000-00-00_00-00-00".chars()) {
        assert!(written == form || (form == '0' && written.is_ascii_digit()), "{now}");
    }
}

#[test]
fn devices_that_come_and_go_are_reported_by_name() {
    let event = DeviceEvent::DeviceDisconnected {
        device_name: "AirPods".to_string(),
        device_type: DeviceMonitorType::SystemAudio,
    };
    match DeviceEventResponse::of(event) {
        DeviceEventResponse::DeviceDisconnected { device_name, device_type } => {
            assert_eq!((device_name.as_str(), device_type.as_str()), ("AirPods", "SystemAudio"));
        }
        other => panic!("{other:?}"),
    }
    assert!(matches!(
        DeviceEventResponse::of(DeviceEvent::DeviceListChanged),
        DeviceEventResponse::DeviceListChanged
    ));
    let lost = Some(("AirPods".to_string(), DeviceMonitorType::Microphone));
    let status = get_reconnection_status(true, true, lost);
    assert!(status.is_reconnecting);
    assert_eq!(status.disconnected_device.unwrap().device_type, "Microphone");
    assert!(!get_reconnection_status(false, true, None).is_reconnecting);
    assert_eq!(attempt_device_reconnect("Microphone", true), Ok(DeviceMonitorType::Microphone));
    assert_eq!(attempt_device_reconnect("Microphone", false).unwrap_err(), "Recording not active");
    assert_eq!(attempt_device_reconnect("Camera", false).unwrap_err(), "Invalid device type: Camera");
}

#[test]
fn recognition_is_unloaded_only_when_it_is_idle() {
    let mut times = EngineTimes::new();
    assert!(!unload_stt_if_idle(&times, 1_000, false), "it never worked");
    mark_stt_activity(&mut times, 1_000);
    assert!(!unload_stt_if_idle(&times, 1_000 + STT_IDLE_UNLOAD_SECS - 1, false));
    assert!(unload_stt_if_idle(&times, 1_000 + STT_IDLE_UNLOAD_SECS, false));
    assert!(!unload_stt_if_idle(&times, 1_000 + STT_IDLE_UNLOAD_SECS, true));
    assert!(!unload_stt_if_idle(&times, 5, false), "the clock went back");
    assert!(still_idle(&times, 1_120, false));
    mark_stt_unloaded(&mut times, 1_130);
    assert_eq!(stt_last_unload_secs(&times), 1_130);
    assert!(!unload_stt_if_idle(&times, 9_999, false));
    mark_llm_unloaded(&mut times, 7);
    assert_eq!(llm_last_unload_secs(&times), 7);
    assert_eq!(force_unload_stt(true).unwrap_err(), "Cannot unload while recording");
    assert_eq!(force_unload_all(true).unwrap_err(), "Cannot free memory while recording");
    assert!(force_unload_stt(false).is_ok() && force_unload_all(false).is_ok());
    mark_stt_activity(&mut times, 1_200);
    assert_eq!(unload_engine_after_batch(&mut times, 1_300, false, true), None);
    assert_eq!((times.stt_last_activity, stt_last_unload_secs(&times)), (1_200, 1_130));
    let parakeet = unload_engine_after_batch(&mut times, 1_300, true, false);
    assert_eq!(parakeet, Some(EngineKind::Parakeet));
    assert_eq!((times.stt_last_activity, stt_last_unload_secs(&times)), (0, 1_300));
    let whisper = unload_engine_after_batch(&mut times, 1_400, false, false);
    assert_eq!(whisper, Some(EngineKind::Whisper));
    assert_eq!(stt_last_unload_secs(&times), 1_400);
    assert_eq!(dir_size_bytes(&vec![1, 2, 3]), 6);
    assert_eq!(dir_size_bytes(&vec![u64::MAX, 2]), u64::MAX);
}

fn segment(text: &str) -> TranscriptSegment {
    TranscriptSegment {
        id: "seg_1".to_string(),
        text: text.to_string(),
        audio_start_time: 1.0f64.to_bits(),
        audio_end_time: 2.0f64.to_bits(),
        duration: 1.0f64.to_bits(),
        display_time: "[00:01]".to_string(),
        confidence: 0.9f32.to_bits(),
        sequence_id: 1,
        speaker: Some("You".to_string()),
    }
}

#[test]
fn detached_transcript_handle_updates_recording_saver() {
    let mut saver = RecordingSaver::new();
    upsert_transcript_segment(&mut saver.transcript_segments, segment("first"));
    upsert_transcript_segment(&mut saver.transcript_segments, segment("updated"));

    assert_eq!(saver.transcript_segments.len(), 1);
    assert_eq!(saver.transcript_segments[0].text, "updated");
    assert!(!saver.add_transcript_segment(segment("again")), "there is no folder to write to");
    assert_eq!(saver.transcript_segments[0].text, "again");
}

#[test]
fn a_recording_needs_a_name_before_it_takes_audio() {
    let mut saver = RecordingSaver::new();
    assert_eq!(
        saver.start_accumulation("/default").unwrap_err(),
        "Meeting name is required before recording starts"
    );
    saver.set_meeting_name(Some("Call".to_string()));
    assert_eq!(saver.start_accumulation("/default").unwrap(), ("/default".to_string(), "Call".to_string()));
    saver.set_recordings_folder("/r".to_string());
    assert_eq!(saver.start_accumulation("/default").unwrap().0, "/r");
    let metadata = initial_metadata("Call", "now".to_string(), true);
    assert_eq!(metadata.mic_audio_file.as_deref(), Some("mic.mp4"));
    assert_eq!(metadata.status, "recording");
    assert!(!saver.set_device_info(None, None));
    saver.accumulating(true, "/r/rec-1".to_string(), metadata);
    assert!(saver.is_saving && saver.saving_audio);
    assert!(saver.set_device_info(Some("Mic".to_string()), None));
    assert_eq!(saver.metadata.as_ref().unwrap().devices.microphone.as_deref(), Some("Mic"));
    let (run, step) = saver.stop_and_save(true);
    assert!(matches!(step, SaveStep::AwaitTracks));
    assert!(run.has_folder && run.has_metadata && !saver.is_saving);
    saver.saved();
    assert!(saver.transcript_segments.is_empty());
}

#[test]
fn a_recording_is_saved_step_by_step() {
    let (mut run, _) = SaveRun::begin(true, true, true, true);
    let tracks = finished_tracks(Some("/r/audio.mp4".to_string()), Some("/r/mic.mp4".to_string()), None);
    assert!(matches!(run.step(SaveEvent::Tracks(Some(tracks))), SaveStep::WriteTranscripts));
    assert!(matches!(run.step(SaveEvent::Written(Ok(()))), SaveStep::CheckTranscripts));
    assert!(matches!(run.step(SaveEvent::Present(true)), SaveStep::WriteMetadata));
    assert!(matches!(run.step(SaveEvent::Written(Ok(()))), SaveStep::Saved(Some(path)) if path == "/r/audio.mp4"));

    let done = complete_metadata(
        initial_metadata("Call", "then".to_string(), true),
        "now".to_string(),
        run.mic.as_deref(),
        run.system.as_deref(),
        None,
        &vec![segment("x")],
    );
    assert_eq!(done.status, "completed");
    assert_eq!(done.mic_audio_file.as_deref(), Some("mic.mp4"));
    assert_eq!(done.system_audio_file, None);
    assert_eq!(done.duration_seconds, Some(2.0f64.to_bits()));
    assert_eq!(done.created_at, "then");
}

#[test]
fn a_recording_that_cannot_be_saved_says_why() {
    let fail = |step: SaveStep| match step {
        SaveStep::Fail(reason) => reason,
        other => panic!("{other:?}"),
    };
    assert_eq!(fail(SaveRun::begin(true, true, true, false).1), "No track writer was started");
    assert!(matches!(SaveRun::begin(false, false, false, false).1, SaveStep::Saved(None)));
    let (mut run, _) = SaveRun::begin(true, true, true, true);
    assert_eq!(fail(run.step(SaveEvent::Tracks(None))), "The track writer stopped without reporting");
    let (mut run, _) = SaveRun::begin(true, true, true, true);
    assert_eq!(
        fail(run.step(SaveEvent::Tracks(Some(finished_tracks(None, None, None))))),
        "The recording could not be written"
    );
    let (mut run, _) = SaveRun::begin(true, true, true, true);
    assert_eq!(fail(run.step(SaveEvent::Tracks(Some(no_tracks())))), "Audio saving was not enabled");
    let (mut run, step) = SaveRun::begin(false, true, true, false);
    assert!(matches!(step, SaveStep::WriteTranscripts));
    assert_eq!(
        fail(run.step(SaveEvent::Written(Err("disk".to_string())))),
        "Failed to save final transcripts: disk"
    );
    let path = || finished_tracks(Some("p".to_string()), None, None);
    let (mut run, _) = SaveRun::begin(true, true, true, true);
    run.step(SaveEvent::Tracks(Some(path())));
    assert_eq!(
        fail(run.step(SaveEvent::Written(Err("disk".to_string())))),
        "Failed to save transcripts: disk"
    );
    let (mut run, _) = SaveRun::begin(true, true, true, true);
    run.step(SaveEvent::Tracks(Some(path())));
    run.step(SaveEvent::Written(Ok(())));
    assert_eq!(fail(run.step(SaveEvent::Present(false))), "Transcript file verification failed");
    let (mut run, _) = SaveRun::begin(true, true, true, true);
    run.step(SaveEvent::Tracks(Some(path())));
    run.step(SaveEvent::Written(Ok(())));
    run.step(SaveEvent::Present(true));
    assert_eq!(
        fail(run.step(SaveEvent::Written(Err("disk".to_string())))),
        "Failed to update metadata: disk"
    );
    assert_eq!(Track::Mixed.name(), "audio");
    assert_eq!(Track::System.path_in("/r"), "/r/system.mp4");
}

#[test]
fn recognition_makes_room_unless_a_recording_runs() {
    assert!(prepare_for_llm(false));
    assert!(!prepare_for_llm(true));
}

#[test]
fn a_line_of_which_only_the_text_is_known() {
    let line = bare_segment("Hello".to_string(), 1_700_000_000_123);
    assert_eq!(line.id, "seg_1700000000123");
    assert_eq!(line.text, "Hello");
    assert_eq!(line.display_time, "[00:00]");
    assert_eq!(f32::from_bits(line.confidence), 1.0);
    assert_eq!(line.sequence_id, 0);
    assert!(line.speaker.is_none());
    assert_eq!(bare_segment(String::new(), -5).id, "seg_-5");
    assert_eq!(bare_segment(String::new(), i64::MIN).id, "seg_-9223372036854775808");

    let mut saver = RecordingSaver::new();
    assert!(saver.get_meeting_folder().is_none());
    assert!(!saver.add_transcript_chunk("one".to_string()));
    assert!(!saver.add_transcript_chunk("two".to_string()));
    saver.set_meeting_name(Some("Weekly".to_string()));
    assert_eq!(saver.get_meeting_name().map(|name| name.as_str()), Some("Weekly"));
    let lines = saver.get_transcript_segments();
    assert_eq!(lines.len(), 1);
    assert_eq!(lines[0].text, "two");
    // The number is a moment of this century.
    let number: i64 = lines[0].id["seg_".len()..].parse().unwrap();
    assert!(number > 1_600_000_000_000);
}

#[test]
fn a_description_says_when_the_recording_began_and_ended() {
    let begun = begun_metadata("Weekly", false);
    assert!(begun.created_at.starts_with('2') && begun.created_at.ends_with("+00:00"));
    assert_eq!((begun.status.as_str(), begun.audio_file.as_str()), ("recording", ""));
    let created = begun.created_at.clone();
    let done = ended_metadata(begun, None, Some("/r/m/system.mp4"), None, &Vec::new());
    assert_eq!(done.created_at, created);
    assert!(done.completed_at.unwrap().contains('T'));
    assert_eq!(done.system_audio_file.as_deref(), Some("system.mp4"));
    assert_eq!((done.status.as_str(), done.duration_seconds), ("completed", None));
}
