use talkkeeper_audio::capture::{
    classify_send_error, handle_stream_error, resampler_plan, AudioCapture, BlockStep,
    ResamplerPlan,
};
use talkkeeper_audio::mixer::mixing_window_samples;
use talkkeeper_audio::own_speech::MS;
use talkkeeper_audio::pipeline::{
    enqueue_source_speech, flush_signals, vad_thresholds_for, AudioPipeline,
};
use talkkeeper_audio::pipeline_run::{PipelineEvent, PipelineRun, PipelineStage};
use talkkeeper_audio::recording_state::{AudioChunk, AudioError, DeviceType, RecordingState};
use talkkeeper_audio::stream::{
    build_stream, stream_plan, AudioCaptureBackend, AudioStreamManager, Platform, SampleFormat,
    StreamPlan, TapBuffer, TapEvent, TapStep,
};
use talkkeeper_audio::vad::SpeechSegment;
use talkkeeper_audio::wasapi_comms::{Format, SampleKind};

fn recording() -> RecordingState {
    let mut state = RecordingState::new();
    state.recording = true;
    state
}

/// A block of a device that already runs at the pipeline's rate.
fn process(
    capture: &mut AudioCapture<f32>,
    state: &RecordingState,
    data: Vec<f32>,
) -> Option<AudioChunk<f32>> {
    let muted = capture.admission(state)?;
    process_block(capture, state, data, muted)
}

fn process_block(
    capture: &mut AudioCapture<f32>,
    state: &RecordingState,
    data: Vec<f32>,
    muted: bool,
) -> Option<AudioChunk<f32>> {
    match capture.begin_block(data, muted, 0.0) {
        BlockStep::Enhance(samples) | BlockStep::HandOn(samples) => {
            Some(capture.finish_block(samples, muted, state, 0, 0.0))
        }
        _ => None,
    }
}

#[test]
fn muted_microphone_capture_sends_aligned_silence() {
    let mut state = recording();
    state.microphone_muted = true;
    let mut capture = AudioCapture::new(DeviceType::Microphone, 48_000, false);

    let chunk = process(&mut capture, &state, vec![0.5; 1_024]).expect("muted mic chunk");
    assert_eq!(chunk.data.len(), 1_024);
    assert!(chunk.data.iter().all(|sample| *sample == 0.0));
    assert_eq!(chunk.device_type, DeviceType::Microphone);
}

#[test]
fn muted_system_capture_sends_aligned_silence() {
    let mut state = recording();
    state.system_audio_muted = true;
    let mut capture = AudioCapture::new(DeviceType::System, 48_000, false);

    let chunk = process(&mut capture, &state, vec![0.5; 1_024]).expect("muted system chunk");
    assert_eq!(chunk.data.len(), 1_024);
    assert!(chunk.data.iter().all(|sample| *sample == 0.0));
    assert_eq!(chunk.device_type, DeviceType::System);
}

#[test]
fn paused_capture_records_nothing() {
    let mut state = recording();
    let mut capture = AudioCapture::new(DeviceType::Microphone, 48_000, false);

    state.paused = true;
    assert!(process(&mut capture, &state, vec![0.5; 1_024]).is_none(), "a paused recording kept audio");

    state.paused = false;
    let chunk = process(&mut capture, &state, vec![0.5; 1_024]).expect("resumed capture");
    assert_eq!(chunk.data.len(), 1_024);
    assert_eq!(chunk.data, vec![0.5; 1_024]);
    assert_eq!(chunk.chunk_id, 0);
    assert_eq!(capture.chunk_counter, 1);
}

#[test]
fn admission_is_decided_at_capture_and_the_mute_travels_with_the_block() {
    let mut state = RecordingState::new();
    let mut capture = AudioCapture::new(DeviceType::Microphone, 48_000, false);

    assert_eq!(capture.admission(&state), None, "nothing is admitted before recording");
    state.recording = true;
    assert_eq!(capture.admission(&state), Some(false));
    state.microphone_muted = true;
    let muted = capture.admission(&state);
    assert_eq!(muted, Some(true));
    state.paused = true;
    assert_eq!(capture.admission(&state), None, "nothing is admitted while paused");
    state.paused = false;

    state.microphone_muted = false;
    let chunk = process_block(&mut capture, &state, vec![0.5; 1_024], muted.unwrap()).unwrap();
    assert!(chunk.data.iter().all(|sample| *sample == 0.0));
}

#[test]
fn a_mute_that_comes_late_still_silences_the_block() {
    let mut state = recording();
    let mut capture: AudioCapture<f32> = AudioCapture::new(DeviceType::Microphone, 48_000, false);
    state.microphone_muted = true;
    let chunk = capture.finish_block(vec![0.5; 8], false, &state, 9, 0.0);
    assert_eq!(chunk.data, vec![0.0; 8]);
    assert_eq!(chunk.timestamp, 9);
}

#[test]
fn the_resampler_is_fed_whole_chunks_and_loses_nothing() {
    let mut capture: AudioCapture<u32> = AudioCapture::new(DeviceType::System, 16_000, true);
    let first: Vec<u32> = (0..320).collect();
    assert!(matches!(capture.begin_block(first, false, 0), BlockStep::Wait));
    let second: Vec<u32> = (320..1_344).collect();
    let chunk = match capture.begin_block(second, false, 0) {
        BlockStep::Resample(chunk) => chunk,
        other => panic!("{other:?}"),
    };
    assert_eq!(chunk, (0..512).collect::<Vec<u32>>());
    let chunk = match capture.resampled(Ok(vec![7, 7])) {
        BlockStep::Resample(chunk) => chunk,
        other => panic!("{other:?}"),
    };
    assert_eq!(chunk, (512..1_024).collect::<Vec<u32>>());
    let done = match capture.resampled(Ok(vec![8])) {
        BlockStep::HandOn(samples) => samples,
        other => panic!("{other:?}"),
    };
    assert_eq!(done, vec![7, 7, 8]);
    assert_eq!(capture.waiting, (1_024..1_344).collect::<Vec<u32>>());
    let chunk = capture.finish_block(done, false, &recording(), 0, 0);
    assert_eq!(chunk.sample_rate, 48_000);
}

#[test]
fn a_failed_resampler_leaves_the_block_to_be_converted_alone() {
    let mut capture: AudioCapture<u8> = AudioCapture::new(DeviceType::Microphone, 44_100, true);
    assert!(matches!(capture.begin_block(vec![1; 512], false, 0), BlockStep::Resample(_)));
    assert!(matches!(capture.resampled(Err(())), BlockStep::ConvertAlone(block) if block == vec![1; 512]));
    assert!(matches!(capture.converted_alone(vec![2]), BlockStep::Enhance(done) if done == vec![2]));

    let mut without: AudioCapture<u8> = AudioCapture::new(DeviceType::Microphone, 44_100, false);
    assert!(matches!(without.begin_block(vec![1; 3], true, 0), BlockStep::ConvertAlone(block) if block == vec![0; 3]));
}

#[test]
fn the_filter_grows_with_the_distance_of_the_rates() {
    let plan = |sinc_len, cubic, oversampling| Some(ResamplerPlan { sinc_len, cubic, oversampling });
    assert_eq!(resampler_plan(48_000), None);
    assert_eq!(resampler_plan(16_000), plan(512, true, 512));
    assert_eq!(resampler_plan(24_000), plan(512, true, 512));
    assert_eq!(resampler_plan(32_000), plan(384, true, 384));
    assert_eq!(resampler_plan(44_100), plan(256, false, 256));
    assert_eq!(resampler_plan(88_200), plan(384, false, 384));
    assert_eq!(resampler_plan(96_000), plan(512, true, 512));
}

#[test]
fn errors_are_told_apart_by_what_they_say() {
    assert_eq!(classify_send_error("Audio pipeline not ready"), None);
    assert_eq!(classify_send_error("channel closed"), Some(AudioError::ChannelClosed));
    assert_eq!(classify_send_error("buffer full"), Some(AudioError::BufferOverflow));
    assert_eq!(classify_send_error("?"), Some(AudioError::ProcessingFailed));
    assert_eq!(
        handle_stream_error("The requested DEVICE is no longer available"),
        AudioError::DeviceDisconnected
    );
    assert_eq!(handle_stream_error("Access Denied"), AudioError::PermissionDenied);
    assert_eq!(handle_stream_error("channel closed"), AudioError::ChannelClosed);
    assert_eq!(handle_stream_error("whatever"), AudioError::StreamFailed);
}

fn speech(samples: usize, start_ms: u64, end_ms: u64) -> SpeechSegment<f32> {
    SpeechSegment {
        samples: vec![0.25; samples],
        start_timestamp_ms: start_ms * MS,
        end_timestamp_ms: end_ms * MS,
        confidence: 0.8f32.to_bits(),
    }
}

#[test]
fn completed_vad_segments_are_queued() {
    let mut queue = Vec::new();
    let mut chunk_id = 0;
    enqueue_source_speech(
        vec![speech(1_600, 1_000, 1_100)],
        DeviceType::Microphone,
        true,
        &mut queue,
        &mut chunk_id,
    );
    let segment = queue.first().expect("completed speech should be queued");
    assert!(!segment.data.is_empty());
    assert_eq!(chunk_id, 1);
    assert_eq!(segment.timestamp, 1_000 * MS);
    assert_eq!(segment.sample_rate, 16_000);
}

#[test]
fn a_segment_too_short_to_recognise_is_left_out() {
    let mut queue = Vec::new();
    let mut chunk_id = 5;
    let segments = vec![speech(799, 0, 50), speech(800, 50, 100)];
    enqueue_source_speech(segments, DeviceType::System, true, &mut queue, &mut chunk_id);
    assert_eq!(queue.len(), 1);
    assert_eq!(queue[0].chunk_id, 5);
    assert_eq!(queue[0].device_type, DeviceType::System);
    assert_eq!(chunk_id, 6);
    let late = vec![speech(800, 50, 100)];
    enqueue_source_speech(late, DeviceType::System, false, &mut queue, &mut chunk_id);
    assert_eq!((queue.len(), chunk_id), (1, 6), "nobody takes it any more");
}

fn pipeline() -> AudioPipeline<f32> {
    AudioPipeline::new(48_000, "Microphone", "Speakers", true, true, 0, 0.0)
}

#[test]
fn a_source_that_falls_silent_ends_its_speech() {
    let mut pipeline = pipeline();
    let ms = 1_000_000;
    let first = pipeline.arrival(DeviceType::Microphone, 0, 100 * ms, false);
    assert!(!first.finalize_mic && !first.finalize_system && !first.flush);
    let later = pipeline.arrival(DeviceType::Microphone, 1, 850 * ms, false);
    assert!(!later.finalize_mic);
    assert!(later.finalize_system);
    assert_eq!(pipeline.finalize_inactive_speech(5_000 * ms, true), (false, false));
    assert_eq!(pipeline.processed_chunks, 2);
    for id in flush_signals() {
        assert!(pipeline.arrival(DeviceType::Microphone, id, 900 * ms, false).flush);
    }
    assert_eq!(pipeline.processed_chunks, 2);
}

#[test]
fn the_meters_are_read_twenty_five_times_a_second() {
    let mut pipeline = pipeline();
    let ms = 1_000_000;
    assert_eq!(pipeline.level_due(DeviceType::System, 480, 39 * ms), None);
    pipeline.note_limiter(true);
    pipeline.note_limiter(false);
    assert_eq!(pipeline.level_due(DeviceType::Microphone, 480, 40 * ms), Some(false));
    assert_eq!(pipeline.level_due(DeviceType::System, 0, 40 * ms), None);
    assert_eq!(pipeline.level_due(DeviceType::System, 480, 40 * ms), Some(true));
    assert_eq!(pipeline.level_due(DeviceType::System, 480, 80 * ms), Some(false));
}

#[test]
fn the_echo_belongs_to_whoever_cancels_it_now() {
    let mut pipeline = pipeline();
    assert!(pipeline.has_canceller);
    // The stream has not opened yet: nobody else is cancelling.
    assert_eq!(pipeline.cancel_echo(false), (true, true));
    assert_eq!(pipeline.cancel_echo(false), (true, false));
    // It opens in communications mode, and from here the system has it.
    assert_eq!(pipeline.cancel_echo(true), (false, true));
    assert_eq!(pipeline.echo_left_to_windows, Some(true));

    let alone: AudioPipeline<f32> =
        AudioPipeline::new(48_000, "Microphone", "No System Audio", true, true, 0, 0.0);
    assert!(!alone.has_canceller);
    assert_eq!(vad_thresholds_for(DeviceType::Microphone), (20, 10));
    assert_eq!(vad_thresholds_for(DeviceType::System), (50, 35));
}

/// One window of far-end sound and the echo it leaves in the microphone.
fn echo_window(index: usize) -> (Vec<f32>, Vec<f32>) {
    let samples = mixing_window_samples(48_000);
    let start = index * samples;
    let far: Vec<f32> = (0..samples)
        .map(|offset| {
            let t = (start + offset) as f32 / 48_000.0;
            (t * 440.0 * std::f32::consts::TAU).sin() * 0.5
        })
        .collect();
    let mic: Vec<f32> = far.iter().map(|s| s * 0.35).collect();
    (mic, far)
}

/// A canceller that takes the played sound out, where the pipeline asks for it.
fn cancel_echo_window(
    pipeline: &mut AudioPipeline<f32>,
    system_is_cancelling: bool,
    mic: Vec<f32>,
    far: &[f32],
) -> Vec<f32> {
    if pipeline.cancel_echo(system_is_cancelling).0 {
        mic.iter().zip(far).map(|(heard, played)| heard - played * 0.35).collect()
    } else {
        mic
    }
}

#[test]
fn windows_cancelling_leaves_the_microphone_untouched() {
    let mut pipeline = pipeline();
    for index in 0..10 {
        let (mic, far) = echo_window(index);
        let out = cancel_echo_window(&mut pipeline, true, mic.clone(), &far);
        assert_eq!(out, mic, "window {index} came back changed");
    }
}

#[test]
fn our_canceller_runs_when_windows_does_not() {
    let mut pipeline = pipeline();
    let mut changed = false;
    for index in 0..10 {
        let (mic, far) = echo_window(index);
        let out = cancel_echo_window(&mut pipeline, false, mic.clone(), &far);
        changed |= out != mic;
    }
    assert!(changed, "the microphone came back untouched with nobody else cancelling");
}

#[test]
fn the_answer_is_taken_per_window_not_once_at_the_start() {
    let mut pipeline = pipeline();
    for index in 0..4 {
        let (mic, far) = echo_window(index);
        let _ = cancel_echo_window(&mut pipeline, false, mic, &far);
    }
    assert_eq!(pipeline.echo_left_to_windows, Some(false));
    for index in 4..8 {
        let (mic, far) = echo_window(index);
        let out = cancel_echo_window(&mut pipeline, true, mic.clone(), &far);
        assert_eq!(out, mic, "window {index} was cancelled twice");
    }
    assert_eq!(pipeline.echo_left_to_windows, Some(true));
}

#[test]
fn what_the_speakers_said_is_not_the_owners() {
    let mut pipeline = pipeline();
    for _ in 0..20 {
        pipeline.observe_window(Some(false), true);
    }
    for _ in 0..20 {
        pipeline.observe_window(Some(true), true);
    }
    let segments = || vec![speech(16_000, 0, 1_000), speech(16_000, 1_000, 2_000)];
    assert_eq!(pipeline.without_the_speakers(segments(), false).len(), 2);
    let kept = pipeline.without_the_speakers(segments(), true);
    assert_eq!(kept.len(), 1);
    assert_eq!(kept[0].start_timestamp_ms, 1_000 * MS);
    assert_eq!(pipeline.echo_segments_dropped, 1);
}

#[test]
fn a_break_is_left_unanswered_in_both_timelines() {
    let mut pipeline = pipeline();
    pipeline.observe_window(Some(true), true);
    pipeline.skip_break(1_000 * MS);
    assert_eq!(pipeline.own_speech_timeline.len(), 20);
    assert_eq!(pipeline.far_end_timeline.len(), 20);
}

#[test]
fn a_block_that_shows_a_break_says_where_the_stream_goes_on() {
    let mut pipeline: AudioPipeline<f32> =
        AudioPipeline::new(10, "Microphone", "No System Audio", true, true, 0, 0.0);
    let second = 1_000_000_000;
    assert_eq!(pipeline.add_chunk(DeviceType::Microphone, vec![1.0; 2], second / 5, None), None);
    let mut broke = None;
    for step in 0..12u64 {
        let clock = 60 * second + (step + 1) * second / 5;
        let until = pipeline.add_chunk(DeviceType::Microphone, vec![3.0; 2], clock, Some((true, false)));
        broke = broke.or(until);
    }
    assert_eq!(broke, Some(62 * second));
    assert_eq!(pipeline.ring_buffer.timeline_resets, 1);
}

fn block(device_type: DeviceType, chunk_id: u64, data: Vec<f32>, timestamp: u64) -> AudioChunk<f32> {
    AudioChunk { data, sample_rate: 1_000, timestamp, chunk_id, device_type }
}

/// Answers everything a run asks for, until it waits or has ended.
fn drive(run: &mut PipelineRun<f32>, detector_open: bool, heard: &mut Vec<&'static str>) {
    loop {
        let event = match run.stage {
            PipelineStage::Wait | PipelineStage::Ended => return,
            PipelineStage::EndSilent { .. } | PipelineStage::EndBroken { .. } => {
                PipelineEvent::SpeechEnded { mic: None, system: None }
            }
            PipelineStage::Gain => {
                heard.push("gain");
                let samples = run.block.iter().map(|sample| sample * 2.0).collect();
                PipelineEvent::Gained { samples, limited: true }
            }
            PipelineStage::Sources => PipelineEvent::Sources { now: 50_000_000, active: None },
            PipelineStage::Meter { limited } => {
                heard.push(if limited { "meter, limited" } else { "meter" });
                PipelineEvent::Done
            }
            PipelineStage::MoveOn { .. } => PipelineEvent::Done,
            PipelineStage::Observe => PipelineEvent::Observed {
                own_speech: Some(false),
                far_end: true,
                system_is_cancelling: false,
            },
            PipelineStage::Cancel => {
                heard.push("cancel");
                PipelineEvent::Cancelled { mic: vec![9.0; run.mic_window.len()] }
            }
            PipelineStage::Hear => PipelineEvent::Heard {
                mic: vec![speech(800, 0, 1_000)],
                system: vec![speech(800, 0, 50)],
            },
            PipelineStage::Mix => PipelineEvent::Mixed { samples: vec![7.0; run.mic_window.len()] },
            PipelineStage::Flush => {
                heard.push("flush");
                PipelineEvent::Heard { mic: vec![], system: vec![speech(900, 60, 90)] }
            }
            PipelineStage::Finish => {
                heard.push("finish");
                PipelineEvent::Done
            }
        };
        assert!(run.has_room(&event));
        run.step(event, true, detector_open);
    }
}

#[test]
fn a_window_goes_through_the_whole_pipeline() {
    let pipeline: AudioPipeline<f32> =
        AudioPipeline::new(1_000, "Microphone", "Speakers", true, true, 0, 0.0);
    let mut run = PipelineRun::new(pipeline, true, true);
    let mut done = Vec::new();
    let clock = 60_000_000;
    let mic = block(DeviceType::Microphone, 0, vec![1.0; 60], clock);
    run.step(PipelineEvent::Block { block: mic, now: 10, paused: false }, true, false);
    drive(&mut run, false, &mut done);
    assert_eq!(done, vec!["meter"], "one source is not a window yet");
    assert!(run.tracks.is_empty());

    let system = block(DeviceType::System, 0, vec![2.0; 60], clock);
    run.step(PipelineEvent::Block { block: system, now: 20, paused: false }, true, false);
    drive(&mut run, false, &mut done);
    assert_eq!(done[1..], ["gain", "meter, limited", "cancel"]);
    assert_eq!(run.tracks.len(), 3);
    assert_eq!(run.tracks[0].data, vec![9.0; 50], "without the echo");
    assert_eq!(run.tracks[1].data, vec![4.0; 50], "with the gain");
    assert_eq!(run.tracks[2].data, vec![7.0; 50]);
    assert!(run.tracks.iter().all(|track| track.timestamp == clock && track.chunk_id == 2));
    assert_eq!(run.speech.len(), 2);
    assert_eq!(run.speech[0].device_type, DeviceType::Microphone);
    assert_eq!(run.speech[1].chunk_id, 1);

    run.step(PipelineEvent::Closed, true, false);
    drive(&mut run, false, &mut done);
    assert_eq!(run.stage, PipelineStage::Ended);
    assert_eq!(run.tracks.len(), 6);
    assert_eq!(run.tracks[3].data.len(), 10, "the rest of both");
    assert_eq!(run.tracks[3].timestamp, 0);
    assert_eq!(done.iter().filter(|step| **step == "flush").count(), 1);
    assert_eq!(done.last(), Some(&"finish"));
    assert_eq!(run.pipeline.own_speech_timeline.len(), 2);
    assert_eq!(run.pipeline.processed_chunks, 2);
}

#[test]
fn a_flush_hands_out_what_is_left_and_goes_on() {
    let pipeline: AudioPipeline<f32> =
        AudioPipeline::new(1_000, "Microphone", "No System Audio", true, true, 0, 0.0);
    let mut run = PipelineRun::new(pipeline, false, false);
    let mut done = Vec::new();
    let mic = block(DeviceType::Microphone, 0, vec![1.0; 20], 20_000_000);
    run.step(PipelineEvent::Block { block: mic, now: 10, paused: false }, true, true);
    drive(&mut run, true, &mut done);
    assert!(run.speech.is_empty());
    let flush = block(DeviceType::Microphone, u64::MAX, vec![], 0);
    run.step(PipelineEvent::Block { block: flush, now: 10, paused: false }, true, true);
    drive(&mut run, true, &mut done);
    assert_eq!(run.stage, PipelineStage::Wait);
    assert_eq!(done, vec!["flush"]);
    assert!(run.tracks.is_empty(), "nothing is kept");
    assert_eq!(run.speech.len(), 3, "too short to be only an echo");
    run.step(PipelineEvent::Quiet { now: 900_000_000, paused: false }, true, true);
    assert!(matches!(run.stage, PipelineStage::EndSilent { mic: true, system: true, .. }));
}

#[test]
fn streams_are_opened_as_the_owner_wishes() {
    let backend = AudioCaptureBackend::CoreAudio;
    let plan = |platform, device, cancel, detect| stream_plan(platform, device, backend, cancel, detect);
    assert_eq!(
        plan(Platform::Windows, DeviceType::Microphone, true, false),
        StreamPlan::CommunicationsFirst
    );
    assert_eq!(
        plan(Platform::Windows, DeviceType::Microphone, true, true),
        StreamPlan::OrdinaryWithDetector
    );
    assert_eq!(plan(Platform::Windows, DeviceType::System, true, true), StreamPlan::Ordinary);
    assert_eq!(plan(Platform::MacOs, DeviceType::System, true, true), StreamPlan::CoreAudio);
    assert_eq!(plan(Platform::Other, DeviceType::Microphone, true, true), StreamPlan::Ordinary);
    assert_eq!(build_stream(SampleFormat::I16, "I16"), Ok(32_767));
    assert_eq!(build_stream(SampleFormat::Other, "U16").unwrap_err(), "Unsupported sample format: U16");
}

#[test]
fn a_recording_goes_on_with_whatever_streams_open() {
    let mut manager = AudioStreamManager::new();
    assert!(manager.microphone_opened(Some(Ok(()))).is_ok());
    assert!(manager.system_opened(Some(Err("no loopback".to_string()))).is_ok());
    assert_eq!(manager.active_stream_count(), 1);
    assert!(manager.has_active_streams());
    let errors = manager.stop_streams(Err("stuck".to_string()), Err("never opened".to_string()));
    assert_eq!(errors, vec!["stuck".to_string()]);
    assert!(!manager.has_active_streams());

    let mut none = AudioStreamManager::new();
    assert_eq!(none.microphone_opened(Some(Err("gone".to_string()))).unwrap_err(), "gone");
    assert_eq!(none.system_opened(None).unwrap_err(), "No audio streams could be created");
}

#[test]
fn a_tapped_stream_is_collected_into_blocks() {
    let mut tap: TapBuffer<u16> = TapBuffer::new(48_000);
    for index in 0..1_023u16 {
        assert!(matches!(tap.step(TapEvent::Sample(index, 48_000), true), TapStep::Next));
    }
    match tap.step(TapEvent::Sample(1_023, 48_000), true) {
        TapStep::Block(block) => assert_eq!(block, (0..1_024).collect::<Vec<u16>>()),
        other => panic!("{other:?}"),
    }
    tap.step(TapEvent::Sample(9, 48_000), true);
    match tap.step(TapEvent::Sample(9, 44_100), true) {
        TapStep::Fail(error, rest) => {
            assert_eq!(rest, vec![9]);
            assert_eq!(error, AudioError::SampleRateUnsupported);
        }
        other => panic!("{other:?}"),
    }
    assert!(matches!(tap.step(TapEvent::End, false), TapStep::Stop(_, None)));
    assert!(matches!(
        tap.step(TapEvent::End, true),
        TapStep::Stop(_, Some(AudioError::ChannelClosed))
    ));
    assert!(matches!(
        tap.step(TapEvent::Silent, false),
        TapStep::Fail(AudioError::ChannelClosed, _)
    ));
}

fn frame_to_mono(format: &Format, samples: &[f32], frame: usize) -> f32 {
    let (from, to) = format.frame_range(frame);
    samples[from..to].iter().sum::<f32>() / format.channels as f32
}

#[test]
fn a_frame_is_averaged_across_channels() {
    let format = Format { sample_rate: 48_000, channels: 2, bits: 32, float: true };
    assert_eq!(format.sample_kind(), SampleKind::Float32);
    let samples: [f32; 4] = [0.0, 1.0, 0.5, 0.5];
    let mixed = frame_to_mono(&format, &samples, 0);
    assert!((mixed - 0.5).abs() < 1e-6, "got {mixed}");
    let second = frame_to_mono(&format, &samples, 1);
    assert!((second - 0.5).abs() < 1e-6, "got {second}");
}

#[test]
fn sixteen_bit_frames_are_scaled_to_unit_range() {
    let format = Format { sample_rate: 48_000, channels: 1, bits: 16, float: false };
    assert_eq!(format.sample_kind(), SampleKind::Int16);
    let samples: [i16; 2] = [16384, -32768];
    let scaled: Vec<f32> = samples.iter().map(|sample| *sample as f32 / 32768.0).collect();
    let first = frame_to_mono(&format, &scaled, 0);
    let second = frame_to_mono(&format, &scaled, 1);
    assert!((first - 0.5).abs() < 1e-4, "got {first}");
    assert!((second + 1.0).abs() < 1e-4, "got {second}");
}

#[test]
fn the_real_tag_of_an_extensible_format_is_in_its_sub_format() {
    let extensible = Format::read(0xFFFE, 3, 48_000, 0, 32);
    assert!(extensible.float);
    assert_eq!(extensible.channels, 1);
    assert!(!Format::read(1, 3, 48_000, 2, 24).float);
    assert_eq!(Format::read(1, 0, 48_000, 2, 24).sample_kind(), SampleKind::Silence);
}
