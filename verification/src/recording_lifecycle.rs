//! One start and one stop of a recording, step by step.
//!
//! The caller takes the engine, asks for devices, opens streams, saves. After each of
//! these it says what came of it and is told what to do next.

use crate::common::EngineKind;
use crate::recording_commands::{
    device_failure, device_failure_message, device_step, resolve_device, DeviceAnswers,
    DeviceError, DeviceOrigin, DeviceRole, DeviceStep, RecordingFlags, StopOutcome,
};
use crate::stream::Platform;
use crate::text::{ends_with, holds_text, joined, same_text};
use vstd::prelude::*;

verus! {

/// Which device a recording uses for a role.
#[derive(Clone, Copy, Debug, PartialEq, Eq, Structural)]
pub enum DeviceChoice {
    Named,
    Default,
    Without,
}

/// Where a start stands.
#[derive(Clone, Copy, Debug, PartialEq, Eq, Structural)]
pub enum StartStage {
    Engine,
    Model,
    Preferences,
    Microphone,
    System,
    Streams,
    Running,
    Failed,
}

/// Why a recording did not start.
#[derive(Debug)]
pub enum StartError {
    AlreadyRecording,
    /// The model for live text is not ready.
    Model(String),
    Microphone(DeviceError),
    System(DeviceError),
    Streams(String),
}

/// What the caller is to do next.
#[derive(Debug)]
pub enum StartStep {
    /// Take the engine for live text, if it can be had.
    TakeEngine,
    ValidateModel,
    LoadPreferences,
    AskMicrophone(DeviceStep),
    AskSystem(DeviceStep),
    OpenStreams(DeviceChoice, DeviceChoice, bool),
    /// The recording runs: announce it.
    Announce(bool),
    Fail(StartError),
}

/// What the caller says happened.
#[derive(Debug)]
pub enum StartEvent {
    /// Whether the engine is held.
    Engine(bool),
    Model(Result<(), String>),
    /// Whether audio is saved, and the preferred devices. `None` where the preferences
    /// could not be read.
    Preferences(Option<(bool, Option<String>, Option<String>)>),
    /// The answer to the last question about a device.
    Device(Result<(), String>),
    Streams(Result<(), String>),
}

/// A recording that is being started: with the preferred devices, or with those of a
/// request.
pub struct StartRun {
    pub platform: Platform,
    pub origin: DeviceOrigin,
    pub mic_name: Option<String>,
    pub system_name: Option<String>,
    pub live: bool,
    pub auto_save: bool,
    pub mic: DeviceChoice,
    pub system: DeviceChoice,
    pub answers: DeviceAnswers,
    pub stage: StartStage,
}

/// No question was asked yet.
pub open spec fn unasked() -> DeviceAnswers {
    DeviceAnswers { parsed: None, available: None, fallback: None }
}

/// The answers with one more, to the question that `step` asks.
pub open spec fn answered(
    answers: DeviceAnswers,
    step: DeviceStep,
    answer: Result<(), String>,
) -> DeviceAnswers {
    match step {
        DeviceStep::Parse => DeviceAnswers { parsed: Some(answer), ..answers },
        DeviceStep::Check => DeviceAnswers { available: Some(answer), ..answers },
        _ => DeviceAnswers { fallback: Some(answer), ..answers },
    }
}

/// The device that a decision stands for.
pub open spec fn choice_of(step: DeviceStep) -> DeviceChoice {
    match step {
        DeviceStep::UseNamed => DeviceChoice::Named,
        DeviceStep::UseDefault => DeviceChoice::Default,
        _ => DeviceChoice::Without,
    }
}

impl StartRun {
    pub open spec fn mic_step(self) -> DeviceStep {
        device_step(DeviceRole::Microphone, self.origin, self.mic_name is Some, self.answers)
    }

    pub open spec fn system_step(self) -> DeviceStep {
        device_step(DeviceRole::System, self.origin, self.system_named(), self.answers)
    }

    /// A system device was named and the name counts. On macOS the output is captured
    /// wherever it is routed now, so a name is passed over.
    pub open spec fn system_named(self) -> bool {
        self.system_name is Some && !(self.platform is MacOs)
    }

    pub open spec fn failed(self, error: StartError) -> (StartRun, StartStep) {
        (StartRun { stage: StartStage::Failed, ..self }, StartStep::Fail(error))
    }

    /// The engine is settled. Preferences come first where they name the devices.
    pub open spec fn past_engine(self) -> (StartRun, StartStep) {
        if self.origin is Preference {
            (StartRun { stage: StartStage::Preferences, ..self }, StartStep::LoadPreferences)
        } else {
            (StartRun { answers: unasked(), ..self }).seek_microphone()
        }
    }

    pub open spec fn seek_microphone(self) -> (StartRun, StartStep) {
        let step = self.mic_step();
        if step.is_question() {
            (StartRun { stage: StartStage::Microphone, ..self }, StartStep::AskMicrophone(step))
        } else {
            match step {
                DeviceStep::Fail(error) => self.failed(StartError::Microphone(error)),
                _ => (StartRun {
                    mic: choice_of(step),
                    answers: unasked(),
                    ..self
                }).seek_system(),
            }
        }
    }

    pub open spec fn seek_system(self) -> (StartRun, StartStep) {
        let step = self.system_step();
        if step.is_question() {
            (StartRun { stage: StartStage::System, ..self }, StartStep::AskSystem(step))
        } else {
            match step {
                DeviceStep::Fail(error) => self.failed(StartError::System(error)),
                _ => (StartRun { system: choice_of(step), ..self }).past_devices(),
            }
        }
    }

    /// The devices are settled. Preferences come now where the request named them.
    pub open spec fn past_devices(self) -> (StartRun, StartStep) {
        if self.origin is Request {
            (StartRun { stage: StartStage::Preferences, ..self }, StartStep::LoadPreferences)
        } else {
            self.open()
        }
    }

    pub open spec fn open(self) -> (StartRun, StartStep) {
        (
            StartRun { stage: StartStage::Streams, ..self },
            StartStep::OpenStreams(self.mic, self.system, self.auto_save),
        )
    }

    /// The event belongs to where the start stands.
    pub open spec fn expects(self, event: StartEvent) -> bool {
        match (self.stage, event) {
            (StartStage::Engine, StartEvent::Engine(_)) => true,
            (StartStage::Model, StartEvent::Model(_)) => true,
            (StartStage::Preferences, StartEvent::Preferences(_)) => true,
            (StartStage::Microphone, StartEvent::Device(_)) => true,
            (StartStage::System, StartEvent::Device(_)) => true,
            (StartStage::Streams, StartEvent::Streams(_)) => true,
            _ => false,
        }
    }

    /// The start after an event, and what is to be done next.
    pub open spec fn after(self, event: StartEvent) -> (StartRun, StartStep) {
        match (self.stage, event) {
            (StartStage::Engine, StartEvent::Engine(held)) => {
                let settled = StartRun { live: held, ..self };
                if held {
                    (StartRun { stage: StartStage::Model, ..settled }, StartStep::ValidateModel)
                } else {
                    settled.past_engine()
                }
            },
            (StartStage::Model, StartEvent::Model(Ok(_))) => self.past_engine(),
            (StartStage::Model, StartEvent::Model(Err(reason))) => self.failed(
                StartError::Model(reason),
            ),
            (StartStage::Preferences, StartEvent::Preferences(loaded)) => {
                let known = match loaded {
                    Some((auto_save, mic, system)) => if self.origin is Preference {
                        StartRun { auto_save, mic_name: mic, system_name: system, ..self }
                    } else {
                        StartRun { auto_save, ..self }
                    },
                    None => if self.origin is Preference {
                        StartRun { auto_save: true, mic_name: None, system_name: None, ..self }
                    } else {
                        StartRun { auto_save: true, ..self }
                    },
                };
                if self.origin is Preference {
                    (StartRun { answers: unasked(), ..known }).seek_microphone()
                } else {
                    known.open()
                }
            },
            (StartStage::Microphone, StartEvent::Device(answer)) => (StartRun {
                answers: answered(self.answers, self.mic_step(), answer),
                ..self
            }).seek_microphone(),
            (StartStage::System, StartEvent::Device(answer)) => (StartRun {
                answers: answered(self.answers, self.system_step(), answer),
                ..self
            }).seek_system(),
            (StartStage::Streams, StartEvent::Streams(Ok(_))) => (
                StartRun { stage: StartStage::Running, ..self },
                StartStep::Announce(self.live),
            ),
            (StartStage::Streams, StartEvent::Streams(Err(reason))) => self.failed(
                StartError::Streams(reason),
            ),
            _ => (self, StartStep::Announce(self.live)),
        }
    }

    /// Begins a start: refused while something is being recorded.
    pub fn begin(
        flags: &RecordingFlags,
        platform: Platform,
        origin: DeviceOrigin,
        mic_name: Option<String>,
        system_name: Option<String>,
    ) -> (begun: Result<StartRun, StartError>)
        ensures
            match begun {
                Ok(run) => {
                    &&& !flags.is_recording
                    &&& run.platform == platform
                    &&& run.origin == origin
                    &&& run.mic_name == mic_name
                    &&& run.system_name == system_name
                    &&& run.stage == StartStage::Engine
                    &&& run.answers == unasked()
                    &&& !run.live
                    &&& run.auto_save
                    &&& run.mic == DeviceChoice::Without
                    &&& run.system == DeviceChoice::Without
                },
                Err(error) => flags.is_recording && error is AlreadyRecording,
            },
    {
        if flags.is_recording {
            return Err(StartError::AlreadyRecording);
        }
        Ok(
            StartRun {
                platform,
                origin,
                mic_name,
                system_name,
                live: false,
                auto_save: true,
                mic: DeviceChoice::Without,
                system: DeviceChoice::Without,
                answers: DeviceAnswers::new(),
                stage: StartStage::Engine,
            },
        )
    }

    fn names_system(&self) -> (named: bool)
        ensures
            named == self.system_named(),
    {
        match self.platform {
            Platform::MacOs => false,
            _ => self.system_name.is_some(),
        }
    }

    fn settle_past_engine(&mut self) -> (step: StartStep)
        ensures
            (*final(self), step) == old(self).past_engine(),
    {
        match self.origin {
            DeviceOrigin::Preference => {
                self.stage = StartStage::Preferences;
                StartStep::LoadPreferences
            },
            DeviceOrigin::Request => {
                self.answers = DeviceAnswers::new();
                self.look_for_microphone()
            },
        }
    }

    fn look_for_microphone(&mut self) -> (step: StartStep)
        ensures
            (*final(self), step) == old(self).seek_microphone(),
    {
        let named = self.mic_name.is_some();
        let step = resolve_device(DeviceRole::Microphone, self.origin, named, &self.answers);
        match step {
            DeviceStep::Parse => {
                self.stage = StartStage::Microphone;
                StartStep::AskMicrophone(DeviceStep::Parse)
            },
            DeviceStep::Check => {
                self.stage = StartStage::Microphone;
                StartStep::AskMicrophone(DeviceStep::Check)
            },
            DeviceStep::FindDefault => {
                self.stage = StartStage::Microphone;
                StartStep::AskMicrophone(DeviceStep::FindDefault)
            },
            DeviceStep::Fail(error) => {
                self.stage = StartStage::Failed;
                StartStep::Fail(StartError::Microphone(error))
            },
            DeviceStep::UseNamed => {
                self.mic = DeviceChoice::Named;
                self.answers = DeviceAnswers::new();
                self.look_for_system()
            },
            DeviceStep::UseDefault => {
                self.mic = DeviceChoice::Default;
                self.answers = DeviceAnswers::new();
                self.look_for_system()
            },
            DeviceStep::Without => {
                self.mic = DeviceChoice::Without;
                self.answers = DeviceAnswers::new();
                self.look_for_system()
            },
        }
    }

    fn look_for_system(&mut self) -> (step: StartStep)
        ensures
            (*final(self), step) == old(self).seek_system(),
    {
        let named = self.names_system();
        let step = resolve_device(DeviceRole::System, self.origin, named, &self.answers);
        match step {
            DeviceStep::Parse => {
                self.stage = StartStage::System;
                StartStep::AskSystem(DeviceStep::Parse)
            },
            DeviceStep::Check => {
                self.stage = StartStage::System;
                StartStep::AskSystem(DeviceStep::Check)
            },
            DeviceStep::FindDefault => {
                self.stage = StartStage::System;
                StartStep::AskSystem(DeviceStep::FindDefault)
            },
            DeviceStep::Fail(error) => {
                self.stage = StartStage::Failed;
                StartStep::Fail(StartError::System(error))
            },
            DeviceStep::UseNamed => {
                self.system = DeviceChoice::Named;
                self.settle_past_devices()
            },
            DeviceStep::UseDefault => {
                self.system = DeviceChoice::Default;
                self.settle_past_devices()
            },
            DeviceStep::Without => {
                self.system = DeviceChoice::Without;
                self.settle_past_devices()
            },
        }
    }

    fn settle_past_devices(&mut self) -> (step: StartStep)
        ensures
            (*final(self), step) == old(self).past_devices(),
    {
        match self.origin {
            DeviceOrigin::Request => {
                self.stage = StartStage::Preferences;
                StartStep::LoadPreferences
            },
            DeviceOrigin::Preference => self.open_streams(),
        }
    }

    fn open_streams(&mut self) -> (step: StartStep)
        ensures
            (*final(self), step) == old(self).open(),
    {
        self.stage = StartStage::Streams;
        StartStep::OpenStreams(self.mic, self.system, self.auto_save)
    }

    /// Takes what happened and says what to do next.
    pub fn step(&mut self, event: StartEvent) -> (step: StartStep)
        requires
            old(self).expects(event),
        ensures
            (*final(self), step) == old(self).after(event),
    {
        match (self.stage, event) {
            (StartStage::Engine, StartEvent::Engine(held)) => {
                self.live = held;
                if held {
                    self.stage = StartStage::Model;
                    StartStep::ValidateModel
                } else {
                    self.settle_past_engine()
                }
            },
            (StartStage::Model, StartEvent::Model(outcome)) => match outcome {
                Ok(_) => self.settle_past_engine(),
                Err(reason) => {
                    self.stage = StartStage::Failed;
                    StartStep::Fail(StartError::Model(reason))
                },
            },
            (StartStage::Preferences, StartEvent::Preferences(loaded)) => {
                let preferred = match self.origin {
                    DeviceOrigin::Preference => true,
                    DeviceOrigin::Request => false,
                };
                match loaded {
                    Some((auto_save, mic, system)) => {
                        self.auto_save = auto_save;
                        if preferred {
                            self.mic_name = mic;
                            self.system_name = system;
                        }
                    },
                    None => {
                        self.auto_save = true;
                        if preferred {
                            self.mic_name = None;
                            self.system_name = None;
                        }
                    },
                }
                if preferred {
                    self.answers = DeviceAnswers::new();
                    self.look_for_microphone()
                } else {
                    self.open_streams()
                }
            },
            (StartStage::Microphone, StartEvent::Device(answer)) => {
                let named = self.mic_name.is_some();
                let asked = resolve_device(DeviceRole::Microphone, self.origin, named, &self.answers);
                self.keep(asked, answer);
                self.look_for_microphone()
            },
            (StartStage::System, StartEvent::Device(answer)) => {
                let named = self.names_system();
                let asked = resolve_device(DeviceRole::System, self.origin, named, &self.answers);
                self.keep(asked, answer);
                self.look_for_system()
            },
            (StartStage::Streams, StartEvent::Streams(outcome)) => match outcome {
                Ok(_) => {
                    self.stage = StartStage::Running;
                    StartStep::Announce(self.live)
                },
                Err(reason) => {
                    self.stage = StartStage::Failed;
                    StartStep::Fail(StartError::Streams(reason))
                },
            },
            _ => StartStep::Announce(self.live),
        }
    }

    fn keep(&mut self, asked: DeviceStep, answer: Result<(), String>)
        ensures
            *final(self) == (StartRun {
                answers: answered(old(self).answers, asked, answer),
                ..*old(self)
            }),
    {
        match asked {
            DeviceStep::Parse => {
                self.answers.parsed = Some(answer);
            },
            DeviceStep::Check => {
                self.answers.available = Some(answer);
            },
            _ => {
                self.answers.fallback = Some(answer);
            },
        }
    }
}

/// The recording runs.
pub fn mark_started(flags: &mut RecordingFlags, live: bool)
    ensures
        *final(flags) == (RecordingFlags {
            is_recording: true,
            live_transcription: live,
            ..*old(flags)
        }),
{
    flags.is_recording = true;
    flags.live_transcription = live;
}

/// What is said of a recording that did not start. The names are those of the wanted
/// devices.
pub open spec fn start_failure(error: StartError, mic: Seq<char>, system: Seq<char>) -> Seq<char> {
    match error {
        StartError::AlreadyRecording => "Recording already in progress"@,
        StartError::Model(reason) => reason@,
        StartError::Microphone(device) => device_failure(device, mic),
        StartError::System(device) => device_failure(device, system),
        StartError::Streams(reason) => "Failed to start recording: "@ + reason@,
    }
}

pub fn start_failure_message(error: &StartError, mic: &str, system: &str) -> (message: String)
    ensures
        message@ == start_failure(*error, mic@, system@),
{
    match error {
        StartError::AlreadyRecording => "Recording already in progress".to_owned(),
        StartError::Model(reason) => reason.clone(),
        StartError::Microphone(device) => device_failure_message(device, mic),
        StartError::System(device) => device_failure_message(device, system),
        StartError::Streams(reason) => joined("Failed to start recording: ", reason.as_str()),
    }
}

/// Once a start is past the microphone, it has one.
pub open spec fn microphone_settled(run: StartRun) -> bool {
    run.stage is System || run.stage is Streams || (run.stage is Preferences
        && run.origin is Request) ==> run.mic != DeviceChoice::Without
}

/// A recording is announced only when its streams are open, and its streams are only
/// opened with a microphone, whatever the devices and preferences turn out to be.
pub proof fn recording_starts_with_a_microphone(run: StartRun, event: StartEvent)
    requires
        run.expects(event),
        microphone_settled(run),
    ensures
        microphone_settled(run.after(event).0),
        run.after(event).1 is Announce ==> (event matches StartEvent::Streams(outcome)
            && outcome is Ok),
        run.after(event).1 matches StartStep::OpenStreams(mic, _, _) ==> mic
            != DeviceChoice::Without,
{
}

/// How long a stop waits until everything that was said is recognised, in seconds.
pub const RECOGNITION_LIMIT_SECS: u64 = 600;

/// How long a stop waits for which engine is in use, in seconds.
pub const PROVIDER_LIMIT_SECS: u64 = 30;

/// How long a stop waits until the recording is saved, in seconds.
pub const SAVE_LIMIT_SECS: u64 = 300;

/// Where a stop stands.
#[derive(Clone, Copy, Debug, PartialEq, Eq, Structural)]
pub enum StopStage {
    Streams,
    Transcripts,
    Listener,
    Provider,
    Model,
    Saving,
    Done,
}

/// How the saving of a stopped recording went.
#[derive(Debug)]
pub enum SaveOutcome {
    Saved,
    Failed(String),
    TimedOut,
    /// There was nothing to save with.
    NoManager,
}

/// What the caller is to do next. Every step but the last is reported with its
/// progress in percent.
#[derive(Debug)]
pub enum StopStep {
    /// Stop capture at once and flush what is held.
    StopStreams,
    /// Let recognition finish what is queued, for at most ten minutes.
    AwaitTranscripts,
    /// No more live text is kept.
    Unlisten,
    /// Ask which engine recognised the live text.
    ReadProvider,
    UnloadModel(EngineKind),
    /// The recording was only sound and never used a model: leave the models alone.
    KeepModel,
    /// Save the recording, in at most five minutes.
    Save,
    Finish(StopReport),
}

/// What the caller says happened.
#[derive(Debug)]
pub enum StopEvent {
    Streams(Result<(), String>),
    Transcripts,
    Unlistened,
    /// The engine of the settings, if they could be read.
    Provider(Option<String>),
    Unloaded,
    /// How the saving went, and the meeting's folder and name.
    Saved(SaveOutcome, Option<String>, Option<String>),
}

/// What is announced of a stopped recording.
#[derive(Debug)]
pub struct StopReport {
    pub folder_path: Option<String>,
    pub meeting_name: Option<String>,
    pub audio_save_error: Option<String>,
}

/// A recording that is being stopped.
pub struct StopRun {
    pub live: bool,
    pub stage: StopStage,
    pub stream_error: Option<String>,
}

/// How far a stop is.
pub open spec fn stop_percent(stage: StopStage) -> int {
    match stage {
        StopStage::Streams => 20,
        StopStage::Transcripts => 40,
        StopStage::Listener => 40,
        StopStage::Provider => 70,
        StopStage::Model => 70,
        StopStage::Saving => 90,
        StopStage::Done => 100,
    }
}

/// What is shown while a stop is under way: the name of the step and the words for it.
pub open spec fn stop_progress(stage: StopStage, failed: bool) -> (Seq<char>, Seq<char>) {
    match stage {
        StopStage::Streams => ("stopping_audio"@, "Stopping audio capture..."@),
        StopStage::Transcripts | StopStage::Listener => (
            "processing_transcripts"@,
            "Processing remaining transcript chunks..."@,
        ),
        StopStage::Provider | StopStage::Model => (
            "unloading_model"@,
            "Unloading speech recognition model..."@,
        ),
        StopStage::Saving => ("finalizing"@, "Finalizing recording and cleaning up resources..."@),
        StopStage::Done => (
            "complete"@,
            if failed {
                "Recording stopped, but audio finalization reported an error"@
            } else {
                "Recording stopped successfully"@
            },
        ),
    }
}

/// How many steps a stop has left, at most.
pub open spec fn stop_left(stage: StopStage) -> int {
    match stage {
        StopStage::Streams => 6,
        StopStage::Transcripts => 5,
        StopStage::Listener => 4,
        StopStage::Provider => 3,
        StopStage::Model => 2,
        StopStage::Saving => 1,
        StopStage::Done => 0,
    }
}

/// What is said of how the saving went.
pub open spec fn save_failure(outcome: SaveOutcome) -> Option<Seq<char>> {
    match outcome {
        SaveOutcome::Saved => None,
        SaveOutcome::Failed(reason) => Some(reason@),
        SaveOutcome::TimedOut => Some("Audio save timed out after 5 minutes"@),
        SaveOutcome::NoManager => Some("Recording manager was unavailable during save"@),
    }
}

/// What is said of a stop that did not go cleanly: both errors, where there were two.
pub open spec fn stop_failure(stream_error: Option<String>, outcome: SaveOutcome) -> Option<
    Seq<char>,
> {
    match (stream_error, save_failure(outcome)) {
        (Some(stream), Some(save)) => Some(
            "Failed to stop audio streams cleanly: "@ + stream@ + "; "@ + save,
        ),
        (Some(stream), None) => Some("Failed to stop audio streams cleanly: "@ + stream@),
        (None, Some(save)) => Some(save),
        (None, None) => None,
    }
}

/// The text that is there, if any.
pub open spec fn said(text: Option<String>) -> Option<Seq<char>> {
    match text {
        Some(words) => Some(words@),
        None => None,
    }
}

impl StopRun {
    /// The event belongs to where the stop stands.
    pub open spec fn expects(&self, event: StopEvent) -> bool {
        match (self.stage, event) {
            (StopStage::Streams, StopEvent::Streams(_)) => true,
            (StopStage::Transcripts, StopEvent::Transcripts) => true,
            (StopStage::Listener, StopEvent::Unlistened) => true,
            (StopStage::Provider, StopEvent::Provider(_)) => true,
            (StopStage::Model, StopEvent::Unloaded) => true,
            (StopStage::Saving, StopEvent::Saved(_, _, _)) => true,
            _ => false,
        }
    }

    /// How far the stop is.
    pub fn percent(&self) -> (percent: u32)
        ensures
            percent == stop_percent(self.stage),
    {
        match self.stage {
            StopStage::Streams => 20,
            StopStage::Transcripts => 40,
            StopStage::Listener => 40,
            StopStage::Provider => 70,
            StopStage::Model => 70,
            StopStage::Saving => 90,
            StopStage::Done => 100,
        }
    }

    /// What is shown of the stop; `failed` says whether it reported an error.
    pub fn progress(&self, failed: bool) -> (shown: (&'static str, &'static str))
        ensures
            (shown.0@, shown.1@) == stop_progress(self.stage, failed),
    {
        match self.stage {
            StopStage::Streams => ("stopping_audio", "Stopping audio capture..."),
            StopStage::Transcripts | StopStage::Listener => (
                "processing_transcripts",
                "Processing remaining transcript chunks...",
            ),
            StopStage::Provider | StopStage::Model => (
                "unloading_model",
                "Unloading speech recognition model...",
            ),
            StopStage::Saving => (
                "finalizing",
                "Finalizing recording and cleaning up resources...",
            ),
            StopStage::Done => if failed {
                ("complete", "Recording stopped, but audio finalization reported an error")
            } else {
                ("complete", "Recording stopped successfully")
            },
        }
    }

    /// Begins a stop, unless nothing is being recorded or a stop is already under way.
    pub fn begin(flags: &mut RecordingFlags) -> (begun: Result<(StopRun, StopStep), StopOutcome>)
        ensures
            match begun {
                Ok((run, step)) => {
                    &&& old(flags).is_recording
                    &&& !old(flags).is_stopping
                    &&& *final(flags) == (RecordingFlags { is_stopping: true, ..*old(flags) })
                    &&& run.live == old(flags).live_transcription
                    &&& run.stage == StopStage::Streams
                    &&& run.stream_error is None
                    &&& step is StopStreams
                },
                Err(outcome) => {
                    &&& *final(flags) == *old(flags)
                    &&& !old(flags).is_recording ==> outcome == StopOutcome::AlreadyStopped
                    &&& old(flags).is_recording ==> old(flags).is_stopping && outcome
                        == StopOutcome::AlreadyStopping
                },
            },
    {
        if !flags.is_recording {
            return Err(StopOutcome::AlreadyStopped);
        }
        if flags.is_stopping {
            return Err(StopOutcome::AlreadyStopping);
        }
        flags.is_stopping = true;
        Ok(
            (
                StopRun {
                    live: flags.live_transcription,
                    stage: StopStage::Streams,
                    stream_error: None,
                },
                StopStep::StopStreams,
            ),
        )
    }

    /// Takes what happened and says what to do next. No failure ends a stop early: the
    /// recording is always saved as far as it can be.
    pub fn step(&mut self, event: StopEvent) -> (step: StopStep)
        requires
            old(self).expects(event),
        ensures
            final(self).live == old(self).live,
            stop_left(final(self).stage) < stop_left(old(self).stage),
            step is Finish <==> final(self).stage is Done,
            match (old(self).stage, event) {
                (StopStage::Streams, StopEvent::Streams(outcome)) => {
                    &&& final(self).stage == StopStage::Transcripts
                    &&& step is AwaitTranscripts
                    &&& final(self).stream_error == match outcome {
                        Ok(_) => None::<String>,
                        Err(error) => Some(error),
                    }
                },
                (StopStage::Transcripts, _) => {
                    &&& final(self).stage == StopStage::Listener
                    &&& step is Unlisten
                    &&& final(self).stream_error == old(self).stream_error
                },
                (StopStage::Listener, _) => {
                    &&& final(self).stream_error == old(self).stream_error
                    &&& old(self).live ==> final(self).stage == StopStage::Provider
                        && step is ReadProvider
                    &&& !old(self).live ==> final(self).stage == StopStage::Model
                        && step is KeepModel
                },
                (StopStage::Provider, StopEvent::Provider(provider)) => {
                    &&& final(self).stream_error == old(self).stream_error
                    &&& final(self).stage == StopStage::Model
                    &&& step == StopStep::UnloadModel(
                        if provider matches Some(name) && name@ == "parakeet"@ {
                            EngineKind::Parakeet
                        } else {
                            EngineKind::Whisper
                        },
                    )
                },
                (StopStage::Model, _) => {
                    &&& final(self).stage == StopStage::Saving
                    &&& step is Save
                    &&& final(self).stream_error == old(self).stream_error
                },
                (StopStage::Saving, StopEvent::Saved(outcome, folder, name)) => {
                    &&& final(self).stage == StopStage::Done
                    &&& step matches StopStep::Finish(report) && {
                        &&& said(report.audio_save_error) == stop_failure(
                            old(self).stream_error,
                            outcome,
                        )
                        &&& folder is Some && name is Some ==> report.folder_path == folder
                            && report.meeting_name == name
                        &&& !(folder is Some && name is Some) ==> report.folder_path is None
                            && report.meeting_name is None
                    }
                },
                _ => false,
            },
    {
        match (self.stage, event) {
            (StopStage::Streams, StopEvent::Streams(outcome)) => {
                self.stream_error = match outcome {
                    Ok(_) => None,
                    Err(error) => Some(error),
                };
                self.stage = StopStage::Transcripts;
                StopStep::AwaitTranscripts
            },
            (StopStage::Transcripts, _) => {
                self.stage = StopStage::Listener;
                StopStep::Unlisten
            },
            (StopStage::Listener, _) => if self.live {
                self.stage = StopStage::Provider;
                StopStep::ReadProvider
            } else {
                self.stage = StopStage::Model;
                StopStep::KeepModel
            },
            (StopStage::Provider, StopEvent::Provider(provider)) => {
                self.stage = StopStage::Model;
                let parakeet = match &provider {
                    Some(name) => same_text(name.as_str(), "parakeet"),
                    None => false,
                };
                if parakeet {
                    StopStep::UnloadModel(EngineKind::Parakeet)
                } else {
                    StopStep::UnloadModel(EngineKind::Whisper)
                }
            },
            (StopStage::Model, _) => {
                self.stage = StopStage::Saving;
                StopStep::Save
            },
            (StopStage::Saving, StopEvent::Saved(outcome, folder, name)) => {
                self.stage = StopStage::Done;
                let save_error = match outcome {
                    SaveOutcome::Saved => None,
                    SaveOutcome::Failed(reason) => Some(reason),
                    SaveOutcome::TimedOut => Some("Audio save timed out after 5 minutes".to_owned()),
                    SaveOutcome::NoManager => Some(
                        "Recording manager was unavailable during save".to_owned(),
                    ),
                };
                let audio_save_error = merge_errors(&self.stream_error, save_error);
                match (folder, name) {
                    (Some(folder), Some(name)) => StopStep::Finish(
                        StopReport {
                            folder_path: Some(folder),
                            meeting_name: Some(name),
                            audio_save_error,
                        },
                    ),
                    _ => StopStep::Finish(
                        StopReport { folder_path: None, meeting_name: None, audio_save_error },
                    ),
                }
            },
            _ => StopStep::Save,
        }
    }
}

fn merge_errors(stream_error: &Option<String>, save_error: Option<String>) -> (merged: Option<
    String,
>)
    ensures
        said(merged) == match (*stream_error, save_error) {
            (Some(stream), Some(save)) => Some(
                "Failed to stop audio streams cleanly: "@ + stream@ + "; "@ + save@,
            ),
            (Some(stream), None) => Some("Failed to stop audio streams cleanly: "@ + stream@),
            (None, Some(save)) => Some(save@),
            (None, None) => None,
        },
{
    match (stream_error, save_error) {
        (Some(stream), Some(save)) => {
            let mut text = joined("Failed to stop audio streams cleanly: ", stream.as_str());
            text.append("; ");
            text.append(save.as_str());
            Some(text)
        },
        (Some(stream), None) => Some(
            joined("Failed to stop audio streams cleanly: ", stream.as_str()),
        ),
        (None, Some(save)) => Some(save),
        (None, None) => None,
    }
}

/// The recording has ended: nothing is recorded and nothing is being stopped.
pub fn mark_stopped(flags: &mut RecordingFlags)
    ensures
        *final(flags) == (RecordingFlags {
            is_recording: false,
            is_stopping: false,
            ..*old(flags)
        }),
{
    flags.is_recording = false;
    flags.is_stopping = false;
}

/// Whether there is live text is whether the engine is held. A held engine has its model
/// checked, and a start goes on without live text where there is none; a model that is not
/// ready ends the start with the reason that was given.
pub proof fn held_engine_gives_live_text(run: StartRun, held: bool, reason: String)
    requires
        run.stage is Engine,
    ensures
        run.after(StartEvent::Engine(held)).0.live == held,
        held <==> run.after(StartEvent::Engine(held)).1 is ValidateModel,
        ({
            let checking = run.after(StartEvent::Engine(true)).0;
            &&& checking.after(StartEvent::Model(Err(reason))).1 == StartStep::Fail(
                StartError::Model(reason),
            )
            &&& checking.after(StartEvent::Model(Err(reason))).0.stage is Failed
            &&& checking.after(StartEvent::Model(Ok(()))).0.live
        }),
        run.origin is Preference ==> run.after(StartEvent::Engine(false)).1 is LoadPreferences,
        run.origin is Request ==> !(run.after(StartEvent::Engine(false)).1 is LoadPreferences)
            || run.after(StartEvent::Engine(false)).0.mic != DeviceChoice::Without,
{
}

/// Audio is saved as the preferences say, and where they cannot be read it is saved. They name
/// the devices of a start that asks for the preferred ones, and of no other.
pub proof fn preferences_are_kept_to(
    run: StartRun,
    auto_save: bool,
    mic: Option<String>,
    system: Option<String>,
)
    requires
        run.stage is Preferences,
    ensures
        run.after(StartEvent::Preferences(None)).0.auto_save,
        ({
            let after = run.after(StartEvent::Preferences(Some((auto_save, mic, system)))).0;
            &&& after.auto_save == auto_save
            &&& run.origin is Preference ==> after.mic_name == mic && after.system_name == system
            &&& run.origin is Request ==> after.mic_name == run.mic_name && after.system_name
                == run.system_name
        }),
        run.origin is Preference ==> run.after(StartEvent::Preferences(None)).0.mic_name is None
            && run.after(StartEvent::Preferences(None)).0.system_name is None,
{
}

/// The microphone that is used is the one that was found: the named one if it is there, the
/// default one if that was looked for and is there. With no default the start fails.
pub proof fn found_microphone_is_used(run: StartRun, answer: Result<(), String>)
    requires
        run.stage is Microphone,
    ensures
        ({
            let (after, step) = run.after(StartEvent::Device(answer));
            let checked = run.mic_name is Some && run.answers.parsed == Some(Ok::<(), String>(()))
                && run.answers.available is None;
            let fell_back = run.answers.fallback is None && (run.mic_name is None || (
            run.answers.parsed == Some(Ok::<(), String>(())) && (
            run.answers.available matches Some(outcome) && outcome is Err)));
            &&& checked && answer is Ok ==> after.mic == DeviceChoice::Named && !(
            step is AskMicrophone)
            &&& checked && answer is Err && run.answers.fallback is None ==> step
                == StartStep::AskMicrophone(DeviceStep::FindDefault)
            &&& fell_back && answer is Ok ==> after.mic == DeviceChoice::Default && !(
            step is AskMicrophone)
            &&& fell_back && answer is Err ==> step is Fail && after.stage is Failed
        }),
{
}

/// The same for system audio, but that a recording goes on without it where there is none. On
/// macOS the name of a device is never asked about: what is played now is recorded.
pub proof fn found_system_audio_is_used(run: StartRun, answer: Result<(), String>)
    requires
        run.stage is System,
    ensures
        ({
            let (after, step) = run.after(StartEvent::Device(answer));
            let named = run.system_name is Some && !(run.platform is MacOs);
            let checked = named && run.answers.parsed == Some(Ok::<(), String>(()))
                && run.answers.available is None;
            let fell_back = run.answers.fallback is None && (!named || (run.answers.parsed == Some(
                Ok::<(), String>(()),
            ) && (run.answers.available matches Some(outcome) && outcome is Err)));
            &&& checked && answer is Ok ==> after.system == DeviceChoice::Named && !(
            step is AskSystem)
            &&& fell_back && answer is Ok ==> after.system == DeviceChoice::Default && !(
            step is AskSystem)
            &&& fell_back && answer is Err ==> after.system == DeviceChoice::Without && !(
            step is AskSystem) && !(step is Fail)
            &&& after.mic == run.mic
            &&& run.platform is MacOs ==> !(step matches StartStep::AskSystem(question) && (
            question is Parse || question is Check))
        }),
{
}

/// Streams are opened for the devices that were settled and saved as the preferences say;
/// the recording is announced with live text if the engine is held. Streams that do not open
/// end the start with the reason that was given.
pub proof fn streams_are_opened_as_settled(run: StartRun, event: StartEvent, reason: String)
    requires
        run.expects(event),
    ensures
        run.after(event).1 matches StartStep::OpenStreams(mic, system, saved) ==> {
            let after = run.after(event).0;
            after.stage is Streams && mic == after.mic && system == after.system && saved
                == after.auto_save && after.live == if run.stage is Engine {
                event->Engine_0
            } else {
                run.live
            }
        },
        run.stage is Streams ==> {
            &&& run.after(StartEvent::Streams(Ok(()))).1 == StartStep::Announce(run.live)
            &&& run.after(StartEvent::Streams(Ok(()))).0.stage is Running
            &&& run.after(StartEvent::Streams(Err(reason))).1 == StartStep::Fail(
                StartError::Streams(reason),
            )
            &&& run.after(StartEvent::Streams(Err(reason))).0.stage is Failed
        },
{
}

/// What is said of a start that failed ends with the reason that was given.
pub proof fn start_failure_gives_the_reason(reason: String, mic: Seq<char>, system: Seq<char>)
    ensures
        start_failure(StartError::Model(reason), mic, system) == reason@,
        ends_with(start_failure(StartError::Streams(reason), mic, system), reason@),
        ends_with(
            start_failure(
                StartError::Microphone(DeviceError::InvalidMicrophone(reason)),
                mic,
                system,
            ),
            reason@,
        ),
        holds_text(
            start_failure(
                StartError::Microphone(DeviceError::InvalidMicrophone(reason)),
                mic,
                system,
            ),
            mic,
        ),
        holds_text(
            start_failure(StartError::System(DeviceError::InvalidSystem(reason)), mic, system),
            system,
        ),
{
    crate::recording_commands::device_failure_gives_the_reason(mic, reason);
    crate::recording_commands::device_failure_gives_the_reason(system, reason);
    crate::recording_commands::lemma_end("Failed to start recording: "@, reason@);
}

/// Nothing that went wrong in a stop goes unsaid, and nothing is said of one that went well:
/// both the error of the streams and the reason why saving failed stand in what is announced.
pub proof fn stop_tells_all_that_failed(stream_error: Option<String>, outcome: SaveOutcome)
    ensures
        stop_failure(stream_error, outcome) is None <==> stream_error is None && outcome is Saved,
        stream_error matches Some(error) ==> holds_text(
            stop_failure(stream_error, outcome)->0,
            error@,
        ),
        outcome matches SaveOutcome::Failed(reason) ==> ends_with(
            stop_failure(stream_error, outcome)->0,
            reason@,
        ),
        outcome matches SaveOutcome::Failed(reason) ==> (stream_error is None ==> stop_failure(
            stream_error,
            outcome,
        )->0 == reason@),
        stop_failure(None, SaveOutcome::TimedOut) != stop_failure(None, SaveOutcome::NoManager),
{
    reveal_strlit("Audio save timed out after 5 minutes");
    reveal_strlit("Recording manager was unavailable during save");
    assert("Audio save timed out after 5 minutes"@[0] == 'A');
    assert("Recording manager was unavailable during save"@[0] == 'R');
    let before = "Failed to stop audio streams cleanly: "@;
    match stream_error {
        Some(error) => {
            let empty = Seq::<char>::empty();
            crate::recording_commands::lemma_parts(before, error@, empty, empty);
            assert(before + error@ + empty + empty =~= before + error@);
            match save_failure(outcome) {
                Some(reason) => {
                    crate::recording_commands::lemma_parts(before, error@, "; "@, reason);
                },
                None => {},
            }
        },
        None => {
            match save_failure(outcome) {
                Some(reason) => {
                    crate::recording_commands::lemma_end(Seq::empty(), reason);
                    assert(Seq::<char>::empty() + reason =~= reason);
                },
                None => {},
            }
        },
    }
}

/// A stop moves on: the fewer steps are left the higher is what is shown of it, from a fifth
/// at the beginning to all of it at the end.
pub proof fn stop_progress_never_goes_back(earlier: StopStage, later: StopStage)
    requires
        stop_left(later) <= stop_left(earlier),
    ensures
        20 <= stop_percent(earlier) <= stop_percent(later) <= 100,
        stop_percent(later) == 100 <==> later is Done,
        stop_percent(earlier) == 20 <==> earlier is Streams,
{
}

/// A stop that is over says so, and whether it reported an error; before that an error changes
/// nothing of what is shown.
pub proof fn finished_stop_tells_of_an_error(stage: StopStage)
    ensures
        stop_progress(stage, true).0 == stop_progress(stage, false).0,
        !(stage is Done) ==> stop_progress(stage, true) == stop_progress(stage, false),
        stop_progress(StopStage::Done, true).1 != stop_progress(StopStage::Done, false).1,
        holds_text(stop_progress(StopStage::Done, true).1, "error"@),
        stop_progress(stage, true).0 == "complete"@ <==> stage is Done,
{
    reveal_strlit("Recording stopped, but audio finalization reported an error");
    reveal_strlit("Recording stopped successfully");
    reveal_strlit("error");
    reveal_strlit("complete");
    reveal_strlit("stopping_audio");
    reveal_strlit("processing_transcripts");
    reveal_strlit("unloading_model");
    reveal_strlit("finalizing");
    let told = "Recording stopped, but audio finalization reported an error"@;
    assert(told.len() == 59);
    assert("Recording stopped successfully"@.len() == 30);
    assert(told.subrange(54, 59) =~= "error"@);
    assert(crate::text::stands_at(told, "error"@, 54));
    assert("complete"@.len() == 8 && "stopping_audio"@.len() == 14);
    assert("processing_transcripts"@.len() == 22 && "unloading_model"@.len() == 15);
    assert("finalizing"@.len() == 10);
}

} // verus!
