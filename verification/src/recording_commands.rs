//! Starting and stopping a recording, as decisions.

use crate::recording_saver::TranscriptSegment;
use crate::moments::is_year_and;
use crate::recording_state::RecordingState;
use crate::text::{
    chars_of, decimal, decimal_text, ends_with, holds_text, joined, same_text, stands_at, text_of,
    trim, trimmed,
};
use vstd::prelude::*;

verus! {

/// How long a recording waits for the engine before it starts without it.
pub const ENGINE_WAIT_SECS: u64 = 3;

/// Whether something is being recorded, whether it is being stopped, and whether its
/// speech is recognised as it goes.
#[derive(Clone, Copy, Debug, PartialEq, Eq, Structural)]
pub struct RecordingFlags {
    pub is_recording: bool,
    pub is_stopping: bool,
    pub live_transcription: bool,
}

impl RecordingFlags {
    pub fn new() -> (flags: RecordingFlags)
        ensures
            flags == (RecordingFlags {
                is_recording: false,
                is_stopping: false,
                live_transcription: false,
            }),
    {
        RecordingFlags { is_recording: false, is_stopping: false, live_transcription: false }
    }
}

/// Whether the recording on now shows its text as it goes.
pub fn recording_live_transcription(flags: &RecordingFlags) -> (live: bool)
    ensures
        live == (flags.is_recording && flags.live_transcription),
{
    flags.is_recording && flags.live_transcription
}

/// Live text is wanted unless the owner turned it off, also where the preference
/// cannot be read; it is not given while something is being transcribed again.
pub open spec fn would_be_live(preference: Option<bool>, retranscribing: bool) -> bool {
    preference != Some(false) && !retranscribing
}

/// Whether a recording started now would have live text.
pub fn recording_would_be_live(preference: Option<bool>, retranscribing: bool) -> (live: bool)
    ensures
        live == would_be_live(preference, retranscribing),
{
    let wanted = match preference {
        Some(wanted) => wanted,
        None => true,
    };
    wanted && !retranscribing
}

/// Whether a recording session is currently active.
pub fn is_recording_active(flags: &RecordingFlags) -> (active: bool)
    ensures
        active == flags.is_recording,
{
    flags.is_recording
}

/// Check if recording is active.
pub fn is_recording(flags: &RecordingFlags) -> (active: bool)
    ensures
        active == flags.is_recording,
{
    flags.is_recording
}

/// The compact bar belongs to a recording that is not being stopped.
pub fn compact_mode_allowed(is_recording: bool, is_stopping: bool) -> (allowed: bool)
    ensures
        allowed == (is_recording && !is_stopping),
{
    is_recording && !is_stopping
}

/// Whether the compact bar may be shown now.
pub fn can_enter_compact_mode(flags: &RecordingFlags) -> (allowed: bool)
    ensures
        allowed == (flags.is_recording && !flags.is_stopping),
{
    compact_mode_allowed(flags.is_recording, flags.is_stopping)
}

/// A stop that finishes live text needs the engine; one of a recording that was only
/// sound must not wait for it.
pub fn engine_for_stopping(flags: &RecordingFlags) -> (needed: bool)
    ensures
        needed == flags.live_transcription,
{
    flags.live_transcription
}

#[derive(Debug)]
pub struct RecordingArgs {
    pub save_path: String,
}

#[derive(Debug, Clone, Copy, PartialEq, Eq, Structural)]
pub enum StopOutcome {
    Completed,
    AlreadyStopping,
    AlreadyStopped,
}

#[derive(Debug, Clone, Copy, PartialEq, Eq, Structural)]
pub struct TranscriptionStatus {
    pub chunks_in_queue: usize,
    pub is_processing: bool,
    pub last_activity_ms: u64,
}

/// Get recording statistics.
pub fn get_transcription_status(flags: &RecordingFlags) -> (status: TranscriptionStatus)
    ensures
        status == (TranscriptionStatus {
            chunks_in_queue: 0,
            is_processing: flags.is_recording,
            last_activity_ms: 0,
        }),
{
    TranscriptionStatus { chunks_in_queue: 0, is_processing: flags.is_recording, last_activity_ms: 0 }
}

/// What pausing, resuming and muting need: a recording, and its manager.
pub fn require_recording(flags: &RecordingFlags, has_manager: bool) -> (allowed: Result<(), String>)
    ensures
        match allowed {
            Ok(()) => flags.is_recording && has_manager,
            Err(reason) => {
                &&& !flags.is_recording ==> reason@ == "No recording is currently active"@
                &&& flags.is_recording ==> !has_manager && reason@ == "No recording manager found"@
            },
        },
{
    if !flags.is_recording {
        Err("No recording is currently active".to_owned())
    } else if !has_manager {
        Err("No recording manager found".to_owned())
    } else {
        Ok(())
    }
}

/// Mute or unmute only the microphone while system capture continues.
pub fn set_microphone_muted(
    flags: &RecordingFlags,
    has_manager: bool,
    state: &mut RecordingState,
    muted: bool,
) -> (now: Result<bool, String>)
    ensures
        match now {
            Ok(answer) => {
                &&& flags.is_recording && has_manager
                &&& answer == muted
                &&& *final(state) == (RecordingState { microphone_muted: muted, ..*old(state) })
            },
            Err(reason) => {
                &&& *final(state) == *old(state)
                &&& !flags.is_recording ==> reason@ == "No recording is currently active"@
                &&& flags.is_recording ==> !has_manager && reason@ == "No recording manager found"@
            },
        },
{
    match require_recording(flags, has_manager) {
        Ok(()) => {
            state.microphone_muted = muted;
            Ok(muted)
        },
        Err(reason) => Err(reason),
    }
}

/// Mute or unmute only system audio while microphone capture continues.
pub fn set_system_audio_muted(
    flags: &RecordingFlags,
    has_manager: bool,
    state: &mut RecordingState,
    muted: bool,
) -> (now: Result<bool, String>)
    ensures
        match now {
            Ok(answer) => {
                &&& flags.is_recording && has_manager
                &&& answer == muted
                &&& *final(state) == (RecordingState { system_audio_muted: muted, ..*old(state) })
            },
            Err(reason) => {
                &&& *final(state) == *old(state)
                &&& !flags.is_recording ==> reason@ == "No recording is currently active"@
                &&& flags.is_recording ==> !has_manager && reason@ == "No recording manager found"@
            },
        },
{
    match require_recording(flags, has_manager) {
        Ok(()) => {
            state.system_audio_muted = muted;
            Ok(muted)
        },
        Err(reason) => Err(reason),
    }
}

/// Check if recording is currently paused. Without a recording nothing is.
pub fn is_recording_paused(state: Option<RecordingState>) -> (paused: bool)
    ensures
        paused == (state matches Some(known) && known.paused),
{
    match state {
        Some(known) => known.paused,
        None => false,
    }
}

/// How long a recording has run, in seconds by their bits.
#[derive(Clone, Copy, Debug, PartialEq, Eq, Structural)]
pub struct RecordingDurations {
    pub recording: Option<u64>,
    pub active: Option<u64>,
    pub total_pause: u64,
    pub current_pause: Option<u64>,
}

/// Everything that is shown of a recording.
#[derive(Clone, Copy, Debug, PartialEq, Eq, Structural)]
pub struct RecordingSnapshot {
    pub is_recording: bool,
    pub is_paused: bool,
    pub is_microphone_muted: bool,
    pub is_system_audio_muted: bool,
    pub is_active: bool,
    pub durations: RecordingDurations,
}

/// A recording that has not run. Zero seconds have no bits set.
pub open spec fn no_durations() -> RecordingDurations {
    RecordingDurations { recording: None, active: None, total_pause: 0, current_pause: None }
}

/// Get detailed recording state. Without a manager nothing is known but whether
/// something is being recorded.
pub fn get_recording_state(
    flags: &RecordingFlags,
    manager: Option<(RecordingState, bool, RecordingDurations)>,
) -> (snapshot: RecordingSnapshot)
    ensures
        snapshot == match manager {
            Some((state, is_active, durations)) => RecordingSnapshot {
                is_recording: flags.is_recording,
                is_paused: state.paused,
                is_microphone_muted: state.microphone_muted,
                is_system_audio_muted: state.system_audio_muted,
                is_active,
                durations,
            },
            None => RecordingSnapshot {
                is_recording: flags.is_recording,
                is_paused: false,
                is_microphone_muted: false,
                is_system_audio_muted: false,
                is_active: false,
                durations: no_durations(),
            },
        },
{
    match manager {
        Some((state, is_active, durations)) => RecordingSnapshot {
            is_recording: flags.is_recording,
            is_paused: state.paused,
            is_microphone_muted: state.microphone_muted,
            is_system_audio_muted: state.system_audio_muted,
            is_active,
            durations,
        },
        None => RecordingSnapshot {
            is_recording: flags.is_recording,
            is_paused: false,
            is_microphone_muted: false,
            is_system_audio_muted: false,
            is_active: false,
            durations: RecordingDurations {
                recording: None,
                active: None,
                total_pause: 0,
                current_pause: None,
            },
        },
    }
}

/// A line of live text as recognition announces it. Times are seconds; they and the
/// confidence are carried through by their bits.
#[derive(Debug)]
pub struct TranscriptUpdate {
    pub text: String,
    pub timestamp: String,
    pub source: String,
    pub sequence_id: u64,
    pub confidence: u32,
    pub audio_start_time: u64,
    pub audio_end_time: u64,
    pub duration: u64,
}

/// The line of transcript that an announcement stands for. A blank source is no
/// speaker.
pub fn segment_of_update(update: TranscriptUpdate) -> (segment: TranscriptSegment)
    ensures
        segment.id@ == "seg_"@ + decimal(update.sequence_id as nat),
        segment.text == update.text,
        segment.audio_start_time == update.audio_start_time,
        segment.audio_end_time == update.audio_end_time,
        segment.duration == update.duration,
        segment.display_time == update.timestamp,
        segment.confidence == update.confidence,
        segment.sequence_id == update.sequence_id,
        segment.speaker == if trimmed(update.source@).len() == 0 {
            None
        } else {
            Some(update.source)
        },
{
    let number = text_of(&decimal_text(update.sequence_id));
    let source = trim(&chars_of(update.source.as_str()));
    let speaker = if source.len() == 0 {
        None
    } else {
        Some(update.source)
    };
    TranscriptSegment {
        id: joined("seg_", number.as_str()),
        text: update.text,
        audio_start_time: update.audio_start_time,
        audio_end_time: update.audio_end_time,
        duration: update.duration,
        display_time: update.timestamp,
        confidence: update.confidence,
        sequence_id: update.sequence_id,
        speaker,
    }
}

/// What a recording without a name is called, from the local time as it is written.
pub fn effective_meeting_name(given: Option<String>, stamp: &str) -> (name: String)
    ensures
        match given {
            Some(chosen) => name == chosen,
            None => name@ == "Meeting "@ + stamp@,
        },
{
    match given {
        Some(chosen) => chosen,
        None => joined("Meeting ", stamp),
    }
}

/// How the moment is written in the name of a meeting.
pub const MEETING_STAMP: &'static str = "%Y-%m-%d_%H-%M-%S";

/// A moment as it stands in the name of a meeting: year, month and day, hour, minute and
/// second.
pub open spec fn is_meeting_stamp(stamp: Seq<char>) -> bool {
    is_year_and(stamp, "-NN-NN_NN-NN-NN"@)
}

/// The local date and time, with hyphens and an underscore.
///
/// Calls `chrono::Local::now` and writes the moment with `format`. Claimed: the form of the
/// text, which is the same for every moment. Which moment it is rests on the clock and on
/// the machine's time zone.
#[verifier::external_body]
fn local_stamp(pattern: &str) -> (stamp: String)
    requires
        pattern@ == MEETING_STAMP@,
    ensures
        is_meeting_stamp(stamp@),
{
    chrono::Local::now().format(pattern).to_string()
}

/// The name of a recording that begins now.
pub fn meeting_name_now(given: Option<String>) -> (name: String)
    ensures
        match given {
            Some(chosen) => name == chosen,
            None => exists|stamp: Seq<char>| #[trigger]
                is_meeting_stamp(stamp) && name@ == "Meeting "@ + stamp,
        },
{
    let stamp = local_stamp(MEETING_STAMP);
    effective_meeting_name(given, stamp.as_str())
}

/// What a device is wanted for.
#[derive(Clone, Copy, Debug, PartialEq, Eq, Structural)]
pub enum DeviceRole {
    Microphone,
    System,
}

/// Whether a device was set in the preferences or asked for in the request.
#[derive(Clone, Copy, Debug, PartialEq, Eq, Structural)]
pub enum DeviceOrigin {
    Preference,
    Request,
}

/// What is known of a device so far. `None` stands for a question that was not asked.
#[derive(Debug)]
pub struct DeviceAnswers {
    /// The name can be read.
    pub parsed: Option<Result<(), String>>,
    /// The named device is there.
    pub available: Option<Result<(), String>>,
    /// There is a default device.
    pub fallback: Option<Result<(), String>>,
}

impl DeviceAnswers {
    pub fn new() -> (answers: DeviceAnswers)
        ensures
            answers.parsed is None,
            answers.available is None,
            answers.fallback is None,
    {
        DeviceAnswers { parsed: None, available: None, fallback: None }
    }
}

/// Why no device can be used.
#[derive(Debug)]
pub enum DeviceError {
    /// The preferred microphone is gone and there is no default.
    PreferredGone(String),
    /// The preferred microphone cannot be read and there is no default.
    PreferredUnknown(String),
    /// Nothing was preferred and there is no default microphone.
    NoMicrophone(String),
    /// The requested name cannot be read.
    InvalidMicrophone(String),
    InvalidSystem(String),
    /// The requested microphone is gone and there is no default.
    RequestedGone(String),
    /// Nothing was requested and there is no default microphone.
    NoDefaultMicrophone(String),
}

/// The next question about a device, or the decision.
#[derive(Debug)]
pub enum DeviceStep {
    Parse,
    Check,
    FindDefault,
    UseNamed,
    UseDefault,
    /// Record without it.
    Without,
    Fail(DeviceError),
}

impl DeviceStep {
    pub open spec fn is_question(self) -> bool {
        self is Parse || self is Check || self is FindDefault
    }
}

/// Why the default is looked for.
#[derive(Clone, Copy, Debug, PartialEq, Eq, Structural)]
pub enum DefaultReason {
    NothingNamed,
    NameUnknown,
    NamedGone,
}

/// The default device, once it was looked for. System audio is optional; a microphone
/// is not.
pub open spec fn default_step(
    role: DeviceRole,
    origin: DeviceOrigin,
    reason: DefaultReason,
    fallback: Option<Result<(), String>>,
) -> DeviceStep {
    match fallback {
        None => DeviceStep::FindDefault,
        Some(Ok(_)) => DeviceStep::UseDefault,
        Some(Err(error)) => if role is System {
            DeviceStep::Without
        } else {
            DeviceStep::Fail(
                match (origin, reason) {
                    (DeviceOrigin::Preference, DefaultReason::NamedGone) =>
                    DeviceError::PreferredGone(error),
                    (DeviceOrigin::Preference, DefaultReason::NameUnknown) =>
                    DeviceError::PreferredUnknown(error),
                    (DeviceOrigin::Preference, DefaultReason::NothingNamed) =>
                    DeviceError::NoMicrophone(error),
                    (DeviceOrigin::Request, DefaultReason::NothingNamed) =>
                    DeviceError::NoDefaultMicrophone(error),
                    (DeviceOrigin::Request, _) => DeviceError::RequestedGone(error),
                },
            )
        },
    }
}

/// The named device if it is there, else the default, else an error or nothing. A
/// requested name that cannot be read is refused; a preferred one is passed over.
pub open spec fn device_step(
    role: DeviceRole,
    origin: DeviceOrigin,
    named: bool,
    answers: DeviceAnswers,
) -> DeviceStep {
    if !named {
        default_step(role, origin, DefaultReason::NothingNamed, answers.fallback)
    } else {
        match answers.parsed {
            None => DeviceStep::Parse,
            Some(Err(error)) => if origin is Request {
                DeviceStep::Fail(
                    if role is Microphone {
                        DeviceError::InvalidMicrophone(error)
                    } else {
                        DeviceError::InvalidSystem(error)
                    },
                )
            } else {
                default_step(role, origin, DefaultReason::NameUnknown, answers.fallback)
            },
            Some(Ok(_)) => match answers.available {
                None => DeviceStep::Check,
                Some(Ok(_)) => DeviceStep::UseNamed,
                Some(Err(_)) => default_step(
                    role,
                    origin,
                    DefaultReason::NamedGone,
                    answers.fallback,
                ),
            },
        }
    }
}

fn resolve_default(
    role: DeviceRole,
    origin: DeviceOrigin,
    reason: DefaultReason,
    fallback: &Option<Result<(), String>>,
) -> (step: DeviceStep)
    ensures
        step == default_step(role, origin, reason, *fallback),
{
    match fallback {
        None => DeviceStep::FindDefault,
        Some(Ok(_)) => DeviceStep::UseDefault,
        Some(Err(error)) => match role {
            DeviceRole::System => DeviceStep::Without,
            DeviceRole::Microphone => {
                let error = error.clone();
                DeviceStep::Fail(
                    match (origin, reason) {
                        (DeviceOrigin::Preference, DefaultReason::NamedGone) =>
                        DeviceError::PreferredGone(error),
                        (DeviceOrigin::Preference, DefaultReason::NameUnknown) =>
                        DeviceError::PreferredUnknown(error),
                        (DeviceOrigin::Preference, DefaultReason::NothingNamed) =>
                        DeviceError::NoMicrophone(error),
                        (DeviceOrigin::Request, DefaultReason::NothingNamed) =>
                        DeviceError::NoDefaultMicrophone(error),
                        (DeviceOrigin::Request, _) => DeviceError::RequestedGone(error),
                    },
                )
            },
        },
    }
}

/// The next question about a device, or the decision, from what is known of it.
pub fn resolve_device(
    role: DeviceRole,
    origin: DeviceOrigin,
    named: bool,
    answers: &DeviceAnswers,
) -> (step: DeviceStep)
    ensures
        step == device_step(role, origin, named, *answers),
{
    if !named {
        return resolve_default(role, origin, DefaultReason::NothingNamed, &answers.fallback);
    }
    match &answers.parsed {
        None => DeviceStep::Parse,
        Some(Err(error)) => match origin {
            DeviceOrigin::Request => DeviceStep::Fail(
                match role {
                    DeviceRole::Microphone => DeviceError::InvalidMicrophone(error.clone()),
                    DeviceRole::System => DeviceError::InvalidSystem(error.clone()),
                },
            ),
            DeviceOrigin::Preference => resolve_default(
                role,
                origin,
                DefaultReason::NameUnknown,
                &answers.fallback,
            ),
        },
        Some(Ok(_)) => match &answers.available {
            None => DeviceStep::Check,
            Some(Ok(_)) => DeviceStep::UseNamed,
            Some(Err(_)) => resolve_default(
                role,
                origin,
                DefaultReason::NamedGone,
                &answers.fallback,
            ),
        },
    }
}

/// No question about a device is asked twice, and once all are answered there is a
/// decision. A recording is never started without a microphone, and never fails for
/// want of system audio that was only preferred.
pub proof fn device_is_decided(
    role: DeviceRole,
    origin: DeviceOrigin,
    named: bool,
    answers: DeviceAnswers,
)
    ensures
        ({
            let step = device_step(role, origin, named, answers);
            &&& step is Parse ==> answers.parsed is None
            &&& step is Check ==> answers.available is None
            &&& step is FindDefault ==> answers.fallback is None
            &&& answers.parsed is Some && answers.available is Some && answers.fallback is Some
                ==> !step.is_question()
            &&& role is Microphone ==> !(step is Without)
            &&& role is System && origin is Preference ==> !(step is Fail)
            &&& step is UseNamed ==> named
        }),
{
}

/// What is said when no device can be used.
pub open spec fn device_failure(error: DeviceError, name: Seq<char>) -> Seq<char> {
    match error {
        DeviceError::PreferredGone(reason) => "No microphone device available. Preferred device '"@
            + name + "' was not found, and the default microphone is unavailable: "@ + reason@,
        DeviceError::PreferredUnknown(reason) =>
        "No microphone device available. Preferred device '"@ + name
            + "' not found, and default microphone unavailable: "@ + reason@,
        DeviceError::NoMicrophone(reason) => "No microphone device available: "@ + reason@,
        DeviceError::InvalidMicrophone(reason) => "Invalid microphone device '"@ + name + "': "@
            + reason@,
        DeviceError::InvalidSystem(reason) => "Invalid system device '"@ + name + "': "@ + reason@,
        DeviceError::RequestedGone(reason) => "Requested microphone '"@ + name
            + "' is unavailable and no default microphone exists: "@ + reason@,
        DeviceError::NoDefaultMicrophone(reason) => "No default microphone device available: "@
            + reason@,
    }
}

fn quoted(before: &str, name: &str, after: &str, reason: &str) -> (text: String)
    ensures
        text@ == before@ + name@ + after@ + reason@,
{
    let mut text = joined(before, name);
    text.append(after);
    text.append(reason);
    text
}

/// What is said when no device can be used; `name` is the device that was wanted.
pub fn device_failure_message(error: &DeviceError, name: &str) -> (message: String)
    ensures
        message@ == device_failure(*error, name@),
{
    match error {
        DeviceError::PreferredGone(reason) => quoted(
            "No microphone device available. Preferred device '",
            name,
            "' was not found, and the default microphone is unavailable: ",
            reason.as_str(),
        ),
        DeviceError::PreferredUnknown(reason) => quoted(
            "No microphone device available. Preferred device '",
            name,
            "' not found, and default microphone unavailable: ",
            reason.as_str(),
        ),
        DeviceError::NoMicrophone(reason) => joined(
            "No microphone device available: ",
            reason.as_str(),
        ),
        DeviceError::InvalidMicrophone(reason) => quoted(
            "Invalid microphone device '",
            name,
            "': ",
            reason.as_str(),
        ),
        DeviceError::InvalidSystem(reason) => quoted(
            "Invalid system device '",
            name,
            "': ",
            reason.as_str(),
        ),
        DeviceError::RequestedGone(reason) => quoted(
            "Requested microphone '",
            name,
            "' is unavailable and no default microphone exists: ",
            reason.as_str(),
        ),
        DeviceError::NoDefaultMicrophone(reason) => joined(
            "No default microphone device available: ",
            reason.as_str(),
        ),
    }
}

/// What a device is watched for.
#[derive(Clone, Copy, Debug, PartialEq, Eq, Structural)]
pub enum DeviceMonitorType {
    Microphone,
    SystemAudio,
}

impl DeviceMonitorType {
    pub open spec fn name(self) -> Seq<char> {
        match self {
            DeviceMonitorType::Microphone => "Microphone"@,
            DeviceMonitorType::SystemAudio => "SystemAudio"@,
        }
    }

    pub fn label(self) -> (text: &'static str)
        ensures
            text@ == self.name(),
    {
        match self {
            DeviceMonitorType::Microphone => "Microphone",
            DeviceMonitorType::SystemAudio => "SystemAudio",
        }
    }

    /// The kind of device that a request names.
    pub fn parse(name: &str) -> (kind: Result<DeviceMonitorType, String>)
        ensures
            match kind {
                Ok(found) => found.name() == name@,
                Err(reason) => {
                    &&& name@ != "Microphone"@
                    &&& name@ != "SystemAudio"@
                    &&& reason@ == "Invalid device type: "@ + name@
                },
            },
    {
        if same_text(name, "Microphone") {
            Ok(DeviceMonitorType::Microphone)
        } else if same_text(name, "SystemAudio") {
            Ok(DeviceMonitorType::SystemAudio)
        } else {
            Err(joined("Invalid device type: ", name))
        }
    }
}

/// A device came or went while recording.
#[derive(Debug)]
pub enum DeviceEvent {
    DeviceDisconnected { device_name: String, device_type: DeviceMonitorType },
    DeviceReconnected { device_name: String, device_type: DeviceMonitorType },
    DeviceListChanged,
}

/// The same for the window, with the kind of device by name.
#[derive(Debug, Clone)]
pub enum DeviceEventResponse {
    DeviceDisconnected { device_name: String, device_type: String },
    DeviceReconnected { device_name: String, device_type: String },
    DeviceListChanged,
}

impl DeviceEventResponse {
    pub fn of(event: DeviceEvent) -> (response: DeviceEventResponse)
        ensures
            match event {
                DeviceEvent::DeviceDisconnected { device_name, device_type } => match response {
                    DeviceEventResponse::DeviceDisconnected { device_name: name, device_type: kind }
                    => name == device_name && kind@ == device_type.name(),
                    _ => false,
                },
                DeviceEvent::DeviceReconnected { device_name, device_type } => match response {
                    DeviceEventResponse::DeviceReconnected { device_name: name, device_type: kind }
                    => name == device_name && kind@ == device_type.name(),
                    _ => false,
                },
                DeviceEvent::DeviceListChanged => response is DeviceListChanged,
            },
    {
        match event {
            DeviceEvent::DeviceDisconnected { device_name, device_type } =>
            DeviceEventResponse::DeviceDisconnected {
                device_name,
                device_type: device_type.label().to_owned(),
            },
            DeviceEvent::DeviceReconnected { device_name, device_type } =>
            DeviceEventResponse::DeviceReconnected {
                device_name,
                device_type: device_type.label().to_owned(),
            },
            DeviceEvent::DeviceListChanged => DeviceEventResponse::DeviceListChanged,
        }
    }
}

/// Information about a disconnected device.
#[derive(Debug, Clone)]
pub struct DisconnectedDeviceInfo {
    pub name: String,
    pub device_type: String,
}

/// Reconnection status information.
#[derive(Debug, Clone)]
pub struct ReconnectionStatus {
    pub is_reconnecting: bool,
    pub disconnected_device: Option<DisconnectedDeviceInfo>,
}

/// Whether a device is being waited for, and which. Without a recording there is none.
pub fn get_reconnection_status(
    has_manager: bool,
    is_reconnecting: bool,
    disconnected: Option<(String, DeviceMonitorType)>,
) -> (status: ReconnectionStatus)
    ensures
        status.is_reconnecting == (has_manager && is_reconnecting),
        match status.disconnected_device {
            Some(device) => has_manager && (disconnected matches Some((name, kind)) && device.name
                == name && device.device_type@ == kind.name()),
            None => !has_manager || disconnected is None,
        },
{
    if !has_manager {
        return ReconnectionStatus { is_reconnecting: false, disconnected_device: None };
    }
    ReconnectionStatus {
        is_reconnecting,
        disconnected_device: match disconnected {
            Some((name, kind)) => Some(
                DisconnectedDeviceInfo { name, device_type: kind.label().to_owned() },
            ),
            None => None,
        },
    }
}

/// Which device to look for again, if there is a recording to look for it.
pub fn attempt_device_reconnect(device_type: &str, has_manager: bool) -> (kind: Result<
    DeviceMonitorType,
    String,
>)
    ensures
        match kind {
            Ok(found) => has_manager && found.name() == device_type@,
            Err(reason) => {
                let known = device_type@ == "Microphone"@ || device_type@ == "SystemAudio"@;
                &&& !known ==> reason@ == "Invalid device type: "@ + device_type@
                &&& known ==> !has_manager && reason@ == "Recording not active"@
            },
        },
{
    match DeviceMonitorType::parse(device_type) {
        Ok(kind) => if has_manager {
            Ok(kind)
        } else {
            Err("Recording not active".to_owned())
        },
        Err(reason) => Err(reason),
    }
}

/// The names that a started recording is announced with.
pub fn announced_devices(
    origin: DeviceOrigin,
    mic_name: Option<String>,
    system_name: Option<String>,
) -> (names: (String, String))
    ensures
        names.0@ == match (origin, mic_name) {
            (DeviceOrigin::Request, Some(name)) => name@,
            _ => "Default Microphone"@,
        },
        names.1@ == match (origin, system_name) {
            (DeviceOrigin::Request, Some(name)) => name@,
            _ => "Default System Audio"@,
        },
{
    let mic = match (origin, mic_name) {
        (DeviceOrigin::Request, Some(name)) => name,
        _ => "Default Microphone".to_owned(),
    };
    let system = match (origin, system_name) {
        (DeviceOrigin::Request, Some(name)) => name,
        _ => "Default System Audio".to_owned(),
    };
    (mic, system)
}

/// A preference that cannot be read counts as one for live text; one against it is kept to,
/// and there is no live text while something is being transcribed again.
pub proof fn live_text_is_given_unless_refused(preference: Option<bool>, retranscribing: bool)
    ensures
        would_be_live(None, retranscribing) == would_be_live(Some(true), retranscribing),
        would_be_live(Some(true), false),
        !would_be_live(Some(false), retranscribing),
        !would_be_live(preference, true),
{
}

/// A named device that can be read and is there is the one that is used, whatever else is
/// known; without a name no question is asked about one.
pub proof fn named_device_comes_first(
    role: DeviceRole,
    origin: DeviceOrigin,
    fallback: Option<Result<(), String>>,
    answers: DeviceAnswers,
)
    ensures
        device_step(
            role,
            origin,
            true,
            DeviceAnswers { parsed: Some(Ok(())), available: Some(Ok(())), fallback },
        ) is UseNamed,
        device_step(
            role,
            origin,
            true,
            DeviceAnswers { parsed: Some(Ok(())), available: None, fallback },
        ) is Check,
        answers.parsed is None ==> device_step(role, origin, true, answers) is Parse,
        ({
            let step = device_step(role, origin, false, answers);
            !(step is Parse) && !(step is Check) && !(step is UseNamed)
        }),
{
}

/// The named device cannot be had: nothing was named, the name cannot be read, or the device
/// is gone.
pub open spec fn named_is_out(named: bool, answers: DeviceAnswers) -> bool {
    ||| !named
    ||| answers.parsed matches Some(outcome) && outcome is Err
    ||| answers.parsed == Some(Ok::<(), String>(())) && (answers.available matches Some(outcome)
        && outcome is Err)
}

/// Where the named device cannot be had the default is looked for, and used if there is one.
/// Without one a recording goes on without system audio, but not without a microphone: it
/// fails with the reason that was given. A name in a request that cannot be read is refused
/// before any of this, with its own reason.
pub proof fn default_device_comes_second(
    role: DeviceRole,
    origin: DeviceOrigin,
    named: bool,
    answers: DeviceAnswers,
)
    requires
        named_is_out(named, answers),
    ensures
        ({
            let step = device_step(role, origin, named, answers);
            let unreadable = named && (answers.parsed matches Some(outcome) && outcome is Err);
            &&& unreadable && origin is Request && role is Microphone ==> step == DeviceStep::Fail(
                DeviceError::InvalidMicrophone(answers.parsed->0->Err_0),
            )
            &&& unreadable && origin is Request && role is System ==> step == DeviceStep::Fail(
                DeviceError::InvalidSystem(answers.parsed->0->Err_0),
            )
            &&& !(unreadable && origin is Request) ==> {
                &&& answers.fallback is None ==> step is FindDefault
                &&& answers.fallback == Some(Ok::<(), String>(())) ==> step is UseDefault
                &&& answers.fallback matches Some(Err(reason)) ==> {
                    &&& role is System ==> step is Without
                    &&& role is Microphone && origin is Preference && !named ==> step
                        == DeviceStep::Fail(DeviceError::NoMicrophone(reason))
                    &&& role is Microphone && origin is Preference && unreadable ==> step
                        == DeviceStep::Fail(DeviceError::PreferredUnknown(reason))
                    &&& role is Microphone && origin is Preference && named && !unreadable ==> step
                        == DeviceStep::Fail(DeviceError::PreferredGone(reason))
                    &&& role is Microphone && origin is Request && !named ==> step
                        == DeviceStep::Fail(DeviceError::NoDefaultMicrophone(reason))
                    &&& role is Microphone && origin is Request && named ==> step
                        == DeviceStep::Fail(DeviceError::RequestedGone(reason))
                }
            }
        }),
{
}

/// What is said when no device can be used ends with the reason that was given; where a device
/// was wanted by name, the name stands in it between quotes.
pub proof fn device_failure_gives_the_reason(name: Seq<char>, reason: String)
    ensures
        ends_with(device_failure(DeviceError::PreferredGone(reason), name), reason@),
        ends_with(device_failure(DeviceError::PreferredUnknown(reason), name), reason@),
        ends_with(device_failure(DeviceError::NoMicrophone(reason), name), reason@),
        ends_with(device_failure(DeviceError::InvalidMicrophone(reason), name), reason@),
        ends_with(device_failure(DeviceError::InvalidSystem(reason), name), reason@),
        ends_with(device_failure(DeviceError::RequestedGone(reason), name), reason@),
        ends_with(device_failure(DeviceError::NoDefaultMicrophone(reason), name), reason@),
        holds_text(device_failure(DeviceError::PreferredGone(reason), name), name),
        holds_text(device_failure(DeviceError::PreferredUnknown(reason), name), name),
        holds_text(device_failure(DeviceError::InvalidMicrophone(reason), name), name),
        holds_text(device_failure(DeviceError::InvalidSystem(reason), name), name),
        holds_text(device_failure(DeviceError::RequestedGone(reason), name), name),
{
    lemma_parts(
        "No microphone device available. Preferred device '"@,
        name,
        "' was not found, and the default microphone is unavailable: "@,
        reason@,
    );
    lemma_parts(
        "No microphone device available. Preferred device '"@,
        name,
        "' not found, and default microphone unavailable: "@,
        reason@,
    );
    lemma_parts("Invalid microphone device '"@, name, "': "@, reason@);
    lemma_parts("Invalid system device '"@, name, "': "@, reason@);
    lemma_parts(
        "Requested microphone '"@,
        name,
        "' is unavailable and no default microphone exists: "@,
        reason@,
    );
    lemma_end("No microphone device available: "@, reason@);
    lemma_end("No default microphone device available: "@, reason@);
}

pub proof fn lemma_end(before: Seq<char>, reason: Seq<char>)
    ensures
        ends_with(before + reason, reason),
{
    let text = before + reason;
    assert(text.skip(text.len() - reason.len()) =~= reason);
}

pub proof fn lemma_parts(before: Seq<char>, name: Seq<char>, after: Seq<char>, reason: Seq<char>)
    ensures
        ends_with(before + name + after + reason, reason),
        holds_text(before + name + after + reason, name),
{
    let text = before + name + after + reason;
    assert(text.skip(text.len() - reason.len()) =~= reason);
    assert(text.subrange(before.len() as int, (before.len() + name.len()) as int) =~= name);
    assert(stands_at(text, name, before.len() as int));
}

} // verus!
