//! What a recording leaves in its folder: the tracks, the transcript and the
//! description.

use crate::moments::{is_utc_text, utc_millis, utc_now_text};
use crate::paths::{file_name, inside, join, name_of};
use crate::text::{decimal, decimal_text, joined, text_of};
use vstd::prelude::*;

verus! {

/// The rate everything in the recording pipeline runs at.
pub const RECORDING_SAMPLE_RATE: u32 = 48_000;

/// Full confidence, by its bits.
pub const FULL_CONFIDENCE_BITS: u32 = 0x3f80_0000;

/// A line of transcript.
///
/// Times are seconds from the start of the recording; they and the confidence are
/// carried through by their bits.
#[derive(Debug, Clone)]
pub struct TranscriptSegment {
    pub id: String,
    pub text: String,
    pub audio_start_time: u64,
    pub audio_end_time: u64,
    pub duration: u64,
    pub display_time: String,
    pub confidence: u32,
    pub sequence_id: u64,
    /// Live speaker label, such as "You" or "Guest".
    pub speaker: Option<String>,
}

/// The devices of a recording, by name.
#[derive(Debug, Clone)]
pub struct DeviceInfo {
    pub microphone: Option<String>,
    pub system_audio: Option<String>,
}

/// What is known of a meeting beside its audio. The duration is in seconds, by its
/// bits.
#[derive(Debug, Clone)]
pub struct MeetingMetadata {
    pub version: String,
    pub meeting_id: Option<String>,
    pub meeting_name: Option<String>,
    pub created_at: String,
    pub completed_at: Option<String>,
    pub duration_seconds: Option<u64>,
    pub devices: DeviceInfo,
    pub audio_file: String,
    pub mic_audio_file: Option<String>,
    pub system_audio_file: Option<String>,
    pub transcript_file: String,
    pub sample_rate: u32,
    pub status: String,
}

/// The tracks of a recording.
#[derive(Clone, Copy, Debug, PartialEq, Eq, Structural)]
pub enum Track {
    Mixed,
    Mic,
    System,
}

impl Track {
    pub open spec fn file_stem(self) -> Seq<char> {
        match self {
            Track::Mixed => "audio"@,
            Track::Mic => "mic"@,
            Track::System => "system"@,
        }
    }

    /// Basename of the file, and the label used when something goes wrong.
    pub fn name(self) -> (text: &'static str)
        ensures
            text@ == self.file_stem(),
    {
        match self {
            Track::Mixed => "audio",
            Track::Mic => "mic",
            Track::System => "system",
        }
    }

    /// Where the track is kept in a meeting's folder.
    pub fn path_in(self, folder: &str) -> (path: String)
        ensures
            path@ == inside(folder@, self.file_stem() + ".mp4"@),
    {
        let name = joined(self.name(), ".mp4");
        join(folder, name.as_str())
    }

    /// The track that a captured block belongs to.
    pub fn of_device(device: crate::recording_state::DeviceType) -> (track: Track)
        ensures
            track == match device {
                crate::recording_state::DeviceType::Mixed => Track::Mixed,
                crate::recording_state::DeviceType::Microphone => Track::Mic,
                crate::recording_state::DeviceType::System => Track::System,
            },
    {
        match device {
            crate::recording_state::DeviceType::Mixed => Track::Mixed,
            crate::recording_state::DeviceType::Microphone => Track::Mic,
            crate::recording_state::DeviceType::System => Track::System,
        }
    }
}

/// Where a line with this number is, if there is one: the first such place.
pub open spec fn place_of(segments: Seq<TranscriptSegment>, sequence_id: u64) -> Option<int>
    decreases segments.len(),
{
    if segments.len() == 0 {
        None
    } else {
        match place_of(segments.drop_last(), sequence_id) {
            Some(place) => Some(place),
            None => if segments.last().sequence_id == sequence_id {
                Some(segments.len() - 1)
            } else {
                None
            },
        }
    }
}

/// The transcript with one more line: in place of the line with the same number, or
/// at the end.
pub open spec fn upserted(segments: Seq<TranscriptSegment>, segment: TranscriptSegment) -> Seq<
    TranscriptSegment,
> {
    match place_of(segments, segment.sequence_id) {
        Some(place) => segments.update(place, segment),
        None => segments.push(segment),
    }
}

/// No number occurs twice.
pub open spec fn numbered_once(segments: Seq<TranscriptSegment>) -> bool {
    forall|i: int, j: int|
        0 <= i < j < segments.len() ==> (#[trigger] segments[i]).sequence_id != (
        #[trigger] segments[j]).sequence_id
}

pub proof fn lemma_place_of(segments: Seq<TranscriptSegment>, sequence_id: u64)
    ensures
        match place_of(segments, sequence_id) {
            Some(place) => {
                &&& 0 <= place < segments.len()
                &&& segments[place].sequence_id == sequence_id
                &&& forall|i: int|
                    0 <= i < place ==> (#[trigger] segments[i]).sequence_id != sequence_id
            },
            None => forall|i: int|
                0 <= i < segments.len() ==> (#[trigger] segments[i]).sequence_id != sequence_id,
        },
    decreases segments.len(),
{
    if segments.len() > 0 {
        lemma_place_of(segments.drop_last(), sequence_id);
        let shorter = segments.drop_last();
        match place_of(shorter, sequence_id) {
            Some(place) => {
                assert(shorter[place] == segments[place]);
                assert forall|i: int| 0 <= i < place implies (#[trigger] segments[i]).sequence_id
                    != sequence_id by {
                    assert(shorter[i] == segments[i]);
                }
            },
            None => {
                assert forall|i: int| 0 <= i < segments.len() - 1 implies (
                #[trigger] segments[i]).sequence_id != sequence_id by {
                    assert(shorter[i] == segments[i]);
                }
            },
        }
    }
}

/// Adds a line to the transcript, or replaces the one with the same number.
pub fn upsert_transcript_segment(
    segments: &mut Vec<TranscriptSegment>,
    segment: TranscriptSegment,
)
    ensures
        final(segments)@ == upserted(old(segments)@, segment),
{
    let ghost before = segments@;
    let mut index: usize = 0;
    while index < segments.len()
        invariant
            segments@ == before,
            before == old(segments)@,
            index <= before.len(),
            forall|i: int|
                0 <= i < index ==> (#[trigger] before[i]).sequence_id != segment.sequence_id,
        decreases before.len() - index,
    {
        if segments[index].sequence_id == segment.sequence_id {
            proof {
                lemma_place_of(before, segment.sequence_id);
                assert(place_of(before, segment.sequence_id) == Some(index as int));
            }
            segments.set(index, segment);
            return;
        }
        index += 1;
    }
    proof {
        lemma_place_of(before, segment.sequence_id);
    }
    segments.push(segment);
}

/// A line that comes again replaces the earlier one: afterwards it is there as it
/// came last, every other line is as it was, and no number occurs twice.
pub proof fn later_line_replaces_earlier(
    segments: Seq<TranscriptSegment>,
    segment: TranscriptSegment,
)
    requires
        numbered_once(segments),
    ensures
        numbered_once(upserted(segments, segment)),
        upserted(segments, segment).contains(segment),
        forall|other: TranscriptSegment|
            other.sequence_id != segment.sequence_id ==> (#[trigger] upserted(
                segments,
                segment,
            ).contains(other) <==> segments.contains(other)),
        forall|other: TranscriptSegment|
            other.sequence_id == segment.sequence_id && #[trigger] upserted(
                segments,
                segment,
            ).contains(other) ==> other == segment,
{
    lemma_place_of(segments, segment.sequence_id);
    let after = upserted(segments, segment);
    match place_of(segments, segment.sequence_id) {
        Some(place) => {
            assert(after[place] == segment);
        },
        None => {
            assert(after[segments.len() as int] == segment);
        },
    }
    assert forall|other: TranscriptSegment| other.sequence_id != segment.sequence_id implies (
    #[trigger] after.contains(other) <==> segments.contains(other)) by {
        if segments.contains(other) {
            let k = choose|k: int| 0 <= k < segments.len() && segments[k] == other;
            assert(after[k] == other);
        }
        if after.contains(other) {
            let k = choose|k: int| 0 <= k < after.len() && after[k] == other;
            assert(segments[k] == other);
        }
    }
}

/// What the description of a recording says when it begins.
pub open spec fn describes_begin(
    metadata: MeetingMetadata,
    meeting_name: Seq<char>,
    save_audio: bool,
) -> bool {
    &&& metadata.version@ == "1.0"@
    &&& metadata.meeting_id is None
    &&& metadata.meeting_name matches Some(name) && name@ == meeting_name
    &&& metadata.completed_at is None
    &&& metadata.duration_seconds is None
    &&& metadata.devices.microphone is None
    &&& metadata.devices.system_audio is None
    &&& metadata.audio_file@ == if save_audio {
        "audio.mp4"@
    } else {
        ""@
    }
    &&& match metadata.mic_audio_file {
        Some(name) => save_audio && name@ == "mic.mp4"@,
        None => !save_audio,
    }
    &&& match metadata.system_audio_file {
        Some(name) => save_audio && name@ == "system.mp4"@,
        None => !save_audio,
    }
    &&& metadata.transcript_file@ == "transcripts.json"@
    &&& metadata.sample_rate == RECORDING_SAMPLE_RATE
    &&& metadata.status@ == "recording"@
}

/// The description of a recording that has just begun.
pub fn initial_metadata(meeting_name: &str, created_at: String, save_audio: bool) -> (metadata:
    MeetingMetadata)
    ensures
        metadata.created_at == created_at,
        describes_begin(metadata, meeting_name@, save_audio),
{
    MeetingMetadata {
        version: "1.0".to_owned(),
        meeting_id: None,
        meeting_name: Some(meeting_name.to_owned()),
        created_at,
        completed_at: None,
        duration_seconds: None,
        devices: DeviceInfo { microphone: None, system_audio: None },
        audio_file: if save_audio {
            "audio.mp4".to_owned()
        } else {
            "".to_owned()
        },
        mic_audio_file: if save_audio {
            Some("mic.mp4".to_owned())
        } else {
            None
        },
        system_audio_file: if save_audio {
            Some("system.mp4".to_owned())
        } else {
            None
        },
        transcript_file: "transcripts.json".to_owned(),
        sample_rate: RECORDING_SAMPLE_RATE,
        status: "recording".to_owned(),
    }
}

/// The name of the file that a path leads to; nothing if it leads to none.
pub open spec fn name_or_nothing(path: Seq<char>) -> Seq<char> {
    match name_of(path) {
        Some(name) => name,
        None => Seq::empty(),
    }
}

fn track_file(path: Option<&str>) -> (name: Option<String>)
    ensures
        match name {
            Some(text) => path matches Some(given) && text@ == name_or_nothing(given@),
            None => path is None,
        },
{
    match path {
        Some(given) => match file_name(given) {
            Some(name) => Some(text_of(&name)),
            None => Some(String::new()),
        },
        None => None,
    }
}

/// What the description of a recording says when it has ended.
pub open spec fn describes_end(
    metadata: MeetingMetadata,
    done: MeetingMetadata,
    mic_path: Option<&str>,
    system_path: Option<&str>,
    recording_duration: Option<u64>,
    segments: Seq<TranscriptSegment>,
) -> bool {
    &&& done.version == metadata.version
    &&& done.meeting_id == metadata.meeting_id
    &&& done.meeting_name == metadata.meeting_name
    &&& done.created_at == metadata.created_at
    &&& done.devices == metadata.devices
    &&& done.audio_file == metadata.audio_file
    &&& done.transcript_file == metadata.transcript_file
    &&& done.sample_rate == metadata.sample_rate
    &&& done.status@ == "completed"@
    &&& match done.mic_audio_file {
        Some(text) => mic_path matches Some(given) && text@ == name_or_nothing(given@),
        None => mic_path is None,
    }
    &&& match done.system_audio_file {
        Some(text) => system_path matches Some(given) && text@ == name_or_nothing(given@),
        None => system_path is None,
    }
    &&& done.duration_seconds == match recording_duration {
        Some(length) => Some(length),
        None => if segments.len() > 0 {
            Some(segments.last().audio_end_time)
        } else {
            None
        },
    }
}

/// The description of a recording that has ended: complete, with the tracks that were
/// really written. Its length is the measured one, or else where the last line of the
/// transcript ends. Every other field stays.
pub fn complete_metadata(
    metadata: MeetingMetadata,
    completed_at: String,
    mic_path: Option<&str>,
    system_path: Option<&str>,
    recording_duration: Option<u64>,
    segments: &Vec<TranscriptSegment>,
) -> (done: MeetingMetadata)
    ensures
        done.completed_at == Some(completed_at),
        describes_end(metadata, done, mic_path, system_path, recording_duration, segments@),
{
    let mut done = metadata;
    done.status = "completed".to_owned();
    done.completed_at = Some(completed_at);
    done.mic_audio_file = track_file(mic_path);
    done.system_audio_file = track_file(system_path);
    done.duration_seconds = match recording_duration {
        Some(length) => Some(length),
        None => if segments.len() > 0 {
            Some(segments[segments.len() - 1].audio_end_time)
        } else {
            None
        },
    };
    done
}

/// The description of a recording that begins now.
pub fn begun_metadata(meeting_name: &str, save_audio: bool) -> (metadata: MeetingMetadata)
    ensures
        is_utc_text(metadata.created_at@),
        describes_begin(metadata, meeting_name@, save_audio),
{
    initial_metadata(meeting_name, utc_now_text(), save_audio)
}

/// The description of a recording that ends now.
pub fn ended_metadata(
    metadata: MeetingMetadata,
    mic_path: Option<&str>,
    system_path: Option<&str>,
    recording_duration: Option<u64>,
    segments: &Vec<TranscriptSegment>,
) -> (done: MeetingMetadata)
    ensures
        done.completed_at matches Some(moment) && is_utc_text(moment@),
        describes_end(metadata, done, mic_path, system_path, recording_duration, segments@),
{
    complete_metadata(
        metadata,
        utc_now_text(),
        mic_path,
        system_path,
        recording_duration,
        segments,
    )
}

/// What the thread that writes the tracks reports when it has closed them.
#[derive(Debug)]
pub struct FinishedTracks {
    pub mixed: Result<String, String>,
    pub mic: Option<String>,
    pub system: Option<String>,
}

/// What is reported when no audio was to be saved.
pub fn no_tracks() -> (finished: FinishedTracks)
    ensures
        finished.mixed matches Err(reason) && reason@ == "Audio saving was not enabled"@,
        finished.mic is None,
        finished.system is None,
{
    FinishedTracks {
        mixed: Err("Audio saving was not enabled".to_owned()),
        mic: None,
        system: None,
    }
}

/// What is reported for the tracks that could be kept. The mixed one is what the
/// meeting is played from, so the recording failed without it; the others are
/// optional.
pub fn finished_tracks(
    mixed: Option<String>,
    mic: Option<String>,
    system: Option<String>,
) -> (finished: FinishedTracks)
    ensures
        match mixed {
            Some(path) => finished.mixed == Ok::<String, String>(path),
            None => finished.mixed matches Err(reason) && reason@
                == "The recording could not be written"@,
        },
        finished.mic == mic,
        finished.system == system,
{
    FinishedTracks {
        mixed: match mixed {
            Some(path) => Ok(path),
            None => Err("The recording could not be written".to_owned()),
        },
        mic,
        system,
    }
}

/// What the caller is to do next to save a recording.
#[derive(Debug)]
pub enum SaveStep {
    /// Wait for the thread that writes the tracks.
    AwaitTracks,
    /// Write the transcript into the meeting's folder.
    WriteTranscripts,
    /// See whether the transcript is there.
    CheckTranscripts,
    /// Write the completed description into the meeting's folder.
    WriteMetadata,
    /// Everything is saved; where the recording is, if there is one.
    Saved(Option<String>),
    Fail(String),
}

/// What the caller says happened.
#[derive(Debug)]
pub enum SaveEvent {
    /// What the thread that wrote the tracks reported, if it did.
    Tracks(Option<FinishedTracks>),
    Written(Result<(), String>),
    /// Whether the transcript is there.
    Present(bool),
}

/// Where the saving stands.
#[derive(Clone, Copy, Debug, PartialEq, Eq, Structural)]
pub enum SaveStage {
    Tracks,
    Transcripts,
    Check,
    Metadata,
    Done,
}

/// Saving a recording that has stopped.
pub struct SaveRun {
    pub saving_audio: bool,
    pub has_folder: bool,
    pub has_metadata: bool,
    pub stage: SaveStage,
    pub audio: Option<String>,
    pub mic: Option<String>,
    pub system: Option<String>,
}

impl SaveRun {
    /// The event belongs to where the saving stands.
    pub open spec fn expects(&self, event: SaveEvent) -> bool {
        match (self.stage, event) {
            (SaveStage::Tracks, SaveEvent::Tracks(_)) => true,
            (SaveStage::Transcripts, SaveEvent::Written(_)) => true,
            (SaveStage::Check, SaveEvent::Present(_)) => true,
            (SaveStage::Metadata, SaveEvent::Written(_)) => true,
            _ => false,
        }
    }

    /// Begins to save. Without audio only the transcript is written; with it the
    /// tracks come first.
    pub fn begin(
        saving_audio: bool,
        has_folder: bool,
        has_metadata: bool,
        writer_started: bool,
    ) -> (begun: (SaveRun, SaveStep))
        ensures
            begun.0.saving_audio == saving_audio,
            begun.0.has_folder == has_folder,
            begun.0.has_metadata == has_metadata,
            begun.0.audio is None,
            saving_audio && writer_started ==> begun.0.stage == SaveStage::Tracks
                && begun.1 is AwaitTracks,
            saving_audio && !writer_started ==> begun.0.stage == SaveStage::Done && (
            begun.1 matches SaveStep::Fail(reason) && reason@ == "No track writer was started"@),
            !saving_audio && has_folder ==> begun.0.stage == SaveStage::Transcripts
                && begun.1 is WriteTranscripts,
            !saving_audio && !has_folder ==> begun.0.stage == SaveStage::Done && begun.1
                == SaveStep::Saved(None),
    {
        let mut run = SaveRun {
            saving_audio,
            has_folder,
            has_metadata,
            stage: SaveStage::Done,
            audio: None,
            mic: None,
            system: None,
        };
        if !saving_audio {
            if has_folder {
                run.stage = SaveStage::Transcripts;
                return (run, SaveStep::WriteTranscripts);
            }
            return (run, SaveStep::Saved(None));
        }
        if !writer_started {
            return (run, SaveStep::Fail("No track writer was started".to_owned()));
        }
        run.stage = SaveStage::Tracks;
        (run, SaveStep::AwaitTracks)
    }

    /// Takes what happened and says what to do next. A recording counts as saved only
    /// when its tracks were closed, its transcript is there and its description says
    /// that it is complete.
    pub fn step(&mut self, event: SaveEvent) -> (step: SaveStep)
        requires
            old(self).expects(event),
        ensures
            final(self).saving_audio == old(self).saving_audio,
            final(self).has_folder == old(self).has_folder,
            final(self).has_metadata == old(self).has_metadata,
            !(old(self).stage is Tracks) ==> {
                &&& final(self).audio == old(self).audio
                &&& final(self).mic == old(self).mic
                &&& final(self).system == old(self).system
            },
            match (old(self).stage, event) {
                (SaveStage::Tracks, SaveEvent::Tracks(None)) => {
                    &&& final(self).stage == SaveStage::Done
                    &&& step matches SaveStep::Fail(reason) && reason@
                        == "The track writer stopped without reporting"@
                },
                (SaveStage::Tracks, SaveEvent::Tracks(Some(finished))) => match finished.mixed {
                    Err(reason) => final(self).stage == SaveStage::Done && step == SaveStep::Fail(
                        reason,
                    ),
                    Ok(path) => {
                        &&& final(self).audio == Some(path)
                        &&& final(self).mic == finished.mic
                        &&& final(self).system == finished.system
                        &&& old(self).has_folder ==> final(self).stage == SaveStage::Transcripts
                            && step is WriteTranscripts
                        &&& !old(self).has_folder ==> final(self).stage == SaveStage::Done && step
                            == SaveStep::Saved(Some(path))
                    },
                },
                (SaveStage::Transcripts, SaveEvent::Written(Err(error))) => {
                    &&& final(self).stage == SaveStage::Done
                    &&& step matches SaveStep::Fail(reason) && reason@ == if old(
                        self,
                    ).saving_audio {
                        "Failed to save transcripts: "@ + error@
                    } else {
                        "Failed to save final transcripts: "@ + error@
                    }
                },
                (SaveStage::Transcripts, SaveEvent::Written(Ok(_))) => if old(self).saving_audio {
                    final(self).stage == SaveStage::Check && step is CheckTranscripts
                } else {
                    final(self).stage == SaveStage::Done && step == SaveStep::Saved(None)
                },
                (SaveStage::Check, SaveEvent::Present(present)) => if !present {
                    &&& final(self).stage == SaveStage::Done
                    &&& step matches SaveStep::Fail(reason) && reason@
                        == "Transcript file verification failed"@
                } else if old(self).has_metadata {
                    final(self).stage == SaveStage::Metadata && step is WriteMetadata
                } else {
                    final(self).stage == SaveStage::Done && step == SaveStep::Saved(
                        old(self).audio,
                    )
                },
                (SaveStage::Metadata, SaveEvent::Written(Err(error))) => {
                    &&& final(self).stage == SaveStage::Done
                    &&& step matches SaveStep::Fail(reason) && reason@
                        == "Failed to update metadata: "@ + error@
                },
                (SaveStage::Metadata, SaveEvent::Written(Ok(_))) => final(self).stage
                    == SaveStage::Done && step == SaveStep::Saved(old(self).audio),
                _ => false,
            },
    {
        match (self.stage, event) {
            (SaveStage::Tracks, SaveEvent::Tracks(reported)) => match reported {
                None => {
                    self.stage = SaveStage::Done;
                    SaveStep::Fail("The track writer stopped without reporting".to_owned())
                },
                Some(finished) => match finished.mixed {
                    Err(reason) => {
                        self.stage = SaveStage::Done;
                        SaveStep::Fail(reason)
                    },
                    Ok(path) => {
                        self.mic = finished.mic;
                        self.system = finished.system;
                        if self.has_folder {
                            self.audio = Some(path);
                            self.stage = SaveStage::Transcripts;
                            SaveStep::WriteTranscripts
                        } else {
                            self.audio = Some(path.clone());
                            self.stage = SaveStage::Done;
                            SaveStep::Saved(Some(path))
                        }
                    },
                },
            },
            (SaveStage::Transcripts, SaveEvent::Written(outcome)) => match outcome {
                Err(error) => {
                    self.stage = SaveStage::Done;
                    if self.saving_audio {
                        SaveStep::Fail(joined("Failed to save transcripts: ", error.as_str()))
                    } else {
                        SaveStep::Fail(joined("Failed to save final transcripts: ", error.as_str()))
                    }
                },
                Ok(_) => if self.saving_audio {
                    self.stage = SaveStage::Check;
                    SaveStep::CheckTranscripts
                } else {
                    self.stage = SaveStage::Done;
                    SaveStep::Saved(None)
                },
            },
            (SaveStage::Check, SaveEvent::Present(present)) => if !present {
                self.stage = SaveStage::Done;
                SaveStep::Fail("Transcript file verification failed".to_owned())
            } else if self.has_metadata {
                self.stage = SaveStage::Metadata;
                SaveStep::WriteMetadata
            } else {
                self.stage = SaveStage::Done;
                SaveStep::Saved(self.audio.clone())
            },
            (SaveStage::Metadata, SaveEvent::Written(outcome)) => {
                self.stage = SaveStage::Done;
                match outcome {
                    Err(error) => SaveStep::Fail(
                        joined("Failed to update metadata: ", error.as_str()),
                    ),
                    Ok(_) => SaveStep::Saved(self.audio.clone()),
                }
            },
            _ => SaveStep::Saved(None),
        }
    }
}

/// The recording's state beside its audio: what it is called, where it is kept and
/// what was said so far.
pub struct RecordingSaver {
    pub saving_audio: bool,
    pub is_saving: bool,
    pub recordings_folder: Option<String>,
    pub meeting_folder: Option<String>,
    pub meeting_name: Option<String>,
    pub metadata: Option<MeetingMetadata>,
    pub transcript_segments: Vec<TranscriptSegment>,
}

/// The name of a line that came without one, from the moment it came, in milliseconds.
pub open spec fn moment_id(millis: i64) -> Seq<char> {
    "seg_"@ + if millis < 0 {
        "-"@ + decimal((-millis) as nat)
    } else {
        decimal(millis as nat)
    }
}

/// A line of which only the text is known.
pub fn bare_segment(text: String, millis: i64) -> (segment: TranscriptSegment)
    ensures
        segment.id@ == moment_id(millis),
        segment.text == text,
        segment.audio_start_time == 0,
        segment.audio_end_time == 0,
        segment.duration == 0,
        segment.display_time@ == "[00:00]"@,
        segment.confidence == FULL_CONFIDENCE_BITS,
        segment.sequence_id == 0,
        segment.speaker is None,
{
    let size: u64 = if millis < 0 {
        (-(millis + 1)) as u64 + 1
    } else {
        millis as u64
    };
    let number = text_of(&decimal_text(size));
    let id = if millis < 0 {
        joined("seg_", joined("-", number.as_str()).as_str())
    } else {
        joined("seg_", number.as_str())
    };
    TranscriptSegment {
        id,
        text,
        audio_start_time: 0,
        audio_end_time: 0,
        duration: 0,
        display_time: "[00:00]".to_owned(),
        confidence: FULL_CONFIDENCE_BITS,
        sequence_id: 0,
        speaker: None,
    }
}

impl RecordingSaver {
    pub fn new() -> (saver: RecordingSaver)
        ensures
            !saver.saving_audio,
            !saver.is_saving,
            saver.recordings_folder is None,
            saver.meeting_folder is None,
            saver.meeting_name is None,
            saver.metadata is None,
            saver.transcript_segments@.len() == 0,
    {
        RecordingSaver {
            saving_audio: false,
            is_saving: false,
            recordings_folder: None,
            meeting_folder: None,
            meeting_name: None,
            metadata: None,
            transcript_segments: Vec::new(),
        }
    }

    /// Set the meeting name for this recording session.
    pub fn set_meeting_name(&mut self, name: Option<String>)
        ensures
            *final(self) == (RecordingSaver { meeting_name: name, ..*old(self) }),
    {
        self.meeting_name = name;
    }

    pub fn set_recordings_folder(&mut self, path: String)
        ensures
            *final(self) == (RecordingSaver { recordings_folder: Some(path), ..*old(self) }),
    {
        self.recordings_folder = Some(path);
    }

    /// Set device information in the description. Returns whether the description
    /// has to be written again.
    pub fn set_device_info(&mut self, mic_name: Option<String>, sys_name: Option<String>) -> (write:
        bool)
        ensures
            *final(self) == (RecordingSaver { metadata: final(self).metadata, ..*old(self) }),
            match old(self).metadata {
                Some(metadata) => final(self).metadata == Some(
                    MeetingMetadata {
                        devices: DeviceInfo { microphone: mic_name, system_audio: sys_name },
                        ..metadata
                    },
                ),
                None => final(self).metadata is None,
            },
            write == (old(self).metadata is Some && old(self).meeting_folder is Some),
    {
        let taken = self.metadata.take();
        match taken {
            Some(metadata) => {
                let mut changed = metadata;
                changed.devices = DeviceInfo { microphone: mic_name, system_audio: sys_name };
                self.metadata = Some(changed);
                self.meeting_folder.is_some()
            },
            None => false,
        }
    }

    /// Add or update a line of the transcript. Returns whether the transcript has to
    /// be written again.
    pub fn add_transcript_segment(&mut self, segment: TranscriptSegment) -> (write: bool)
        ensures
            *final(self) == (RecordingSaver {
                transcript_segments: final(self).transcript_segments,
                ..*old(self)
            }),
            final(self).transcript_segments@ == upserted(old(self).transcript_segments@, segment),
            write == (old(self).meeting_folder is Some),
    {
        upsert_transcript_segment(&mut self.transcript_segments, segment);
        self.meeting_folder.is_some()
    }

    /// Add or update the line of which only the text is known. Returns whether the
    /// transcript has to be written again.
    pub fn add_transcript_chunk(&mut self, text: String) -> (write: bool)
        ensures
            *final(self) == (RecordingSaver {
                transcript_segments: final(self).transcript_segments,
                ..*old(self)
            }),
            exists|segment: TranscriptSegment, millis: i64|
                {
                    &&& final(self).transcript_segments@ == #[trigger] upserted(
                        old(self).transcript_segments@,
                        segment,
                    )
                    &&& segment.id@ == #[trigger] moment_id(millis)
                    &&& segment.text == text
                    &&& segment.audio_start_time == 0
                    &&& segment.audio_end_time == 0
                    &&& segment.duration == 0
                    &&& segment.display_time@ == "[00:00]"@
                    &&& segment.confidence == FULL_CONFIDENCE_BITS
                    &&& segment.sequence_id == 0
                    &&& segment.speaker is None
                },
            write == (old(self).meeting_folder is Some),
    {
        let millis = utc_millis();
        let segment = bare_segment(text, millis);
        self.add_transcript_segment(segment)
    }

    /// Get the meeting's folder.
    pub fn get_meeting_folder(&self) -> (folder: Option<&String>)
        ensures
            match folder {
                Some(path) => self.meeting_folder == Some(*path),
                None => self.meeting_folder is None,
            },
    {
        self.meeting_folder.as_ref()
    }

    /// Get the transcript so far.
    pub fn get_transcript_segments(&self) -> (segments: &Vec<TranscriptSegment>)
        ensures
            *segments == self.transcript_segments,
    {
        &self.transcript_segments
    }

    /// Get the meeting's name.
    pub fn get_meeting_name(&self) -> (name: Option<&String>)
        ensures
            match name {
                Some(given) => self.meeting_name == Some(*given),
                None => self.meeting_name is None,
            },
    {
        self.meeting_name.as_ref()
    }

    /// What a recording needs before any audio is taken: a name. Returns it with the
    /// folder to make the meeting's folder in.
    pub fn start_accumulation(&self, default_folder: &str) -> (place: Result<
        (String, String),
        String,
    >)
        ensures
            match place {
                Ok((folder, name)) => {
                    &&& self.meeting_name matches Some(given) && name@ == given@
                    &&& folder@ == match self.recordings_folder {
                        Some(chosen) => chosen@,
                        None => default_folder@,
                    }
                },
                Err(reason) => self.meeting_name is None && reason@
                    == "Meeting name is required before recording starts"@,
            },
    {
        match &self.meeting_name {
            Some(name) => {
                let folder = match &self.recordings_folder {
                    Some(chosen) => chosen.clone(),
                    None => default_folder.to_owned(),
                };
                Ok((folder, name.clone()))
            },
            None => Err("Meeting name is required before recording starts".to_owned()),
        }
    }

    /// The meeting's folder is made and described: audio may come.
    pub fn accumulating(
        &mut self,
        auto_save: bool,
        meeting_folder: String,
        metadata: MeetingMetadata,
    )
        ensures
            *final(self) == (RecordingSaver {
                saving_audio: auto_save,
                is_saving: true,
                meeting_folder: Some(meeting_folder),
                metadata: Some(metadata),
                ..*old(self)
            }),
    {
        self.meeting_folder = Some(meeting_folder);
        self.metadata = Some(metadata);
        self.saving_audio = auto_save;
        self.is_saving = true;
    }

    /// The recording has stopped: begins to save it.
    pub fn stop_and_save(&mut self, writer_started: bool) -> (begun: (SaveRun, SaveStep))
        ensures
            *final(self) == (RecordingSaver { is_saving: false, ..*old(self) }),
            begun.0.saving_audio == old(self).saving_audio,
            begun.0.has_folder == (old(self).meeting_folder is Some),
            begun.0.has_metadata == (old(self).metadata is Some),
            old(self).saving_audio && writer_started ==> begun.0.stage == SaveStage::Tracks
                && begun.1 is AwaitTracks,
            old(self).saving_audio && !writer_started ==> begun.0.stage == SaveStage::Done && (
            begun.1 matches SaveStep::Fail(reason) && reason@ == "No track writer was started"@),
            !old(self).saving_audio && old(self).meeting_folder is Some ==> begun.0.stage
                == SaveStage::Transcripts && begun.1 is WriteTranscripts,
            !old(self).saving_audio && old(self).meeting_folder is None ==> begun.0.stage
                == SaveStage::Done && begun.1 == SaveStep::Saved(None),
    {
        self.is_saving = false;
        SaveRun::begin(
            self.saving_audio,
            self.meeting_folder.is_some(),
            self.metadata.is_some(),
            writer_started,
        )
    }

    /// Everything is saved: the transcript is no longer kept in memory.
    pub fn saved(&mut self)
        ensures
            final(self).transcript_segments@.len() == 0,
            *final(self) == (RecordingSaver {
                transcript_segments: final(self).transcript_segments,
                ..*old(self)
            }),
    {
        self.transcript_segments.clear();
    }
}

/// A line with a number that is already there takes that line's place, and no other line moves;
/// a line with a new number comes at the end.
pub proof fn line_keeps_its_place(
    segments: Seq<TranscriptSegment>,
    segment: TranscriptSegment,
    place: int,
)
    requires
        numbered_once(segments),
    ensures
        0 <= place < segments.len() && segments[place].sequence_id == segment.sequence_id ==> {
            let after = upserted(segments, segment);
            &&& after.len() == segments.len()
            &&& after[place] == segment
            &&& forall|i: int|
                0 <= i < segments.len() && i != place ==> #[trigger] after[i] == segments[i]
        },
        (forall|i: int|
            0 <= i < segments.len() ==> (#[trigger] segments[i]).sequence_id != segment.sequence_id)
            ==> {
            let after = upserted(segments, segment);
            &&& after.len() == segments.len() + 1
            &&& after.last() == segment
            &&& after.take(segments.len() as int) == segments
        },
{
    lemma_place_of(segments, segment.sequence_id);
    let after = upserted(segments, segment);
    match place_of(segments, segment.sequence_id) {
        Some(found) => {
            if 0 <= place < segments.len() && segments[place].sequence_id == segment.sequence_id
                && place != found {
                if place < found {
                    assert(segments[place].sequence_id != segments[found].sequence_id);
                } else {
                    assert(segments[found].sequence_id != segments[place].sequence_id);
                }
            }
        },
        None => {
            assert(after.take(segments.len() as int) =~= segments);
        },
    }
}

/// A recording that ended lasts as long as was measured, and where nothing was measured until
/// its last line ends; it is complete, and names the files of the tracks that were written,
/// and of no others.
pub proof fn ended_recording_names_what_was_written(
    metadata: MeetingMetadata,
    done: MeetingMetadata,
    folder: Seq<char>,
    mic_path: Option<&str>,
    system_path: Option<&str>,
    recording_duration: Option<u64>,
    segments: Seq<TranscriptSegment>,
)
    requires
        describes_end(metadata, done, mic_path, system_path, recording_duration, segments),
        crate::paths::ends_with_a_name(folder),
        mic_path matches Some(path) ==> path@ == inside(folder, "mic.mp4"@),
        system_path matches Some(path) ==> path@ == inside(folder, "system.mp4"@),
    ensures
        done.status@ == "completed"@,
        done.meeting_name == metadata.meeting_name && done.created_at == metadata.created_at,
        done.audio_file == metadata.audio_file,
        done.mic_audio_file is Some <==> mic_path is Some,
        done.system_audio_file is Some <==> system_path is Some,
        done.mic_audio_file matches Some(name) ==> name@ == "mic.mp4"@,
        done.system_audio_file matches Some(name) ==> name@ == "system.mp4"@,
        recording_duration matches Some(length) ==> done.duration_seconds == Some(length),
        recording_duration is None && segments.len() > 0 ==> done.duration_seconds == Some(
            segments[segments.len() - 1].audio_end_time,
        ),
        recording_duration is None && segments.len() == 0 ==> done.duration_seconds is None,
{
    reveal_strlit("mic.mp4");
    reveal_strlit("system.mp4");
    assert("mic.mp4"@.len() == 7 && "system.mp4"@.len() == 10);
    assert(crate::paths::plain_name("mic.mp4"@));
    assert(crate::paths::plain_name("system.mp4"@));
    crate::paths::joined_path_is_taken_apart(folder, "mic.mp4"@);
    crate::paths::joined_path_is_taken_apart(folder, "system.mp4"@);
}

/// A recording that begins is under way, is called as asked, runs at 48 kHz, and names files
/// of audio if and only if audio is saved.
pub proof fn begun_recording_names_what_is_written(
    metadata: MeetingMetadata,
    meeting_name: Seq<char>,
    save_audio: bool,
)
    requires
        describes_begin(metadata, meeting_name, save_audio),
    ensures
        metadata.status@ == "recording"@,
        metadata.sample_rate == 48_000,
        metadata.meeting_name is Some && metadata.meeting_name->0@ == meeting_name,
        metadata.completed_at is None && metadata.duration_seconds is None,
        save_audio <==> metadata.audio_file@ == Track::Mixed.file_stem() + ".mp4"@,
        save_audio <==> (metadata.mic_audio_file matches Some(name) && name@
            == Track::Mic.file_stem() + ".mp4"@),
        save_audio <==> (metadata.system_audio_file matches Some(name) && name@
            == Track::System.file_stem() + ".mp4"@),
        !save_audio ==> metadata.audio_file@.len() == 0 && metadata.mic_audio_file is None
            && metadata.system_audio_file is None,
        metadata.transcript_file@ == "transcripts.json"@,
{
    reveal_strlit("audio");
    reveal_strlit("mic");
    reveal_strlit("system");
    reveal_strlit(".mp4");
    reveal_strlit("audio.mp4");
    reveal_strlit("mic.mp4");
    reveal_strlit("system.mp4");
    reveal_strlit("");
    assert("audio"@ + ".mp4"@ =~= "audio.mp4"@);
    assert("mic"@ + ".mp4"@ =~= "mic.mp4"@);
    assert("system"@ + ".mp4"@ =~= "system.mp4"@);
    assert(""@.len() == 0);
    assert("audio.mp4"@.len() == 9);
}

} // verus!
