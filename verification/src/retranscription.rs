//! Processing stored audio again with other settings.

use crate::common::{
    create_transcript_segments, in_calendar, stores, timestamp_of, EngineKind, Recognised,
    StoredTranscript,
};
use crate::json::{
    empty_object, field_of, is_text, json_tree, parse_value, parsed_json, pretty, pretty_json,
    put_field, put_text, take_field, Json,
};
use crate::moments::{is_utc_text, utc_now_text, Moment};
use crate::own_speech::{echo_marks, echo_spans, WindowTimeline, FAR_END_MIN_MS};
use crate::paths::{extension_of_name, inside, join, name_extension};
use crate::spans::are_long_runs;
use crate::splitting::{
    bounds, joins, lemma_pieces_inside, moment_at, pieces_cover_the_speech, pieces_of, split_points,
};
use crate::text::{
    chars_of, fold_text, folded_text, joined, same_text, text_of, texts, trim, trimmed,
};
use vstd::prelude::*;

verus! {

/// How long a pause voice detection bridges when a whole file is read at once, in
/// milliseconds. Longer than while recording: a short one would cut speech at every
/// natural pause.
pub const VAD_REDEMPTION_TIME_MS: u32 = 2000;

/// The longest stretch that is recognised in one piece: 25 seconds.
pub const MAX_SEGMENT_SAMPLES: usize = 400_000;

/// The shortest piece that is recognised at all: a tenth of a second.
pub const MIN_PIECE_SAMPLES: usize = 1_600;

/// Whether something is being transcribed again, whether it was asked to stop, and
/// which meeting it belongs to.
pub struct RetranscriptionState {
    pub in_progress: bool,
    pub cancelled: bool,
    pub meeting: Option<String>,
}

/// What the application is working on, for a window that has just opened.
#[derive(Debug, Clone)]
pub struct RetranscriptionStatus {
    pub in_progress: bool,
    pub meeting_id: Option<String>,
}

/// Progress of a retranscription.
#[derive(Debug, Clone)]
pub struct RetranscriptionProgress {
    pub meeting_id: String,
    pub stage: String,
    pub progress_percentage: u32,
    pub message: String,
}

/// What a retranscription came to. The duration is in milliseconds in fixed point,
/// counted as in [`crate::own_speech`].
#[derive(Debug, Clone)]
pub struct RetranscriptionResult {
    pub meeting_id: String,
    pub segments_count: usize,
    pub duration_ms: u64,
    pub language: Option<String>,
}

/// Why a retranscription failed.
#[derive(Debug, Clone)]
pub struct RetranscriptionError {
    pub meeting_id: String,
    pub error: String,
}

/// The answer to a request for a retranscription.
#[derive(Debug, Clone)]
pub struct RetranscriptionStarted {
    pub meeting_id: String,
    pub message: String,
}

/// The text that an optional name holds.
pub open spec fn optional_text(text: Option<String>) -> Option<Seq<char>> {
    match text {
        Some(held) => Some(held@),
        None => None,
    }
}

impl RetranscriptionState {
    pub fn new() -> (state: RetranscriptionState)
        ensures
            !state.in_progress,
            !state.cancelled,
            state.meeting is None,
    {
        RetranscriptionState { in_progress: false, cancelled: false, meeting: None }
    }

    /// Reserve the one place there is. While something is being transcribed again,
    /// a second request is refused and changes nothing.
    pub fn acquire(&mut self, meeting_id: &str) -> (reserved: Result<(), String>)
        ensures
            match reserved {
                Ok(()) => {
                    &&& !old(self).in_progress
                    &&& final(self).in_progress
                    &&& optional_text(final(self).meeting) == Some(meeting_id@)
                    &&& final(self).cancelled == old(self).cancelled
                },
                Err(reason) => {
                    &&& old(self).in_progress
                    &&& *final(self) == *old(self)
                    &&& reason@ == "Retranscription already in progress"@
                },
            },
    {
        if self.in_progress {
            return Err("Retranscription already in progress".to_owned());
        }
        self.in_progress = true;
        self.meeting = Some(meeting_id.to_owned());
        Ok(())
    }

    /// Give the place back, however the work ended.
    pub fn release(&mut self)
        ensures
            !final(self).in_progress,
            final(self).meeting is None,
            final(self).cancelled == old(self).cancelled,
    {
        self.meeting = None;
        self.in_progress = false;
    }

    /// A new request forgets that an earlier one was cancelled.
    pub fn clear_cancelled(&mut self)
        ensures
            *final(self) == (RetranscriptionState { cancelled: false, ..*old(self) }),
    {
        self.cancelled = false;
    }
}

/// Check if retranscription is currently in progress.
pub fn is_retranscription_in_progress(state: &RetranscriptionState) -> (running: bool)
    ensures
        running == state.in_progress,
{
    state.in_progress
}

/// Ask the running retranscription to stop.
pub fn cancel_retranscription(state: &mut RetranscriptionState)
    ensures
        *final(state) == (RetranscriptionState { cancelled: true, ..*old(state) }),
{
    state.cancelled = true;
}

/// Ask the running retranscription to stop, if there is one.
pub fn cancel_retranscription_command(state: &mut RetranscriptionState) -> (asked: Result<
    (),
    String,
>)
    ensures
        match asked {
            Ok(()) => old(state).in_progress && *final(state) == (RetranscriptionState {
                cancelled: true,
                ..*old(state)
            }),
            Err(reason) => {
                &&& !old(state).in_progress
                &&& *final(state) == *old(state)
                &&& reason@ == "No retranscription in progress"@
            },
        },
{
    if !state.in_progress {
        return Err("No retranscription in progress".to_owned());
    }
    cancel_retranscription(state);
    Ok(())
}

/// What is being transcribed again, if anything.
pub fn retranscription_status_command(state: &RetranscriptionState) -> (status:
    RetranscriptionStatus)
    ensures
        status.in_progress == state.in_progress,
        optional_text(status.meeting_id) == optional_text(state.meeting),
{
    RetranscriptionStatus {
        in_progress: state.in_progress,
        meeting_id: match &state.meeting {
            Some(meeting) => Some(meeting.clone()),
            None => None,
        },
    }
}

/// What is to be done with the hints that came with a request.
#[derive(Debug)]
pub enum VocabularyPlan {
    /// The engine takes no hints.
    Without,
    /// Read the hints that hold for the meeting.
    Read,
    /// Keep these for the meeting first.
    KeepForMeeting(String),
    /// Keep these for all meetings first.
    KeepForAll(String),
}

/// Hints were given, and they are more than white space.
pub open spec fn has_terms(terms: Option<String>) -> bool {
    terms matches Some(given) && trimmed(given@).len() > 0
}

/// Only Whisper takes hints: an engine without them refuses a request that has some.
/// Hints are kept for the meeting unless they were given for all.
pub fn vocabulary_plan(
    provider: Option<&str>,
    terms: Option<String>,
    scope: Option<&str>,
) -> (plan: Result<VocabularyPlan, String>)
    ensures
        ({
            let parakeet = provider matches Some(name) && name@ == "parakeet"@;
            let kept = match scope {
                Some(given) => given@,
                None => "meeting"@,
            };
            match plan {
                Ok(VocabularyPlan::Without) => parakeet && !has_terms(terms),
                Ok(VocabularyPlan::Read) => !parakeet && !has_terms(terms),
                Ok(VocabularyPlan::KeepForMeeting(hints)) => {
                    &&& !parakeet
                    &&& has_terms(terms)
                    &&& terms == Some(hints)
                    &&& kept == "meeting"@
                },
                Ok(VocabularyPlan::KeepForAll(hints)) => {
                    &&& !parakeet
                    &&& has_terms(terms)
                    &&& terms == Some(hints)
                    &&& kept == "global"@
                    &&& kept != "meeting"@
                },
                Err(reason) => {
                    &&& has_terms(terms)
                    &&& parakeet ==> reason@ == "Vocabulary hints are only supported by Whisper"@
                    &&& !parakeet ==> {
                        &&& kept != "meeting"@
                        &&& kept != "global"@
                        &&& reason@ == "Invalid vocabulary scope"@
                    }
                },
            }
        }),
{
    let parakeet = match provider {
        Some(name) => same_text(name, "parakeet"),
        None => false,
    };
    match terms {
        Some(hints) => {
            let given = trim(&chars_of(hints.as_str()));
            if given.len() == 0 {
                if parakeet {
                    Ok(VocabularyPlan::Without)
                } else {
                    Ok(VocabularyPlan::Read)
                }
            } else if parakeet {
                Err("Vocabulary hints are only supported by Whisper".to_owned())
            } else {
                let kept = match scope {
                    Some(given) => given,
                    None => "meeting",
                };
                if same_text(kept, "meeting") {
                    Ok(VocabularyPlan::KeepForMeeting(hints))
                } else if same_text(kept, "global") {
                    Ok(VocabularyPlan::KeepForAll(hints))
                } else {
                    Err("Invalid vocabulary scope".to_owned())
                }
            }
        },
        None => if parakeet {
            Ok(VocabularyPlan::Without)
        } else {
            Ok(VocabularyPlan::Read)
        },
    }
}

/// The engine that a request asks for. Anything unknown is Whisper.
pub open spec fn engine_of(provider: Option<Seq<char>>) -> EngineKind {
    match provider {
        Some(name) => if name == "gigaam"@ {
            EngineKind::GigaAm
        } else if name == "externalStt"@ {
            EngineKind::External
        } else if name == "parakeet"@ {
            EngineKind::Parakeet
        } else {
            EngineKind::Whisper
        },
        None => EngineKind::Whisper,
    }
}

pub fn choose_engine(provider: Option<&str>) -> (engine: EngineKind)
    ensures
        engine == engine_of(
            match provider {
                Some(name) => Some(name@),
                None => None,
            },
        ),
{
    match provider {
        Some(name) => if same_text(name, "gigaam") {
            EngineKind::GigaAm
        } else if same_text(name, "externalStt") {
            EngineKind::External
        } else if same_text(name, "parakeet") {
            EngineKind::Parakeet
        } else {
            EngineKind::Whisper
        },
        None => EngineKind::Whisper,
    }
}

/// The names that a recording is looked for under, the first one first.
pub open spec fn candidate(index: int) -> Seq<char> {
    if index == 0 {
        "audio.mp4"@
    } else if index == 1 {
        "audio.m4a"@
    } else if index == 2 {
        "audio.wav"@
    } else if index == 3 {
        "audio.mp3"@
    } else if index == 4 {
        "audio.flac"@
    } else if index == 5 {
        "audio.ogg"@
    } else if index == 6 {
        "recording.mp4"@
    } else if index == 7 {
        "audio.mkv"@
    } else if index == 8 {
        "audio.webm"@
    } else {
        "audio.wma"@
    }
}

/// How many names there are.
pub const CANDIDATES: usize = 10;

fn candidate_name(index: usize) -> (name: &'static str)
    ensures
        name@ == candidate(index as int),
{
    if index == 0 {
        "audio.mp4"
    } else if index == 1 {
        "audio.m4a"
    } else if index == 2 {
        "audio.wav"
    } else if index == 3 {
        "audio.mp3"
    } else if index == 4 {
        "audio.flac"
    } else if index == 5 {
        "audio.ogg"
    } else if index == 6 {
        "recording.mp4"
    } else if index == 7 {
        "audio.mkv"
    } else if index == 8 {
        "audio.webm"
    } else {
        "audio.wma"
    }
}

/// The extensions that audio files are known by.
pub open spec fn is_audio_extension(extension: Seq<char>) -> bool {
    ||| extension == "mp4"@
    ||| extension == "m4a"@
    ||| extension == "wav"@
    ||| extension == "mp3"@
    ||| extension == "flac"@
    ||| extension == "ogg"@
    ||| extension == "aac"@
    ||| extension == "mkv"@
    ||| extension == "webm"@
    ||| extension == "wma"@
}

/// Whether `extension`, in lower case, is one that audio files are known by.
pub fn known_audio_extension(extension: &str) -> (known: bool)
    ensures
        known == is_audio_extension(extension@),
{
    same_text(extension, "mp4") || same_text(extension, "m4a") || same_text(extension, "wav")
        || same_text(extension, "mp3") || same_text(extension, "flac") || same_text(
        extension,
        "ogg",
    ) || same_text(extension, "aac") || same_text(extension, "mkv") || same_text(extension, "webm")
        || same_text(extension, "wma")
}

/// A file name with an audio extension, in whatever case it is written.
pub open spec fn is_audio_name(name: Seq<char>) -> bool {
    extension_of_name(name) matches Some(extension) && is_audio_extension(folded_text(extension))
}

fn audio_name(name: &str) -> (audio: bool)
    ensures
        audio == is_audio_name(name@),
{
    match name_extension(&chars_of(name)) {
        Some(extension) => {
            let lower = text_of(&fold_text(&extension));
            known_audio_extension(lower.as_str())
        },
        None => false,
    }
}

fn holds_name(names: &Vec<String>, wanted: &str) -> (found: bool)
    ensures
        found == texts(names@).contains(wanted@),
{
    let mut index: usize = 0;
    while index < names.len()
        invariant
            index <= names@.len(),
            forall|i: int| 0 <= i < index ==> #[trigger] texts(names@)[i] != wanted@,
        decreases names@.len() - index,
    {
        assert(texts(names@)[index as int] == names@[index as int]@);
        if same_text(names[index].as_str(), wanted) {
            return true;
        }
        index += 1;
    }
    false
}

/// `name` is the recording among what a folder holds: the first of the usual names
/// that is there, or else the first entry with an audio extension.
pub open spec fn is_recording_in(names: Seq<Seq<char>>, name: Seq<char>) -> bool {
    ||| exists|k: int|
        0 <= k < CANDIDATES && #[trigger] candidate(k) == name && names.contains(name) && forall|
            j: int,
        |
            0 <= j < k ==> !names.contains(#[trigger] candidate(j))
    ||| {
        &&& forall|j: int| 0 <= j < CANDIDATES ==> !names.contains(#[trigger] candidate(j))
        &&& exists|k: int|
            0 <= k < names.len() && #[trigger] names[k] == name && is_audio_name(name) && forall|
                j: int,
            |
                0 <= j < k ==> !is_audio_name(#[trigger] names[j])
    }
}

/// Nothing among what a folder holds is a recording.
pub open spec fn holds_no_recording(names: Seq<Seq<char>>) -> bool {
    &&& forall|j: int| 0 <= j < CANDIDATES ==> !names.contains(#[trigger] candidate(j))
    &&& forall|j: int| 0 <= j < names.len() ==> !is_audio_name(#[trigger] names[j])
}

/// Find the recording in a meeting's folder, from the names of what the folder holds
/// in the order the directory gives them.
pub fn find_audio_file(folder: &str, names: &Vec<String>) -> (path: Result<String, String>)
    ensures
        match path {
            Ok(found) => exists|name: Seq<char>| #[trigger]
                is_recording_in(texts(names@), name) && found@ == inside(folder@, name),
            Err(reason) => {
                &&& holds_no_recording(texts(names@))
                &&& reason@ == "No audio file found in: "@ + folder@
            },
        },
{
    let mut index: usize = 0;
    while index < CANDIDATES
        invariant
            index <= CANDIDATES,
            forall|j: int| 0 <= j < index ==> !texts(names@).contains(#[trigger] candidate(j)),
        decreases CANDIDATES - index,
    {
        let name = candidate_name(index);
        if holds_name(names, name) {
            assert(candidate(index as int) == name@);
            assert(is_recording_in(texts(names@), name@));
            return Ok(join(folder, name));
        }
        index += 1;
    }
    let mut entry: usize = 0;
    while entry < names.len()
        invariant
            entry <= names@.len(),
            forall|j: int| 0 <= j < CANDIDATES ==> !texts(names@).contains(#[trigger] candidate(j)),
            forall|j: int| 0 <= j < entry ==> !is_audio_name(#[trigger] texts(names@)[j]),
        decreases names@.len() - entry,
    {
        assert(texts(names@)[entry as int] == names@[entry as int]@);
        if audio_name(names[entry].as_str()) {
            assert(is_recording_in(texts(names@), names@[entry as int]@));
            return Ok(join(folder, names[entry].as_str()));
        }
        entry += 1;
    }
    Err(joined("No audio file found in: ", folder))
}

/// Who a separate track belongs to.
#[derive(Clone, Copy, Debug, PartialEq, Eq, Structural)]
pub enum Speaker {
    You,
    Guest,
}

impl Speaker {
    /// The name that stretches of the track are stored under.
    pub open spec fn name(self) -> Seq<char> {
        match self {
            Speaker::You => "You"@,
            Speaker::Guest => "Guest"@,
        }
    }

    pub fn label(self) -> (text: &'static str)
        ensures
            text@ == self.name(),
    {
        match self {
            Speaker::You => "You",
            Speaker::Guest => "Guest",
        }
    }
}

/// A track that is transcribed again. The two thresholds of voice detection are in
/// percent.
#[derive(Debug, Clone)]
pub struct RetranscriptionSource {
    pub path: String,
    pub label: String,
    pub speaker_hint: Option<Speaker>,
    pub positive_percent: u32,
    pub negative_percent: u32,
    /// Whether the detector record applies to this track. It counts the windows of
    /// the working track and of no other.
    pub gated_by_the_record: bool,
}

/// The two separate tracks of a recording.
#[derive(Debug, Clone)]
pub struct TrackPair {
    pub mic: String,
    pub system: String,
    pub from_working_tracks: bool,
}

/// Which separate tracks are read: the working tracks if both are there, the
/// delivery tracks otherwise. Half a working pair is ignored.
pub fn choose_tracks(
    folder: &str,
    working_mic: Option<String>,
    working_system: Option<String>,
) -> (pair: TrackPair)
    ensures
        pair.from_working_tracks == (working_mic is Some && working_system is Some),
        pair.mic@ == if pair.from_working_tracks {
            working_mic->0@
        } else {
            inside(folder@, "mic.mp4"@)
        },
        pair.system@ == if pair.from_working_tracks {
            working_system->0@
        } else {
            inside(folder@, "system.mp4"@)
        },
{
    match (working_mic, working_system) {
        (Some(mic), Some(system)) => TrackPair { mic, system, from_working_tracks: true },
        _ => TrackPair {
            mic: join(folder, "mic.mp4"),
            system: join(folder, "system.mp4"),
            from_working_tracks: false,
        },
    }
}

/// The tracks to read: the separate ones if both are files, the mixed recording
/// otherwise.
pub fn find_retranscription_sources(
    pair: TrackPair,
    mic_is_file: bool,
    system_is_file: bool,
    fallback: &str,
) -> (sources: Vec<RetranscriptionSource>)
    ensures
        mic_is_file && system_is_file ==> {
            &&& sources@.len() == 2
            &&& sources@[0].path@ == pair.mic@
            &&& sources@[0].label@ == "microphone"@
            &&& sources@[0].speaker_hint == Some(Speaker::You)
            &&& sources@[0].positive_percent == 20
            &&& sources@[0].negative_percent == 10
            &&& sources@[0].gated_by_the_record == pair.from_working_tracks
            &&& sources@[1].path@ == pair.system@
            &&& sources@[1].label@ == "system audio"@
            &&& sources@[1].speaker_hint == Some(Speaker::Guest)
            &&& sources@[1].positive_percent == 50
            &&& sources@[1].negative_percent == 35
            &&& !sources@[1].gated_by_the_record
        },
        !(mic_is_file && system_is_file) ==> {
            &&& sources@.len() == 1
            &&& sources@[0].path@ == fallback@
            &&& sources@[0].label@ == "mixed audio"@
            &&& sources@[0].speaker_hint is None
            &&& sources@[0].positive_percent == 50
            &&& sources@[0].negative_percent == 35
            &&& !sources@[0].gated_by_the_record
        },
{
    let mut sources: Vec<RetranscriptionSource> = Vec::new();
    if mic_is_file && system_is_file {
        sources.push(
            RetranscriptionSource {
                path: pair.mic,
                label: "microphone".to_owned(),
                speaker_hint: Some(Speaker::You),
                positive_percent: 20,
                negative_percent: 10,
                gated_by_the_record: pair.from_working_tracks,
            },
        );
        sources.push(
            RetranscriptionSource {
                path: pair.system,
                label: "system audio".to_owned(),
                speaker_hint: Some(Speaker::Guest),
                positive_percent: 50,
                negative_percent: 35,
                gated_by_the_record: false,
            },
        );
    } else {
        sources.push(
            RetranscriptionSource {
                path: fallback.to_owned(),
                label: "mixed audio".to_owned(),
                speaker_hint: None,
                positive_percent: 50,
                negative_percent: 35,
                gated_by_the_record: false,
            },
        );
    }
    sources
}

/// The sample at a moment, to the nearest one.
pub open spec fn sample_at(moment: int, sample_rate: int) -> int {
    (moment * sample_rate + 500_000_000) / 1_000_000_000
}

/// Sample `index` lies in one of the first `upto` stretches.
pub open spec fn covered(
    spans: Seq<(u64, u64)>,
    sample_rate: int,
    upto: int,
    index: int,
) -> bool {
    exists|k: int|
        0 <= k < upto && sample_at((#[trigger] spans[k]).0 as int, sample_rate) <= index
            < sample_at(spans[k].1 as int, sample_rate)
}

fn sample_of(moment: u64, sample_rate: u32, len: usize) -> (sample: usize)
    ensures
        sample as int == if sample_at(moment as int, sample_rate as int) < len {
            sample_at(moment as int, sample_rate as int)
        } else {
            len as int
        },
{
    assert(0 <= moment * sample_rate <= u64::MAX * u32::MAX) by (nonlinear_arith)
        requires
            0 <= moment <= u64::MAX,
            0 <= sample_rate <= u32::MAX,
    ;
    let at: u128 = (moment as u128 * sample_rate as u128 + 500_000_000) / 1_000_000_000;
    if at < len as u128 {
        at as usize
    } else {
        len
    }
}

/// How many samples of a track of `len` the first `upto` stretches cover.
pub open spec fn covered_samples(spans: Seq<(u64, u64)>, sample_rate: int, len: int, upto: int) -> int
    decreases upto,
{
    if upto <= 0 {
        0
    } else {
        let first = sample_at(spans[upto - 1].0 as int, sample_rate);
        let last = sample_at(spans[upto - 1].1 as int, sample_rate);
        let end = if last < len {
            last
        } else {
            len
        };
        covered_samples(spans, sample_rate, len, upto - 1) + if first < end {
            end - first
        } else {
            0
        }
    }
}

/// Silences stretches of a track and says how many samples that were. Stretches are
/// in order and do not overlap.
pub fn silence_spans<T: Copy>(
    samples: &mut Vec<T>,
    sample_rate: u32,
    spans: &Vec<(u64, u64)>,
    silence: T,
) -> (silenced: usize)
    requires
        forall|k: int| 0 <= k < spans@.len() ==> (#[trigger] spans@[k]).0 <= spans@[k].1,
        forall|j: int, k: int|
            0 <= j < k < spans@.len() ==> (#[trigger] spans@[j]).1 <= (#[trigger] spans@[k]).0,
    ensures
        final(samples)@.len() == old(samples)@.len(),
        forall|i: int|
            0 <= i < old(samples)@.len() ==> #[trigger] final(samples)@[i] == if covered(
                spans@,
                sample_rate as int,
                spans@.len() as int,
                i,
            ) {
                silence
            } else {
                old(samples)@[i]
            },
        silenced == covered_samples(
            spans@,
            sample_rate as int,
            old(samples)@.len() as int,
            spans@.len() as int,
        ),
{
    let ghost before = samples@;
    let ghost rate = sample_rate as int;
    let len: usize = samples.len();
    let mut silenced: usize = 0;
    let mut next: usize = 0;
    let mut reached: usize = 0;
    while next < spans.len()
        invariant
            next <= spans@.len(),
            len == before.len(),
            samples@.len() == len,
            rate == sample_rate,
            forall|k: int| 0 <= k < spans@.len() ==> (#[trigger] spans@[k]).0 <= spans@[k].1,
            forall|j: int, k: int|
                0 <= j < k < spans@.len() ==> (#[trigger] spans@[j]).1 <= (#[trigger] spans@[k]).0,
            silenced <= reached <= len,
            next > 0 ==> reached <= sample_at(spans@[next - 1].1 as int, rate),
            next == 0 ==> reached == 0,
            silenced == covered_samples(spans@, rate, len as int, next as int),
            forall|i: int|
                0 <= i < len ==> #[trigger] samples@[i] == if covered(spans@, rate, next as int, i) {
                    silence
                } else {
                    before[i]
                },
        decreases spans@.len() - next,
    {
        let (from, to) = spans[next];
        assert(spans@[next as int].0 <= spans@[next as int].1);
        proof {
            lemma_sample_at_grows(from as int, to as int, rate);
            if next > 0 {
                assert(spans@[next - 1].1 <= spans@[next as int].0);
                lemma_sample_at_grows(spans@[next - 1].1 as int, from as int, rate);
            }
            lemma_sample_at_grows(0, from as int, rate);
        }
        let first: usize = sample_of(from, sample_rate, len);
        let last: usize = sample_of(to, sample_rate, len);
        let ghost entry = samples@;
        let mut index: usize = first;
        while index < last
            invariant
                first <= index,
                first < last ==> index <= last,
                first >= last ==> index == first,
                last <= len,
                samples@.len() == len,
                entry.len() == len,
                forall|i: int|
                    0 <= i < len ==> #[trigger] samples@[i] == if first <= i < index {
                        silence
                    } else {
                        entry[i]
                    },
            decreases last - index,
        {
            samples.set(index, silence);
            index += 1;
        }
        assert forall|i: int| 0 <= i < len implies #[trigger] samples@[i] == if covered(
            spans@,
            rate,
            next + 1,
            i,
        ) {
            silence
        } else {
            before[i]
        } by {
            if first <= i < last {
                assert(sample_at(spans@[next as int].0 as int, rate) <= i < sample_at(
                    spans@[next as int].1 as int,
                    rate,
                ));
            } else {
                assert(!(sample_at(from as int, rate) <= i < sample_at(to as int, rate)));
                assert(entry[i] == samples@[i]);
                if covered(spans@, rate, next + 1, i) {
                    let k = choose|k: int|
                        0 <= k < next + 1 && sample_at((#[trigger] spans@[k]).0 as int, rate) <= i
                            < sample_at(spans@[k].1 as int, rate);
                    assert(k < next);
                    assert(covered(spans@, rate, next as int, i));
                }
            }
        }
        if first < last {
            silenced += last - first;
            reached = last;
        }
        next += 1;
    }
    silenced
}

proof fn lemma_sample_at_grows(a: int, b: int, rate: int)
    requires
        0 <= a <= b,
        rate >= 0,
    ensures
        0 <= sample_at(a, rate) <= sample_at(b, rate),
{
    assert(0 <= a * rate <= b * rate) by (nonlinear_arith)
        requires
            0 <= a <= b,
            rate >= 0,
    ;
}

/// Silences the stretches that the detector said were nothing but the speakers, and
/// says how many samples that were. What lies outside them is not touched.
pub fn silence_the_speakers<T: Copy>(
    samples: &mut Vec<T>,
    sample_rate: u32,
    own_speech: &WindowTimeline,
    far_end: &WindowTimeline,
    silence: T,
) -> (silenced: usize)
    requires
        own_speech.wf(),
        far_end.wf(),
        own_speech.flags().len() * own_speech.slot() <= u64::MAX,
    ensures
        final(samples)@.len() == old(samples)@.len(),
        exists|spans: Seq<(u64, u64)>| #[trigger]
            are_long_runs(
                spans,
                echo_marks(own_speech.flags(), far_end.flags()),
                own_speech.slot(),
                FAR_END_MIN_MS as int,
            ) && {
                &&& forall|i: int|
                    0 <= i < old(samples)@.len() ==> #[trigger] final(samples)@[i] == if covered(
                        spans,
                        sample_rate as int,
                        spans.len() as int,
                        i,
                    ) {
                        silence
                    } else {
                        old(samples)@[i]
                    }
                &&& silenced == covered_samples(
                    spans,
                    sample_rate as int,
                    old(samples)@.len() as int,
                    spans.len() as int,
                )
            },
{
    let spans = echo_spans(own_speech, far_end);
    proof {
        own_speech.lemma_slot_positive();
        let marked = echo_marks(own_speech.flags(), far_end.flags()).len();
        assert(marked * own_speech.slot() <= u64::MAX) by (nonlinear_arith)
            requires
                marked <= own_speech.flags().len(),
                own_speech.flags().len() * own_speech.slot() <= u64::MAX,
                own_speech.slot() > 0,
        ;
        crate::spans::lemma_runs_are_ordered(
            spans@,
            echo_marks(own_speech.flags(), far_end.flags()),
            own_speech.slot(),
            FAR_END_MIN_MS as int,
        );
    }
    silence_spans(samples, sample_rate, &spans, silence)
}

/// What a stretch is stored under when its track has this owner.
pub open spec fn speaker_name(hint: Option<Speaker>) -> Option<Seq<char>> {
    match hint {
        Some(speaker) => Some(speaker.name()),
        None => None,
    }
}

/// Create what is stored from recognition results and the owner of each one's track.
pub fn create_source_labeled_segments(
    transcripts: &Vec<Recognised>,
    speaker_hints: &Vec<Option<Speaker>>,
    started: Moment,
) -> (segments: Result<Vec<StoredTranscript>, String>)
    requires
        started.wf(),
        transcripts@.len() == speaker_hints@.len(),
    ensures
        match segments {
            Ok(stored) => {
                &&& stored@.len() == transcripts@.len()
                &&& forall|i: int|
                    0 <= i < stored@.len() ==> stores(
                        #[trigger] stored@[i],
                        transcripts@[i],
                        started,
                    ) && optional_text(stored@[i].speaker) == speaker_name(speaker_hints@[i])
            },
            Err(reason) => {
                &&& reason@ == "The recording's start is out of range"@
                &&& exists|i: int|
                    0 <= i < transcripts@.len() && timestamp_of(
                        started,
                        (#[trigger] transcripts@[i]).start_ms as int,
                    ) is None
            },
        },
        (forall|i: int|
            0 <= i < transcripts@.len() ==> in_calendar(
                started,
                (#[trigger] transcripts@[i]).start_ms as int,
            )) ==> segments is Ok,
{
    let mut stored = match create_transcript_segments(transcripts, started) {
        Ok(segments) => segments,
        Err(reason) => {
            return Err(reason);
        },
    };
    let ghost bare = stored@;
    let mut index: usize = 0;
    while index < stored.len()
        invariant
            index <= stored@.len(),
            stored@.len() == transcripts@.len(),
            stored@.len() == speaker_hints@.len(),
            forall|i: int|
                0 <= i < stored@.len() ==> stores(#[trigger] stored@[i], transcripts@[i], started),
            forall|i: int|
                0 <= i < index ==> optional_text((#[trigger] stored@[i]).speaker) == speaker_name(
                    speaker_hints@[i],
                ),
        decreases stored@.len() - index,
    {
        let ghost before = stored@;
        let speaker = match speaker_hints[index] {
            Some(hint) => Some(hint.label().to_owned()),
            None => None,
        };
        stored[index].speaker = speaker;
        assert(stores(stored@[index as int], transcripts@[index as int], started)) by {
            assert(stores(before[index as int], transcripts@[index as int], started));
        }
        assert forall|i: int| 0 <= i < stored@.len() implies stores(
            #[trigger] stored@[i],
            transcripts@[i],
            started,
        ) by {
            if i != index {
                assert(stored@[i] == before[i]);
            }
        }
        assert forall|i: int| 0 <= i < index + 1 implies optional_text(
            (#[trigger] stored@[i]).speaker,
        ) == speaker_name(speaker_hints@[i]) by {
            if i != index {
                assert(stored@[i] == before[i]);
            }
        }
        index += 1;
    }
    Ok(stored)
}

/// When the recording began: as its folder says, and else as it is stored. The
/// stored moment is repaired where the two differ.
pub fn recording_start(from_folder: Option<Moment>, stored: Moment) -> (start: (Moment, bool))
    ensures
        start.0 == match from_folder {
            Some(moment) => moment,
            None => stored,
        },
        start.1 == (start.0 != stored),
{
    let began = match from_folder {
        Some(moment) => moment,
        None => stored,
    };
    (began, began != stored)
}

/// A stretch of speech that voice detection found in a source. `id` is how the caller
/// finds its samples again; `cuts` are the places where it is cut if it is long.
#[derive(Debug, Clone)]
pub struct Stretch {
    pub id: usize,
    pub samples: usize,
    pub start_ms: u64,
    pub end_ms: u64,
    pub cuts: Vec<(usize, usize)>,
}

impl Stretch {
    /// No cut lies outside the samples.
    pub open spec fn wf(&self) -> bool {
        forall|i: int|
            0 <= i < self.cuts@.len() ==> (#[trigger] self.cuts@[i]).0 <= self.cuts@[i].1
                <= self.samples
    }

    /// The stretch is made of these samples: it is cut where they are.
    pub open spec fn is_of(&self, samples: Seq<i32>) -> bool {
        &&& self.samples == samples.len()
        &&& bounds(self.cuts@) == pieces_of(samples, MAX_SEGMENT_SAMPLES as int)
    }

    /// The stretch that these samples make, cut where it is quiet if it is long.
    pub fn of(id: usize, samples: &Vec<i32>, start_ms: u64, end_ms: u64) -> (stretch: Stretch)
        ensures
            stretch.id == id,
            stretch.start_ms == start_ms,
            stretch.end_ms == end_ms,
            stretch.is_of(samples@),
            stretch.wf(),
    {
        let cuts = split_points(samples, MAX_SEGMENT_SAMPLES);
        proof {
            lemma_pieces_inside(samples@, MAX_SEGMENT_SAMPLES as int);
            let planned = bounds(cuts@);
            assert forall|i: int| 0 <= i < cuts@.len() implies (#[trigger] cuts@[i]).0 <= cuts@[i].1
                <= samples@.len() by {
                assert(planned[i] == (cuts@[i].0 as int, cuts@[i].1 as int));
            }
        }
        Stretch { id, samples: samples.len(), start_ms, end_ms, cuts }
    }
}

/// A piece of speech that is recognised in one go: samples `from` up to `to` of a
/// stretch.
#[derive(Clone, Copy, Debug, PartialEq, Eq, Structural)]
pub struct Piece {
    pub id: usize,
    pub from: usize,
    pub to: usize,
    pub start_ms: u64,
    pub end_ms: u64,
    pub speaker: Option<Speaker>,
}

/// The piece of a stretch between two places.
pub open spec fn piece_of(stretch: Stretch, speaker: Option<Speaker>, from: int, to: int) -> Piece {
    Piece {
        id: stretch.id,
        from: from as usize,
        to: to as usize,
        start_ms: moment_at(
            stretch.start_ms as int,
            stretch.end_ms as int,
            stretch.samples as int,
            from,
        ) as u64,
        end_ms: if to == stretch.samples {
            stretch.end_ms
        } else {
            moment_at(
                stretch.start_ms as int,
                stretch.end_ms as int,
                stretch.samples as int,
                to,
            ) as u64
        },
        speaker,
    }
}

/// The pieces of a stretch, in order.
pub open spec fn pieces_of_stretch(stretch: Stretch, speaker: Option<Speaker>) -> Seq<Piece> {
    stretch.cuts@.map_values(
        |cut: (usize, usize)| piece_of(stretch, speaker, cut.0 as int, cut.1 as int),
    )
}

/// Between a stretch and its pieces no speech is lost: the first piece begins with the
/// stretch, the last one ends with it, and nothing is left out between two that follow each
/// other.
pub proof fn no_speech_is_lost(stretch: Stretch, samples: Seq<i32>, speaker: Option<Speaker>)
    requires
        stretch.is_of(samples),
        samples.len() > 0,
    ensures
        ({
            let pieces = pieces_of_stretch(stretch, speaker);
            &&& pieces.len() > 0
            &&& pieces[0].from == 0
            &&& pieces.last().to == stretch.samples
            &&& pieces.last().end_ms == stretch.end_ms
            &&& pieces[0].start_ms == stretch.start_ms
            &&& forall|i: int, j: int|
                0 <= i && j == i + 1 && j < pieces.len() ==> joins(
                    samples,
                    MAX_SEGMENT_SAMPLES as int,
                    ((#[trigger] pieces[i]).from as int, pieces[i].to as int),
                    ((#[trigger] pieces[j]).from as int, pieces[j].to as int),
                    true,
                )
        }),
{
    let max = MAX_SEGMENT_SAMPLES as int;
    let pieces = pieces_of_stretch(stretch, speaker);
    let planned = pieces_of(samples, max);
    pieces_cover_the_speech(samples, max);
    lemma_pieces_inside(samples, max);
    assert(bounds(stretch.cuts@).len() == stretch.cuts@.len());
    assert forall|i: int| 0 <= i < pieces.len() implies (
        (#[trigger] pieces[i]).from as int,
        pieces[i].to as int,
    ) == planned[i] by {
        assert(bounds(stretch.cuts@)[i] == (
            stretch.cuts@[i].0 as int,
            stretch.cuts@[i].1 as int,
        ));
    }
    assert(planned[pieces.len() - 1] == planned.last());
    assert((pieces[0].from as int, pieces[0].to as int) == planned[0]);
    assert((pieces.last().from as int, pieces.last().to as int) == planned.last());
    assert forall|i: int, j: int| 0 <= i && j == i + 1 && j < pieces.len() implies joins(
        samples,
        max,
        ((#[trigger] pieces[i]).from as int, pieces[i].to as int),
        ((#[trigger] pieces[j]).from as int, pieces[j].to as int),
        true,
    ) by {
        assert(joins(samples, max, planned[i], planned[j], max > 0));
    }
}

/// A stretch and the owner of its track.
pub struct Found {
    pub stretch: Stretch,
    pub speaker: Option<Speaker>,
}

/// Speech in the order it was spoken, with one more stretch: behind every other that
/// does not begin later.
pub open spec fn with_found(found: Seq<Found>, next: Found) -> Seq<Found>
    decreases found.len(),
{
    if found.len() == 0 || found.last().stretch.start_ms <= next.stretch.start_ms {
        found.push(next)
    } else {
        with_found(found.drop_last(), next).push(found.last())
    }
}

/// Speech in the order it was spoken, with the first `upto` stretches of a source.
pub open spec fn with_source(
    found: Seq<Found>,
    stretches: Seq<Stretch>,
    speaker: Option<Speaker>,
    upto: int,
) -> Seq<Found>
    decreases upto,
{
    if upto <= 0 {
        found
    } else {
        with_found(
            with_source(found, stretches, speaker, upto - 1),
            Found { stretch: stretches[upto - 1], speaker },
        )
    }
}

/// The pieces of the first `upto` stretches, in order.
pub open spec fn all_pieces(found: Seq<Found>, upto: int) -> Seq<Piece>
    decreases upto,
{
    if upto <= 0 {
        Seq::empty()
    } else {
        all_pieces(found, upto - 1) + pieces_of_stretch(
            found[upto - 1].stretch,
            found[upto - 1].speaker,
        )
    }
}

/// In the order it was spoken.
pub open spec fn spoken_in_order(found: Seq<Found>) -> bool {
    forall|i: int, j: int|
        0 <= i < j < found.len() ==> (#[trigger] found[i]).stretch.start_ms <= (
        #[trigger] found[j]).stretch.start_ms
}

pub proof fn lemma_with_found_keeps_order(found: Seq<Found>, next: Found)
    requires
        spoken_in_order(found),
    ensures
        spoken_in_order(with_found(found, next)),
        with_found(found, next).len() == found.len() + 1,
        with_found(found, next).to_multiset() == found.to_multiset().insert(next),
        forall|i: int|
            0 <= i < with_found(found, next).len() ==> (#[trigger] with_found(found, next)[i]) == next
                || found.contains(with_found(found, next)[i]),
    decreases found.len(),
{
    broadcast use vstd::seq_lib::group_to_multiset_ensures;

    let after = with_found(found, next);
    if found.len() == 0 || found.last().stretch.start_ms <= next.stretch.start_ms {
        assert forall|i: int| 0 <= i < after.len() implies (#[trigger] after[i]) == next
            || found.contains(after[i]) by {
            if i < found.len() {
                assert(found[i] == after[i]);
            }
        }
        assert forall|i: int, j: int| 0 <= i < j < after.len() implies (
        #[trigger] after[i]).stretch.start_ms <= (#[trigger] after[j]).stretch.start_ms by {
            if j == found.len() {
                assert(found[i].stretch.start_ms <= found.last().stretch.start_ms);
            }
        }
    } else {
        let shorter = found.drop_last();
        let last = found.last();
        lemma_with_found_keeps_order(shorter, next);
        let inner = with_found(shorter, next);
        assert forall|i: int| 0 <= i < after.len() implies (#[trigger] after[i]) == next
            || found.contains(after[i]) by {
            if i < inner.len() {
                assert(inner[i] == after[i]);
                if inner[i] != next {
                    let k = choose|k: int| 0 <= k < shorter.len() && shorter[k] == inner[i];
                    assert(found[k] == after[i]);
                }
            } else {
                assert(found[found.len() - 1] == after[i]);
            }
        }
        assert forall|i: int, j: int| 0 <= i < j < after.len() implies (
        #[trigger] after[i]).stretch.start_ms <= (#[trigger] after[j]).stretch.start_ms by {
            if j == inner.len() {
                assert(after[i] == inner[i]);
                if inner[i] != next {
                    let k = choose|k: int| 0 <= k < shorter.len() && shorter[k] == inner[i];
                    assert(found[k].stretch.start_ms <= found[found.len() - 1].stretch.start_ms);
                }
            } else {
                assert(after[i] == inner[i] && after[j] == inner[j]);
            }
        }
        assert(found =~= shorter.push(last));
        assert(found.to_multiset() =~= shorter.to_multiset().insert(last));
        assert(after.to_multiset() =~= inner.to_multiset().insert(last));
        assert(shorter.to_multiset().insert(next).insert(last) =~= shorter.to_multiset().insert(
            last,
        ).insert(next));
    }
}

/// Speech is recognised in the order it was spoken, whichever track it came from,
/// and none of it is lost or doubled on the way.
pub proof fn sources_are_merged_in_order(
    found: Seq<Found>,
    stretches: Seq<Stretch>,
    speaker: Option<Speaker>,
    upto: int,
)
    requires
        spoken_in_order(found),
        0 <= upto <= stretches.len(),
    ensures
        spoken_in_order(with_source(found, stretches, speaker, upto)),
        with_source(found, stretches, speaker, upto).len() == found.len() + upto,
        with_source(found, stretches, speaker, upto).to_multiset() == found.to_multiset().add(
            stretches.take(upto).map_values(
                |stretch: Stretch| Found { stretch, speaker },
            ).to_multiset(),
        ),
    decreases upto,
{
    broadcast use vstd::seq_lib::group_to_multiset_ensures;

    let label = |stretch: Stretch| Found { stretch, speaker };
    if upto > 0 {
        sources_are_merged_in_order(found, stretches, speaker, upto - 1);
        let before = with_source(found, stretches, speaker, upto - 1);
        let next = Found { stretch: stretches[upto - 1], speaker };
        lemma_with_found_keeps_order(before, next);
        let head = stretches.take(upto - 1).map_values(label);
        let longer = stretches.take(upto).map_values(label);
        assert(longer =~= head.push(next));
        assert(found.to_multiset().add(head.to_multiset()).insert(next)
            =~= found.to_multiset().add(head.to_multiset().insert(next)));
    } else {
        assert(stretches.take(0).map_values(label) =~= Seq::<Found>::empty());
        assert(found.to_multiset().add(Seq::<Found>::empty().to_multiset())
            =~= found.to_multiset());
    }
}

/// Which Whisper model to use: the one asked for, else the configured one. A meeting
/// that is transcribed with another engine cannot be transcribed again with Whisper
/// unless a model is named.
pub fn whisper_model(
    requested: Option<String>,
    configured: Option<(String, String)>,
    default_model: &str,
) -> (model: Result<String, String>)
    ensures
        match requested {
            Some(name) => model == Ok::<String, String>(name),
            None => match configured {
                Some((provider, configured_model)) => {
                    let whisper = provider@ == "localWhisper"@ || provider@ == "whisper"@;
                    &&& whisper ==> model == Ok::<String, String>(configured_model)
                    &&& !whisper ==> (model matches Err(reason) && reason@
                        == "Retranscription requires Whisper. Current provider '"@ + provider@
                        + "' does not support retranscription with language selection."@)
                },
                None => model matches Ok(name) && name@ == default_model@,
            },
        },
{
    match requested {
        Some(name) => Ok(name),
        None => match configured {
            Some((provider, model)) => if same_text(provider.as_str(), "localWhisper")
                || same_text(provider.as_str(), "whisper") {
                Ok(model)
            } else {
                let mut reason = joined(
                    "Retranscription requires Whisper. Current provider '",
                    provider.as_str(),
                );
                reason.append("' does not support retranscription with language selection.");
                Err(reason)
            },
            None => Ok(default_model.to_owned()),
        },
    }
}

/// Which Parakeet model to use: the one asked for, else the configured one, else the
/// default.
pub fn parakeet_model(
    requested: Option<String>,
    configured: Option<(String, String)>,
    default_model: &str,
) -> (model: String)
    ensures
        match requested {
            Some(name) => model == name,
            None => match configured {
                Some((provider, configured_model)) => if provider@ == "parakeet"@ {
                    model == configured_model
                } else {
                    model@ == default_model@
                },
                None => model@ == default_model@,
            },
        },
{
    match requested {
        Some(name) => name,
        None => match configured {
            Some((provider, model)) => if same_text(provider.as_str(), "parakeet") {
                model
            } else {
                default_model.to_owned()
            },
            None => default_model.to_owned(),
        },
    }
}

/// Whether the model has to be loaded: no model is, or another one.
pub fn needs_load(loaded: Option<&str>, target: &str) -> (load: bool)
    ensures
        load == match loaded {
            Some(name) => name@ != target@,
            None => true,
        },
{
    match loaded {
        Some(name) => !same_text(name, target),
        None => true,
    }
}

/// Which engine is unloaded after a run: the one that did it, if it is a local one.
pub fn unload_after_run(engine: EngineKind) -> (unload: Option<EngineKind>)
    ensures
        unload == if engine is External {
            None
        } else {
            Some(engine)
        },
{
    match engine {
        EngineKind::External => None,
        local => Some(local),
    }
}

/// What a finished run leaves of a description that exists: when it was done, that it is
/// complete, and no language that was detected before. Every other field stays; a description
/// that is no object stays as a whole.
pub open spec fn rewritten(before: Json, after: Json, now: Seq<char>) -> bool {
    if before is Object {
        &&& after is Object
        &&& is_text(field_of(after, "retranscribed_at"@), now)
        &&& is_text(field_of(after, "status"@), "completed"@)
        &&& field_of(after, "detected_summary_language"@) is None
        &&& forall|name: Seq<char>|
            name != "retranscribed_at"@ && name != "status"@ && name
                != "detected_summary_language"@ ==> #[trigger] field_of(after, name) == field_of(
                before,
                name,
            )
    } else {
        after == before
    }
}

/// The text of a description that stands for `before`, brought up to date.
pub open spec fn is_rewritten_as(
    before: Json,
    after: Json,
    now: Seq<char>,
    written: Option<Seq<char>>,
) -> bool {
    rewritten(before, after, now) && pretty_json(after) == written
}

proof fn lemma_field_names_differ()
    ensures
        "retranscribed_at"@ != "status"@,
        "retranscribed_at"@ != "detected_summary_language"@,
        "status"@ != "detected_summary_language"@,
{
    reveal_strlit("retranscribed_at");
    reveal_strlit("status");
    reveal_strlit("detected_summary_language");
    assert("retranscribed_at"@.len() == 16);
    assert("status"@.len() == 6);
    assert("detected_summary_language"@.len() == 25);
}

/// The text of a description after a run, from its text before it; nothing where that is no
/// JSON.
pub fn updated_metadata(existing: &str, now: &str) -> (written: Option<String>)
    ensures
        match parsed_json(existing@) {
            Some(before) => exists|after: Json| #[trigger]
                is_rewritten_as(before, after, now@, optional_text(written)),
            None => written is None,
        },
{
    match parse_value(existing) {
        Some(parsed) => {
            let ghost before = json_tree(parsed);
            let mut value = parsed;
            proof {
                lemma_field_names_differ();
            }
            put_text(&mut value, "retranscribed_at", now);
            put_text(&mut value, "status", "completed");
            take_field(&mut value, "detected_summary_language");
            let ghost after = json_tree(value);
            assert(rewritten(before, after, now@));
            let written = pretty(&value);
            assert(is_rewritten_as(before, after, now@, optional_text(written)));
            written
        },
        None => None,
    }
}

/// What the description of a meeting says that had none: these fields, and no others.
pub open spec fn describes_run(
    tree: Json,
    meeting_id: Seq<char>,
    now: Seq<char>,
    audio_filename: Seq<char>,
    duration: Json,
) -> bool {
    &&& tree is Object
    &&& is_text(field_of(tree, "version"@), "1.0"@)
    &&& is_text(field_of(tree, "meeting_id"@), meeting_id)
    &&& is_text(field_of(tree, "created_at"@), now)
    &&& is_text(field_of(tree, "completed_at"@), now)
    &&& is_text(field_of(tree, "retranscribed_at"@), now)
    &&& field_of(tree, "duration_seconds"@) == Some(duration)
    &&& is_text(field_of(tree, "audio_file"@), audio_filename)
    &&& is_text(field_of(tree, "status"@), "completed"@)
    &&& is_text(field_of(tree, "source"@), "retranscription"@)
    &&& forall|name: Seq<char>|
        !is_described(name) ==> #[trigger] field_of(tree, name) is None
}

/// A field that every description of a run has.
pub open spec fn is_described(name: Seq<char>) -> bool {
    ||| name == "version"@
    ||| name == "meeting_id"@
    ||| name == "created_at"@
    ||| name == "completed_at"@
    ||| name == "retranscribed_at"@
    ||| name == "duration_seconds"@
    ||| name == "audio_file"@
    ||| name == "status"@
    ||| name == "source"@
}

proof fn lemma_described_names_differ()
    ensures
        "version"@.len() == 7 && "version"@[0] == 'v',
        "meeting_id"@.len() == 10 && "meeting_id"@[0] == 'm',
        "created_at"@.len() == 10 && "created_at"@[0] == 'c',
        "completed_at"@.len() == 12,
        "retranscribed_at"@.len() == 16 && "retranscribed_at"@[0] == 'r',
        "duration_seconds"@.len() == 16 && "duration_seconds"@[0] == 'd',
        "audio_file"@.len() == 10 && "audio_file"@[0] == 'a',
        "status"@.len() == 6 && "status"@[1] == 't',
        "source"@.len() == 6 && "source"@[1] == 'o',
{
    reveal_strlit("version");
    reveal_strlit("meeting_id");
    reveal_strlit("created_at");
    reveal_strlit("completed_at");
    reveal_strlit("retranscribed_at");
    reveal_strlit("duration_seconds");
    reveal_strlit("audio_file");
    reveal_strlit("status");
    reveal_strlit("source");
}

/// The text of the description of a meeting that has none. The length of the recording is
/// taken as the value it is written by.
pub fn new_metadata(
    meeting_id: &str,
    now: &str,
    audio_filename: &str,
    duration: serde_json::Value,
) -> (written: Option<String>)
    ensures
        exists|tree: Json| #[trigger]
            describes_run(tree, meeting_id@, now@, audio_filename@, json_tree(duration))
                && pretty_json(tree) == optional_text(written),
{
    let mut value = empty_object();
    proof {
        lemma_described_names_differ();
    }
    put_text(&mut value, "version", "1.0");
    put_text(&mut value, "meeting_id", meeting_id);
    put_text(&mut value, "created_at", now);
    put_text(&mut value, "completed_at", now);
    put_text(&mut value, "retranscribed_at", now);
    let ghost length = json_tree(duration);
    put_field(&mut value, "duration_seconds", duration);
    put_text(&mut value, "audio_file", audio_filename);
    put_text(&mut value, "status", "completed");
    put_text(&mut value, "source", "retranscription");
    assert(describes_run(json_tree(value), meeting_id@, now@, audio_filename@, length));
    pretty(&value)
}

/// The text of a meeting's description after a run that ends now: the one that exists,
/// brought up to date, or a new one.
pub fn retranscribed_metadata(
    existing: Option<&str>,
    meeting_id: &str,
    audio_filename: &str,
    duration: serde_json::Value,
) -> (written: Option<String>)
    ensures
        match existing {
            Some(text) => parsed_json(text@) is None ==> written is None,
            None => true,
        },
        exists|now: Seq<char>| #[trigger]
            is_utc_text(now) && match existing {
                Some(text) => parsed_json(text@) matches Some(before) ==> exists|after: Json|
                    #[trigger]
                    is_rewritten_as(before, after, now, optional_text(written)),
                None => exists|tree: Json| #[trigger]
                    describes_run(tree, meeting_id@, now, audio_filename@, json_tree(duration))
                        && pretty_json(tree) == optional_text(written),
            },
{
    let now = utc_now_text();
    match existing {
        Some(text) => updated_metadata(text, now.as_str()),
        None => new_metadata(meeting_id, now.as_str(), audio_filename, duration),
    }
}

/// A sample is silenced if and only if its middle lies in one of the stretches: half a sample
/// behind its beginning is not before the stretch begins and is before the stretch ends.
pub proof fn samples_are_silenced_by_their_moment(
    spans: Seq<(u64, u64)>,
    sample_rate: int,
    index: int,
)
    requires
        sample_rate > 0,
        index >= 0,
    ensures
        covered(spans, sample_rate, spans.len() as int, index) <==> exists|k: int|
            0 <= k < spans.len() && (#[trigger] spans[k]).0 * sample_rate < (2 * index + 1)
                * 500_000_000 && (2 * index + 1) * 500_000_000 <= spans[k].1 * sample_rate,
{
    assert forall|k: int| 0 <= k < spans.len() implies (sample_at(
        (#[trigger] spans[k]).0 as int,
        sample_rate,
    ) <= index < sample_at(spans[k].1 as int, sample_rate)) == (spans[k].0 * sample_rate < (2 * index
        + 1) * 500_000_000 && (2 * index + 1) * 500_000_000 <= spans[k].1 * sample_rate) by {
        let a = spans[k].0 * sample_rate;
        let b = spans[k].1 * sample_rate;
        assert((a + 500_000_000) / 1_000_000_000 <= index <==> a < (2 * index + 1) * 500_000_000);
        assert(index < (b + 500_000_000) / 1_000_000_000 <==> (2 * index + 1) * 500_000_000 <= b);
    }
    if covered(spans, sample_rate, spans.len() as int, index) {
        let k = choose|k: int|
            0 <= k < spans.len() && sample_at((#[trigger] spans[k]).0 as int, sample_rate) <= index
                < sample_at(spans[k].1 as int, sample_rate);
        assert(spans[k].0 * sample_rate < (2 * index + 1) * 500_000_000);
    }
    if exists|k: int|
        0 <= k < spans.len() && (#[trigger] spans[k]).0 * sample_rate < (2 * index + 1)
            * 500_000_000 && (2 * index + 1) * 500_000_000 <= spans[k].1 * sample_rate {
        let k = choose|k: int|
            0 <= k < spans.len() && (#[trigger] spans[k]).0 * sample_rate < (2 * index + 1)
                * 500_000_000 && (2 * index + 1) * 500_000_000 <= spans[k].1 * sample_rate;
        assert(sample_at(spans[k].0 as int, sample_rate) <= index < sample_at(
            spans[k].1 as int,
            sample_rate,
        ));
    }
}

/// The places of a track that the first `upto` stretches cover.
pub open spec fn covered_places(spans: Seq<(u64, u64)>, sample_rate: int, len: int, upto: int) -> Set<
    int,
> {
    vstd::set_lib::set_int_range(0, len).filter(|i: int| covered(spans, sample_rate, upto, i))
}

/// What is said to have been silenced is how many samples of the track were.
pub proof fn silenced_samples_are_counted(
    spans: Seq<(u64, u64)>,
    sample_rate: int,
    len: int,
    upto: int,
)
    requires
        sample_rate >= 0,
        len >= 0,
        0 <= upto <= spans.len(),
        forall|k: int| 0 <= k < spans.len() ==> (#[trigger] spans[k]).0 <= spans[k].1,
        forall|j: int, k: int|
            0 <= j < k < spans.len() ==> (#[trigger] spans[j]).1 <= (#[trigger] spans[k]).0,
    ensures
        covered_places(spans, sample_rate, len, upto).finite(),
        covered_samples(spans, sample_rate, len, upto) == covered_places(
            spans,
            sample_rate,
            len,
            upto,
        ).len(),
    decreases upto,
{
    let all = vstd::set_lib::set_int_range(0, len);
    vstd::set_lib::lemma_int_range(0, len);
    let places = covered_places(spans, sample_rate, len, upto);
    if upto <= 0 {
        assert(places =~= Set::empty());
    } else {
        silenced_samples_are_counted(spans, sample_rate, len, upto - 1);
        let before = covered_places(spans, sample_rate, len, upto - 1);
        let first = sample_at(spans[upto - 1].0 as int, sample_rate);
        let last = sample_at(spans[upto - 1].1 as int, sample_rate);
        let end = if last < len {
            last
        } else {
            len
        };
        lemma_sample_at_grows(0, spans[upto - 1].0 as int, sample_rate);
        let more = if first < end {
            vstd::set_lib::set_int_range(first, end)
        } else {
            Set::empty()
        };
        if first < end {
            vstd::set_lib::lemma_int_range(first, end);
        }
        assert forall|i: int| before.contains(i) implies !more.contains(i) by {
            let k = choose|k: int|
                0 <= k < upto - 1 && sample_at((#[trigger] spans[k]).0 as int, sample_rate) <= i
                    < sample_at(spans[k].1 as int, sample_rate);
            assert(spans[k].1 <= spans[upto - 1].0);
            lemma_sample_at_grows(spans[k].1 as int, spans[upto - 1].0 as int, sample_rate);
        }
        assert forall|i: int| places.contains(i) <==> before.union(more).contains(i) by {
            if places.contains(i) {
                let k = choose|k: int|
                    0 <= k < upto && sample_at((#[trigger] spans[k]).0 as int, sample_rate) <= i
                        < sample_at(spans[k].1 as int, sample_rate);
                if k < upto - 1 {
                    assert(covered(spans, sample_rate, upto - 1, i));
                }
            }
            if more.contains(i) {
                assert(sample_at(spans[upto - 1].0 as int, sample_rate) <= i < sample_at(
                    spans[upto - 1].1 as int,
                    sample_rate,
                ));
                assert(covered(spans, sample_rate, upto, i));
            }
            if before.contains(i) {
                let k = choose|k: int|
                    0 <= k < upto - 1 && sample_at((#[trigger] spans[k]).0 as int, sample_rate) <= i
                        < sample_at(spans[k].1 as int, sample_rate);
                assert(0 <= k < upto);
                assert(covered(spans, sample_rate, upto, i));
            }
        }
        assert(places =~= before.union(more));
        assert(before.disjoint(more));
        vstd::set_lib::lemma_set_disjoint_lens(before, more);
    }
}

/// A piece is what was cut from its stretch: the samples between the two places, the owner of
/// the track, and moments that lie as far along the stretch as the places do.
pub proof fn piece_is_cut_from_its_stretch(stretch: Stretch, speaker: Option<Speaker>, index: int)
    requires
        stretch.wf(),
        stretch.samples > 0,
        stretch.start_ms <= stretch.end_ms,
        0 <= index < stretch.cuts@.len(),
    ensures
        pieces_of_stretch(stretch, speaker).len() == stretch.cuts@.len(),
        ({
            let piece = pieces_of_stretch(stretch, speaker)[index];
            let length = stretch.end_ms - stretch.start_ms;
            let begun = piece.start_ms - stretch.start_ms;
            let ended = piece.end_ms - stretch.start_ms;
            &&& piece.id == stretch.id
            &&& piece.speaker == speaker
            &&& piece.from == stretch.cuts@[index].0
            &&& piece.to == stretch.cuts@[index].1
            &&& 0 <= piece.from * length - begun * stretch.samples < stretch.samples
            &&& 0 <= piece.to * length - ended * stretch.samples < stretch.samples
            &&& stretch.start_ms <= piece.start_ms <= piece.end_ms <= stretch.end_ms
        }),
{
    let start = stretch.start_ms as int;
    let end = stretch.end_ms as int;
    let total = stretch.samples as int;
    let from = stretch.cuts@[index].0 as int;
    let to = stretch.cuts@[index].1 as int;
    let length = end - start;
    assert(from <= to <= total);
    crate::splitting::moments_are_shared_out_evenly(start, end, total, from);
    crate::splitting::moments_are_shared_out_evenly(start, end, total, to);
    let first = moment_at(start, end, total, from);
    let last = moment_at(start, end, total, to);
    assert(0 <= first - start <= last - start <= length) by (nonlinear_arith)
        requires
            total > 0,
            length >= 0,
            0 <= from <= to <= total,
            0 <= from * length - (first - start) * total < total,
            0 <= to * length - (last - start) * total < total,
    ;
    assert(total * length - length * total == 0) by (nonlinear_arith);
}

/// The pieces of a stretch come behind those of the stretches before it, each of them once and
/// under the owner of that stretch's track. Before the first stretch there is none.
pub proof fn pieces_come_stretch_by_stretch(found: Seq<Found>, place: int, index: int)
    requires
        0 <= place < found.len(),
        0 <= index < found[place].stretch.cuts@.len(),
    ensures
        all_pieces(found, 0).len() == 0,
        ({
            let before = all_pieces(found, place);
            let after = all_pieces(found, place + 1);
            let piece = after[before.len() + index];
            &&& after.len() == before.len() + found[place].stretch.cuts@.len()
            &&& after.take(before.len() as int) == before
            &&& piece.id == found[place].stretch.id
            &&& piece.from == found[place].stretch.cuts@[index].0
            &&& piece.to == found[place].stretch.cuts@[index].1
            &&& piece.speaker == found[place].speaker
        }),
{
    let before = all_pieces(found, place);
    assert(all_pieces(found, place + 1).take(before.len() as int) =~= before);
}

/// `next` was put in at `place`: behind everything that does not begin later, before
/// everything that does, and nothing else was moved.
pub open spec fn is_put_at(before: Seq<Found>, after: Seq<Found>, next: Found, place: int) -> bool {
    &&& 0 <= place <= before.len()
    &&& after == before.insert(place, next)
    &&& forall|i: int|
        0 <= i < place ==> (#[trigger] before[i]).stretch.start_ms <= next.stretch.start_ms
    &&& forall|i: int|
        place <= i < before.len() ==> next.stretch.start_ms < (#[trigger] before[i]).stretch.start_ms
}

/// A stretch is put where it was spoken; of two that begin at the same moment the one that was
/// found first stays first.
pub proof fn stretch_is_put_where_it_was_spoken(found: Seq<Found>, next: Found)
    requires
        spoken_in_order(found),
    ensures
        exists|place: int| #[trigger] is_put_at(found, with_found(found, next), next, place),
    decreases found.len(),
{
    let after = with_found(found, next);
    if found.len() == 0 || found.last().stretch.start_ms <= next.stretch.start_ms {
        let place = found.len() as int;
        assert(after =~= found.insert(place, next));
        assert forall|i: int| 0 <= i < place implies (#[trigger] found[i]).stretch.start_ms
            <= next.stretch.start_ms by {
            if i < found.len() - 1 {
                assert(found[i].stretch.start_ms <= found[found.len() - 1].stretch.start_ms);
            }
        }
        assert(is_put_at(found, after, next, place));
    } else {
        let shorter = found.drop_last();
        stretch_is_put_where_it_was_spoken(shorter, next);
        let inner = with_found(shorter, next);
        let place = choose|place: int| #[trigger] is_put_at(shorter, inner, next, place);
        assert(after =~= found.insert(place, next)) by {
            assert(inner == shorter.insert(place, next));
        }
        assert forall|i: int| 0 <= i < place implies (#[trigger] found[i]).stretch.start_ms
            <= next.stretch.start_ms by {
            assert(shorter[i] == found[i]);
        }
        assert forall|i: int| place <= i < found.len() implies next.stretch.start_ms < (
        #[trigger] found[i]).stretch.start_ms by {
            if i < shorter.len() {
                assert(shorter[i] == found[i]);
            }
        }
        assert(is_put_at(found, after, next, place));
    }
}

/// Each engine is asked for by its own name; whatever else is asked for, and nothing at all, is
/// Whisper.
pub proof fn engines_are_asked_for_by_name(name: Seq<char>)
    ensures
        engine_of(Some(name)) is GigaAm <==> name == "gigaam"@,
        engine_of(Some(name)) is External <==> name == "externalStt"@,
        engine_of(Some(name)) is Parakeet <==> name == "parakeet"@,
        name != "gigaam"@ && name != "externalStt"@ && name != "parakeet"@ ==> engine_of(Some(name))
            is Whisper,
        engine_of(None) is Whisper,
{
    reveal_strlit("gigaam");
    reveal_strlit("externalStt");
    reveal_strlit("parakeet");
    assert("gigaam"@[0] == 'g');
    assert("externalStt"@[0] == 'e');
    assert("parakeet"@[0] == 'p');
}

/// The recording of a folder is one of the entries of that folder. The mixed MP4 is taken before
/// any other file, then the other usual names in their order; a file under another name is taken
/// only where there is none of them, and then the first that is audio.
pub proof fn usual_names_come_first(names: Seq<Seq<char>>, name: Seq<char>, other: int)
    requires
        is_recording_in(names, name),
    ensures
        names.contains(name),
        names.contains("audio.mp4"@) ==> name == "audio.mp4"@,
        !names.contains("audio.mp4"@) && names.contains("audio.m4a"@) ==> name == "audio.m4a"@,
        names.contains("audio.wav"@) ==> name == "audio.mp4"@ || name == "audio.m4a"@ || name
            == "audio.wav"@,
        names.contains("audio.mp3"@) ==> name == "audio.mp4"@ || name == "audio.m4a"@ || name
            == "audio.wav"@ || name == "audio.mp3"@,
        names.contains("recording.mp4"@) ==> is_usual(name),
        !is_usual(name) && 0 <= other < names.len() && is_audio_name(names[other]) ==> exists|k: int|
            0 <= k <= other && #[trigger] names[k] == name,
        !is_usual(name) ==> is_audio_name(name),
{
    assert(candidate(0) == "audio.mp4"@ && candidate(1) == "audio.m4a"@);
    assert(candidate(2) == "audio.wav"@ && candidate(3) == "audio.mp3"@);
    assert(candidate(6) == "recording.mp4"@);
    if exists|k: int|
        0 <= k < CANDIDATES && #[trigger] candidate(k) == name && names.contains(name) && forall|
            j: int,
        |
            0 <= j < k ==> !names.contains(#[trigger] candidate(j)) {
        let k = choose|k: int|
            0 <= k < CANDIDATES && #[trigger] candidate(k) == name && names.contains(name) && forall|
                j: int,
            |
                0 <= j < k ==> !names.contains(#[trigger] candidate(j));
        assert(is_usual(candidate(k)));
    } else {
        let k = choose|k: int|
            0 <= k < names.len() && #[trigger] names[k] == name && is_audio_name(name) && forall|
                j: int,
            |
                0 <= j < k ==> !is_audio_name(#[trigger] names[j]);
        assert(names.contains(names[k]));
        if 0 <= other < names.len() && is_audio_name(names[other]) {
            assert(k <= other);
        }
    }
}

/// One of the names that recordings usually have.
pub open spec fn is_usual(name: Seq<char>) -> bool {
    ||| name == "audio.mp4"@
    ||| name == "audio.m4a"@
    ||| name == "audio.wav"@
    ||| name == "audio.mp3"@
    ||| name == "audio.flac"@
    ||| name == "audio.ogg"@
    ||| name == "recording.mp4"@
    ||| name == "audio.mkv"@
    ||| name == "audio.webm"@
    ||| name == "audio.wma"@
}

/// Every name that a recording usually has is that of an audio file, and a file is known as audio
/// by its extension in whatever case.
pub proof fn audio_is_known_by_its_extension(stem: Seq<char>, ending: Seq<char>)
    requires
        stem.len() > 0,
        !ending.contains('.'),
    ensures
        is_audio_name(stem.push('.') + ending) <==> is_audio_extension(folded_text(ending)),
        is_audio_extension(ending) ==> 3 <= ending.len() <= 4,
        !is_audio_name(ending),
        is_audio_name(stem + ".mp4"@) && is_audio_name(stem + ".m4a"@) && is_audio_name(
            stem + ".wav"@,
        ) && is_audio_name(stem + ".mp3"@) && is_audio_name(stem + ".flac"@) && is_audio_name(
            stem + ".ogg"@,
        ) && is_audio_name(stem + ".aac"@) && is_audio_name(stem + ".mkv"@) && is_audio_name(
            stem + ".webm"@,
        ) && is_audio_name(stem + ".wma"@),
{
    crate::paths::extension_stands_behind_the_last_dot(stem, ending);
    reveal_strlit("mp4");
    reveal_strlit("m4a");
    reveal_strlit("wav");
    reveal_strlit("mp3");
    reveal_strlit("flac");
    reveal_strlit("ogg");
    reveal_strlit("aac");
    reveal_strlit("mkv");
    reveal_strlit("webm");
    reveal_strlit("wma");
    reveal_strlit(".mp4");
    reveal_strlit(".m4a");
    reveal_strlit(".wav");
    reveal_strlit(".mp3");
    reveal_strlit(".flac");
    reveal_strlit(".ogg");
    reveal_strlit(".aac");
    reveal_strlit(".mkv");
    reveal_strlit(".webm");
    reveal_strlit(".wma");
    lemma_plain_ending(stem, "mp4"@, ".mp4"@);
    lemma_plain_ending(stem, "m4a"@, ".m4a"@);
    lemma_plain_ending(stem, "wav"@, ".wav"@);
    lemma_plain_ending(stem, "mp3"@, ".mp3"@);
    lemma_plain_ending(stem, "flac"@, ".flac"@);
    lemma_plain_ending(stem, "ogg"@, ".ogg"@);
    lemma_plain_ending(stem, "aac"@, ".aac"@);
    lemma_plain_ending(stem, "mkv"@, ".mkv"@);
    lemma_plain_ending(stem, "webm"@, ".webm"@);
    lemma_plain_ending(stem, "wma"@, ".wma"@);
}

proof fn lemma_plain_ending(stem: Seq<char>, ending: Seq<char>, dotted: Seq<char>)
    requires
        stem.len() > 0,
        dotted =~= seq!['.'] + ending,
        is_audio_extension(ending),
        forall|i: int| 0 <= i < ending.len() ==> {
            let c = #[trigger] ending[i];
            '0' <= c <= '9' || 'a' <= c <= 'z'
        },
    ensures
        is_audio_name(stem + dotted),
{
    assert(!ending.contains('.'));
    assert(folded_text(ending) =~= ending);
    crate::paths::extension_stands_behind_the_last_dot(stem, ending);
    assert(stem + dotted =~= stem.push('.') + ending);
}

/// A description that is brought up to date keeps what it said of the meeting: only when the
/// run was, that it is complete and the language that was detected before are touched.
pub proof fn description_keeps_what_it_said(before: Json, after: Json, now: Seq<char>, name: Seq<char>)
    requires
        rewritten(before, after, now),
    ensures
        before is Object ==> {
            &&& field_of(after, "retranscribed_at"@) matches Some(Json::Text(moment)) && moment@
                == now
            &&& field_of(after, "status"@) matches Some(Json::Text(status)) && status@
                == "completed"@
            &&& field_of(after, "detected_summary_language"@) is None
            &&& field_of(after, "meeting_id"@) == field_of(before, "meeting_id"@)
            &&& field_of(after, "meeting_name"@) == field_of(before, "meeting_name"@)
            &&& field_of(after, "created_at"@) == field_of(before, "created_at"@)
            &&& field_of(after, "duration_seconds"@) == field_of(before, "duration_seconds"@)
            &&& name.len() != 16 && name.len() != 6 && name.len() != 25 ==> field_of(after, name)
                == field_of(before, name)
        },
        !(before is Object) ==> after == before,
{
    lemma_field_names_differ();
    reveal_strlit("retranscribed_at");
    reveal_strlit("status");
    reveal_strlit("detected_summary_language");
    reveal_strlit("meeting_id");
    reveal_strlit("meeting_name");
    reveal_strlit("created_at");
    reveal_strlit("duration_seconds");
    assert("retranscribed_at"@.len() == 16 && "retranscribed_at"@[0] == 'r');
    assert("status"@.len() == 6);
    assert("detected_summary_language"@.len() == 25);
    assert("meeting_id"@.len() == 10);
    assert("meeting_name"@.len() == 12);
    assert("created_at"@.len() == 10);
    assert("duration_seconds"@.len() == 16 && "duration_seconds"@[0] == 'd');
}

/// A description that is made for a run says which meeting it is of, when the run was, which file
/// the recording is and how long; it says that it is complete and where it came from.
pub proof fn new_description_is_of_the_run(
    tree: Json,
    meeting_id: Seq<char>,
    now: Seq<char>,
    audio_filename: Seq<char>,
    duration: Json,
)
    requires
        describes_run(tree, meeting_id, now, audio_filename, duration),
    ensures
        field_of(tree, "meeting_id"@) matches Some(Json::Text(text)) && text@ == meeting_id,
        field_of(tree, "created_at"@) matches Some(Json::Text(text)) && text@ == now,
        field_of(tree, "completed_at"@) matches Some(Json::Text(text)) && text@ == now,
        field_of(tree, "retranscribed_at"@) matches Some(Json::Text(text)) && text@ == now,
        field_of(tree, "audio_file"@) matches Some(Json::Text(text)) && text@ == audio_filename,
        field_of(tree, "duration_seconds"@) == Some(duration),
        field_of(tree, "status"@) matches Some(Json::Text(text)) && text@ == "completed"@,
        field_of(tree, "source"@) matches Some(Json::Text(text)) && text@ == "retranscription"@,
{
}

/// What comes from the microphone is stored under the owner and what comes from the system under
/// the guest; what comes from both has no name.
pub proof fn tracks_are_stored_under_their_owners(hint: Option<Speaker>)
    ensures
        speaker_name(hint) == Some("You"@) <==> hint == Some(Speaker::You),
        speaker_name(hint) == Some("Guest"@) <==> hint == Some(Speaker::Guest),
        speaker_name(hint) is None <==> hint is None,
{
    reveal_strlit("You");
    reveal_strlit("Guest");
    assert("You"@[0] == 'Y');
    assert("Guest"@[0] == 'G');
}

} // verus!
