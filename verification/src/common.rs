//! What importing, recording and transcribing again share: when the local engines
//! may be unloaded, and what a recognised stretch of speech is stored as.

use crate::moments::{rfc3339_millis, rfc3339_of, Moment};
use crate::text::{chars_of, joined, text_of, trim, trimmed};
use vstd::prelude::*;

verus! {

/// How long recognition may sit loaded with no work before memory is freed.
pub const STT_IDLE_UNLOAD_SECS: u64 = 120;

/// When the local engines last worked and were last unloaded, in seconds since
/// 1970. Zero stands for never.
#[derive(Clone, Copy, Debug, PartialEq, Eq, Structural)]
pub struct EngineTimes {
    pub stt_last_activity: u64,
    pub stt_last_unload: u64,
    pub llm_last_unload: u64,
}

impl EngineTimes {
    pub fn new() -> (times: EngineTimes)
        ensures
            times == (EngineTimes { stt_last_activity: 0, stt_last_unload: 0, llm_last_unload: 0 }),
    {
        EngineTimes { stt_last_activity: 0, stt_last_unload: 0, llm_last_unload: 0 }
    }

    /// Recognition has been left alone for long enough at `now`. A clock that went
    /// back counts as no time at all.
    pub open spec fn idle_long_enough(self, now: u64) -> bool {
        now - self.stt_last_activity >= STT_IDLE_UNLOAD_SECS
    }
}

pub fn stt_last_unload_secs(times: &EngineTimes) -> (at: u64)
    ensures
        at == times.stt_last_unload,
{
    times.stt_last_unload
}

pub fn llm_last_unload_secs(times: &EngineTimes) -> (at: u64)
    ensures
        at == times.llm_last_unload,
{
    times.llm_last_unload
}

pub fn mark_llm_unloaded(times: &mut EngineTimes, now: u64)
    ensures
        *final(times) == (EngineTimes { llm_last_unload: now, ..*old(times) }),
{
    times.llm_last_unload = now;
}

/// Call whenever recognition does real work, so that the model is not taken away in
/// the middle of it.
pub fn mark_stt_activity(times: &mut EngineTimes, now: u64)
    ensures
        *final(times) == (EngineTimes { stt_last_activity: now, ..*old(times) }),
{
    times.stt_last_activity = now;
}

/// The local recognition engines have been unloaded.
pub fn mark_stt_unloaded(times: &mut EngineTimes, now: u64)
    ensures
        *final(times) == (EngineTimes {
            stt_last_activity: 0,
            stt_last_unload: now,
            ..*old(times)
        }),
{
    times.stt_last_activity = 0;
    times.stt_last_unload = now;
}

/// Whether it is worth waiting for the engines' lock to unload recognition: it has
/// worked since it was last unloaded, was then left alone for long enough, and
/// nothing is being recorded.
pub fn unload_stt_if_idle(times: &EngineTimes, now: u64, recording: bool) -> (unload: bool)
    ensures
        unload == (times.stt_last_activity != 0 && times.idle_long_enough(now) && !recording),
{
    times.stt_last_activity != 0 && now.saturating_sub(times.stt_last_activity)
        >= STT_IDLE_UNLOAD_SECS && !recording
}

/// The same question once the lock is held: someone may have worked, or begun to
/// record, while it was waited for.
pub fn still_idle(times: &EngineTimes, now: u64, recording: bool) -> (unload: bool)
    ensures
        unload == (times.idle_long_enough(now) && !recording),
{
    now.saturating_sub(times.stt_last_activity) >= STT_IDLE_UNLOAD_SECS && !recording
}

/// Whether recognition makes room before the language model starts. While a recording
/// runs it stays.
pub fn prepare_for_llm(recording: bool) -> (unload: bool)
    ensures
        unload == !recording,
{
    force_unload_stt(recording).is_ok()
}

/// Memory is never freed under a recording.
pub fn force_unload_stt(recording: bool) -> (allowed: Result<(), String>)
    ensures
        match allowed {
            Ok(()) => !recording,
            Err(reason) => recording && reason@ == "Cannot unload while recording"@,
        },
{
    if recording {
        Err("Cannot unload while recording".to_owned())
    } else {
        Ok(())
    }
}

/// Memory is never freed under a recording.
pub fn force_unload_all(recording: bool) -> (allowed: Result<(), String>)
    ensures
        match allowed {
            Ok(()) => !recording,
            Err(reason) => recording && reason@ == "Cannot free memory while recording"@,
        },
{
    if recording {
        Err("Cannot free memory while recording".to_owned())
    } else {
        Ok(())
    }
}

/// The engines that recognise speech.
#[derive(Clone, Copy, Debug, PartialEq, Eq, Structural)]
pub enum EngineKind {
    Whisper,
    Parakeet,
    GigaAm,
    External,
}

/// Which engine is unloaded after a batch: the one that did it, unless a recording
/// uses it. The moment is noted as that of the last unload.
pub fn unload_engine_after_batch(
    times: &mut EngineTimes,
    now: u64,
    use_parakeet: bool,
    recording: bool,
) -> (engine: Option<EngineKind>)
    ensures
        engine == if recording {
            None
        } else if use_parakeet {
            Some(EngineKind::Parakeet)
        } else {
            Some(EngineKind::Whisper)
        },
        *final(times) == if recording {
            *old(times)
        } else {
            EngineTimes { stt_last_activity: 0, stt_last_unload: now, ..*old(times) }
        },
{
    if recording {
        return None;
    }
    mark_stt_unloaded(times, now);
    if use_parakeet {
        Some(EngineKind::Parakeet)
    } else {
        Some(EngineKind::Whisper)
    }
}

/// The sum of the first `upto` sizes.
pub open spec fn sum_of(sizes: Seq<u64>, upto: int) -> int
    decreases upto,
{
    if upto <= 0 {
        0
    } else {
        sum_of(sizes, upto - 1) + sizes[upto - 1]
    }
}

/// The bytes of all files under a folder, from the size of each: as many as can be
/// said, at most.
pub fn dir_size_bytes(sizes: &Vec<u64>) -> (total: u64)
    ensures
        total == if sum_of(sizes@, sizes@.len() as int) > u64::MAX {
            u64::MAX as int
        } else {
            sum_of(sizes@, sizes@.len() as int)
        },
{
    let mut total: u64 = 0;
    let mut index: usize = 0;
    while index < sizes.len()
        invariant
            index <= sizes@.len(),
            sum_of(sizes@, index as int) >= 0,
            total == if sum_of(sizes@, index as int) > u64::MAX {
                u64::MAX as int
            } else {
                sum_of(sizes@, index as int)
            },
        decreases sizes@.len() - index,
    {
        total = total.saturating_add(sizes[index]);
        index += 1;
    }
    total
}

/// A stretch of recognised speech as it is stored. Times are milliseconds in fixed
/// point, counted as in [`crate::own_speech`].
#[derive(Debug, Clone)]
pub struct StoredTranscript {
    pub id: String,
    pub text: String,
    pub timestamp: String,
    pub audio_start_time: Option<u64>,
    pub audio_end_time: Option<u64>,
    pub duration: Option<i128>,
    pub speaker: Option<String>,
}

/// What recognition gave for a stretch of speech.
#[derive(Debug, Clone)]
pub struct Recognised {
    pub text: String,
    pub start_ms: u64,
    pub end_ms: u64,
}

/// The places of the hyphens in a written identifier.
pub open spec fn is_hyphen_place(index: int) -> bool {
    index == 8 || index == 13 || index == 18 || index == 23
}

/// Thirty-two lower-case hexadecimal digits in five groups.
pub open spec fn is_uuid_text(text: Seq<char>) -> bool {
    &&& text.len() == 36
    &&& forall|i: int|
        0 <= i < 36 ==> if is_hyphen_place(i) {
            #[trigger] text[i] == '-'
        } else {
            '0' <= text[i] <= '9' || 'a' <= text[i] <= 'f'
        }
}

/// A fresh identifier.
///
/// Calls `uuid::Uuid::new_v4` and writes what it gives. Claimed: the form of the
/// text, which is the same for every identifier. Which one comes is chance, and that
/// no two are alike is left unsaid.
#[verifier::external_body]
fn fresh_uuid() -> (text: String)
    ensures
        is_uuid_text(text@),
{
    uuid::Uuid::new_v4().to_string()
}

/// What is stored for a recognised stretch, once its identifier and the moment it
/// began at are written out.
pub fn stored_transcript(id: String, timestamp: String, recognised: &Recognised) -> (stored:
    StoredTranscript)
    ensures
        stored.id@ == "transcript-"@ + id@,
        stored.text@ == trimmed(recognised.text@),
        stored.timestamp@ == timestamp@,
        stored.audio_start_time == Some(recognised.start_ms),
        stored.audio_end_time == Some(recognised.end_ms),
        stored.duration == Some((recognised.end_ms - recognised.start_ms) as i128),
        stored.speaker is None,
{
    let inner = trim(&chars_of(recognised.text.as_str()));
    StoredTranscript {
        id: joined("transcript-", id.as_str()),
        text: text_of(&inner),
        timestamp,
        audio_start_time: Some(recognised.start_ms),
        audio_end_time: Some(recognised.end_ms),
        duration: Some(recognised.end_ms as i128 - recognised.start_ms as i128),
        speaker: None,
    }
}

/// `offset` after the recording began, written out; nothing for a moment that cannot
/// be written.
pub open spec fn timestamp_of(started: Moment, offset: int) -> Option<Seq<char>> {
    let total = started.total() + offset;
    if total >= (i64::MAX + 1) * 1_000_000_000 {
        None
    } else {
        rfc3339_of((total / 1_000_000_000) as i64, (total % 1_000_000_000) as u32)
    }
}

/// From the first of January 1970 to the end of the year 9999, every moment can be written.
pub open spec fn in_calendar(started: Moment, offset: int) -> bool {
    0 <= started.total() && started.total() + offset < 253_402_300_800 * 1_000_000_000
}

/// The moment `offset` after the recording began, written out.
pub fn timestamp_from_offset(started: Moment, offset: u64) -> (text: Option<String>)
    requires
        started.wf(),
    ensures
        match text {
            Some(written) => timestamp_of(started, offset as int) == Some(written@),
            None => timestamp_of(started, offset as int) is None,
        },
        in_calendar(started, offset as int) ==> text is Some,
{
    match started.later(offset) {
        Some(moment) => {
            proof {
                let total = started.total() + offset;
                assert(total == moment.seconds * 1_000_000_000 + moment.nanos);
                assert(total / 1_000_000_000 == moment.seconds);
                assert(total % 1_000_000_000 == moment.nanos);
            }
            rfc3339_millis(moment.seconds, moment.nanos)
        },
        None => None,
    }
}

/// A stored stretch is what recognition gave, whatever identifier it got.
pub open spec fn stores(stored: StoredTranscript, recognised: Recognised, started: Moment) -> bool {
    &&& stored.id@.len() == "transcript-"@.len() + 36
    &&& stored.id@.take("transcript-"@.len() as int) == "transcript-"@
    &&& is_uuid_text(stored.id@.skip("transcript-"@.len() as int))
    &&& stored.text@ == trimmed(recognised.text@)
    &&& timestamp_of(started, recognised.start_ms as int) == Some(stored.timestamp@)
    &&& stored.audio_start_time == Some(recognised.start_ms)
    &&& stored.audio_end_time == Some(recognised.end_ms)
    &&& stored.duration == Some((recognised.end_ms - recognised.start_ms) as i128)
}

/// Create what is stored from recognition results, in their order. Fails when the
/// moment that one of them began at cannot be written.
pub fn create_transcript_segments(transcripts: &Vec<Recognised>, started: Moment) -> (segments:
    Result<Vec<StoredTranscript>, String>)
    requires
        started.wf(),
    ensures
        match segments {
            Ok(stored) => {
                &&& stored@.len() == transcripts@.len()
                &&& forall|i: int|
                    0 <= i < stored@.len() ==> stores(
                        #[trigger] stored@[i],
                        transcripts@[i],
                        started,
                    ) && stored@[i].speaker is None
            },
            Err(reason) => {
                &&& reason@ == "The recording's start is out of range"@
                &&& exists|i: int|
                    0 <= i < transcripts@.len() && timestamp_of(
                        started,
                        (#[trigger] transcripts@[i]).start_ms as int,
                    ) is None
            },
        },
        (forall|i: int|
            0 <= i < transcripts@.len() ==> in_calendar(
                started,
                (#[trigger] transcripts@[i]).start_ms as int,
            )) ==> segments is Ok,
{
    let mut stored: Vec<StoredTranscript> = Vec::new();
    while stored.len() < transcripts.len()
        invariant
            started.wf(),
            stored@.len() <= transcripts@.len(),
            forall|i: int|
                0 <= i < stored@.len() ==> stores(#[trigger] stored@[i], transcripts@[i], started)
                    && stored@[i].speaker is None,
        decreases transcripts@.len() - stored@.len(),
    {
        let index: usize = stored.len();
        let recognised = &transcripts[index];
        match timestamp_from_offset(started, recognised.start_ms) {
            Some(timestamp) => {
                let id = fresh_uuid();
                let ghost written = id@;
                let segment = stored_transcript(id, timestamp, recognised);
                assert(segment.id@.take("transcript-"@.len() as int) =~= "transcript-"@);
                assert(segment.id@.skip("transcript-"@.len() as int) =~= written);
                stored.push(segment);
            },
            None => {
                assert(timestamp_of(started, transcripts@[index as int].start_ms as int) is None);
                assert(!in_calendar(started, transcripts@[index as int].start_ms as int));
                return Err("The recording's start is out of range".to_owned());
            },
        }
    }
    Ok(stored)
}

/// Recognition may be unloaded two minutes after it last worked, and no sooner.
pub proof fn engines_stay_for_two_minutes(times: EngineTimes, now: u64)
    ensures
        times.idle_long_enough(now) <==> now >= times.stt_last_activity + 120,
{
}

/// The sizes of two lists of files add up, and one file counts as much as it is large.
pub proof fn sizes_add_up(left: Seq<u64>, right: Seq<u64>, one: u64)
    ensures
        sum_of(left + right, (left.len() + right.len()) as int) == sum_of(left, left.len() as int)
            + sum_of(right, right.len() as int),
        sum_of(seq![one], 1) == one,
{
    lemma_sizes_add_up(left, right, right.len() as int);
    assert(sum_of(seq![one], 1) == sum_of(seq![one], 0) + seq![one][0]);
}

proof fn lemma_sizes_add_up(left: Seq<u64>, right: Seq<u64>, upto: int)
    requires
        0 <= upto <= right.len(),
    ensures
        sum_of(left + right, left.len() + upto) == sum_of(left, left.len() as int) + sum_of(
            right,
            upto,
        ),
    decreases upto,
{
    if upto > 0 {
        lemma_sizes_add_up(left, right, upto - 1);
        assert((left + right)[left.len() + upto - 1] == right[upto - 1]);
    } else {
        lemma_same_sizes(left, left + right, left.len() as int);
    }
}

proof fn lemma_same_sizes(sizes: Seq<u64>, more: Seq<u64>, upto: int)
    requires
        0 <= upto <= sizes.len() <= more.len(),
        forall|i: int| 0 <= i < sizes.len() ==> sizes[i] == #[trigger] more[i],
    ensures
        sum_of(sizes, upto) == sum_of(more, upto),
    decreases upto,
{
    if upto > 0 {
        lemma_same_sizes(sizes, more, upto - 1);
        assert(sizes[upto - 1] == more[upto - 1]);
    }
}

/// What is written is the moment itself: the seconds and the part of a second that the start
/// and the offset make together, whatever each of them is.
pub proof fn timestamp_is_start_and_offset(started: Moment, offset: int, seconds: i64, nanos: u32)
    requires
        nanos < 1_000_000_000,
        seconds * 1_000_000_000 + nanos == started.seconds * 1_000_000_000 + started.nanos + offset,
    ensures
        timestamp_of(started, offset) == rfc3339_of(seconds, nanos),
{
    let total = seconds * 1_000_000_000 + nanos;
    assert(total / 1_000_000_000 == seconds);
    assert(total % 1_000_000_000 == nanos);
}

/// A stored stretch begins and ends when it was spoken, and lasts as long as lies between; its
/// text is that of recognition, from its first character that is no white space to its last.
pub proof fn stored_stretch_is_as_it_was_spoken(
    stored: StoredTranscript,
    recognised: Recognised,
    started: Moment,
)
    requires
        stores(stored, recognised, started),
    ensures
        stored.audio_start_time == Some(recognised.start_ms),
        stored.audio_end_time == Some(recognised.end_ms),
        stored.duration is Some,
        recognised.start_ms + stored.duration->0 == recognised.end_ms,
        exists|from: int, to: int| #[trigger]
            crate::text::stands_between(recognised.text@, from, to) && stored.text@
                == recognised.text@.subrange(from, to),
{
    crate::text::white_space_alone_is_taken_off(recognised.text@);
}

} // verus!
