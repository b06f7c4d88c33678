//! The audio pipeline: two captured streams in, a recording and stretches of speech
//! out.
//!
//! Voice detection, echo cancelling, conversion and mixing are done by the caller,
//! window by window. What is decided here: when a window of both sources is ready, when
//! speech counts as ended, what is dropped as the speakers coming back, and what every
//! window leaves behind for later passes.

use crate::mixer::{empty_ring, AudioMixerRingBuffer, RingModel, MIXING_WINDOW_MS};
use crate::own_speech::{
    active_in, is_only_the_speakers, measure_segment, only_the_speakers, WindowTimeline,
    FAR_END_MIN_MS, MS, OWN_SPEECH_MIN_MS,
};
use crate::own_speech_record::{far_flags, own_flags, slot_of, GateRecorder, RecordModel};
use crate::recording_state::{chunks_of, AudioChunk, ChunkModel, DeviceType};
use crate::text::same_text;
use crate::vad::SpeechSegment;
use vstd::prelude::*;

verus! {

/// How long a source has to be silent before its speech counts as ended, in
/// nanoseconds.
pub const REDEMPTION_NS: u64 = 800_000_000;

/// The same for voice detection, in milliseconds.
pub const REDEMPTION_MS: u32 = 800;

/// The shortest stretch of speech that is recognised: a twentieth of a second.
pub const MIN_SPEECH_SAMPLES: usize = 800;

/// The rate that speech is recognised at.
pub const SPEECH_SAMPLE_RATE: u32 = 16_000;

/// How far apart two readings of a level meter are at least, in nanoseconds.
pub const LEVEL_INTERVAL_NS: u64 = 40_000_000;

/// The length of a mixing window in milliseconds, as the bits of a single-precision
/// number.
pub const MIXING_WINDOW_BITS: u32 = 0x4248_0000;

/// The thresholds of voice detection for a source, in percent. A microphone is usually
/// quieter than digital loopback.
pub open spec fn vad_thresholds(device: DeviceType) -> (u32, u32) {
    if device is Microphone {
        (20, 10)
    } else {
        (50, 35)
    }
}

pub fn vad_thresholds_for(device: DeviceType) -> (percent: (u32, u32))
    ensures
        percent == vad_thresholds(device),
{
    match device {
        DeviceType::Microphone => (20, 10),
        _ => (50, 35),
    }
}

/// A block with this number asks for a flush.
pub open spec fn asks_flush(chunk_id: u64) -> bool {
    chunk_id >= u64::MAX - 10
}

/// The numbers of the blocks that ask for a flush when a recording stops: one, and
/// three more in case it was missed.
pub fn flush_signals() -> (ids: Vec<u64>)
    ensures
        ids@ == seq![u64::MAX, u64::MAX, (u64::MAX - 1) as u64, (u64::MAX - 2) as u64],
        forall|i: int| 0 <= i < ids@.len() ==> asks_flush(#[trigger] ids@[i]),
{
    let ids: Vec<u64> = vec![u64::MAX, u64::MAX, u64::MAX - 1, u64::MAX - 2];
    assert(ids@ =~= seq![u64::MAX, u64::MAX, (u64::MAX - 1) as u64, (u64::MAX - 2) as u64]);
    ids
}

/// What the arrival of a block means before its samples are looked at.
#[derive(Clone, Copy, Debug, PartialEq, Eq, Structural)]
pub struct Arrival {
    /// The source has been silent for long enough that its speech has ended.
    pub finalize_mic: bool,
    pub finalize_system: bool,
    /// The block holds no audio but asks for a flush.
    pub flush: bool,
}

/// A stretch of speech is nothing but the speakers coming back.
pub open spec fn is_echo<T>(
    segment: SpeechSegment<T>,
    own: Seq<Option<bool>>,
    far: Seq<Option<bool>>,
    slot: int,
) -> bool {
    let from = segment.start_timestamp_ms as int;
    let to = segment.end_timestamp_ms as int;
    only_the_speakers(
        active_in(own, slot, from, to, true),
        active_in(far, slot, from, to, false),
    )
}

/// The stretches that are more than the speakers coming back, in order.
pub open spec fn own_speech_of<T>(
    segments: Seq<SpeechSegment<T>>,
    own: Seq<Option<bool>>,
    far: Seq<Option<bool>>,
    slot: int,
) -> Seq<SpeechSegment<T>>
    decreases segments.len(),
{
    if segments.len() == 0 {
        Seq::empty()
    } else {
        let before = own_speech_of(segments.drop_last(), own, far, slot);
        if is_echo(segments.last(), own, far, slot) {
            before
        } else {
            before.push(segments.last())
        }
    }
}

/// The stretch as it goes to recognition.
pub open spec fn speech_chunk<T>(
    segment: SpeechSegment<T>,
    device: DeviceType,
    chunk_id: u64,
) -> ChunkModel<T> {
    ChunkModel {
        data: segment.samples@,
        sample_rate: SPEECH_SAMPLE_RATE,
        timestamp: segment.start_timestamp_ms,
        chunk_id,
        device_type: device,
    }
}

/// What the stretches put into the queue, numbered from `first`: all but the ones that
/// are too short.
pub open spec fn queued<T>(
    segments: Seq<SpeechSegment<T>>,
    device: DeviceType,
    first: int,
) -> Seq<ChunkModel<T>>
    decreases segments.len(),
{
    if segments.len() == 0 {
        Seq::empty()
    } else {
        let before = queued(segments.drop_last(), device, first);
        if segments.last().samples@.len() < MIN_SPEECH_SAMPLES {
            before
        } else {
            before.push(speech_chunk(segments.last(), device, (first + before.len()) as u64))
        }
    }
}

/// As [`queued`], where somebody still takes what is put into the queue.
pub open spec fn taken_speech<T>(
    segments: Seq<SpeechSegment<T>>,
    device: DeviceType,
    first: int,
    accepting: bool,
) -> Seq<ChunkModel<T>> {
    if accepting {
        queued(segments, device, first)
    } else {
        Seq::empty()
    }
}

pub(crate) proof fn lemma_queued_len<T>(
    segments: Seq<SpeechSegment<T>>,
    device: DeviceType,
    first: int,
)
    ensures
        queued(segments, device, first).len() <= segments.len(),
    decreases segments.len(),
{
    if segments.len() > 0 {
        lemma_queued_len(segments.drop_last(), device, first);
    }
}

/// Puts finished stretches of one source into the queue for recognition. Too short ones
/// are left out; the others are numbered in order. Where nobody takes them any more,
/// nothing is put there and no number is used up.
pub fn enqueue_source_speech<T>(
    segments: Vec<SpeechSegment<T>>,
    device: DeviceType,
    accepting: bool,
    queue: &mut Vec<AudioChunk<T>>,
    chunk_id_counter: &mut u64,
)
    requires
        *old(chunk_id_counter) + segments@.len() <= u64::MAX,
    ensures
        chunks_of(final(queue)@) == chunks_of(old(queue)@) + taken_speech(
            segments@,
            device,
            *old(chunk_id_counter) as int,
            accepting,
        ),
        *final(chunk_id_counter) == *old(chunk_id_counter) + taken_speech(
            segments@,
            device,
            *old(chunk_id_counter) as int,
            accepting,
        ).len(),
{
    let ghost given = segments@;
    let ghost waiting = chunks_of(queue@);
    let ghost first = *chunk_id_counter as int;
    assert(waiting + Seq::<ChunkModel<T>>::empty() =~= waiting);
    if !accepting {
        return;
    }
    let mut rest = segments;
    let ghost mut done: int = 0;
    assert(given.skip(0) =~= given);
    assert(given.take(0) =~= Seq::<SpeechSegment<T>>::empty());
    while rest.len() > 0
        invariant
            0 <= done <= given.len(),
            rest@ == given.skip(done),
            first + given.len() <= u64::MAX,
            chunks_of(queue@) == waiting + queued(given.take(done), device, first),
            *chunk_id_counter == first + queued(given.take(done), device, first).len(),
        decreases rest@.len(),
    {
        proof {
            lemma_queued_len(given.take(done), device, first);
        }
        let segment = rest.remove(0);
        assert(segment == given[done]);
        assert(rest@ =~= given.skip(done + 1));
        assert(given.take(done + 1).drop_last() =~= given.take(done));
        let ghost before = queued(given.take(done), device, first);
        if segment.samples.len() >= MIN_SPEECH_SAMPLES {
            let chunk = AudioChunk {
                data: segment.samples,
                sample_rate: SPEECH_SAMPLE_RATE,
                timestamp: segment.start_timestamp_ms,
                chunk_id: *chunk_id_counter,
                device_type: device,
            };
            let ghost put = chunk@;
            let ghost had = queue@;
            queue.push(chunk);
            *chunk_id_counter = *chunk_id_counter + 1;
            assert(chunks_of(queue@) =~= chunks_of(had).push(put));
            assert(chunks_of(queue@) =~= waiting + before.push(put));
        }
        proof {
            done = done + 1;
        }
    }
    assert(given.take(given.len() as int) =~= given);
}

/// The pipeline as plain data.
#[verifier::ext_equal]
pub struct PipelineModel<T> {
    pub ring: RingModel<T>,
    /// How long a window of the own-speech timeline is.
    pub slot: int,
    /// How long a window of the far-end timeline is; the same, in a pipeline that is well
    /// formed.
    pub far_slot: int,
    pub own: Seq<Option<bool>>,
    pub far: Seq<Option<bool>>,
    pub record: RecordModel,
    /// The meeting's folder that the record goes to.
    pub place: Option<Seq<char>>,
    pub has_canceller: bool,
    pub echo_left_to_windows: Option<bool>,
    pub dropped: int,
    pub processed: int,
    pub next_id: int,
    pub mic_input: int,
    pub system_input: int,
    pub mic_level: int,
    pub system_level: int,
    pub limited: bool,
}

/// A source that was last heard at `last_input` has been silent for long enough.
pub open spec fn silent_since(last_input: int, now: u64) -> bool {
    now - last_input >= REDEMPTION_NS
}

/// The ring with the sources that are really captured now.
pub open spec fn with_sources<T>(ring: RingModel<T>, active: Option<(bool, bool)>) -> RingModel<T> {
    match active {
        Some((mic, system)) => RingModel { mic_enabled: mic, system_enabled: system, ..ring },
        None => ring,
    }
}

/// `count` windows that nobody looked at.
pub open spec fn unanswered(count: int) -> Seq<Option<bool>> {
    Seq::new(
        if count < 0 {
            0
        } else {
            count as nat
        },
        |i: int| None,
    )
}

impl<T> PipelineModel<T> {
    /// The two timelines are laid out in the same windows and are equally long.
    pub open spec fn valid(self) -> bool {
        &&& self.ring.valid()
        &&& self.slot > 0
        &&& self.own.len() == self.far.len()
    }

    /// A block has come: its source is no longer silent, and it is counted unless it
    /// asks for a flush.
    pub open spec fn arrived(self, device: DeviceType, chunk_id: u64, now: u64) -> PipelineModel<
        T,
    > {
        PipelineModel {
            mic_input: if device is Microphone {
                now as int
            } else {
                self.mic_input
            },
            system_input: if device is System {
                now as int
            } else {
                self.system_input
            },
            processed: if asks_flush(chunk_id) {
                self.processed
            } else {
                self.processed + 1
            },
            ..self
        }
    }

    /// Whose speech has ended at `now`: none while the recording is paused.
    pub open spec fn ended(self, now: u64, paused: bool) -> (bool, bool) {
        (
            !paused && silent_since(self.mic_input, now),
            !paused && silent_since(self.system_input, now),
        )
    }

    /// Whether the meter of a source is read at `now`.
    pub open spec fn level_is_due(self, device: DeviceType, len: int, now: u64) -> bool {
        let last = if device is Microphone {
            self.mic_level
        } else {
            self.system_level
        };
        len > 0 && now - last >= LEVEL_INTERVAL_NS
    }

    /// The meter of a source was read at `now`; the system's reading takes the limiter
    /// with it.
    pub open spec fn level_read(self, device: DeviceType, now: u64) -> PipelineModel<T> {
        if device is Microphone {
            PipelineModel { mic_level: now as int, ..self }
        } else {
            PipelineModel { system_level: now as int, limited: false, ..self }
        }
    }

    /// The block is in the ring.
    pub open spec fn with_block(
        self,
        device: DeviceType,
        samples: Seq<T>,
        clock: u64,
        active: Option<(bool, bool)>,
    ) -> PipelineModel<T> {
        PipelineModel {
            ring: with_sources(self.ring, active).with_block(device, samples, clock),
            ..self
        }
    }

    /// Where the block shows a break of the stream: the moment it is picked up at.
    pub open spec fn broke_until(
        self,
        device: DeviceType,
        len: int,
        clock: u64,
        active: Option<(bool, bool)>,
    ) -> Option<u64> {
        let ring = with_sources(self.ring, active);
        if !(device is Mixed) && ring.breaks(device, len, clock) {
            Some((ring.start_of(len, clock as int) / ring.rate) as u64)
        } else {
            None
        }
    }

    /// The span before `moment` is left unanswered in both timelines.
    pub open spec fn skipped(self, moment: u64) -> PipelineModel<T> {
        let gap = unanswered(moment as int / self.slot - self.own.len());
        PipelineModel { own: self.own + gap, far: self.far + gap, ..self }
    }

    /// What both detectors said about a window is written down twice: along the
    /// recording's clock and along the stored tracks.
    pub open spec fn observed(self, own_speech: Option<bool>, far_end: bool) -> PipelineModel<T> {
        PipelineModel {
            own: self.own.push(own_speech),
            far: self.far.push(Some(far_end)),
            record: RecordModel {
                slots: self.record.slots.push(slot_of(own_speech, Some(far_end))),
                ..self.record
            },
            ..self
        }
    }

    /// The microphone stretches that are kept: with the detector closed, all.
    pub open spec fn kept(self, segments: Seq<SpeechSegment<T>>, detector_open: bool) -> Seq<
        SpeechSegment<T>,
    > {
        if detector_open {
            own_speech_of(segments, self.own, self.far, self.slot)
        } else {
            segments
        }
    }

    /// The pipeline after it dropped the other ones.
    pub open spec fn with_dropped(
        self,
        segments: Seq<SpeechSegment<T>>,
        detector_open: bool,
    ) -> PipelineModel<T> {
        PipelineModel {
            dropped: self.dropped + segments.len() - self.kept(segments, detector_open).len(),
            ..self
        }
    }
}

/// The pipeline's memory.
pub struct AudioPipeline<T> {
    pub ring_buffer: AudioMixerRingBuffer<T>,
    /// What the detector said about each window, along the recording's clock.
    pub own_speech_timeline: WindowTimeline,
    /// Whether the speakers were playing in each window.
    pub far_end_timeline: WindowTimeline,
    /// Both detectors, window by window of the stored tracks.
    pub own_speech_record: GateRecorder,
    /// There is an echo canceller of our own.
    pub has_canceller: bool,
    /// Who cancelled the echo when the last window went through.
    pub echo_left_to_windows: Option<bool>,
    /// Microphone stretches dropped as nothing but the speakers coming back.
    pub echo_segments_dropped: u64,
    pub processed_chunks: u64,
    pub chunk_id_counter: u64,
    pub last_mic_input: u64,
    pub last_system_input: u64,
    pub last_mic_level_emit: u64,
    pub last_sys_level_emit: u64,
    pub system_limiter_hit_since_emit: bool,
}

impl<T> View for AudioPipeline<T> {
    type V = PipelineModel<T>;

    open spec fn view(&self) -> PipelineModel<T> {
        PipelineModel {
            ring: self.ring_buffer@,
            slot: self.own_speech_timeline.slot(),
            far_slot: self.far_end_timeline.slot(),
            own: self.own_speech_timeline.flags(),
            far: self.far_end_timeline.flags(),
            record: self.own_speech_record.held(),
            place: self.own_speech_record.place(),
            has_canceller: self.has_canceller,
            echo_left_to_windows: self.echo_left_to_windows,
            dropped: self.echo_segments_dropped as int,
            processed: self.processed_chunks as int,
            next_id: self.chunk_id_counter as int,
            mic_input: self.last_mic_input as int,
            system_input: self.last_system_input as int,
            mic_level: self.last_mic_level_emit as int,
            system_level: self.last_sys_level_emit as int,
            limited: self.system_limiter_hit_since_emit,
        }
    }
}

impl<T> AudioPipeline<T> {
    pub open spec fn wf(&self) -> bool {
        &&& self@.valid()
        &&& self.own_speech_timeline.wf()
        &&& self.far_end_timeline.wf()
        &&& self.own_speech_timeline.slot() == self.far_end_timeline.slot()
    }
}

/// Whether echo is to be cancelled at all: it can only exist when both sources are live,
/// and the owner can turn it off.
pub open spec fn wants_canceller(mic_name: Seq<char>, system_name: Seq<char>, wanted: bool) -> bool {
    mic_name != "No Microphone"@ && system_name != "No System Audio"@ && wanted
}

/// A pipeline that has seen nothing.
pub open spec fn empty_pipeline<T>(
    sample_rate: int,
    mic_name: Seq<char>,
    system_name: Seq<char>,
    has_canceller: bool,
    now: u64,
    silence: T,
) -> PipelineModel<T> {
    PipelineModel {
        ring: empty_ring(
            sample_rate,
            mic_name != "No Microphone"@,
            system_name != "No System Audio"@,
            MIXING_WINDOW_MS as int,
            silence,
        ),
        slot: MIXING_WINDOW_MS * MS,
        far_slot: MIXING_WINDOW_MS * MS,
        own: Seq::empty(),
        far: Seq::empty(),
        record: RecordModel { window_bits: MIXING_WINDOW_BITS, slots: Seq::empty() },
        place: None,
        has_canceller,
        echo_left_to_windows: None,
        dropped: 0,
        processed: 0,
        next_id: 0,
        mic_input: now as int,
        system_input: now as int,
        mic_level: now as int,
        system_level: now as int,
        limited: false,
    }
}

impl<T: Copy> AudioPipeline<T> {
    /// A pipeline for two devices, by name. `echo_cancellation` is the owner's wish and
    /// `canceller_starts` whether a canceller could be made.
    pub fn new(
        sample_rate: u32,
        mic_device_name: &str,
        system_device_name: &str,
        echo_cancellation: bool,
        canceller_starts: bool,
        now: u64,
        silence: T,
    ) -> (pipeline: AudioPipeline<T>)
        requires
            sample_rate > 0,
        ensures
            pipeline.wf(),
            pipeline@ == empty_pipeline(
                sample_rate as int,
                mic_device_name@,
                system_device_name@,
                wants_canceller(mic_device_name@, system_device_name@, echo_cancellation)
                    && canceller_starts,
                now,
                silence,
            ),
    {
        let mic_enabled = !same_text(mic_device_name, "No Microphone");
        let system_enabled = !same_text(system_device_name, "No System Audio");
        AudioPipeline {
            ring_buffer: AudioMixerRingBuffer::new(
                sample_rate,
                mic_enabled,
                system_enabled,
                silence,
            ),
            own_speech_timeline: WindowTimeline::new(50_000_000),
            far_end_timeline: WindowTimeline::new(50_000_000),
            own_speech_record: GateRecorder::new(MIXING_WINDOW_BITS),
            has_canceller: mic_enabled && system_enabled && echo_cancellation && canceller_starts,
            echo_left_to_windows: None,
            echo_segments_dropped: 0,
            processed_chunks: 0,
            chunk_id_counter: 0,
            last_mic_input: now,
            last_system_input: now,
            last_mic_level_emit: now,
            last_sys_level_emit: now,
            system_limiter_hit_since_emit: false,
        }
    }

    /// Points the record of both detectors at a meeting's folder.
    pub fn open_record(&mut self, meeting_folder: &str)
        requires
            old(self).wf(),
        ensures
            final(self).wf(),
            final(self)@ == (PipelineModel { place: Some(meeting_folder@), ..old(self)@ }),
    {
        self.own_speech_record.open_in(meeting_folder);
    }

    /// Whose speech counts as ended at `now`: that of a source which has been silent for
    /// long enough, and of none while the recording is paused.
    pub fn finalize_inactive_speech(&self, now: u64, paused: bool) -> (ended: (bool, bool))
        ensures
            ended == self@.ended(now, paused),
    {
        if paused {
            return (false, false);
        }
        (
            now.saturating_sub(self.last_mic_input) >= REDEMPTION_NS,
            now.saturating_sub(self.last_system_input) >= REDEMPTION_NS,
        )
    }

    /// A block has come. Says whose speech ended before it, and whether it asks for a
    /// flush.
    pub fn arrival(&mut self, device: DeviceType, chunk_id: u64, now: u64, paused: bool) -> (what:
        Arrival)
        requires
            old(self).processed_chunks < u64::MAX,
        ensures
            (what.finalize_mic, what.finalize_system) == old(self)@.ended(now, paused),
            what.flush == asks_flush(chunk_id),
            final(self)@ == old(self)@.arrived(device, chunk_id, now),
            old(self).wf() ==> final(self).wf(),
    {
        let (finalize_mic, finalize_system) = self.finalize_inactive_speech(now, paused);
        match device {
            DeviceType::Microphone => {
                self.last_mic_input = now;
            },
            DeviceType::System => {
                self.last_system_input = now;
            },
            DeviceType::Mixed => {},
        }
        let flush = chunk_id >= u64::MAX - 10;
        if !flush {
            self.processed_chunks = self.processed_chunks + 1;
        }
        Arrival { finalize_mic, finalize_system, flush }
    }

    /// The limiter of the system gain had to act.
    pub fn note_limiter(&mut self, hit: bool)
        ensures
            final(self)@ == (PipelineModel { limited: old(self)@.limited || hit, ..old(self)@ }),
            old(self).wf() ==> final(self).wf(),
    {
        self.system_limiter_hit_since_emit = self.system_limiter_hit_since_emit || hit;
    }

    /// Whether the source's meter is read now, and with it whether the limiter acted
    /// since the last reading. An empty block is not read, and none sooner than a
    /// twenty-fifth of a second after the last.
    pub fn level_due(&mut self, device: DeviceType, len: usize, now: u64) -> (reading: Option<bool>)
        ensures
            old(self).wf() ==> final(self).wf(),
            if old(self)@.level_is_due(device, len as int, now) {
                &&& reading == Some(!(device is Microphone) && old(self)@.limited)
                &&& final(self)@ == old(self)@.level_read(device, now)
            } else {
                &&& reading is None
                &&& final(self)@ == old(self)@
            },
    {
        let mic = match device {
            DeviceType::Microphone => true,
            _ => false,
        };
        let last: u64 = if mic {
            self.last_mic_level_emit
        } else {
            self.last_sys_level_emit
        };
        if len == 0 || now.saturating_sub(last) < LEVEL_INTERVAL_NS {
            return None;
        }
        if mic {
            self.last_mic_level_emit = now;
            Some(false)
        } else {
            self.last_sys_level_emit = now;
            let hit = self.system_limiter_hit_since_emit;
            self.system_limiter_hit_since_emit = false;
            Some(hit)
        }
    }

    /// Puts a block into the ring buffer, after the sources that are really captured now
    /// were set. Where the stream broke, the moment it was picked up at is returned, in
    /// nanoseconds.
    pub fn add_chunk(
        &mut self,
        device: DeviceType,
        samples: Vec<T>,
        clock: u64,
        active: Option<(bool, bool)>,
    ) -> (broke_until: Option<u64>)
        requires
            old(self).wf(),
            old(self)@.ring.has_room(samples@.len() as int),
        ensures
            final(self).wf(),
            final(self)@ == old(self)@.with_block(device, samples@, clock, active),
            broke_until == old(self)@.broke_until(device, samples@.len() as int, clock, active),
    {
        match active {
            Some((mic, system)) => {
                self.ring_buffer.set_enabled(mic, system);
            },
            None => {},
        }
        let ghost ring = self.ring_buffer@;
        let ghost len = samples@.len() as int;
        assert(ring == with_sources(old(self)@.ring, active));
        let broke = self.ring_buffer.add_samples(device, samples, clock);
        match broke {
            Some(start) => {
                let rate: i128 = self.ring_buffer.sample_rate as i128;
                assert(rate == ring.rate);
                proof {
                    assert(0 <= start <= clock * ring.rate) by {
                        assert(clock * ring.rate >= 0) by (nonlinear_arith)
                            requires
                                ring.rate > 0,
                                clock >= 0,
                        ;
                    }
                    assert(start / rate <= clock && start / rate >= 0) by (nonlinear_arith)
                        requires
                            0 <= start <= clock * rate,
                            rate > 0,
                    ;
                }
                Some((start as u128 / rate as u128) as u64)
            },
            None => None,
        }
    }

    /// Leaves the span before `moment` unanswered in both timelines, so that a break
    /// does not read as silence.
    pub fn skip_break(&mut self, moment: u64)
        requires
            old(self).wf(),
            moment as int / old(self)@.slot <= usize::MAX,
        ensures
            final(self).wf(),
            final(self)@ == old(self)@.skipped(moment),
    {
        let ghost before = self@;
        self.own_speech_timeline.skip_to(moment);
        self.far_end_timeline.skip_to(moment);
        proof {
            let gap = unanswered(moment as int / before.slot - before.own.len());
            assert(self.own_speech_timeline.flags() =~= before.own + gap);
            assert(self.far_end_timeline.flags() =~= before.far + gap);
        }
    }

    /// Writes down what a window held, for both detectors: once for the recording's
    /// clock and once for the stored tracks.
    pub fn observe_window(&mut self, own_speech: Option<bool>, far_end: bool)
        requires
            old(self).wf(),
        ensures
            final(self).wf(),
            final(self)@ == old(self)@.observed(own_speech, far_end),
    {
        self.far_end_timeline.push(Some(far_end));
        self.own_speech_timeline.push(own_speech);
        self.own_speech_record.observe(own_speech, Some(far_end));
    }

    /// Drops the microphone stretches that are nothing but the speakers. Without a
    /// second opinion, with the detector closed, everything is kept.
    pub fn without_the_speakers(
        &mut self,
        segments: Vec<SpeechSegment<T>>,
        detector_open: bool,
    ) -> (kept: Vec<SpeechSegment<T>>)
        requires
            old(self).wf(),
            old(self).echo_segments_dropped + segments@.len() <= u64::MAX,
        ensures
            final(self).wf(),
            kept@ == old(self)@.kept(segments@, detector_open),
            kept@.len() <= segments@.len(),
            final(self)@ == old(self)@.with_dropped(segments@, detector_open),
    {
        if !detector_open {
            return segments;
        }
        let ghost given = segments@;
        let ghost own = self@.own;
        let ghost far = self@.far;
        let ghost slot = self@.slot;
        let mut rest = segments;
        let mut kept: Vec<SpeechSegment<T>> = Vec::new();
        let ghost mut done: int = 0;
        assert(given.skip(0) =~= given);
        assert(given.take(0) =~= Seq::<SpeechSegment<T>>::empty());
        while rest.len() > 0
            invariant
                0 <= done <= given.len(),
                rest@ == given.skip(done),
                *self == (AudioPipeline {
                    echo_segments_dropped: self.echo_segments_dropped,
                    ..*old(self)
                }),
                old(self).wf(),
                own == old(self)@.own,
                far == old(self)@.far,
                slot == old(self)@.slot,
                old(self).echo_segments_dropped + given.len() <= u64::MAX,
                kept@ == own_speech_of(given.take(done), own, far, slot),
                kept@.len() <= done,
                self.echo_segments_dropped == old(self).echo_segments_dropped + done - kept@.len(),
            decreases rest@.len(),
        {
            let segment = rest.remove(0);
            assert(segment == given[done]);
            assert(rest@ =~= given.skip(done + 1));
            assert(given.take(done + 1).drop_last() =~= given.take(done));
            let (own_ms, far_ms) = measure_segment(
                &self.own_speech_timeline,
                &self.far_end_timeline,
                segment.start_timestamp_ms,
                segment.end_timestamp_ms,
            );
            if is_only_the_speakers(own_ms, far_ms) {
                self.echo_segments_dropped = self.echo_segments_dropped + 1;
            } else {
                kept.push(segment);
            }
            proof {
                done = done + 1;
            }
        }
        assert(given.take(given.len() as int) =~= given);
        kept
    }

    /// Whether our canceller takes the echo out of this window: only while the system
    /// does not. The question is asked for every window, because the capture stream
    /// opens after the pipeline is made. Also says whether the answer changed.
    pub fn cancel_echo(&mut self, system_is_cancelling: bool) -> (answer: (bool, bool))
        ensures
            answer.0 == (old(self)@.has_canceller && !system_is_cancelling),
            answer.1 == (old(self)@.echo_left_to_windows != Some(system_is_cancelling)),
            final(self)@ == (PipelineModel {
                echo_left_to_windows: Some(system_is_cancelling),
                ..old(self)@
            }),
            old(self).wf() ==> final(self).wf(),
    {
        let changed = match self.echo_left_to_windows {
            Some(left) => left != system_is_cancelling,
            None => true,
        };
        self.echo_left_to_windows = Some(system_is_cancelling);
        (self.has_canceller && !system_is_cancelling, changed)
    }
}

/// A detector that did not look never costs the owner a word: a microphone stretch is
/// kept where the speakers were heard for less than an echo takes, and where the owner
/// was heard for long enough.
pub proof fn dropped_speech_was_echo<T>(
    segments: Seq<SpeechSegment<T>>,
    own: Seq<Option<bool>>,
    far: Seq<Option<bool>>,
    slot: int,
    index: int,
)
    requires
        0 <= index < segments.len(),
        ({
            let from = segments[index].start_timestamp_ms as int;
            let to = segments[index].end_timestamp_ms as int;
            ||| active_in(far, slot, from, to, false) < FAR_END_MIN_MS
            ||| active_in(own, slot, from, to, true) >= OWN_SPEECH_MIN_MS
        }),
    ensures
        own_speech_of(segments, own, far, slot).contains(segments[index]),
    decreases segments.len(),
{
    let all = own_speech_of(segments, own, far, slot);
    let before = own_speech_of(segments.drop_last(), own, far, slot);
    if index == segments.len() - 1 {
        assert(all[all.len() - 1] == segments[index]);
    } else {
        dropped_speech_was_echo(segments.drop_last(), own, far, slot, index);
        let k = choose|k: int| 0 <= k < before.len() && before[k] == segments[index];
        assert(all[k] == segments[index]);
    }
}

/// Stretches of speech are queued one after the other: what a list puts into the queue is
/// what its first part does, and behind that what the rest does with the numbers that follow.
pub proof fn speech_is_queued_one_after_the_other<T>(
    segments: Seq<SpeechSegment<T>>,
    more: Seq<SpeechSegment<T>>,
    device: DeviceType,
    first: int,
    accepting: bool,
)
    ensures
        ({
            let before = taken_speech(segments, device, first, accepting);
            taken_speech(segments + more, device, first, accepting) == before + taken_speech(
                more,
                device,
                first + before.len(),
                accepting,
            )
        }),
    decreases more.len(),
{
    let before = queued(segments, device, first);
    if more.len() == 0 {
        assert(segments + more =~= segments);
        assert(before + queued(more, device, first + before.len()) =~= before);
        assert(taken_speech(segments, device, first, accepting) + taken_speech(
            more,
            device,
            first + taken_speech(segments, device, first, accepting).len(),
            accepting,
        ) =~= taken_speech(segments, device, first, accepting));
    } else {
        let fewer = more.drop_last();
        speech_is_queued_one_after_the_other(segments, fewer, device, first, true);
        let all = segments + more;
        assert(all.drop_last() =~= segments + fewer);
        assert(all.last() == more.last());
        let middle = queued(fewer, device, first + before.len());
        assert(queued(all.drop_last(), device, first) == before + middle);
        if more.last().samples@.len() >= MIN_SPEECH_SAMPLES {
            let chunk = speech_chunk(
                more.last(),
                device,
                (first + before.len() + middle.len()) as u64,
            );
            assert((before + middle).push(chunk) =~= before + middle.push(chunk));
        }
        assert(Seq::<ChunkModel<T>>::empty() + Seq::<ChunkModel<T>>::empty() =~= Seq::<
            ChunkModel<T>,
        >::empty());
    }
}

/// A stretch of at least a twentieth of a second goes to recognition as it is: its samples,
/// its start, its source, the next number, and the rate that speech is recognised at. A
/// shorter one does not, and none does where nobody takes it.
pub proof fn stretch_is_queued_as_it_is<T>(
    segment: SpeechSegment<T>,
    device: DeviceType,
    first: int,
    accepting: bool,
)
    requires
        0 <= first <= u64::MAX,
    ensures
        ({
            let put = taken_speech(seq![segment], device, first, accepting);
            if accepting && segment.samples@.len() >= 800 {
                &&& put.len() == 1
                &&& put[0].data == segment.samples@
                &&& put[0].timestamp == segment.start_timestamp_ms
                &&& put[0].device_type == device
                &&& put[0].chunk_id == first
                &&& put[0].sample_rate == 16_000
            } else {
                put.len() == 0
            }
        }),
{
    reveal_with_fuel(queued, 2);
    assert(seq![segment].drop_last() =~= Seq::<SpeechSegment<T>>::empty());
}

/// No stretch is judged by another: what is kept of a list is what is kept of its parts.
pub proof fn stretches_are_judged_one_by_one<T>(
    pipeline: PipelineModel<T>,
    segments: Seq<SpeechSegment<T>>,
    more: Seq<SpeechSegment<T>>,
    detector_open: bool,
)
    ensures
        pipeline.kept(segments + more, detector_open) == pipeline.kept(segments, detector_open)
            + pipeline.kept(more, detector_open),
    decreases more.len(),
{
    if detector_open {
        let kept = own_speech_of(segments, pipeline.own, pipeline.far, pipeline.slot);
        if more.len() == 0 {
            assert(segments + more =~= segments);
            assert(kept + pipeline.kept(more, true) =~= kept);
        } else {
            let all = segments + more;
            assert(all.drop_last() =~= segments + more.drop_last());
            stretches_are_judged_one_by_one(pipeline, segments, more.drop_last(), true);
            let rest = own_speech_of(more.drop_last(), pipeline.own, pipeline.far, pipeline.slot);
            assert(kept + rest.push(more.last()) =~= (kept + rest).push(more.last()));
        }
    }
}

/// A microphone stretch is dropped as echo exactly when the second opinion is there, the
/// speakers were heard in it for three tenths of a second or more, and the owner for less than
/// a quarter; where nobody looked, the owner counts as heard and the speakers do not.
pub proof fn stretch_is_dropped_only_as_echo<T>(
    pipeline: PipelineModel<T>,
    segment: SpeechSegment<T>,
    detector_open: bool,
)
    ensures
        ({
            let from = segment.start_timestamp_ms as int;
            let to = segment.end_timestamp_ms as int;
            let owner = active_in(pipeline.own, pipeline.slot, from, to, true);
            let speakers = active_in(pipeline.far, pipeline.slot, from, to, false);
            let kept = pipeline.kept(seq![segment], detector_open);
            let after = pipeline.with_dropped(seq![segment], detector_open);
            if detector_open && speakers >= 300_000_000 && owner < 250_000_000 {
                kept.len() == 0 && after.dropped == pipeline.dropped + 1
            } else {
                kept == seq![segment] && after.dropped == pipeline.dropped
            }
        }),
{
    reveal_with_fuel(own_speech_of, 2);
    assert(seq![segment].drop_last() =~= Seq::<SpeechSegment<T>>::empty());
    assert(Seq::<SpeechSegment<T>>::empty().push(segment) =~= seq![segment]);
}

/// The speech of a source counts as ended once nothing came from it for eight tenths of a
/// second, and never while the recording is paused. The other source has no say in it.
pub proof fn speech_ends_with_silence_of_its_own_source<T>(
    pipeline: PipelineModel<T>,
    now: u64,
    paused: bool,
)
    ensures
        ({
            let (mic, system) = pipeline.ended(now, paused);
            &&& mic <==> !paused && now - pipeline.mic_input >= 800_000_000
            &&& system <==> !paused && now - pipeline.system_input >= 800_000_000
        }),
{
}

/// A block is a sign of life of its own source alone, and is counted unless it only asks for
/// a flush.
pub proof fn block_is_a_sign_of_life_of_its_source<T>(
    pipeline: PipelineModel<T>,
    device: DeviceType,
    chunk_id: u64,
    now: u64,
)
    ensures
        ({
            let after = pipeline.arrived(device, chunk_id, now);
            &&& device is Microphone ==> after.mic_input == now && after.system_input
                == pipeline.system_input
            &&& device is System ==> after.system_input == now && after.mic_input
                == pipeline.mic_input
            &&& device is Mixed ==> after.mic_input == pipeline.mic_input && after.system_input
                == pipeline.system_input
            &&& after.processed == pipeline.processed + if chunk_id >= 0xffff_ffff_ffff_fff5u64 {
                0int
            } else {
                1
            }
            &&& after.ring == pipeline.ring && after.own == pipeline.own && after.far
                == pipeline.far && after.next_id == pipeline.next_id
        }),
{
}

/// What both detectors said of a window goes into both timelines and into the record, as the
/// next window of each, under the name of whom it is about.
pub proof fn window_is_written_down_as_it_was_judged<T>(
    pipeline: PipelineModel<T>,
    own_speech: Option<bool>,
    far_end: bool,
)
    ensures
        ({
            let after = pipeline.observed(own_speech, far_end);
            &&& after.own == pipeline.own.push(own_speech)
            &&& after.far == pipeline.far.push(Some(far_end))
            &&& after.record.slots.drop_last() == pipeline.record.slots
            &&& own_flags(after.record.slots) == own_flags(pipeline.record.slots).push(own_speech)
            &&& far_flags(after.record.slots) == far_flags(pipeline.record.slots).push(
                Some(far_end),
            )
        }),
{
    crate::own_speech_record::window_answers_as_observed(
        pipeline.record.slots,
        own_speech,
        Some(far_end),
    );
    let after = pipeline.observed(own_speech, far_end);
    assert(after.record.slots.drop_last() =~= pipeline.record.slots);
}

/// A break leaves the windows before the moment it ends at unanswered in both timelines and
/// takes no answer away; afterwards both are as long as the moment asks.
pub proof fn break_is_left_unanswered<T>(pipeline: PipelineModel<T>, moment: u64)
    requires
        pipeline.slot > 0,
        pipeline.own.len() == pipeline.far.len(),
    ensures
        ({
            let after = pipeline.skipped(moment);
            let windows = moment as int / pipeline.slot;
            let had = pipeline.own.len() as int;
            &&& after.own.len() == after.far.len()
            &&& after.own.len() == if windows > had { windows } else { had }
            &&& after.own.take(had) == pipeline.own
            &&& after.far.take(had) == pipeline.far
            &&& forall|i: int| had <= i < after.own.len() ==> (#[trigger] after.own[i]) is None
            &&& forall|i: int| had <= i < after.far.len() ==> (#[trigger] after.far[i]) is None
            &&& after.record == pipeline.record
        }),
{
    let after = pipeline.skipped(moment);
    let had = pipeline.own.len() as int;
    assert(after.own.take(had) =~= pipeline.own);
    assert(after.far.take(had) =~= pipeline.far);
}

/// A level is shown at most every twenty-fifth of a second for each source and only of a block
/// that holds something; reading one source's meter leaves the other's alone, and only the
/// system's takes the limiter's mark with it.
pub proof fn meters_are_read_apart<T>(
    pipeline: PipelineModel<T>,
    device: DeviceType,
    len: int,
    now: u64,
)
    requires
        device is Microphone || device is System,
    ensures
        ({
            let last = if device is Microphone { pipeline.mic_level } else { pipeline.system_level };
            let after = pipeline.level_read(device, now);
            &&& pipeline.level_is_due(device, len, now) <==> len > 0 && now - last >= 40_000_000
            &&& device is Microphone ==> after.mic_level == now && after.system_level
                == pipeline.system_level && after.limited == pipeline.limited
            &&& device is System ==> after.system_level == now && after.mic_level
                == pipeline.mic_level && !after.limited
        }),
{
}

/// A microphone is listened to more closely than system audio: a fifth is speech where there a
/// half is, and a tenth ends it where there thirty-five percent do.
pub proof fn microphone_is_listened_to_more_closely(device: DeviceType)
    ensures
        device is Microphone ==> vad_thresholds(device) == (20u32, 10u32),
        !(device is Microphone) ==> vad_thresholds(device) == (50u32, 35u32),
        vad_thresholds(device).1 < vad_thresholds(device).0,
{
}

/// Echo is cancelled only where it is wanted and where both sources are there to make one.
pub proof fn echo_needs_both_sources(mic_name: Seq<char>, system_name: Seq<char>, wanted: bool)
    ensures
        !wants_canceller("No Microphone"@, system_name, wanted),
        !wants_canceller(mic_name, "No System Audio"@, wanted),
        !wants_canceller(mic_name, system_name, false),
        mic_name != "No Microphone"@ && system_name != "No System Audio"@ ==> wants_canceller(
            mic_name,
            system_name,
            true,
        ),
{
}

/// A stream that broke is picked up where the block that showed it began: as long before the
/// block's clock as its samples last, to the nanosecond below, and not before the recording.
pub proof fn break_is_picked_up_where_the_block_began<T>(
    pipeline: PipelineModel<T>,
    device: DeviceType,
    len: int,
    clock: u64,
)
    requires
        pipeline.ring.rate > 0,
        len >= 0,
    ensures
        pipeline.broke_until(DeviceType::Mixed, len, clock, None) is None,
        pipeline.broke_until(device, len, clock, None) matches Some(moment) ==> {
            let rate = pipeline.ring.rate;
            let length = len * 1_000_000_000;
            &&& clock * rate <= length ==> moment == 0
            &&& clock * rate > length ==> moment * rate <= clock * rate - length < (moment + 1)
                * rate
            &&& moment <= clock
        },
{
    let rate = pipeline.ring.rate;
    let start = pipeline.ring.start_of(len, clock as int);
    let whole = start / rate;
    vstd::arithmetic::div_mod::lemma_fundamental_div_mod(start, rate);
    assert(rate * whole == whole * rate) by (nonlinear_arith);
    assert(whole * rate <= start < (whole + 1) * rate) by (nonlinear_arith)
        requires
            start == rate * whole + start % rate,
            0 <= start % rate < rate,
    ;
    assert(0 <= start <= clock * rate) by {
        assert(clock * rate >= 0) by (nonlinear_arith)
            requires
                clock >= 0,
                rate > 0,
        ;
    }
    assert(0 <= whole <= clock) by (nonlinear_arith)
        requires
            0 <= start <= clock * rate,
            whole * rate <= start < (whole + 1) * rate,
            rate > 0,
    ;
    assert(0int / rate == 0) by (nonlinear_arith)
        requires
            rate > 0,
    ;
}

/// Every microphone stretch that is not kept is counted as dropped, and none where the detector
/// is closed; the stretches themselves change nothing else.
pub proof fn dropped_stretches_are_counted<T>(
    pipeline: PipelineModel<T>,
    segments: Seq<SpeechSegment<T>>,
    detector_open: bool,
)
    ensures
        ({
            let after = pipeline.with_dropped(segments, detector_open);
            &&& after.dropped + pipeline.kept(segments, detector_open).len() == pipeline.dropped
                + segments.len()
            &&& !detector_open ==> after.dropped == pipeline.dropped && pipeline.kept(
                segments,
                detector_open,
            ) == segments
            &&& after.ring == pipeline.ring && after.own == pipeline.own && after.far
                == pipeline.far && after.next_id == pipeline.next_id
        }),
{
}

/// A pipeline begins with nothing heard and nothing counted: its windows are a twentieth of a
/// second long, and each source is waited for only if it is there.
pub proof fn pipeline_begins_with_nothing_heard<T>(
    rate: int,
    mic_name: Seq<char>,
    system_name: Seq<char>,
    has_canceller: bool,
    now: u64,
    silence: T,
)
    ensures
        ({
            let pipeline = empty_pipeline(
                rate,
                mic_name,
                system_name,
                has_canceller,
                now,
                silence,
            );
            &&& pipeline.slot == 50_000_000 && pipeline.far_slot == 50_000_000
            &&& pipeline.own.len() == 0 && pipeline.far.len() == 0
            &&& pipeline.record.slots.len() == 0 && pipeline.record.window_bits == 0x4248_0000
            &&& pipeline.ring.mic_enabled == (mic_name != "No Microphone"@)
            &&& pipeline.ring.system_enabled == (system_name != "No System Audio"@)
            &&& pipeline.ring.mic.len() == 0 && pipeline.ring.system.len() == 0
            &&& pipeline.ring.rate == rate
            &&& pipeline.has_canceller == has_canceller
            &&& pipeline.dropped == 0 && pipeline.processed == 0 && pipeline.next_id == 0
            &&& pipeline.mic_input == now && pipeline.system_input == now
            &&& !pipeline.limited
        }),
{
}

} // verus!
