//! One run of the audio pipeline, step by step.
//!
//! The caller waits for blocks, detects voices, cancels echo, converts, mixes and
//! writes. After each of these it says what came of it; where the run stands says what
//! is to be done next. What the run has for recognition and for the tracks is put into
//! [`PipelineRun::speech`] and [`PipelineRun::tracks`], from where the caller takes it.

use crate::mixer::RingModel;
use crate::own_speech::active_in;
use crate::pipeline::{
    asks_flush, dropped_speech_was_echo, enqueue_source_speech, lemma_queued_len, taken_speech, AudioPipeline, PipelineModel,
};
use crate::recording_state::{chunks_of, AudioChunk, ChunkModel, DeviceType};
use crate::vad::SpeechSegment;
use vstd::prelude::*;

verus! {

/// What comes once the speech of a silent source was ended.
#[derive(Clone, Copy, Debug, PartialEq, Eq, Structural)]
pub enum AfterSilence {
    /// Nothing came: wait on.
    Wait,
    /// A block came that asks for a flush.
    Flush,
    /// A block of audio came.
    Block,
}

/// Where a run stands, which is what the caller is to do next.
#[derive(Clone, Copy, Debug, PartialEq, Eq, Structural)]
pub enum PipelineStage {
    /// Wait for the next block, for a twentieth of a second.
    Wait,
    /// End the speech of these sources.
    EndSilent { mic: bool, system: bool, then: AfterSilence },
    /// Apply the system gain to the block.
    Gain,
    /// Read the clock, and which sources are captured now.
    Sources,
    /// Show the level of the block, and whether the limiter acted.
    Meter { limited: bool },
    /// The stream broke: end the speech of both sources.
    EndBroken { moment: u64 },
    /// Move voice detection on to this moment.
    MoveOn { moment: u64 },
    /// Look at the two windows: who was heard, and who cancels the echo.
    Observe,
    /// Take the echo out of the microphone window.
    Cancel,
    /// Convert both windows and detect the speech in them.
    Hear,
    /// Mix the two windows.
    Mix,
    /// Nothing is left: have voice detection hand out what it holds.
    Flush,
    /// Close the tracks.
    Finish,
    /// The run has ended.
    Ended,
}

/// What the caller says happened.
#[allow(inconsistent_fields)]
pub enum PipelineEvent<T> {
    Block { block: AudioChunk<T>, now: u64, paused: bool },
    /// No block came in time.
    Quiet { now: u64, paused: bool },
    /// No block will come any more.
    Closed,
    /// The speech that was ended, where there was some.
    SpeechEnded { mic: Option<SpeechSegment<T>>, system: Option<SpeechSegment<T>> },
    /// The block with the gain applied, and whether the limiter had to act.
    Gained { samples: Vec<T>, limited: bool },
    /// The clock, and which sources are captured now where that is known.
    Sources { now: u64, active: Option<(bool, bool)> },
    /// What was asked for was done.
    Done,
    Observed { own_speech: Option<bool>, far_end: bool, system_is_cancelling: bool },
    /// The microphone window without the echo.
    Cancelled { mic: Vec<T> },
    /// The speech that was detected; nothing for a source whose detection failed.
    Heard { mic: Vec<SpeechSegment<T>>, system: Vec<SpeechSegment<T>> },
    Mixed { samples: Vec<T> },
}

/// The one stretch, or none.
pub open spec fn one_of<T>(segment: Option<SpeechSegment<T>>, asked: bool) -> Seq<SpeechSegment<T>> {
    match segment {
        Some(segment) => if asked {
            seq![segment]
        } else {
            Seq::empty()
        },
        None => Seq::empty(),
    }
}

/// A run as plain data.
#[verifier::ext_equal]
pub struct RunModel<T> {
    pub pipeline: PipelineModel<T>,
    pub stage: PipelineStage,
    pub keeps_tracks: bool,
    pub has_meter: bool,
    pub device: DeviceType,
    pub clock: u64,
    pub block: Seq<T>,
    pub active: Option<(bool, bool)>,
    pub mic_window: Seq<T>,
    pub system_window: Seq<T>,
    pub draining: bool,
    pub closing: bool,
    pub speech: Seq<ChunkModel<T>>,
    pub tracks: Seq<ChunkModel<T>>,
}

impl<T> RunModel<T> {
    /// The run after stretches of one source went to recognition.
    pub open spec fn spoke(
        self,
        segments: Seq<SpeechSegment<T>>,
        device: DeviceType,
        accepting: bool,
    ) -> RunModel<T> {
        let more = taken_speech(segments, device, self.pipeline.next_id, accepting);
        RunModel {
            pipeline: PipelineModel {
                next_id: self.pipeline.next_id + more.len(),
                ..self.pipeline
            },
            speech: self.speech + more,
            ..self
        }
    }

    /// As [`Self::spoke`], for the microphone: without what was only the speakers.
    pub open spec fn spoke_without_echo(
        self,
        segments: Seq<SpeechSegment<T>>,
        detector_open: bool,
        accepting: bool,
    ) -> RunModel<T> {
        let kept = self.pipeline.kept(segments, detector_open);
        (RunModel {
            pipeline: self.pipeline.with_dropped(segments, detector_open),
            ..self
        }).spoke(kept, DeviceType::Microphone, accepting)
    }

    pub open spec fn at(self, stage: PipelineStage) -> RunModel<T> {
        RunModel { stage, ..self }
    }

    /// The next window, if there is one: while recording only whole ones, at the end
    /// everything that is left.
    pub open spec fn next_window(self) -> RunModel<T> {
        let ring = self.pipeline.ring;
        let taken = if self.draining {
            ring.tail_taken()
        } else {
            ring.window_taken()
        };
        match taken {
            Some((mic, system, after)) => RunModel {
                pipeline: PipelineModel { ring: after, ..self.pipeline },
                mic_window: mic,
                system_window: system,
                stage: PipelineStage::Observe,
                ..self
            },
            None => if self.draining {
                self.at(PipelineStage::Flush)
            } else {
                self.at(PipelineStage::Wait)
            },
        }
    }

    /// The block goes into the ring.
    pub open spec fn added(self) -> RunModel<T> {
        let len = self.block.len() as int;
        let added = RunModel {
            pipeline: self.pipeline.with_block(self.device, self.block, self.clock, self.active),
            block: Seq::empty(),
            ..self
        };
        match self.pipeline.broke_until(self.device, len, self.clock, self.active) {
            Some(moment) => added.at(PipelineStage::EndBroken { moment }),
            None => added.next_window(),
        }
    }

    /// The three tracks of a window: the two sources and their mix, with one number and
    /// one clock.
    pub open spec fn window_tracks(self, mixed: Seq<T>) -> Seq<ChunkModel<T>> {
        let track = |data: Seq<T>, device_type: DeviceType|
            ChunkModel {
                data,
                sample_rate: self.pipeline.ring.rate as u32,
                timestamp: if self.draining {
                    0
                } else {
                    self.clock
                },
                chunk_id: self.pipeline.next_id as u64,
                device_type,
            };
        seq![
            track(self.mic_window, DeviceType::Microphone),
            track(self.system_window, DeviceType::System),
            track(mixed, DeviceType::Mixed),
        ]
    }

    /// A block came while the run waited.
    pub open spec fn after_block(self, block: AudioChunk<T>, now: u64, paused: bool) -> RunModel<
        T,
    > {
        let (mic, system) = self.pipeline.ended(now, paused);
        let then = if asks_flush(block.chunk_id) {
            AfterSilence::Flush
        } else {
            AfterSilence::Block
        };
        RunModel {
            pipeline: self.pipeline.arrived(block.device_type, block.chunk_id, now),
            stage: PipelineStage::EndSilent { mic, system, then },
            device: block.device_type,
            clock: block.timestamp,
            block: block.data@,
            ..self
        }
    }

    /// Nothing came while the run waited.
    pub open spec fn after_quiet(self, now: u64, paused: bool) -> RunModel<T> {
        let (mic, system) = self.pipeline.ended(now, paused);
        self.at(PipelineStage::EndSilent { mic, system, then: AfterSilence::Wait })
    }

    /// Everything that is left is handed out.
    pub open spec fn drain(self, closing: bool) -> RunModel<T> {
        (RunModel { draining: true, closing, block: Seq::empty(), ..self }).next_window()
    }

    /// The speech of the silent sources was ended; it is never taken for an echo.
    pub open spec fn after_silence(
        self,
        mic: Seq<SpeechSegment<T>>,
        system: Seq<SpeechSegment<T>>,
        then: AfterSilence,
        accepting: bool,
    ) -> RunModel<T> {
        let spoke = self.spoke(mic, DeviceType::Microphone, accepting).spoke(
            system,
            DeviceType::System,
            accepting,
        );
        match then {
            AfterSilence::Wait => spoke.at(PipelineStage::Wait),
            AfterSilence::Flush => spoke.drain(self.closing),
            AfterSilence::Block => if self.device is System {
                spoke.at(PipelineStage::Gain)
            } else {
                spoke.at(PipelineStage::Sources)
            },
        }
    }

    /// The gain was applied.
    pub open spec fn after_gain(self, samples: Seq<T>, limited: bool) -> RunModel<T> {
        RunModel {
            pipeline: PipelineModel { limited: self.pipeline.limited || limited, ..self.pipeline },
            block: samples,
            stage: PipelineStage::Sources,
            ..self
        }
    }

    /// The captured sources are known: the level is shown where it is due, else the
    /// block goes into the ring.
    pub open spec fn after_sources(self, now: u64, active: Option<(bool, bool)>) -> RunModel<T> {
        let run = RunModel { active, ..self };
        if self.has_meter && self.pipeline.level_is_due(self.device, self.block.len() as int, now) {
            RunModel {
                pipeline: self.pipeline.level_read(self.device, now),
                stage: PipelineStage::Meter {
                    limited: !(self.device is Microphone) && self.pipeline.limited,
                },
                ..run
            }
        } else {
            run.added()
        }
    }

    /// The speech before a break was ended; the break itself is left unanswered.
    pub open spec fn after_break(
        self,
        mic: Seq<SpeechSegment<T>>,
        system: Seq<SpeechSegment<T>>,
        moment: u64,
        accepting: bool,
        detector_open: bool,
    ) -> RunModel<T> {
        let spoke = self.spoke_without_echo(mic, detector_open, accepting).spoke(
            system,
            DeviceType::System,
            accepting,
        );
        RunModel {
            pipeline: spoke.pipeline.skipped(moment),
            stage: PipelineStage::MoveOn { moment },
            ..spoke
        }
    }

    /// A window was looked at. Our canceller is asked only while the system does not
    /// cancel.
    pub open spec fn after_look(
        self,
        own_speech: Option<bool>,
        far_end: bool,
        system_is_cancelling: bool,
    ) -> RunModel<T> {
        RunModel {
            pipeline: PipelineModel {
                echo_left_to_windows: Some(system_is_cancelling),
                ..self.pipeline.observed(own_speech, far_end)
            },
            stage: if self.pipeline.has_canceller && !system_is_cancelling {
                PipelineStage::Cancel
            } else {
                PipelineStage::Hear
            },
            ..self
        }
    }

    /// The speech in a window was detected.
    pub open spec fn after_window(
        self,
        mic: Seq<SpeechSegment<T>>,
        system: Seq<SpeechSegment<T>>,
        accepting: bool,
        detector_open: bool,
    ) -> RunModel<T> {
        let spoke = self.spoke_without_echo(mic, detector_open, accepting).spoke(
            system,
            DeviceType::System,
            accepting,
        );
        if self.keeps_tracks {
            spoke.at(PipelineStage::Mix)
        } else {
            spoke.next_window()
        }
    }

    /// The two windows were mixed.
    pub open spec fn after_mix(self, mixed: Seq<T>) -> RunModel<T> {
        (RunModel { tracks: self.tracks + self.window_tracks(mixed), ..self }).next_window()
    }

    /// Voice detection handed out what it held.
    pub open spec fn after_flush(
        self,
        mic: Seq<SpeechSegment<T>>,
        system: Seq<SpeechSegment<T>>,
        accepting: bool,
    ) -> RunModel<T> {
        let spoke = self.spoke(mic, DeviceType::Microphone, accepting).spoke(
            system,
            DeviceType::System,
            accepting,
        );
        let done = RunModel { draining: false, ..spoke };
        if self.closing {
            done.at(PipelineStage::Finish)
        } else {
            done.at(PipelineStage::Wait)
        }
    }

    /// What becomes of the run. An event that nobody asked for changes nothing.
    /// `accepting` says whether recognition still takes speech, `detector_open` whether
    /// there is a second opinion on the microphone.
    pub open spec fn next(
        self,
        event: PipelineEvent<T>,
        accepting: bool,
        detector_open: bool,
    ) -> RunModel<T> {
        match event {
            PipelineEvent::Block { block, now, paused } => match self.stage {
                PipelineStage::Wait => self.after_block(block, now, paused),
                _ => self,
            },
            PipelineEvent::Quiet { now, paused } => match self.stage {
                PipelineStage::Wait => self.after_quiet(now, paused),
                _ => self,
            },
            PipelineEvent::Closed => match self.stage {
                PipelineStage::Wait => self.drain(true),
                _ => self,
            },
            PipelineEvent::SpeechEnded { mic, system } => match self.stage {
                PipelineStage::EndSilent { mic: end_mic, system: end_system, then } =>
                self.after_silence(one_of(mic, end_mic), one_of(system, end_system), then, accepting),
                PipelineStage::EndBroken { moment } => self.after_break(
                    one_of(mic, true),
                    one_of(system, true),
                    moment,
                    accepting,
                    detector_open,
                ),
                _ => self,
            },
            PipelineEvent::Gained { samples, limited } => match self.stage {
                PipelineStage::Gain => self.after_gain(samples@, limited),
                _ => self,
            },
            PipelineEvent::Sources { now, active } => match self.stage {
                PipelineStage::Sources => self.after_sources(now, active),
                _ => self,
            },
            PipelineEvent::Done => match self.stage {
                PipelineStage::Meter { .. } => self.added(),
                PipelineStage::MoveOn { .. } => self.next_window(),
                PipelineStage::Finish => self.at(PipelineStage::Ended),
                _ => self,
            },
            PipelineEvent::Observed { own_speech, far_end, system_is_cancelling } => match self.stage {
                PipelineStage::Observe => self.after_look(own_speech, far_end, system_is_cancelling),
                _ => self,
            },
            PipelineEvent::Cancelled { mic } => match self.stage {
                PipelineStage::Cancel => RunModel {
                    mic_window: mic@,
                    stage: PipelineStage::Hear,
                    ..self
                },
                _ => self,
            },
            PipelineEvent::Heard { mic, system } => match self.stage {
                PipelineStage::Hear => self.after_window(mic@, system@, accepting, detector_open),
                PipelineStage::Flush => self.after_flush(mic@, system@, accepting),
                _ => self,
            },
            PipelineEvent::Mixed { samples } => match self.stage {
                PipelineStage::Mix => self.after_mix(samples@),
                _ => self,
            },
        }
    }

    /// How many stretches of speech come with an event.
    pub open spec fn coming(event: PipelineEvent<T>) -> int {
        match event {
            PipelineEvent::SpeechEnded { .. } => 2,
            PipelineEvent::Heard { mic, system } => (mic@.len() + system@.len()) as int,
            _ => 0,
        }
    }

    /// The counters can take what comes with an event.
    pub open spec fn has_room(self, event: PipelineEvent<T>) -> bool {
        let ring = self.pipeline.ring;
        &&& ring.has_room(self.block.len() as int)
        &&& ring.seams.padded_mic < u64::MAX
        &&& ring.seams.padded_system < u64::MAX
        &&& self.pipeline.processed < u64::MAX
        &&& self.pipeline.next_id + Self::coming(event) <= u64::MAX
        &&& self.pipeline.dropped + Self::coming(event) <= u64::MAX
        &&& self.stage matches PipelineStage::EndBroken { moment } ==> moment as int
            / self.pipeline.slot <= usize::MAX
    }
}

/// The pipeline while it runs.
pub struct PipelineRun<T> {
    pub pipeline: AudioPipeline<T>,
    pub stage: PipelineStage,
    /// The recording is kept.
    pub keeps_tracks: bool,
    /// Somebody looks at the level meters.
    pub has_meter: bool,
    /// The source of the last block, and its clock.
    pub device: DeviceType,
    pub clock: u64,
    /// The samples of the last block, until they are in the ring.
    pub block: Vec<T>,
    pub active: Option<(bool, bool)>,
    /// The window that is being worked on.
    pub mic_window: Vec<T>,
    pub system_window: Vec<T>,
    /// Everything that is left is handed out.
    pub draining: bool,
    /// No block will come any more.
    pub closing: bool,
    /// Speech for recognition.
    pub speech: Vec<AudioChunk<T>>,
    /// Windows for the tracks.
    pub tracks: Vec<AudioChunk<T>>,
}

impl<T> View for PipelineRun<T> {
    type V = RunModel<T>;

    open spec fn view(&self) -> RunModel<T> {
        RunModel {
            pipeline: self.pipeline@,
            stage: self.stage,
            keeps_tracks: self.keeps_tracks,
            has_meter: self.has_meter,
            device: self.device,
            clock: self.clock,
            block: self.block@,
            active: self.active,
            mic_window: self.mic_window@,
            system_window: self.system_window@,
            draining: self.draining,
            closing: self.closing,
            speech: chunks_of(self.speech@),
            tracks: chunks_of(self.tracks@),
        }
    }
}

fn only<T>(segment: Option<SpeechSegment<T>>, asked: bool) -> (segments: Vec<SpeechSegment<T>>)
    ensures
        segments@ == one_of(segment, asked),
        segments@.len() <= 1,
{
    let mut segments: Vec<SpeechSegment<T>> = Vec::new();
    match segment {
        Some(segment) => {
            if asked {
                segments.push(segment);
            }
        },
        None => {},
    }
    assert(segments@ =~= one_of(segment, asked));
    segments
}

fn copy_of<T: Copy>(samples: &Vec<T>) -> (copy: Vec<T>)
    ensures
        copy@ == samples@,
{
    let mut copy: Vec<T> = Vec::new();
    while copy.len() < samples.len()
        invariant
            copy@.len() <= samples@.len(),
            copy@ =~= samples@.take(copy@.len() as int),
        decreases samples@.len() - copy@.len(),
    {
        copy.push(samples[copy.len()]);
    }
    assert(copy@ =~= samples@);
    copy
}

impl<T: Copy> PipelineRun<T> {
    pub fn new(pipeline: AudioPipeline<T>, keeps_tracks: bool, has_meter: bool) -> (run: PipelineRun<
        T,
    >)
        ensures
            run@ == (RunModel {
                pipeline: pipeline@,
                stage: PipelineStage::Wait,
                keeps_tracks,
                has_meter,
                device: DeviceType::Microphone,
                clock: 0,
                block: Seq::empty(),
                active: None,
                mic_window: Seq::empty(),
                system_window: Seq::empty(),
                draining: false,
                closing: false,
                speech: Seq::empty(),
                tracks: Seq::empty(),
            }),
            pipeline.wf() ==> run.pipeline.wf(),
    {
        let run = PipelineRun {
            pipeline,
            stage: PipelineStage::Wait,
            keeps_tracks,
            has_meter,
            device: DeviceType::Microphone,
            clock: 0,
            block: Vec::new(),
            active: None,
            mic_window: Vec::new(),
            system_window: Vec::new(),
            draining: false,
            closing: false,
            speech: Vec::new(),
            tracks: Vec::new(),
        };
        assert(chunks_of(run.speech@) =~= Seq::empty());
        assert(chunks_of(run.tracks@) =~= Seq::empty());
        run
    }

    /// Whether the counters can take what comes with an event.
    pub fn has_room(&self, event: &PipelineEvent<T>) -> (room: bool)
        requires
            self.pipeline.wf(),
        ensures
            room == self@.has_room(*event),
    {
        let coming: u128 = match event {
            PipelineEvent::SpeechEnded { mic: _, system: _ } => 2,
            PipelineEvent::Heard { mic, system } => mic.len() as u128 + system.len() as u128,
            _ => 0,
        };
        let ring = &self.pipeline.ring_buffer;
        let reachable = match self.stage {
            PipelineStage::EndBroken { moment } => {
                self.pipeline.own_speech_timeline.can_skip_to(moment)
            },
            _ => true,
        };
        ring.has_room(self.block.len()) && ring.padded_mic_windows < u64::MAX
            && ring.padded_system_windows < u64::MAX && self.pipeline.processed_chunks < u64::MAX
            && self.pipeline.chunk_id_counter as u128 + coming <= u64::MAX as u128
            && self.pipeline.echo_segments_dropped as u128 + coming <= u64::MAX as u128 && reachable
    }

    fn speak(&mut self, segments: Vec<SpeechSegment<T>>, device: DeviceType, accepting: bool)
        requires
            old(self).pipeline.wf(),
            old(self)@.pipeline.next_id + segments@.len() <= u64::MAX,
        ensures
            final(self).pipeline.wf(),
            final(self)@ == old(self)@.spoke(segments@, device, accepting),
            final(self)@.pipeline.next_id <= old(self)@.pipeline.next_id + segments@.len(),
    {
        proof {
            lemma_queued_len(segments@, device, self@.pipeline.next_id);
        }
        enqueue_source_speech(
            segments,
            device,
            accepting,
            &mut self.speech,
            &mut self.pipeline.chunk_id_counter,
        );
    }

    fn speak_without_echo(
        &mut self,
        segments: Vec<SpeechSegment<T>>,
        detector_open: bool,
        accepting: bool,
    )
        requires
            old(self).pipeline.wf(),
            old(self)@.pipeline.next_id + segments@.len() <= u64::MAX,
            old(self)@.pipeline.dropped + segments@.len() <= u64::MAX,
        ensures
            final(self).pipeline.wf(),
            final(self)@ == old(self)@.spoke_without_echo(segments@, detector_open, accepting),
            final(self)@.pipeline.next_id <= old(self)@.pipeline.next_id + segments@.len(),
    {
        let kept = self.pipeline.without_the_speakers(segments, detector_open);
        self.speak(kept, DeviceType::Microphone, accepting);
    }

    fn take_window(&mut self)
        requires
            old(self).pipeline.wf(),
            old(self)@.pipeline.ring.seams.padded_mic < u64::MAX,
            old(self)@.pipeline.ring.seams.padded_system < u64::MAX,
        ensures
            final(self).pipeline.wf(),
            final(self)@ == old(self)@.next_window(),
    {
        let taken = if self.draining {
            self.pipeline.ring_buffer.extract_remaining()
        } else {
            self.pipeline.ring_buffer.extract_window()
        };
        match taken {
            Some((mic, system)) => {
                self.mic_window = mic;
                self.system_window = system;
                self.stage = PipelineStage::Observe;
            },
            None => {
                self.stage = if self.draining {
                    PipelineStage::Flush
                } else {
                    PipelineStage::Wait
                };
            },
        }
    }

    fn add_block(&mut self)
        requires
            old(self).pipeline.wf(),
            old(self)@.pipeline.ring.has_room(old(self)@.block.len() as int),
            old(self)@.pipeline.ring.seams.padded_mic < u64::MAX,
            old(self)@.pipeline.ring.seams.padded_system < u64::MAX,
        ensures
            final(self).pipeline.wf(),
            final(self)@ == old(self)@.added(),
    {
        let samples = copy_of(&self.block);
        self.block = Vec::new();
        assert(self.block@ =~= Seq::<T>::empty());
        match self.pipeline.add_chunk(self.device, samples, self.clock, self.active) {
            Some(moment) => {
                self.stage = PipelineStage::EndBroken { moment };
            },
            None => {
                self.take_window();
            },
        }
    }

    fn keep_tracks(&mut self, mixed: Vec<T>)
        requires
            old(self).pipeline.wf(),
        ensures
            final(self).pipeline.wf(),
            final(self)@ == (RunModel {
                tracks: old(self)@.tracks + old(self)@.window_tracks(mixed@),
                ..old(self)@
            }),
    {
        let ghost before = self.tracks@;
        let ghost run = self@;
        let sample_rate: u32 = self.pipeline.ring_buffer.sample_rate;
        let timestamp: u64 = if self.draining {
            0
        } else {
            self.clock
        };
        let chunk_id: u64 = self.pipeline.chunk_id_counter;
        let mic = AudioChunk {
            data: copy_of(&self.mic_window),
            sample_rate,
            timestamp,
            chunk_id,
            device_type: DeviceType::Microphone,
        };
        let system = AudioChunk {
            data: copy_of(&self.system_window),
            sample_rate,
            timestamp,
            chunk_id,
            device_type: DeviceType::System,
        };
        let mix = AudioChunk {
            data: mixed,
            sample_rate,
            timestamp,
            chunk_id,
            device_type: DeviceType::Mixed,
        };
        let ghost put = seq![mic, system, mix];
        self.tracks.push(mic);
        self.tracks.push(system);
        self.tracks.push(mix);
        assert(self.tracks@ =~= before + put);
        assert(chunks_of(put) =~= run.window_tracks(mixed@));
        assert(chunks_of(self.tracks@) =~= chunks_of(before) + chunks_of(put));
    }

    fn block_came(&mut self, block: AudioChunk<T>, now: u64, paused: bool)
        requires
            old(self).pipeline.wf(),
            old(self)@.pipeline.processed < u64::MAX,
        ensures
            final(self).pipeline.wf(),
            final(self)@ == old(self)@.after_block(block, now, paused),
    {
        let what = self.pipeline.arrival(block.device_type, block.chunk_id, now, paused);
        self.stage = PipelineStage::EndSilent {
            mic: what.finalize_mic,
            system: what.finalize_system,
            then: if what.flush {
                AfterSilence::Flush
            } else {
                AfterSilence::Block
            },
        };
        self.device = block.device_type;
        self.clock = block.timestamp;
        self.block = block.data;
    }

    fn begin_drain(&mut self, closing: bool)
        requires
            old(self).pipeline.wf(),
            old(self)@.pipeline.ring.seams.padded_mic < u64::MAX,
            old(self)@.pipeline.ring.seams.padded_system < u64::MAX,
        ensures
            final(self).pipeline.wf(),
            final(self)@ == old(self)@.drain(closing),
    {
        self.draining = true;
        self.closing = closing;
        self.block = Vec::new();
        assert(self.block@ =~= Seq::<T>::empty());
        self.take_window();
    }

    fn silence_ended(
        &mut self,
        mic: Vec<SpeechSegment<T>>,
        system: Vec<SpeechSegment<T>>,
        then: AfterSilence,
        accepting: bool,
    )
        requires
            old(self).pipeline.wf(),
            old(self)@.has_room(PipelineEvent::Heard { mic, system }),
        ensures
            final(self).pipeline.wf(),
            final(self)@ == old(self)@.after_silence(mic@, system@, then, accepting),
    {
        self.speak(mic, DeviceType::Microphone, accepting);
        self.speak(system, DeviceType::System, accepting);
        match then {
            AfterSilence::Wait => {
                self.stage = PipelineStage::Wait;
            },
            AfterSilence::Flush => {
                self.begin_drain(self.closing);
            },
            AfterSilence::Block => {
                self.stage = match self.device {
                    DeviceType::System => PipelineStage::Gain,
                    _ => PipelineStage::Sources,
                };
            },
        }
    }

    fn gain_applied(&mut self, samples: Vec<T>, limited: bool)
        requires
            old(self).pipeline.wf(),
        ensures
            final(self).pipeline.wf(),
            final(self)@ == old(self)@.after_gain(samples@, limited),
    {
        self.pipeline.note_limiter(limited);
        self.block = samples;
        self.stage = PipelineStage::Sources;
    }

    fn sources_read(&mut self, now: u64, active: Option<(bool, bool)>)
        requires
            old(self).pipeline.wf(),
            old(self)@.has_room(PipelineEvent::Done),
        ensures
            final(self).pipeline.wf(),
            final(self)@ == old(self)@.after_sources(now, active),
    {
        self.active = active;
        if self.has_meter {
            match self.pipeline.level_due(self.device, self.block.len(), now) {
                Some(limited) => {
                    self.stage = PipelineStage::Meter { limited };
                    return;
                },
                None => {},
            }
        }
        self.add_block();
    }

    fn break_ended(
        &mut self,
        mic: Vec<SpeechSegment<T>>,
        system: Vec<SpeechSegment<T>>,
        moment: u64,
        accepting: bool,
        detector_open: bool,
    )
        requires
            old(self).pipeline.wf(),
            old(self)@.has_room(PipelineEvent::Heard { mic, system }),
            moment as int / old(self)@.pipeline.slot <= usize::MAX,
        ensures
            final(self).pipeline.wf(),
            final(self)@ == old(self)@.after_break(mic@, system@, moment, accepting, detector_open),
    {
        self.speak_without_echo(mic, detector_open, accepting);
        self.speak(system, DeviceType::System, accepting);
        self.pipeline.skip_break(moment);
        self.stage = PipelineStage::MoveOn { moment };
    }

    fn window_seen(&mut self, own_speech: Option<bool>, far_end: bool, system_is_cancelling: bool)
        requires
            old(self).pipeline.wf(),
        ensures
            final(self).pipeline.wf(),
            final(self)@ == old(self)@.after_look(own_speech, far_end, system_is_cancelling),
    {
        self.pipeline.observe_window(own_speech, far_end);
        let (ours, _) = self.pipeline.cancel_echo(system_is_cancelling);
        self.stage = if ours {
            PipelineStage::Cancel
        } else {
            PipelineStage::Hear
        };
    }

    fn window_heard(
        &mut self,
        mic: Vec<SpeechSegment<T>>,
        system: Vec<SpeechSegment<T>>,
        accepting: bool,
        detector_open: bool,
    )
        requires
            old(self).pipeline.wf(),
            old(self)@.has_room(PipelineEvent::Heard { mic, system }),
        ensures
            final(self).pipeline.wf(),
            final(self)@ == old(self)@.after_window(mic@, system@, accepting, detector_open),
    {
        self.speak_without_echo(mic, detector_open, accepting);
        self.speak(system, DeviceType::System, accepting);
        if self.keeps_tracks {
            self.stage = PipelineStage::Mix;
        } else {
            self.take_window();
        }
    }

    fn flushed(
        &mut self,
        mic: Vec<SpeechSegment<T>>,
        system: Vec<SpeechSegment<T>>,
        accepting: bool,
    )
        requires
            old(self).pipeline.wf(),
            old(self)@.has_room(PipelineEvent::Heard { mic, system }),
        ensures
            final(self).pipeline.wf(),
            final(self)@ == old(self)@.after_flush(mic@, system@, accepting),
    {
        self.speak(mic, DeviceType::Microphone, accepting);
        self.speak(system, DeviceType::System, accepting);
        self.draining = false;
        self.stage = if self.closing {
            PipelineStage::Finish
        } else {
            PipelineStage::Wait
        };
    }

    fn on_block(
        &mut self,
        block: AudioChunk<T>,
        now: u64,
        paused: bool,
        accepting: bool,
        detector_open: bool,
    )
        requires
            old(self).pipeline.wf(),
            old(self)@.has_room(PipelineEvent::Block { block, now, paused }),
        ensures
            final(self).pipeline.wf(),
            final(self)@ == old(self)@.next(
                PipelineEvent::Block { block, now, paused },
                accepting,
                detector_open,
            ),
    {
        if let PipelineStage::Wait = self.stage {
            self.block_came(block, now, paused);
        }
    }

    fn on_quiet(
        &mut self,
        now: u64,
        paused: bool,
        accepting: bool,
        detector_open: bool,
    )
        requires
            old(self).pipeline.wf(),
            old(self)@.has_room(PipelineEvent::Quiet { now, paused }),
        ensures
            final(self).pipeline.wf(),
            final(self)@ == old(self)@.next(
                PipelineEvent::Quiet { now, paused },
                accepting,
                detector_open,
            ),
    {
        if let PipelineStage::Wait = self.stage {
            let (mic, system) = self.pipeline.finalize_inactive_speech(now, paused);
            self.stage = PipelineStage::EndSilent { mic, system, then: AfterSilence::Wait };
        }
    }

    fn on_speech_ended(
        &mut self,
        mic: Option<SpeechSegment<T>>,
        system: Option<SpeechSegment<T>>,
        accepting: bool,
        detector_open: bool,
    )
        requires
            old(self).pipeline.wf(),
            old(self)@.has_room(PipelineEvent::SpeechEnded { mic, system }),
        ensures
            final(self).pipeline.wf(),
            final(self)@ == old(self)@.next(
                PipelineEvent::SpeechEnded { mic, system },
                accepting,
                detector_open,
            ),
    {
        match self.stage {
            PipelineStage::EndSilent { mic: end_mic, system: end_system, then } => {
                let mic = only(mic, end_mic);
                let system = only(system, end_system);
                self.silence_ended(mic, system, then, accepting);
            },
            PipelineStage::EndBroken { moment } => {
                let mic = only(mic, true);
                let system = only(system, true);
                self.break_ended(mic, system, moment, accepting, detector_open);
            },
            _ => {},
        }
    }

    fn on_done(
        &mut self,
        accepting: bool,
        detector_open: bool,
    )
        requires
            old(self).pipeline.wf(),
            old(self)@.has_room(PipelineEvent::Done),
        ensures
            final(self).pipeline.wf(),
            final(self)@ == old(self)@.next(
                PipelineEvent::Done,
                accepting,
                detector_open,
            ),
    {
        match self.stage {
            PipelineStage::Meter { .. } => self.add_block(),
            PipelineStage::MoveOn { .. } => self.take_window(),
            PipelineStage::Finish => {
                self.stage = PipelineStage::Ended;
            },
            _ => {},
        }
    }

    fn on_look(
        &mut self,
        own_speech: Option<bool>,
        far_end: bool,
        system_is_cancelling: bool,
        accepting: bool,
        detector_open: bool,
    )
        requires
            old(self).pipeline.wf(),
            old(self)@.has_room(PipelineEvent::Observed { own_speech, far_end, system_is_cancelling }),
        ensures
            final(self).pipeline.wf(),
            final(self)@ == old(self)@.next(
                PipelineEvent::Observed { own_speech, far_end, system_is_cancelling },
                accepting,
                detector_open,
            ),
    {
        if let PipelineStage::Observe = self.stage {
            self.window_seen(own_speech, far_end, system_is_cancelling);
        }
    }

    fn on_heard(
        &mut self,
        mic: Vec<SpeechSegment<T>>,
        system: Vec<SpeechSegment<T>>,
        accepting: bool,
        detector_open: bool,
    )
        requires
            old(self).pipeline.wf(),
            old(self)@.has_room(PipelineEvent::Heard { mic, system }),
        ensures
            final(self).pipeline.wf(),
            final(self)@ == old(self)@.next(
                PipelineEvent::Heard { mic, system },
                accepting,
                detector_open,
            ),
    {
        match self.stage {
            PipelineStage::Hear => self.window_heard(mic, system, accepting, detector_open),
            PipelineStage::Flush => self.flushed(mic, system, accepting),
            _ => {},
        }
    }

    fn on_mixed(
        &mut self,
        samples: Vec<T>,
        accepting: bool,
        detector_open: bool,
    )
        requires
            old(self).pipeline.wf(),
            old(self)@.has_room(PipelineEvent::Mixed { samples }),
        ensures
            final(self).pipeline.wf(),
            final(self)@ == old(self)@.next(
                PipelineEvent::Mixed { samples },
                accepting,
                detector_open,
            ),
    {
        if let PipelineStage::Mix = self.stage {
            self.keep_tracks(samples);
            self.take_window();
        }
    }

    fn on_closed(
        &mut self,
        accepting: bool,
        detector_open: bool,
    )
        requires
            old(self).pipeline.wf(),
            old(self)@.has_room(PipelineEvent::Closed),
        ensures
            final(self).pipeline.wf(),
            final(self)@ == old(self)@.next(
                PipelineEvent::Closed,
                accepting,
                detector_open,
            ),
    {
        if let PipelineStage::Wait = self.stage {
            self.begin_drain(true);
        }
    }

    fn on_gained(
        &mut self,
        samples: Vec<T>,
        limited: bool,
        accepting: bool,
        detector_open: bool,
    )
        requires
            old(self).pipeline.wf(),
            old(self)@.has_room(PipelineEvent::Gained { samples, limited }),
        ensures
            final(self).pipeline.wf(),
            final(self)@ == old(self)@.next(
                PipelineEvent::Gained { samples, limited },
                accepting,
                detector_open,
            ),
    {
        if let PipelineStage::Gain = self.stage {
            self.gain_applied(samples, limited);
        }
    }

    fn on_sources(
        &mut self,
        now: u64,
        active: Option<(bool, bool)>,
        accepting: bool,
        detector_open: bool,
    )
        requires
            old(self).pipeline.wf(),
            old(self)@.has_room(PipelineEvent::Sources { now, active }),
        ensures
            final(self).pipeline.wf(),
            final(self)@ == old(self)@.next(
                PipelineEvent::Sources { now, active },
                accepting,
                detector_open,
            ),
    {
        if let PipelineStage::Sources = self.stage {
            self.sources_read(now, active);
        }
    }

    fn on_cancelled(
        &mut self,
        mic: Vec<T>,
        accepting: bool,
        detector_open: bool,
    )
        requires
            old(self).pipeline.wf(),
            old(self)@.has_room(PipelineEvent::Cancelled { mic }),
        ensures
            final(self).pipeline.wf(),
            final(self)@ == old(self)@.next(
                PipelineEvent::Cancelled { mic },
                accepting,
                detector_open,
            ),
    {
        if let PipelineStage::Cancel = self.stage {
            self.mic_window = mic;
            self.stage = PipelineStage::Hear;
        }
    }

    /// Takes what happened and moves on to what is to be done next.
    pub fn step(&mut self, event: PipelineEvent<T>, accepting: bool, detector_open: bool)
        requires
            old(self).pipeline.wf(),
            old(self)@.has_room(event),
        ensures
            final(self).pipeline.wf(),
            final(self)@ == old(self)@.next(event, accepting, detector_open),
    {
        match event {
            PipelineEvent::Block { block, now, paused } => {
                self.on_block(block, now, paused, accepting, detector_open);
            },
            PipelineEvent::Quiet { now, paused } => {
                self.on_quiet(now, paused, accepting, detector_open);
            },
            PipelineEvent::Closed => {
                self.on_closed(accepting, detector_open);
            },
            PipelineEvent::SpeechEnded { mic, system } => {
                self.on_speech_ended(mic, system, accepting, detector_open);
            },
            PipelineEvent::Gained { samples, limited } => {
                self.on_gained(samples, limited, accepting, detector_open);
            },
            PipelineEvent::Sources { now, active } => {
                self.on_sources(now, active, accepting, detector_open);
            },
            PipelineEvent::Done => {
                self.on_done(accepting, detector_open);
            },
            PipelineEvent::Observed { own_speech, far_end, system_is_cancelling } => {
                self.on_look(own_speech, far_end, system_is_cancelling, accepting, detector_open);
            },
            PipelineEvent::Cancelled { mic } => {
                self.on_cancelled(mic, accepting, detector_open);
            },
            PipelineEvent::Heard { mic, system } => {
                self.on_heard(mic, system, accepting, detector_open);
            },
            PipelineEvent::Mixed { samples } => {
                self.on_mixed(samples, accepting, detector_open);
            },
        }
    }
}

/// The microphone and system tracks stay aligned: the two windows that are worked on
/// together are equally long, whatever the sources delivered.
pub proof fn windows_stay_aligned<T>(run: RunModel<T>)
    requires
        run.pipeline.valid(),
        run.next_window().stage is Observe,
    ensures
        run.next_window().mic_window.len() == run.next_window().system_window.len(),
        run.next_window().mic_window.len() > 0,
{
}

/// Nothing that was captured is left behind: voice detection is asked for its rest only
/// once both buffers are empty, and so is a run that ends.
pub proof fn nothing_is_left_behind<T>(run: RunModel<T>)
    requires
        run.pipeline.valid(),
        run.next_window().stage is Flush,
    ensures
        run.draining,
        run.pipeline.ring.mic.len() == 0,
        run.pipeline.ring.system.len() == 0,
        run.next_window().pipeline == run.pipeline,
{
}

/// Handing out what is left comes to an end: every window takes samples out of the
/// buffers and puts none in.
pub proof fn draining_ends<T>(run: RunModel<T>)
    requires
        run.pipeline.valid(),
        run.draining,
        run.next_window().stage is Observe,
    ensures
        run.next_window().pipeline.ring.mic.len() + run.next_window().pipeline.ring.system.len()
            < run.pipeline.ring.mic.len() + run.pipeline.ring.system.len(),
        run.next_window().draining,
{
}

/// A run that was told that nothing more will come goes on until it has closed its
/// tracks: it never waits for a block again.
pub proof fn closing_run_never_waits<T>(
    run: RunModel<T>,
    event: PipelineEvent<T>,
    accepting: bool,
    detector_open: bool,
)
    requires
        run.closing,
        closing_stage(run),
    ensures
        run.next(event, accepting, detector_open).closing,
        closing_stage(run.next(event, accepting, detector_open)),
{
}

/// The stages that a closing run goes through.
pub open spec fn closing_stage<T>(run: RunModel<T>) -> bool {
    match run.stage {
        PipelineStage::Observe | PipelineStage::Cancel | PipelineStage::Hear | PipelineStage::Mix
        | PipelineStage::Flush => run.draining,
        PipelineStage::Finish | PipelineStage::Ended => true,
        _ => false,
    }
}

/// What a window leaves in the tracks: both sources and their mix, under one number and
/// one clock, and nothing of what was there before is touched.
pub proof fn every_window_keeps_three_tracks<T>(
    run: RunModel<T>,
    mixed: Vec<T>,
    accepting: bool,
    detector_open: bool,
)
    requires
        run.stage is Mix,
    ensures
        ({
            let before = run.tracks;
            let after = run.next(
                PipelineEvent::Mixed { samples: mixed },
                accepting,
                detector_open,
            ).tracks;
            let first = before.len() as int;
            &&& after.len() == first + 3
            &&& after.take(first) == before
            &&& after[first].data == run.mic_window
            &&& after[first].device_type is Microphone
            &&& after[first + 1].data == run.system_window
            &&& after[first + 1].device_type is System
            &&& after[first + 2].data == mixed@
            &&& after[first + 2].device_type is Mixed
            &&& forall|i: int|
                first <= i < after.len() ==> (#[trigger] after[i]).timestamp
                    == after.last().timestamp && after[i].chunk_id == after.last().chunk_id
        }),
{
    let before = run.tracks;
    let after = before + run.window_tracks(mixed@);
    assert(after.take(before.len() as int) =~= before);
}

/// A stretch of speech that an event brings from the microphone.
pub open spec fn said_into_the_microphone<T>(event: PipelineEvent<T>, segment: SpeechSegment<T>) -> bool {
    match event {
        PipelineEvent::SpeechEnded { mic, system } => mic == Some(segment),
        PipelineEvent::Heard { mic, system } => mic@.contains(segment),
        _ => false,
    }
}

/// A stretch of speech that an event brings from the system.
pub open spec fn said_by_the_system<T>(event: PipelineEvent<T>, segment: SpeechSegment<T>) -> bool {
    match event {
        PipelineEvent::SpeechEnded { mic, system } => system == Some(segment),
        PipelineEvent::Heard { mic, system } => system@.contains(segment),
        _ => false,
    }
}

/// A chunk is a stretch of speech of this source: all its samples, and its start.
pub open spec fn is_said<T>(chunk: ChunkModel<T>, segment: SpeechSegment<T>, device: DeviceType) -> bool {
    &&& chunk.data == segment.samples@
    &&& chunk.timestamp == segment.start_timestamp_ms
    &&& chunk.device_type == device
    &&& chunk.sample_rate == 16_000
}

/// A chunk is one of these stretches.
pub open spec fn is_one_said<T>(
    chunk: ChunkModel<T>,
    segments: Seq<SpeechSegment<T>>,
    device: DeviceType,
) -> bool {
    exists|i: int| 0 <= i < segments.len() && is_said(chunk, #[trigger] segments[i], device)
}

/// A stretch is one of these chunks.
pub open spec fn is_put<T>(
    put: Seq<ChunkModel<T>>,
    segment: SpeechSegment<T>,
    device: DeviceType,
) -> bool {
    exists|k: int| 0 <= k < put.len() && is_said(#[trigger] put[k], segment, device)
}

proof fn lemma_taken_speech<T>(
    segments: Seq<SpeechSegment<T>>,
    device: DeviceType,
    first: int,
    accepting: bool,
)
    requires
        0 <= first,
        first + segments.len() <= u64::MAX,
    ensures
        ({
            let put = taken_speech(segments, device, first, accepting);
            &&& put.len() <= segments.len()
            &&& !accepting ==> put.len() == 0
            &&& forall|k: int|
                0 <= k < put.len() ==> {
                    &&& (#[trigger] put[k]).chunk_id == first + k
                    &&& put[k].data.len() >= 800
                    &&& put[k].device_type == device
                    &&& is_one_said(put[k], segments, device)
                }
            &&& forall|i: int|
                0 <= i < segments.len() && accepting && (#[trigger] segments[i]).samples@.len()
                    >= 800 ==> is_put(put, segments[i], device)
        }),
    decreases segments.len(),
{
    let put = taken_speech(segments, device, first, accepting);
    if segments.len() > 0 && accepting {
        let fewer = segments.drop_last();
        lemma_taken_speech(fewer, device, first, accepting);
        let before = taken_speech(fewer, device, first, accepting);
        let last = segments.len() - 1;
        assert forall|k: int| 0 <= k < put.len() implies {
            &&& (#[trigger] put[k]).chunk_id == first + k
            &&& put[k].data.len() >= 800
            &&& put[k].device_type == device
            &&& is_one_said(put[k], segments, device)
        } by {
            if k < before.len() {
                assert(put[k] == before[k]);
                let i = choose|i: int|
                    0 <= i < fewer.len() && is_said(before[k], #[trigger] fewer[i], device);
                assert(is_said(put[k], segments[i], device));
            } else {
                assert(is_said(put[k], segments[last], device));
            }
        }
        assert forall|i: int|
            0 <= i < segments.len() && (#[trigger] segments[i]).samples@.len() >= 800 implies is_put(
            put,
            segments[i],
            device,
        ) by {
            if i < last {
                assert(fewer[i] == segments[i]);
                assert(is_put(before, fewer[i], device));
                let k = choose|k: int|
                    0 <= k < before.len() && is_said(#[trigger] before[k], fewer[i], device);
                assert(put[k] == before[k]);
            } else {
                assert(is_said(put[before.len() as int], segments[i], device));
            }
        }
    }
}

/// What an event that was asked for adds to the speech: first the microphone's part, then the
/// system's.
spec fn mic_part<T>(run: RunModel<T>, event: PipelineEvent<T>, detector_open: bool) -> Seq<
    SpeechSegment<T>,
> {
    match (run.stage, event) {
        (
            PipelineStage::EndSilent { mic: asked, system: _, then: _ },
            PipelineEvent::SpeechEnded { mic, system },
        ) => one_of(mic, asked),
        (PipelineStage::EndBroken { moment }, PipelineEvent::SpeechEnded { mic, system }) =>
        run.pipeline.kept(one_of(mic, true), detector_open),
        (PipelineStage::Hear, PipelineEvent::Heard { mic, system }) => run.pipeline.kept(
            mic@,
            detector_open,
        ),
        (PipelineStage::Flush, PipelineEvent::Heard { mic, system }) => mic@,
        _ => Seq::empty(),
    }
}

spec fn system_part<T>(run: RunModel<T>, event: PipelineEvent<T>) -> Seq<SpeechSegment<T>> {
    match (run.stage, event) {
        (
            PipelineStage::EndSilent { mic: _, system: asked, then: _ },
            PipelineEvent::SpeechEnded { mic, system },
        ) => one_of(system, asked),
        (PipelineStage::EndBroken { moment }, PipelineEvent::SpeechEnded { mic, system }) => one_of(
            system,
            true,
        ),
        (PipelineStage::Hear, PipelineEvent::Heard { mic, system }) => system@,
        (PipelineStage::Flush, PipelineEvent::Heard { mic, system }) => system@,
        _ => Seq::empty(),
    }
}

/// What stretches of both sources add to the speech.
#[verifier::opaque]
spec fn both_taken<T>(
    mine: Seq<SpeechSegment<T>>,
    theirs: Seq<SpeechSegment<T>>,
    first: int,
    accepting: bool,
) -> Seq<ChunkModel<T>> {
    let put = taken_speech(mine, DeviceType::Microphone, first, accepting);
    put + taken_speech(theirs, DeviceType::System, first + put.len(), accepting)
}

proof fn lemma_spoke_twice<T>(
    run: RunModel<T>,
    mine: Seq<SpeechSegment<T>>,
    theirs: Seq<SpeechSegment<T>>,
    accepting: bool,
)
    ensures
        ({
            let after = run.spoke(mine, DeviceType::Microphone, accepting).spoke(
                theirs,
                DeviceType::System,
                accepting,
            );
            let put = both_taken(mine, theirs, run.pipeline.next_id, accepting);
            &&& after.speech == run.speech + put
            &&& after.pipeline.next_id == run.pipeline.next_id + put.len()
        }),
{
    reveal(both_taken);
    let first = taken_speech(mine, DeviceType::Microphone, run.pipeline.next_id, accepting);
    let second = taken_speech(
        theirs,
        DeviceType::System,
        run.pipeline.next_id + first.len(),
        accepting,
    );
    assert(run.speech + first + second =~= run.speech + (first + second));
}

proof fn lemma_silence_speaks<T>(
    run: RunModel<T>,
    mic: Seq<SpeechSegment<T>>,
    system: Seq<SpeechSegment<T>>,
    then: AfterSilence,
    accepting: bool,
)
    ensures
        ({
            let after = run.after_silence(mic, system, then, accepting);
            let put = both_taken(mic, system, run.pipeline.next_id, accepting);
            &&& after.speech == run.speech + put
            &&& after.pipeline.next_id == run.pipeline.next_id + put.len()
        }),
{
    lemma_spoke_twice(run, mic, system, accepting);
}

proof fn lemma_break_speaks<T>(
    run: RunModel<T>,
    mic: Seq<SpeechSegment<T>>,
    system: Seq<SpeechSegment<T>>,
    moment: u64,
    accepting: bool,
    detector_open: bool,
)
    ensures
        ({
            let after = run.after_break(mic, system, moment, accepting, detector_open);
            let put = both_taken(
                run.pipeline.kept(mic, detector_open),
                system,
                run.pipeline.next_id,
                accepting,
            );
            &&& after.speech == run.speech + put
            &&& after.pipeline.next_id == run.pipeline.next_id + put.len()
        }),
{
    let judged = RunModel { pipeline: run.pipeline.with_dropped(mic, detector_open), ..run };
    lemma_spoke_twice(judged, run.pipeline.kept(mic, detector_open), system, accepting);
}

proof fn lemma_window_speaks<T>(
    run: RunModel<T>,
    mic: Seq<SpeechSegment<T>>,
    system: Seq<SpeechSegment<T>>,
    accepting: bool,
    detector_open: bool,
)
    ensures
        ({
            let after = run.after_window(mic, system, accepting, detector_open);
            let put = both_taken(
                run.pipeline.kept(mic, detector_open),
                system,
                run.pipeline.next_id,
                accepting,
            );
            &&& after.speech == run.speech + put
            &&& after.pipeline.next_id == run.pipeline.next_id + put.len()
        }),
{
    let judged = RunModel { pipeline: run.pipeline.with_dropped(mic, detector_open), ..run };
    lemma_spoke_twice(judged, run.pipeline.kept(mic, detector_open), system, accepting);
}

proof fn lemma_flush_speaks<T>(
    run: RunModel<T>,
    mic: Seq<SpeechSegment<T>>,
    system: Seq<SpeechSegment<T>>,
    accepting: bool,
)
    ensures
        ({
            let after = run.after_flush(mic, system, accepting);
            let put = both_taken(mic, system, run.pipeline.next_id, accepting);
            &&& after.speech == run.speech + put
            &&& after.pipeline.next_id == run.pipeline.next_id + put.len()
        }),
{
    lemma_spoke_twice(run, mic, system, accepting);
}

proof fn lemma_other_events_say_nothing<T>(
    run: RunModel<T>,
    event: PipelineEvent<T>,
    accepting: bool,
    detector_open: bool,
)
    requires
        !(event is SpeechEnded),
        !(event is Heard),
    ensures
        run.next(event, accepting, detector_open).speech == run.speech,
        run.next(event, accepting, detector_open).pipeline.next_id == run.pipeline.next_id,
{
}

/// A step adds what was asked for and said, and nothing else.
#[verifier::opaque]
spec fn adds_what_was_said<T>(
    run: RunModel<T>,
    event: PipelineEvent<T>,
    accepting: bool,
    detector_open: bool,
) -> bool {
    let after = run.next(event, accepting, detector_open);
    let put = both_taken(
        mic_part(run, event, detector_open),
        system_part(run, event),
        run.pipeline.next_id,
        accepting,
    );
    &&& after.speech == run.speech + put
    &&& after.pipeline.next_id == run.pipeline.next_id + put.len()
}

proof fn lemma_speech_added<T>(
    run: RunModel<T>,
    event: PipelineEvent<T>,
    accepting: bool,
    detector_open: bool,
)
    ensures
        adds_what_was_said(run, event, accepting, detector_open),
{
    match event {
        PipelineEvent::SpeechEnded { mic, system } => {
            lemma_ended_speech_added(run, event, mic, system, accepting, detector_open);
        },
        PipelineEvent::Heard { mic, system } => {
            lemma_heard_speech_added(run, event, mic, system, accepting, detector_open);
        },
        _ => {
            lemma_other_events_add_nothing(run, event, accepting, detector_open);
        },
    }
}

proof fn lemma_other_events_add_nothing<T>(
    run: RunModel<T>,
    event: PipelineEvent<T>,
    accepting: bool,
    detector_open: bool,
)
    requires
        !(event is SpeechEnded),
        !(event is Heard),
    ensures
        adds_what_was_said(run, event, accepting, detector_open),
{
    reveal(adds_what_was_said);
    lemma_other_events_say_nothing(run, event, accepting, detector_open);
    lemma_nothing_said(run.speech, run.pipeline.next_id, accepting);
}

proof fn lemma_nothing_said<T>(speech: Seq<ChunkModel<T>>, first: int, accepting: bool)
    ensures
        speech + both_taken(
            Seq::<SpeechSegment<T>>::empty(),
            Seq::<SpeechSegment<T>>::empty(),
            first,
            accepting,
        ) == speech,
        both_taken(
            Seq::<SpeechSegment<T>>::empty(),
            Seq::<SpeechSegment<T>>::empty(),
            first,
            accepting,
        ).len() == 0,
{
    reveal(both_taken);
    let none = Seq::<SpeechSegment<T>>::empty();
    assert(speech + both_taken(none, none, first, accepting) =~= speech);
}

#[verifier::spinoff_prover]
#[verifier::rlimit(60)]
proof fn lemma_ended_speech_added<T>(
    run: RunModel<T>,
    event: PipelineEvent<T>,
    mic: Option<SpeechSegment<T>>,
    system: Option<SpeechSegment<T>>,
    accepting: bool,
    detector_open: bool,
)
    requires
        event == (PipelineEvent::SpeechEnded { mic, system }),
    ensures
        adds_what_was_said(run, event, accepting, detector_open),
{
    reveal(adds_what_was_said);
    match run.stage {
        PipelineStage::EndSilent { mic: end_mic, system: end_system, then } => {
            lemma_silence_speaks(
                run,
                one_of(mic, end_mic),
                one_of(system, end_system),
                then,
                accepting,
            );
        },
        PipelineStage::EndBroken { moment } => {
            lemma_break_speaks(
                run,
                one_of(mic, true),
                one_of(system, true),
                moment,
                accepting,
                detector_open,
            );
        },
        _ => {
            lemma_nothing_said(run.speech, run.pipeline.next_id, accepting);
        },
    }
}

proof fn lemma_heard_speech_added<T>(
    run: RunModel<T>,
    event: PipelineEvent<T>,
    mic: Vec<SpeechSegment<T>>,
    system: Vec<SpeechSegment<T>>,
    accepting: bool,
    detector_open: bool,
)
    requires
        event == (PipelineEvent::Heard { mic, system }),
    ensures
        adds_what_was_said(run, event, accepting, detector_open),
{
    reveal(adds_what_was_said);
    match run.stage {
        PipelineStage::Hear => {
            lemma_window_speaks(run, mic@, system@, accepting, detector_open);
        },
        PipelineStage::Flush => {
            lemma_flush_speaks(run, mic@, system@, accepting);
        },
        _ => {
            lemma_nothing_said(run.speech, run.pipeline.next_id, accepting);
        },
    }
}

/// What both sources add, chunk by chunk.
proof fn lemma_both_taken<T>(
    mine: Seq<SpeechSegment<T>>,
    theirs: Seq<SpeechSegment<T>>,
    first: int,
    accepting: bool,
)
    requires
        0 <= first,
        first + mine.len() + theirs.len() <= u64::MAX,
    ensures
        ({
            let put = both_taken(mine, theirs, first, accepting);
            &&& !accepting ==> put.len() == 0
            &&& forall|k: int|
                0 <= k < put.len() ==> {
                    &&& (#[trigger] put[k]).chunk_id == first + k
                    &&& put[k].data.len() >= 800
                    &&& (put[k].device_type is Microphone && is_one_said(
                        put[k],
                        mine,
                        DeviceType::Microphone,
                    )) || (put[k].device_type is System && is_one_said(
                        put[k],
                        theirs,
                        DeviceType::System,
                    ))
                }
            &&& forall|i: int|
                0 <= i < mine.len() && accepting && (#[trigger] mine[i]).samples@.len() >= 800
                    ==> is_put(put, mine[i], DeviceType::Microphone)
            &&& forall|i: int|
                0 <= i < theirs.len() && accepting && (#[trigger] theirs[i]).samples@.len() >= 800
                    ==> is_put(put, theirs[i], DeviceType::System)
        }),
{
    reveal(both_taken);
    let put = both_taken(mine, theirs, first, accepting);
    let one = taken_speech(mine, DeviceType::Microphone, first, accepting);
    lemma_taken_speech(mine, DeviceType::Microphone, first, accepting);
    let two = taken_speech(theirs, DeviceType::System, first + one.len(), accepting);
    lemma_taken_speech(theirs, DeviceType::System, first + one.len(), accepting);
    assert forall|k: int| 0 <= k < put.len() implies {
        &&& (#[trigger] put[k]).chunk_id == first + k
        &&& put[k].data.len() >= 800
        &&& (put[k].device_type is Microphone && is_one_said(put[k], mine, DeviceType::Microphone))
            || (put[k].device_type is System && is_one_said(put[k], theirs, DeviceType::System))
    } by {
        if k < one.len() {
            assert(put[k] == one[k]);
        } else {
            assert(put[k] == two[k - one.len()]);
        }
    }
    assert forall|i: int| 0 <= i < mine.len() && accepting && (#[trigger] mine[i]).samples@.len() >= 800
        implies is_put(put, mine[i], DeviceType::Microphone) by {
        assert(is_put(one, mine[i], DeviceType::Microphone));
        let k = choose|k: int|
            0 <= k < one.len() && is_said(#[trigger] one[k], mine[i], DeviceType::Microphone);
        assert(put[k] == one[k]);
    }
    assert forall|i: int|
        0 <= i < theirs.len() && accepting && (#[trigger] theirs[i]).samples@.len() >= 800 implies is_put(
        put,
        theirs[i],
        DeviceType::System,
    ) by {
        assert(is_put(two, theirs[i], DeviceType::System));
        let k = choose|k: int|
            0 <= k < two.len() && is_said(#[trigger] two[k], theirs[i], DeviceType::System);
        assert(put[one.len() + k] == two[k]);
    }
}

proof fn lemma_kept_is_among<T>(
    pipeline: PipelineModel<T>,
    segments: Seq<SpeechSegment<T>>,
    detector_open: bool,
)
    ensures
        pipeline.kept(segments, detector_open).len() <= segments.len(),
        forall|k: int|
            0 <= k < pipeline.kept(segments, detector_open).len() ==> segments.contains(
                #[trigger] pipeline.kept(segments, detector_open)[k],
            ),
    decreases segments.len(),
{
    let kept = pipeline.kept(segments, detector_open);
    if detector_open && segments.len() > 0 {
        let fewer = segments.drop_last();
        lemma_kept_is_among(pipeline, fewer, detector_open);
        let before = pipeline.kept(fewer, detector_open);
        assert forall|k: int| 0 <= k < kept.len() implies segments.contains(#[trigger] kept[k]) by {
            if k < before.len() {
                assert(kept[k] == before[k]);
                let i = choose|i: int| 0 <= i < fewer.len() && fewer[i] == before[k];
                assert(segments[i] == kept[k]);
            } else {
                assert(segments[segments.len() - 1] == kept[k]);
            }
        }
    }
}

/// Speech keeps its source, whatever the run stands at: everything that a step adds is a
/// stretch that came with it, all of its samples from its start, under the source it was heard
/// in. It goes behind what waits already, with the numbers that follow, and nothing is added
/// where nobody takes it.
pub proof fn speech_keeps_its_source<T>(
    run: RunModel<T>,
    event: PipelineEvent<T>,
    accepting: bool,
    detector_open: bool,
)
    requires
        run.pipeline.next_id >= 0,
        run.pipeline.next_id + RunModel::<T>::coming(event) <= u64::MAX,
    ensures
        ({
            let after = run.next(event, accepting, detector_open);
            let had = run.speech.len() as int;
            &&& after.speech.len() >= had
            &&& after.speech.take(had) == run.speech
            &&& after.speech.len() > had ==> accepting
            &&& after.pipeline.next_id == run.pipeline.next_id + after.speech.len() - had
            &&& forall|k: int|
                had <= k < after.speech.len() ==> {
                    &&& (#[trigger] after.speech[k]).chunk_id == run.pipeline.next_id + k - had
                    &&& after.speech[k].data.len() >= 800
                    &&& after.speech[k].device_type is Microphone || after.speech[k].device_type
                        is System
                    &&& after.speech[k].device_type is Microphone ==> exists|
                        segment: SpeechSegment<T>,
                    | #[trigger]
                        said_into_the_microphone(event, segment) && is_said(
                            after.speech[k],
                            segment,
                            DeviceType::Microphone,
                        )
                    &&& after.speech[k].device_type is System ==> exists|segment: SpeechSegment<T>|
                        #[trigger]
                        said_by_the_system(event, segment) && is_said(
                            after.speech[k],
                            segment,
                            DeviceType::System,
                        )
                }
        }),
{
    let after = run.next(event, accepting, detector_open);
    let mine = mic_part(run, event, detector_open);
    let theirs = system_part(run, event);
    let start = run.pipeline.next_id;
    lemma_speech_added(run, event, accepting, detector_open);
    reveal(adds_what_was_said);
    lemma_parts_came_with_the_event(run, event, detector_open);
    let put = both_taken(mine, theirs, start, accepting);
    lemma_both_taken(mine, theirs, start, accepting);
    let had = run.speech.len() as int;
    let speech = after.speech;
    assert(speech.take(had) =~= run.speech);
    assert forall|k: int| had <= k < speech.len() implies {
        &&& (#[trigger] speech[k]).chunk_id == start + k - had
        &&& speech[k].data.len() >= 800
        &&& speech[k].device_type is Microphone || speech[k].device_type is System
        &&& speech[k].device_type is Microphone ==> exists|segment: SpeechSegment<T>| #[trigger]
            said_into_the_microphone(event, segment) && is_said(
                speech[k],
                segment,
                DeviceType::Microphone,
            )
        &&& speech[k].device_type is System ==> exists|segment: SpeechSegment<T>| #[trigger]
            said_by_the_system(event, segment) && is_said(speech[k], segment, DeviceType::System)
    } by {
        assert(speech[k] == put[k - had]);
        if speech[k].device_type is Microphone {
            assert(is_one_said(put[k - had], mine, DeviceType::Microphone));
            let i = choose|i: int|
                0 <= i < mine.len() && is_said(
                    put[k - had],
                    #[trigger] mine[i],
                    DeviceType::Microphone,
                );
            assert(said_into_the_microphone(event, mine[i]));
        } else {
            assert(is_one_said(put[k - had], theirs, DeviceType::System));
            let i = choose|i: int|
                0 <= i < theirs.len() && is_said(
                    put[k - had],
                    #[trigger] theirs[i],
                    DeviceType::System,
                );
            assert(said_by_the_system(event, theirs[i]));
        }
    }
}

proof fn lemma_parts_came_with_the_event<T>(
    run: RunModel<T>,
    event: PipelineEvent<T>,
    detector_open: bool,
)
    ensures
        forall|i: int|
            0 <= i < mic_part(run, event, detector_open).len() ==> said_into_the_microphone(
                event,
                #[trigger] mic_part(run, event, detector_open)[i],
            ),
        forall|i: int|
            0 <= i < system_part(run, event).len() ==> said_by_the_system(
                event,
                #[trigger] system_part(run, event)[i],
            ),
        mic_part(run, event, detector_open).len() + system_part(run, event).len() <= RunModel::<
            T,
        >::coming(event),
{
    match event {
        PipelineEvent::SpeechEnded { mic, system } => {
            lemma_kept_is_among(run.pipeline, one_of(mic, true), detector_open);
        },
        PipelineEvent::Heard { mic, system } => {
            lemma_kept_is_among(run.pipeline, mic@, detector_open);
        },
        _ => {},
    }
}

/// Nothing that was said is lost: what comes from the system and is long enough goes to
/// recognition as the system's, wherever it was asked for; what comes from the microphone does
/// so as the owner's, unless a second opinion found it to be an echo. Where silence or the end
/// of the recording ended a stretch, it is never taken for one.
pub proof fn what_was_said_goes_to_recognition<T>(
    run: RunModel<T>,
    event: PipelineEvent<T>,
    segment: SpeechSegment<T>,
    detector_open: bool,
)
    requires
        run.pipeline.next_id >= 0,
        run.pipeline.next_id + RunModel::<T>::coming(event) <= u64::MAX,
        segment.samples@.len() >= 800,
    ensures
        ({
            let speech = run.next(event, true, detector_open).speech;
            let more = speech.skip(run.speech.len() as int);
            let from = segment.start_timestamp_ms as int;
            let to = segment.end_timestamp_ms as int;
            let asked = match (run.stage, event) {
                (PipelineStage::EndSilent { mic, system, then }, PipelineEvent::SpeechEnded { .. }) =>
                (mic, system),
                (PipelineStage::EndBroken { .. }, PipelineEvent::SpeechEnded { .. }) => (true, true),
                (PipelineStage::Hear, PipelineEvent::Heard { .. }) => (true, true),
                (PipelineStage::Flush, PipelineEvent::Heard { .. }) => (true, true),
                _ => (false, false),
            };
            let judged = detector_open && (run.stage is EndBroken || run.stage is Hear);
            let echo = active_in(run.pipeline.far, run.pipeline.slot, from, to, false) >= 300_000_000
                && active_in(run.pipeline.own, run.pipeline.slot, from, to, true) < 250_000_000;
            &&& asked.1 && said_by_the_system(event, segment) ==> is_put(
                more,
                segment,
                DeviceType::System,
            )
            &&& asked.0 && said_into_the_microphone(event, segment) && !(judged && echo) ==> is_put(
                more,
                segment,
                DeviceType::Microphone,
            )
        }),
{
    lemma_speech_added(run, event, true, detector_open);
    lemma_parts_came_with_the_event(run, event, detector_open);
    lemma_parts_hold_what_was_said(run, event, segment, detector_open);
    lemma_parts_are_put(run, event, segment, detector_open);
}

proof fn lemma_parts_are_put<T>(
    run: RunModel<T>,
    event: PipelineEvent<T>,
    segment: SpeechSegment<T>,
    detector_open: bool,
)
    requires
        run.pipeline.next_id >= 0,
        run.pipeline.next_id + RunModel::<T>::coming(event) <= u64::MAX,
        mic_part(run, event, detector_open).len() + system_part(run, event).len() <= RunModel::<
            T,
        >::coming(event),
        segment.samples@.len() >= 800,
        adds_what_was_said(run, event, true, detector_open),
    ensures
        ({
            let speech = run.next(event, true, detector_open).speech;
            let more = speech.skip(run.speech.len() as int);
            &&& speech.len() >= run.speech.len()
            &&& system_part(run, event).contains(segment) ==> is_put(
                more,
                segment,
                DeviceType::System,
            )
            &&& mic_part(run, event, detector_open).contains(segment) ==> is_put(
                more,
                segment,
                DeviceType::Microphone,
            )
        }),
{
    let mine = mic_part(run, event, detector_open);
    let theirs = system_part(run, event);
    let put = both_taken(mine, theirs, run.pipeline.next_id, true);
    lemma_both_taken(mine, theirs, run.pipeline.next_id, true);
    let speech = run.next(event, true, detector_open).speech;
    assert(speech == run.speech + put) by {
        reveal(adds_what_was_said);
    }
    assert(speech.skip(run.speech.len() as int) =~= put);
    if theirs.contains(segment) {
        let i = choose|i: int| 0 <= i < theirs.len() && theirs[i] == segment;
        assert(is_put(put, theirs[i], DeviceType::System));
    }
    if mine.contains(segment) {
        let i = choose|i: int| 0 <= i < mine.len() && mine[i] == segment;
        assert(is_put(put, mine[i], DeviceType::Microphone));
    }
}

proof fn lemma_parts_hold_what_was_said<T>(
    run: RunModel<T>,
    event: PipelineEvent<T>,
    segment: SpeechSegment<T>,
    detector_open: bool,
)
    ensures
        ({
            let from = segment.start_timestamp_ms as int;
            let to = segment.end_timestamp_ms as int;
            let asked = match (run.stage, event) {
                (PipelineStage::EndSilent { mic, system, then }, PipelineEvent::SpeechEnded { .. }) =>
                (mic, system),
                (PipelineStage::EndBroken { .. }, PipelineEvent::SpeechEnded { .. }) => (true, true),
                (PipelineStage::Hear, PipelineEvent::Heard { .. }) => (true, true),
                (PipelineStage::Flush, PipelineEvent::Heard { .. }) => (true, true),
                _ => (false, false),
            };
            let judged = detector_open && (run.stage is EndBroken || run.stage is Hear);
            let echo = active_in(run.pipeline.far, run.pipeline.slot, from, to, false) >= 300_000_000
                && active_in(run.pipeline.own, run.pipeline.slot, from, to, true) < 250_000_000;
            &&& asked.1 && said_by_the_system(event, segment) ==> system_part(run, event).contains(
                segment,
            )
            &&& asked.0 && said_into_the_microphone(event, segment) && !(judged && echo)
                ==> mic_part(run, event, detector_open).contains(segment)
        }),
{
    assert(seq![segment][0] == segment);
    match event {
        PipelineEvent::SpeechEnded { mic, system } => {
            if system == Some(segment) {
                assert(one_of(system, true).contains(segment));
            }
            if mic == Some(segment) {
                assert(one_of(mic, true).contains(segment));
                lemma_kept_unless_echo(run.pipeline, one_of(mic, true), segment, detector_open);
            }
        },
        PipelineEvent::Heard { mic, system } => {
            if mic@.contains(segment) {
                lemma_kept_unless_echo(run.pipeline, mic@, segment, detector_open);
            }
        },
        _ => {},
    }
}

proof fn lemma_kept_unless_echo<T>(
    pipeline: PipelineModel<T>,
    segments: Seq<SpeechSegment<T>>,
    segment: SpeechSegment<T>,
    detector_open: bool,
)
    requires
        segments.contains(segment),
    ensures
        ({
            let from = segment.start_timestamp_ms as int;
            let to = segment.end_timestamp_ms as int;
            let echo = active_in(pipeline.far, pipeline.slot, from, to, false) >= 300_000_000
                && active_in(pipeline.own, pipeline.slot, from, to, true) < 250_000_000;
            !(detector_open && echo) ==> pipeline.kept(segments, detector_open).contains(segment)
        }),
{
    if detector_open {
        let i = choose|i: int| 0 <= i < segments.len() && segments[i] == segment;
        let from = segment.start_timestamp_ms as int;
        let to = segment.end_timestamp_ms as int;
        if active_in(pipeline.far, pipeline.slot, from, to, false) < 300_000_000 || active_in(
            pipeline.own,
            pipeline.slot,
            from,
            to,
            true,
        ) >= 250_000_000 {
            dropped_speech_was_echo(segments, pipeline.own, pipeline.far, pipeline.slot, i);
        }
    }
}

/// A block is taken as it came: its source, its clock and its samples, until they are in the
/// ring. One that only asks for a flush leads to the flush; nothing else does but the end.
pub proof fn block_is_taken_as_it_came<T>(
    run: RunModel<T>,
    block: AudioChunk<T>,
    now: u64,
    paused: bool,
    accepting: bool,
    detector_open: bool,
)
    requires
        run.stage is Wait,
    ensures
        ({
            let after = run.next(
                PipelineEvent::Block { block, now, paused },
                accepting,
                detector_open,
            );
            &&& after.device == block.device_type
            &&& after.clock == block.timestamp
            &&& after.block == block.data@
            &&& after.pipeline.ring == run.pipeline.ring
            &&& after.speech == run.speech
            &&& after.tracks == run.tracks
            &&& after.stage matches PipelineStage::EndSilent { mic, system, then } && {
                &&& mic == (!paused && now - run.pipeline.mic_input >= 800_000_000)
                &&& system == (!paused && now - run.pipeline.system_input >= 800_000_000)
                &&& then == if block.chunk_id >= 0xffff_ffff_ffff_fff5u64 {
                    AfterSilence::Flush
                } else {
                    AfterSilence::Block
                }
            }
        }),
{
}

/// Only the system's blocks go through the gain, and every block goes into the ring once, under
/// its own source and clock; the windows that come out of it next are those that are worked on.
pub proof fn block_goes_into_the_ring_under_its_source<T>(
    run: RunModel<T>,
    now: u64,
    active: Option<(bool, bool)>,
    mic: Option<SpeechSegment<T>>,
    system: Option<SpeechSegment<T>>,
    accepting: bool,
    detector_open: bool,
)
    ensures
        run.stage matches PipelineStage::EndSilent { mic: _, system: _, then } && then is Block ==> {
            let after = run.next(
                PipelineEvent::SpeechEnded { mic, system },
                accepting,
                detector_open,
            );
            &&& run.device is System ==> after.stage is Gain
            &&& !(run.device is System) ==> after.stage is Sources
            &&& after.block == run.block && after.device == run.device && after.clock == run.clock
        },
        run.stage is Sources && !run.has_meter && (run.device is Microphone || run.device is System)
            ==> {
            let after = run.next(PipelineEvent::Sources { now, active }, accepting, detector_open);
            let ring = match active {
                Some((mic_on, system_on)) => RingModel {
                    mic_enabled: mic_on,
                    system_enabled: system_on,
                    ..run.pipeline.ring
                },
                None => run.pipeline.ring,
            };
            let filled = ring.with_block(run.device, run.block, run.clock);
            &&& after.block.len() == 0
            &&& after.active == active
            &&& after.stage is EndBroken ==> after.pipeline.ring == filled
                && filled.seams.resets == run.pipeline.ring.seams.resets + 1
            &&& filled.seams.resets == run.pipeline.ring.seams.resets + 1 ==> after.stage
                is EndBroken
            &&& !(after.stage is EndBroken) && !run.draining ==> match filled.window_taken() {
                Some((first, second, rest)) => after.stage is Observe && after.mic_window == first
                    && after.system_window == second && after.pipeline.ring == rest,
                None => after.stage is Wait && after.pipeline.ring == filled,
            }
        },
{
}

/// Echo is taken out by us only where there is something to do so with and the system does not
/// do it already. What comes of it replaces the microphone's window and nothing else.
pub proof fn only_the_microphone_is_cleaned<T>(
    run: RunModel<T>,
    own_speech: Option<bool>,
    far_end: bool,
    system_is_cancelling: bool,
    cleaned: Vec<T>,
    accepting: bool,
    detector_open: bool,
)
    ensures
        run.stage is Observe ==> {
            let after = run.next(
                PipelineEvent::Observed { own_speech, far_end, system_is_cancelling },
                accepting,
                detector_open,
            );
            &&& run.pipeline.has_canceller && !system_is_cancelling ==> after.stage is Cancel
            &&& !run.pipeline.has_canceller || system_is_cancelling ==> after.stage is Hear
            &&& after.mic_window == run.mic_window && after.system_window == run.system_window
            &&& after.pipeline.own == run.pipeline.own.push(own_speech)
            &&& after.pipeline.far == run.pipeline.far.push(Some(far_end))
        },
        run.stage is Cancel ==> {
            let after = run.next(
                PipelineEvent::Cancelled { mic: cleaned },
                accepting,
                detector_open,
            );
            &&& after.mic_window == cleaned@
            &&& after.system_window == run.system_window
            &&& after.stage is Hear
            &&& after.pipeline == run.pipeline
        },
{
}

/// A block with its gain applied takes the place of the block, under the same source and clock;
/// that the limiter acted is kept until it was shown.
pub proof fn gained_block_takes_its_place<T>(
    run: RunModel<T>,
    samples: Vec<T>,
    limited: bool,
    accepting: bool,
    detector_open: bool,
)
    requires
        run.stage is Gain,
    ensures
        ({
            let after = run.next(
                PipelineEvent::Gained { samples, limited },
                accepting,
                detector_open,
            );
            &&& after.block == samples@
            &&& after.device == run.device && after.clock == run.clock
            &&& after.stage is Sources
            &&& after.pipeline.limited <==> limited || run.pipeline.limited
            &&& after.pipeline.ring == run.pipeline.ring
        }),
{
}

/// A level is shown where there is a meter and a twenty-fifth of a second has passed, and of a
/// block that holds something; the block stays as it is. Only the system's level tells of the
/// limiter.
pub proof fn level_is_shown_of_a_block_that_stays<T>(
    run: RunModel<T>,
    now: u64,
    active: Option<(bool, bool)>,
)
    requires
        run.device is Microphone || run.device is System,
    ensures
        ({
            let after = run.after_sources(now, active);
            let shown = if run.device is Microphone {
                run.pipeline.mic_level
            } else {
                run.pipeline.system_level
            };
            run.has_meter && run.block.len() > 0 && now - shown >= 40_000_000 ==> {
                &&& after.stage == (PipelineStage::Meter {
                    limited: run.device is System && run.pipeline.limited,
                })
                &&& after.block == run.block && after.device == run.device && after.clock
                    == run.clock && after.active == active
                &&& after.pipeline.ring == run.pipeline.ring
            }
        }),
        ({
            let after = run.after_sources(now, active);
            let shown = if run.device is Microphone {
                run.pipeline.mic_level
            } else {
                run.pipeline.system_level
            };
            after.stage is Meter ==> run.has_meter && run.block.len() > 0 && now - shown
                >= 40_000_000
        }),
{
}

/// A block whose level was shown goes into the ring as any other: once, under its own source and
/// clock.
pub proof fn shown_block_goes_into_the_ring<T>(
    run: RunModel<T>,
    accepting: bool,
    detector_open: bool,
)
    requires
        run.stage is Meter,
        !run.draining,
        run.device is Microphone || run.device is System,
    ensures
        ({
            let after = run.next(PipelineEvent::Done, accepting, detector_open);
            let ring = match run.active {
                Some((mic_on, system_on)) => RingModel {
                    mic_enabled: mic_on,
                    system_enabled: system_on,
                    ..run.pipeline.ring
                },
                None => run.pipeline.ring,
            };
            let filled = ring.with_block(run.device, run.block, run.clock);
            &&& after.block.len() == 0
            &&& after.stage is EndBroken ==> after.pipeline.ring == filled
            &&& !(after.stage is EndBroken) ==> match filled.window_taken() {
                Some((first, second, rest)) => after.stage is Observe && after.mic_window == first
                    && after.system_window == second && after.pipeline.ring == rest,
                None => after.stage is Wait && after.pipeline.ring == filled,
            }
        }),
{
}

/// A window is filed under the clock of the block that completed it and under the next number,
/// at the rate of the recording; what is left at the end has no clock.
pub proof fn window_is_filed_under_its_clock<T>(
    run: RunModel<T>,
    mixed: Vec<T>,
    accepting: bool,
    detector_open: bool,
    place: int,
)
    requires
        run.stage is Mix,
        0 <= place < 3,
    ensures
        ({
            let after = run.next(
                PipelineEvent::Mixed { samples: mixed },
                accepting,
                detector_open,
            );
            let track = after.tracks[run.tracks.len() + place];
            &&& !run.draining ==> track.timestamp == run.clock
            &&& run.draining ==> track.timestamp == 0
            &&& track.chunk_id == run.pipeline.next_id as u64
            &&& track.sample_rate == run.pipeline.ring.rate as u32
            &&& after.speech == run.speech
        }),
{
    assert(run.window_tracks(mixed@).len() == 3);
}

/// A window whose speech was heard is mixed where tracks are kept, as it was heard; otherwise
/// the next one is taken at once. At the end voice detection hands out what it holds only when
/// nothing is left, and then the run waits on, or closes its tracks if it was to end.
pub proof fn heard_window_is_mixed<T>(
    run: RunModel<T>,
    mic: Vec<SpeechSegment<T>>,
    system: Vec<SpeechSegment<T>>,
    accepting: bool,
    detector_open: bool,
)
    ensures
        run.stage is Hear && run.keeps_tracks ==> {
            let after = run.next(PipelineEvent::Heard { mic, system }, accepting, detector_open);
            &&& after.stage is Mix
            &&& after.mic_window == run.mic_window && after.system_window == run.system_window
            &&& after.pipeline.ring == run.pipeline.ring
            &&& after.tracks == run.tracks
        },
        run.stage is Hear && !run.keeps_tracks ==> {
            let after = run.next(PipelineEvent::Heard { mic, system }, accepting, detector_open);
            &&& !(after.stage is Mix)
            &&& after.tracks == run.tracks
            &&& after.stage is Flush ==> run.draining && run.pipeline.ring.mic.len() == 0
                && run.pipeline.ring.system.len() == 0 || run.pipeline.ring.window <= 0
            &&& after.stage is Wait ==> !run.draining
        },
        run.stage is Flush ==> {
            let after = run.next(PipelineEvent::Heard { mic, system }, accepting, detector_open);
            &&& run.closing ==> after.stage is Finish
            &&& !run.closing ==> after.stage is Wait
            &&& !after.draining
        },
        run.stage is Wait ==> {
            let after = run.next(PipelineEvent::Closed, accepting, detector_open);
            &&& after.draining && after.closing
            &&& after.stage is Observe || after.stage is Flush
        },
        run.stage is Finish ==> run.next(PipelineEvent::Done, accepting, detector_open).stage
            is Ended,
{
}

} // verus!
