//! What happens to a captured block before it reaches the pipeline.
//!
//! Mixing down, resampling, filtering and loudness are done by the caller. What is
//! decided here: whether a block belongs in the recording at all, when there is enough
//! for the resampler, and what is silenced.

use crate::recording_state::{AudioChunk, AudioError, DeviceType, RecordingState};
use crate::text::{chars_of, contains_text, fold_text, folded_text, holds_text};
use vstd::prelude::*;

verus! {

/// The rate that the pipeline expects.
pub const TARGET_SAMPLE_RATE: u32 = 48_000;

/// How many samples the resampler takes at once.
pub const RESAMPLER_CHUNK_SIZE: usize = 512;

/// How a stream is brought to the pipeline's rate.
#[derive(Clone, Copy, Debug, PartialEq, Eq, Structural)]
pub struct ResamplerPlan {
    pub sinc_len: usize,
    pub cubic: bool,
    pub oversampling: usize,
}

/// The further the rates are apart, the longer the filter. From half the rate down
/// and from twice the rate up, aliasing matters most.
pub open spec fn plan_for(sample_rate: int) -> ResamplerPlan {
    if TARGET_SAMPLE_RATE >= 2 * sample_rate {
        ResamplerPlan { sinc_len: 512, cubic: true, oversampling: 512 }
    } else if 2 * TARGET_SAMPLE_RATE >= 3 * sample_rate {
        ResamplerPlan { sinc_len: 384, cubic: true, oversampling: 384 }
    } else if TARGET_SAMPLE_RATE > sample_rate {
        ResamplerPlan { sinc_len: 256, cubic: false, oversampling: 256 }
    } else if 2 * TARGET_SAMPLE_RATE <= sample_rate {
        ResamplerPlan { sinc_len: 512, cubic: true, oversampling: 512 }
    } else {
        ResamplerPlan { sinc_len: 384, cubic: false, oversampling: 384 }
    }
}

/// How a stream of this rate is brought to the pipeline's, if it has to be.
pub fn resampler_plan(sample_rate: u32) -> (plan: Option<ResamplerPlan>)
    ensures
        plan == if sample_rate == TARGET_SAMPLE_RATE {
            None
        } else {
            Some(plan_for(sample_rate as int))
        },
{
    let rate: u64 = sample_rate as u64;
    let target: u64 = TARGET_SAMPLE_RATE as u64;
    if sample_rate == TARGET_SAMPLE_RATE {
        None
    } else if target >= 2 * rate {
        Some(ResamplerPlan { sinc_len: 512, cubic: true, oversampling: 512 })
    } else if 2 * target >= 3 * rate {
        Some(ResamplerPlan { sinc_len: 384, cubic: true, oversampling: 384 })
    } else if target > rate {
        Some(ResamplerPlan { sinc_len: 256, cubic: false, oversampling: 256 })
    } else if 2 * target <= rate {
        Some(ResamplerPlan { sinc_len: 512, cubic: true, oversampling: 512 })
    } else {
        Some(ResamplerPlan { sinc_len: 384, cubic: false, oversampling: 384 })
    }
}

/// What the caller is to do next with a block.
#[derive(Debug)]
pub enum BlockStep<T> {
    /// Put exactly one chunk through the resampler.
    Resample(Vec<T>),
    /// There is no resampler: convert the block on its own.
    ConvertAlone(Vec<T>),
    /// Nothing is ready yet; what came is kept for the next block.
    Wait,
    /// Filter and normalise, microphone only.
    Enhance(Vec<T>),
    /// Hand the block on as it is.
    HandOn(Vec<T>),
}

/// One source's capture.
pub struct AudioCapture<T> {
    pub device_type: DeviceType,
    pub sample_rate: u32,
    pub needs_resampling: bool,
    /// There is a resampler that keeps its state from block to block.
    pub has_resampler: bool,
    /// Samples that wait for the resampler.
    pub waiting: Vec<T>,
    /// What the resampler gave for the current block.
    pub converted: Vec<T>,
    /// The current block, as long as its conversion may have to be done alone.
    pub block: Vec<T>,
    pub chunk_counter: u64,
}

/// `len` times the same sample.
pub open spec fn repeated<T>(sample: T, len: nat) -> Seq<T> {
    Seq::new(len, |i: int| sample)
}

/// Replaces every sample by silence.
pub fn silence_block<T: Copy>(samples: &mut Vec<T>, silence: T)
    ensures
        final(samples)@ == repeated(silence, old(samples)@.len()),
{
    let mut index: usize = 0;
    while index < samples.len()
        invariant
            index <= samples@.len(),
            samples@.len() == old(samples)@.len(),
            forall|i: int| 0 <= i < index ==> #[trigger] samples@[i] == silence,
        decreases samples@.len() - index,
    {
        samples.set(index, silence);
        index += 1;
    }
    assert(samples@ =~= repeated(silence, old(samples)@.len()));
}

fn copied<T: Copy>(samples: &Vec<T>, from: usize, to: usize) -> (part: Vec<T>)
    requires
        from <= to <= samples@.len(),
    ensures
        part@ == samples@.subrange(from as int, to as int),
{
    let mut part: Vec<T> = Vec::new();
    let mut index: usize = from;
    while index < to
        invariant
            from <= index <= to <= samples@.len(),
            part@ =~= samples@.subrange(from as int, index as int),
        decreases to - index,
    {
        part.push(samples[index]);
        index += 1;
    }
    part
}

fn appended<T: Copy>(samples: &mut Vec<T>, more: &Vec<T>)
    ensures
        final(samples)@ == old(samples)@ + more@,
{
    let ghost before = samples@;
    let mut index: usize = 0;
    assert(before + more@.take(0) =~= before);
    while index < more.len()
        invariant
            index <= more@.len(),
            samples@ == before + more@.take(index as int),
        decreases more@.len() - index,
    {
        samples.push(more[index]);
        index += 1;
        assert(samples@ =~= before + more@.take(index as int));
    }
    assert(more@.take(more@.len() as int) =~= more@);
}

impl<T: Copy> AudioCapture<T> {
    pub fn new(device_type: DeviceType, sample_rate: u32, has_resampler: bool) -> (capture:
        AudioCapture<T>)
        ensures
            capture.device_type == device_type,
            capture.sample_rate == sample_rate,
            capture.needs_resampling == (sample_rate != TARGET_SAMPLE_RATE),
            capture.has_resampler == has_resampler,
            capture.waiting@.len() == 0,
            capture.converted@.len() == 0,
            capture.block@.len() == 0,
            capture.chunk_counter == 0,
    {
        AudioCapture {
            device_type,
            sample_rate,
            needs_resampling: sample_rate != TARGET_SAMPLE_RATE,
            has_resampler,
            waiting: Vec::new(),
            converted: Vec::new(),
            block: Vec::new(),
            chunk_counter: 0,
        }
    }

    /// Whether a block arriving now belongs in the recording, and whether its source
    /// was muted at that moment. `None` means drop it: nothing is kept before a
    /// recording, after it or while it is paused.
    pub fn admission(&self, state: &RecordingState) -> (admitted: Option<bool>)
        ensures
            admitted == if state.recording && !state.paused {
                Some(state.muted(self.device_type))
            } else {
                None
            },
    {
        if !state.recording {
            return None;
        }
        if state.paused {
            return None;
        }
        Some(state.is_audio_source_muted(self.device_type))
    }

    /// What a converted block goes through next.
    fn pass_on(&self, samples: Vec<T>) -> (step: BlockStep<T>)
        ensures
            step == if self.device_type is Microphone {
                BlockStep::Enhance(samples)
            } else {
                BlockStep::HandOn(samples)
            },
    {
        match self.device_type {
            DeviceType::Microphone => BlockStep::Enhance(samples),
            _ => BlockStep::HandOn(samples),
        }
    }

    /// A block was admitted: the samples are silenced if the source was muted then.
    /// Where the rate is the pipeline's they go on, else they join what waits for the
    /// resampler.
    pub fn begin_block(&mut self, mono: Vec<T>, muted_at_capture: bool, silence: T) -> (step:
        BlockStep<T>)
        ensures
            ({
                let heard = if muted_at_capture {
                    repeated(silence, mono@.len())
                } else {
                    mono@
                };
                let before = *old(self);
                let after = *final(self);
                &&& after.device_type == before.device_type
                &&& after.sample_rate == before.sample_rate
                &&& after.needs_resampling == before.needs_resampling
                &&& after.has_resampler == before.has_resampler
                &&& after.chunk_counter == before.chunk_counter
                &&& !before.needs_resampling ==> {
                    &&& after.waiting == before.waiting
                    &&& before.device_type is Microphone ==> (step matches BlockStep::Enhance(
                        samples,
                    ) && samples@ == heard)
                    &&& !(before.device_type is Microphone) ==> (step matches BlockStep::HandOn(
                        samples,
                    ) && samples@ == heard)
                }
                &&& before.needs_resampling && !before.has_resampler ==> {
                    &&& after.waiting@ == before.waiting@ + heard
                    &&& step matches BlockStep::ConvertAlone(samples) && samples@ == heard
                }
                &&& before.needs_resampling && before.has_resampler ==> {
                    let all = before.waiting@ + heard;
                    &&& after.block@ == heard
                    &&& after.converted@.len() == 0
                    &&& all.len() >= RESAMPLER_CHUNK_SIZE ==> {
                        &&& step matches BlockStep::Resample(chunk) && chunk@ == all.take(
                            RESAMPLER_CHUNK_SIZE as int,
                        )
                        &&& after.waiting@ == all.skip(RESAMPLER_CHUNK_SIZE as int)
                    }
                    &&& all.len() < RESAMPLER_CHUNK_SIZE ==> step is Wait && after.waiting@ == all
                }
            }),
    {
        let mut samples = mono;
        if muted_at_capture {
            silence_block(&mut samples, silence);
        }
        if !self.needs_resampling {
            return self.pass_on(samples);
        }
        appended(&mut self.waiting, &samples);
        if !self.has_resampler {
            return BlockStep::ConvertAlone(samples);
        }
        self.converted = Vec::new();
        self.block = samples;
        match self.next_chunk() {
            Some(chunk) => BlockStep::Resample(chunk),
            None => BlockStep::Wait,
        }
    }

    /// Exactly one chunk for the resampler, if there is enough.
    fn next_chunk(&mut self) -> (chunk: Option<Vec<T>>)
        ensures
            *final(self) == (AudioCapture { waiting: final(self).waiting, ..*old(self) }),
            match chunk {
                Some(samples) => {
                    &&& samples@ == old(self).waiting@.take(RESAMPLER_CHUNK_SIZE as int)
                    &&& old(self).waiting@.len() >= RESAMPLER_CHUNK_SIZE
                    &&& final(self).waiting@ == old(self).waiting@.skip(RESAMPLER_CHUNK_SIZE as int)
                },
                None => old(self).waiting@.len() < RESAMPLER_CHUNK_SIZE && final(self).waiting
                    == old(self).waiting,
            },
    {
        let len: usize = self.waiting.len();
        if len < RESAMPLER_CHUNK_SIZE {
            return None;
        }
        let chunk = copied(&self.waiting, 0, RESAMPLER_CHUNK_SIZE);
        assert(chunk@ =~= self.waiting@.take(RESAMPLER_CHUNK_SIZE as int));
        let rest = copied(&self.waiting, RESAMPLER_CHUNK_SIZE, len);
        assert(rest@ =~= self.waiting@.skip(RESAMPLER_CHUNK_SIZE as int));
        self.waiting = rest;
        Some(chunk)
    }

    /// The resampler has answered for one chunk. As long as chunks are left they go
    /// through too; then what came of them goes on. Where nothing came, the block is
    /// kept for the next one, unless the resampler failed: then it is converted alone.
    pub fn resampled(&mut self, outcome: Result<Vec<T>, ()>) -> (step: BlockStep<T>)
        requires
            old(self).needs_resampling,
            old(self).has_resampler,
        ensures
            final(self).device_type == old(self).device_type,
            final(self).sample_rate == old(self).sample_rate,
            final(self).needs_resampling == old(self).needs_resampling,
            final(self).has_resampler == old(self).has_resampler,
            final(self).block == old(self).block,
            final(self).chunk_counter == old(self).chunk_counter,
            ({
                let so_far = match outcome {
                    Ok(output) => old(self).converted@ + output@,
                    Err(_) => old(self).converted@,
                };
                if outcome is Ok && old(self).waiting@.len() >= RESAMPLER_CHUNK_SIZE {
                    &&& step matches BlockStep::Resample(chunk) && chunk@ == old(
                        self,
                    ).waiting@.take(RESAMPLER_CHUNK_SIZE as int)
                    &&& final(self).waiting@ == old(self).waiting@.skip(RESAMPLER_CHUNK_SIZE as int)
                    &&& final(self).converted@ == so_far
                } else {
                    &&& final(self).waiting == old(self).waiting
                    &&& final(self).converted@.len() == 0
                    &&& so_far.len() > 0 && old(self).device_type is Microphone ==> (
                    step matches BlockStep::Enhance(samples) && samples@ == so_far)
                    &&& so_far.len() > 0 && !(old(self).device_type is Microphone) ==> (
                    step matches BlockStep::HandOn(samples) && samples@ == so_far)
                    &&& so_far.len() == 0 && outcome is Err ==> (
                    step matches BlockStep::ConvertAlone(samples) && samples@ == old(self).block@)
                    &&& so_far.len() == 0 && outcome is Ok ==> step is Wait
                }
            }),
    {
        let failed = match outcome {
            Ok(output) => {
                appended(&mut self.converted, &output);
                false
            },
            Err(_) => true,
        };
        if !failed {
            match self.next_chunk() {
                Some(chunk) => {
                    return BlockStep::Resample(chunk);
                },
                None => {},
            }
        }
        if self.converted.len() > 0 {
            let done = copied(&self.converted, 0, self.converted.len());
            assert(done@ =~= self.converted@);
            self.converted = Vec::new();
            self.pass_on(done)
        } else if failed {
            let alone = copied(&self.block, 0, self.block.len());
            assert(alone@ =~= self.block@);
            BlockStep::ConvertAlone(alone)
        } else {
            BlockStep::Wait
        }
    }

    /// The block was converted on its own.
    pub fn converted_alone(&self, samples: Vec<T>) -> (step: BlockStep<T>)
        ensures
            step == if self.device_type is Microphone {
                BlockStep::Enhance(samples)
            } else {
                BlockStep::HandOn(samples)
            },
    {
        self.pass_on(samples)
    }

    /// The block as it goes to the pipeline. A source that was muted when the block was
    /// captured, or was muted since, is silence: a block is never dropped for it, so
    /// that the two tracks stay aligned.
    pub fn finish_block(
        &mut self,
        samples: Vec<T>,
        muted_at_capture: bool,
        state: &RecordingState,
        clock: u64,
        silence: T,
    ) -> (chunk: AudioChunk<T>)
        requires
            old(self).chunk_counter < u64::MAX,
        ensures
            *final(self) == (AudioCapture {
                chunk_counter: (old(self).chunk_counter + 1) as u64,
                ..*old(self)
            }),
            chunk.data@ == if muted_at_capture || state.muted(old(self).device_type) {
                repeated(silence, samples@.len())
            } else {
                samples@
            },
            chunk.sample_rate == if old(self).needs_resampling {
                TARGET_SAMPLE_RATE
            } else {
                old(self).sample_rate
            },
            chunk.timestamp == clock,
            chunk.chunk_id == old(self).chunk_counter,
            chunk.device_type == old(self).device_type,
    {
        let mut data = samples;
        if muted_at_capture || state.is_audio_source_muted(self.device_type) {
            silence_block(&mut data, silence);
        }
        let chunk_id: u64 = self.chunk_counter;
        self.chunk_counter = self.chunk_counter + 1;
        AudioChunk {
            data,
            sample_rate: if self.needs_resampling {
                TARGET_SAMPLE_RATE
            } else {
                self.sample_rate
            },
            timestamp: clock,
            chunk_id,
            device_type: self.device_type,
        }
    }
}

/// What a block that could not be handed on is reported as. A pipeline that is not
/// ready yet is no error.
pub open spec fn send_error(message: Seq<char>) -> Option<AudioError> {
    if holds_text(message, "Audio pipeline not ready"@) {
        None
    } else if holds_text(message, "channel closed"@) {
        Some(AudioError::ChannelClosed)
    } else if holds_text(message, "full"@) {
        Some(AudioError::BufferOverflow)
    } else {
        Some(AudioError::ProcessingFailed)
    }
}

pub fn classify_send_error(message: &str) -> (error: Option<AudioError>)
    ensures
        error == send_error(message@),
{
    let text = chars_of(message);
    if contains_text(&text, "Audio pipeline not ready") {
        None
    } else if contains_text(&text, "channel closed") {
        Some(AudioError::ChannelClosed)
    } else if contains_text(&text, "full") {
        Some(AudioError::BufferOverflow)
    } else {
        Some(AudioError::ProcessingFailed)
    }
}

/// The ways in which a lost device is reported.
pub open spec fn says_disconnected(message: Seq<char>) -> bool {
    ||| holds_text(message, "device is no longer available"@)
    ||| holds_text(message, "device not found"@)
    ||| holds_text(message, "device disconnected"@)
    ||| holds_text(message, "no such device"@)
    ||| holds_text(message, "device unavailable"@)
    ||| holds_text(message, "device removed"@)
}

/// What a failed stream is reported as, from what the system says in any case.
pub open spec fn stream_error(message: Seq<char>) -> AudioError {
    let lower = folded_text(message);
    if says_disconnected(lower) {
        AudioError::DeviceDisconnected
    } else if holds_text(lower, "permission"@) || holds_text(lower, "access denied"@) {
        AudioError::PermissionDenied
    } else if holds_text(lower, "channel closed"@) {
        AudioError::ChannelClosed
    } else {
        AudioError::StreamFailed
    }
}

pub fn handle_stream_error(message: &str) -> (error: AudioError)
    ensures
        error == stream_error(message@),
{
    let lower = fold_text(&chars_of(message));
    if contains_text(&lower, "device is no longer available") || contains_text(
        &lower,
        "device not found",
    ) || contains_text(&lower, "device disconnected") || contains_text(&lower, "no such device")
        || contains_text(&lower, "device unavailable") || contains_text(&lower, "device removed") {
        AudioError::DeviceDisconnected
    } else if contains_text(&lower, "permission") || contains_text(&lower, "access denied") {
        AudioError::PermissionDenied
    } else if contains_text(&lower, "channel closed") {
        AudioError::ChannelClosed
    } else {
        AudioError::StreamFailed
    }
}

/// What the resampler is fed is the stream as it was captured: the chunk that goes
/// through and what still waits make up what waited and what came.
pub proof fn waiting_samples_are_kept<T>(waiting: Seq<T>, came: Seq<T>)
    requires
        (waiting + came).len() >= RESAMPLER_CHUNK_SIZE,
    ensures
        (waiting + came).take(RESAMPLER_CHUNK_SIZE as int) + (waiting + came).skip(
            RESAMPLER_CHUNK_SIZE as int,
        ) == waiting + came,
{
    let all = waiting + came;
    assert(all.take(RESAMPLER_CHUNK_SIZE as int) + all.skip(RESAMPLER_CHUNK_SIZE as int) =~= all);
}

/// The further a rate is from 48 kHz the longer is the filter: longest from 24 kHz down and
/// from 96 kHz up, shortest between 32 kHz and the pipeline's own rate. Halfway on both sides
/// it is in between.
pub proof fn filter_grows_with_the_distance(rate: int)
    requires
        0 < rate,
    ensures
        plan_for(rate).oversampling == plan_for(rate).sinc_len,
        rate <= 24_000 || rate >= 96_000 ==> plan_for(rate).sinc_len == 512,
        24_000 < rate <= 32_000 ==> plan_for(rate).sinc_len == 384 && plan_for(rate).cubic,
        32_000 < rate < 48_000 ==> plan_for(rate).sinc_len == 256,
        48_000 < rate < 96_000 ==> plan_for(rate).sinc_len == 384,
        plan_for(rate).cubic <==> rate <= 32_000 || rate >= 96_000,
{
}

/// A block that could not be handed on is no error while the pipeline is not ready, whatever
/// else is said; a closed channel comes before a full one, and anything else is a failure of
/// processing.
pub proof fn unready_pipeline_is_no_error(before: Seq<char>, after: Seq<char>, message: Seq<char>)
    ensures
        send_error(before + "Audio pipeline not ready"@ + after) is None,
        send_error(message) is None <==> holds_text(message, "Audio pipeline not ready"@),
        send_error(message) == Some(AudioError::ChannelClosed) ==> holds_text(
            message,
            "channel closed"@,
        ),
        send_error(message) == Some(AudioError::BufferOverflow) ==> holds_text(message, "full"@)
            && !holds_text(message, "channel closed"@),
        send_error(message) matches Some(error) ==> error is ChannelClosed || error is BufferOverflow
            || error is ProcessingFailed,
        send_error(message) == Some(AudioError::ProcessingFailed) ==> !holds_text(message, "full"@)
            && !holds_text(message, "channel closed"@),
{
    lemma_held(before, "Audio pipeline not ready"@, after);
}

proof fn lemma_held(before: Seq<char>, part: Seq<char>, after: Seq<char>)
    ensures
        holds_text(before + part + after, part),
{
    let whole = before + part + after;
    let at = before.len() as int;
    assert(whole.subrange(at, at + part.len()) =~= part);
    assert(crate::text::stands_at(whole, part, at));
}

/// What a failed stream is reported as does not depend on the case it is said in. A lost device
/// comes first, whatever else is said; then a refused permission; then a closed channel.
pub proof fn stream_error_is_read_in_any_case(before: Seq<char>, after: Seq<char>, message: Seq<char>)
    ensures
        stream_error(folded_text(message)) == stream_error(message),
        ({
            let lower = folded_text(message);
            let lost = holds_text(lower, "device is no longer available"@) || holds_text(
                lower,
                "device not found"@,
            ) || holds_text(lower, "device disconnected"@) || holds_text(lower, "no such device"@)
                || holds_text(lower, "device unavailable"@) || holds_text(lower, "device removed"@);
            let refused = holds_text(lower, "permission"@) || holds_text(lower, "access denied"@);
            let closed = holds_text(lower, "channel closed"@);
            &&& stream_error(message) is DeviceDisconnected <==> lost
            &&& stream_error(message) is PermissionDenied <==> !lost && refused
            &&& stream_error(message) is ChannelClosed <==> !lost && !refused && closed
            &&& stream_error(message) is StreamFailed <==> !lost && !refused && !closed
        }),
{
    let lower = folded_text(message);
    assert forall|i: int| 0 <= i < lower.len() implies folded_text(lower)[i] == lower[i] by {
        crate::text::folding_takes_the_capitals(message[i]);
    }
    assert(folded_text(lower) =~= lower);
}

} // verus!
