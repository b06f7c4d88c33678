//! Lining up the microphone and system streams.
//!
//! Each source arrives on its own clock and in its own bursts. The ring buffer
//! places the first block of a source on the shared timeline and hands out equal
//! windows of both.
//!
//! Moments are whole nanoseconds of the recording clock. Places on the timeline
//! are billionths of a sample, so that a moment multiplied by the sample rate and
//! a number of samples multiplied by [`NANOS`] are the same unit and nothing is
//! ever rounded but the length of a fill.

use crate::recording_state::DeviceType;
use std::collections::VecDeque;
use vstd::prelude::*;

verus! {

/// Nanoseconds in a second, and billionths in a sample.
pub const NANOS: u64 = 1_000_000_000;

/// How long a shortfall must persist before it is read as a break in the stream
/// rather than a late thread.
pub const TIMELINE_OBSERVATION_NS: u64 = 2_000_000_000;

/// The smallest sustained shortfall that counts as a reading rather than noise.
pub const TIMELINE_GAP_NS: u64 = 300_000_000;

/// A sustained shortfall this large is a stream that has to be picked up again
/// from where it now is.
pub const TIMELINE_RESET_NS: u64 = 5_000_000_000;

/// The block the pipeline works in.
pub const MIXING_WINDOW_MS: u32 = 50;

/// How many windows a source may run ahead before its partner is mixed without it.
pub const PATIENCE_WINDOWS: usize = 12;

/// How many windows a buffer may hold.
pub const MAX_WINDOWS: usize = 20;

/// A window of `window_ms` in samples: never empty.
pub open spec fn window_samples(sample_rate: int, window_ms: int) -> int {
    let whole = sample_rate * window_ms / 1000;
    if whole < 1 {
        1
    } else {
        whole
    }
}

/// The pipeline's window in capture samples.
pub fn mixing_window_samples(sample_rate: u32) -> (samples: usize)
    ensures
        samples == window_samples(sample_rate as int, MIXING_WINDOW_MS as int),
{
    let whole: usize = (sample_rate as u64 * 50 / 1000) as usize;
    if whole < 1 {
        1
    } else {
        whole
    }
}

pub open spec fn non_negative(value: int) -> int {
    if value < 0 {
        0
    } else {
        value
    }
}

/// One arrival: the clock when the block came, and how far behind the clock the
/// source's timeline stood, in billionths of a sample.
pub type Reading = (u64, i128);

/// What stays of the readings at `clock`: everything inside the observation
/// window and the one reading from beyond its far edge.
pub open spec fn observed(readings: Seq<Reading>, clock: int) -> Seq<Reading>
    decreases readings.len(),
{
    if readings.len() >= 2 && clock - readings[1].0 >= TIMELINE_OBSERVATION_NS {
        observed(readings.drop_first(), clock)
    } else {
        readings
    }
}

/// The smallest shortfall among the readings.
pub open spec fn least_lag(readings: Seq<Reading>) -> int
    recommends
        readings.len() > 0,
    decreases readings.len(),
{
    if readings.len() <= 1 {
        readings[0].1 as int
    } else {
        let before = least_lag(readings.drop_last());
        let last = readings.last().1 as int;
        if last < before {
            last
        } else {
            before
        }
    }
}

/// A source's place on the shared timeline, as plain data.
pub struct LineModel {
    pub started: bool,
    pub readings: Seq<Reading>,
}

impl LineModel {
    /// The line of a source that has placed nothing yet.
    pub open spec fn fresh() -> LineModel {
        LineModel { started: false, readings: Seq::empty() }
    }

    /// The readings after one more, and the shortfall that all of them agree on.
    pub open spec fn after_reading(self, clock: u64, lag: i128, rate: int) -> (LineModel, int) {
        let kept = observed(self.readings.push((clock, lag)), clock as int);
        let least = least_lag(kept);
        if clock - kept[0].0 < TIMELINE_OBSERVATION_NS {
            (LineModel { started: self.started, readings: kept }, 0)
        } else if least >= TIMELINE_GAP_NS * rate {
            (LineModel { started: self.started, readings: Seq::empty() }, least)
        } else {
            (LineModel { started: self.started, readings: kept }, 0)
        }
    }
}

/// One capture source's place on the shared timeline.
///
/// The clock on a block is read after the block has been worked on, so anything
/// that holds the capture up pushes it later and nothing pushes it earlier. Only a
/// shortfall that every reading over a window agrees on is the device having
/// stopped producing sound.
pub struct SourceTimeline {
    /// True once this source has placed a block.
    pub started: bool,
    /// Recent readings, oldest first.
    pub lag_readings: VecDeque<Reading>,
}

impl View for SourceTimeline {
    type V = LineModel;

    open spec fn view(&self) -> LineModel {
        LineModel { started: self.started, readings: self.lag_readings@ }
    }
}

proof fn lemma_observed_is_suffix(readings: Seq<Reading>, clock: int)
    requires
        readings.len() > 0,
    ensures
        observed(readings, clock).len() > 0,
        observed(readings, clock).last() == readings.last(),
    decreases readings.len(),
{
    if readings.len() >= 2 && clock - readings[1].0 >= TIMELINE_OBSERVATION_NS {
        lemma_observed_is_suffix(readings.drop_first(), clock);
    }
}

impl SourceTimeline {
    pub fn new() -> (line: SourceTimeline)
        ensures
            line@ == LineModel::fresh(),
    {
        let line = SourceTimeline { started: false, lag_readings: VecDeque::new() };
        assert(line.lag_readings@ =~= Seq::<Reading>::empty());
        line
    }

    pub fn reset(&mut self)
        ensures
            final(self)@ == LineModel::fresh(),
    {
        self.started = false;
        self.lag_readings.clear();
        assert(self.lag_readings@ =~= Seq::<Reading>::empty());
    }

    /// The part of the current shortfall that has lasted long enough to be the
    /// stream rather than the scheduler; zero while the readings disagree.
    pub fn sustained_gap(&mut self, clock: u64, lag: i128, sample_rate: u32) -> (gap: i128)
        ensures
            (final(self)@, gap as int) == old(self)@.after_reading(clock, lag, sample_rate as int),
    {
        let ghost before = self.lag_readings@;
        self.lag_readings.push_back((clock, lag));
        let ghost pushed = self.lag_readings@;
        assert(pushed =~= before.push((clock, lag)));
        while self.lag_readings.len() >= 2 && clock >= self.lag_readings[1].0 && clock
            - self.lag_readings[1].0 >= TIMELINE_OBSERVATION_NS
            invariant
                self.lag_readings@.len() >= 1,
                observed(self.lag_readings@, clock as int) == observed(pushed, clock as int),
                self.started == old(self).started,
            decreases self.lag_readings@.len(),
        {
            let ghost held = self.lag_readings@;
            let _ = self.lag_readings.pop_front();
            assert(self.lag_readings@ =~= held.drop_first());
        }
        let ghost kept = self.lag_readings@;
        assert(kept == observed(pushed, clock as int));

        let oldest: u64 = self.lag_readings[0].0;
        if clock < oldest || clock - oldest < TIMELINE_OBSERVATION_NS {
            return 0;
        }
        let mut least: i128 = self.lag_readings[0].1;
        let mut index: usize = 1;
        assert(kept.take(1).len() == 1);
        while index < self.lag_readings.len()
            invariant
                1 <= index <= kept.len(),
                self.lag_readings@ == kept,
                self.started == old(self).started,
                least == least_lag(kept.take(index as int)),
            decreases kept.len() - index,
        {
            let next: i128 = self.lag_readings[index].1;
            assert(kept.take(index + 1).drop_last() =~= kept.take(index as int));
            if next < least {
                least = next;
            }
            index += 1;
        }
        assert(kept.take(kept.len() as int) =~= kept);
        if least >= TIMELINE_GAP_NS as i128 * sample_rate as i128 {
            self.lag_readings.clear();
            assert(self.lag_readings@ =~= Seq::<Reading>::empty());
            least
        } else {
            0
        }
    }
}

/// Everything that made the assembled audio differ from the captured streams,
/// counted.
pub struct SeamModel {
    pub mic_received: int,
    pub system_received: int,
    pub mic_inserted: int,
    pub system_inserted: int,
    pub mic_fills: int,
    pub system_fills: int,
    pub padded_mic: int,
    pub padded_system: int,
    pub dropped: int,
    pub resets: int,
}

/// The ring buffer as plain data.
#[verifier::ext_equal]
pub struct RingModel<T> {
    pub mic: Seq<T>,
    pub system: Seq<T>,
    pub mic_enabled: bool,
    pub system_enabled: bool,
    pub rate: int,
    pub window: int,
    pub cap: int,
    pub silence: T,
    pub origin: Option<int>,
    pub output: int,
    pub mic_line: LineModel,
    pub system_line: LineModel,
    pub seams: SeamModel,
}

/// `len` samples of silence.
pub open spec fn quiet<T>(silence: T, len: int) -> Seq<T> {
    Seq::new(non_negative(len) as nat, |i: int| silence)
}

/// The newest `cap` samples.
pub open spec fn newest<T>(samples: Seq<T>, cap: int) -> Seq<T> {
    if samples.len() > cap {
        samples.skip(samples.len() - cap)
    } else {
        samples
    }
}

/// The first `len` samples, with silence for what is not there.
pub open spec fn padded_to<T>(samples: Seq<T>, len: int, silence: T) -> Seq<T> {
    if samples.len() >= len {
        samples.take(len)
    } else {
        samples + quiet(silence, len - samples.len())
    }
}

/// What is left after the first `len` samples were taken.
pub open spec fn left_after<T>(samples: Seq<T>, len: int) -> Seq<T> {
    if samples.len() >= len {
        samples.skip(len)
    } else {
        Seq::empty()
    }
}

pub open spec fn one_if(condition: bool) -> int {
    if condition {
        1
    } else {
        0
    }
}

pub open spec fn larger(a: int, b: int) -> int {
    if a < b {
        b
    } else {
        a
    }
}

pub open spec fn smaller(a: int, b: int) -> int {
    if a < b {
        a
    } else {
        b
    }
}

impl<T> RingModel<T> {
    pub open spec fn buffer(self, device: DeviceType) -> Seq<T> {
        if device is Microphone {
            self.mic
        } else {
            self.system
        }
    }

    pub open spec fn line(self, device: DeviceType) -> LineModel {
        if device is Microphone {
            self.mic_line
        } else {
            self.system_line
        }
    }

    /// Where a block of `len` samples that ended at `clock` began, in billionths
    /// of a sample of the recording clock.
    pub open spec fn start_of(self, len: int, clock: int) -> int {
        non_negative(clock * self.rate - len * NANOS)
    }

    /// The place that the timelines are counted from, once a block starting at
    /// `start` has come.
    pub open spec fn origin_with(self, start: int) -> int {
        match self.origin {
            Some(origin) => origin,
            None => start,
        }
    }

    /// How far behind where the clock puts it the source's timeline sits.
    pub open spec fn lag(self, device: DeviceType, len: int, clock: int) -> int {
        let start = self.start_of(len, clock);
        non_negative(start - self.origin_with(start)) - (self.output + self.buffer(device).len())
            * NANOS
    }

    /// The source's timeline after the block's arrival, and the shortfall it is
    /// behind by: what all readings agree on, or, for the first block of a
    /// source, its own reading.
    pub open spec fn judged(self, device: DeviceType, len: int, clock: u64) -> (LineModel, int) {
        let line = self.line(device);
        let lag = self.lag(device, len, clock as int);
        if line.started {
            line.after_reading(clock, lag as i128, self.rate)
        } else {
            (LineModel { started: true, readings: line.readings }, non_negative(lag))
        }
    }

    /// The shortfall is a stream that has to be picked up again.
    pub open spec fn breaks(self, device: DeviceType, len: int, clock: u64) -> bool {
        self.judged(device, len, clock).1 >= TIMELINE_RESET_NS * self.rate
    }

    /// How many samples of silence come before the block: only the first block of
    /// a source is moved to its place, to the nearest sample.
    pub open spec fn fill(self, device: DeviceType, len: int, clock: u64) -> int {
        if self.line(device).started || self.breaks(device, len, clock) {
            0
        } else {
            (self.judged(device, len, clock).1 + NANOS / 2) / (NANOS as int)
        }
    }

    /// The timelines before the block is appended: carried on, or started over
    /// from the block when the stream broke.
    pub open spec fn placed(self, device: DeviceType, len: int, clock: u64) -> RingModel<T> {
        let start = self.start_of(len, clock as int);
        let line = self.judged(device, len, clock).0;
        if self.breaks(device, len, clock) {
            RingModel {
                mic: Seq::empty(),
                system: Seq::empty(),
                mic_line: LineModel::fresh(),
                system_line: LineModel::fresh(),
                origin: Some(start),
                output: 0,
                seams: SeamModel { resets: self.seams.resets + 1, ..self.seams },
                ..self
            }
        } else {
            RingModel {
                origin: Some(self.origin_with(start)),
                mic_line: if device is Microphone { line } else { self.mic_line },
                system_line: if device is Microphone { self.system_line } else { line },
                ..self
            }
        }
    }

    /// The ring with `fill` samples of silence and then the block at the end of
    /// the source's buffer, whatever was too old dropped.
    pub open spec fn appended(self, device: DeviceType, samples: Seq<T>, fill: int) -> RingModel<T> {
        let added = quiet(self.silence, fill) + samples;
        let mic = if device is Microphone { self.mic + added } else { self.mic };
        let system = if device is Microphone { self.system } else { self.system + added };
        let lost = non_negative(mic.len() - self.cap) + non_negative(system.len() - self.cap);
        let seams = self.seams;
        RingModel {
            mic: newest(mic, self.cap),
            system: newest(system, self.cap),
            seams: if device is Microphone {
                SeamModel {
                    mic_inserted: seams.mic_inserted + fill,
                    mic_received: seams.mic_received + samples.len(),
                    mic_fills: seams.mic_fills + one_if(fill > 0),
                    dropped: seams.dropped + lost,
                    ..seams
                }
            } else {
                SeamModel {
                    system_inserted: seams.system_inserted + fill,
                    system_received: seams.system_received + samples.len(),
                    system_fills: seams.system_fills + one_if(fill > 0),
                    dropped: seams.dropped + lost,
                    ..seams
                }
            },
            ..self
        }
    }

    /// The ring after a block.
    pub open spec fn with_block(self, device: DeviceType, samples: Seq<T>, clock: u64) -> RingModel<
        T,
    > {
        if device is Mixed {
            self
        } else {
            self.placed(device, samples.len() as int, clock).appended(
                device,
                samples,
                self.fill(device, samples.len() as int, clock),
            )
        }
    }

    /// Both sources that are wanted have a window ready, or one has run so far
    /// ahead that the other must have stopped.
    pub open spec fn can_mix(self) -> bool {
        ||| (!self.mic_enabled || self.mic.len() >= self.window) && (!self.system_enabled
            || self.system.len() >= self.window) && (self.mic_enabled || self.system_enabled)
        ||| larger(self.mic.len() as int, self.system.len() as int) >= self.window
            * PATIENCE_WINDOWS
    }

    /// The ring after `len` samples of each source were handed out.
    pub open spec fn drained(self, len: int) -> RingModel<T> {
        RingModel {
            mic: left_after(self.mic, len),
            system: left_after(self.system, len),
            output: self.output + len,
            ..self
        }
    }

    /// What one window hands out: the two windows and the ring after it.
    pub open spec fn window_taken(self) -> Option<(Seq<T>, Seq<T>, RingModel<T>)> {
        if self.can_mix() {
            let after = self.drained(self.window);
            Some(
                (
                    padded_to(self.mic, self.window, self.silence),
                    padded_to(self.system, self.window, self.silence),
                    RingModel {
                        seams: SeamModel {
                            padded_mic: self.seams.padded_mic + one_if(
                                self.mic.len() < self.window,
                            ),
                            padded_system: self.seams.padded_system + one_if(
                                self.system.len() < self.window,
                            ),
                            ..self.seams
                        },
                        ..after
                    },
                ),
            )
        } else {
            None
        }
    }

    /// How much of the tail one more window takes.
    pub open spec fn tail_len(self) -> int {
        smaller(larger(self.mic.len() as int, self.system.len() as int), self.window)
    }

    /// What the tail hands out: up to a window of both, and the ring after it.
    pub open spec fn tail_taken(self) -> Option<(Seq<T>, Seq<T>, RingModel<T>)> {
        let len = self.tail_len();
        if len == 0 {
            None
        } else {
            Some(
                (
                    padded_to(self.mic, len, self.silence),
                    padded_to(self.system, len, self.silence),
                    self.drained(len),
                ),
            )
        }
    }

    /// What every ring keeps: the window is not empty, the limit outlasts the
    /// patience, neither buffer is over the limit, and what is still held can be
    /// counted.
    pub open spec fn valid(self) -> bool {
        &&& self.rate > 0
        &&& self.window >= 1
        &&& self.cap == self.window * MAX_WINDOWS
        &&& self.mic.len() <= self.cap
        &&& self.system.len() <= self.cap
        &&& self.output >= 0
        &&& self.output + self.mic.len() + self.system.len() <= usize::MAX
        &&& self.origin matches Some(origin) ==> origin >= 0
    }

    /// The counters can take another block of `len` samples.
    pub open spec fn has_room(self, len: int) -> bool {
        self.has_room_behind(len) && self.seams.resets < u64::MAX
    }

    /// As [`Self::has_room`], once the timelines have been moved.
    pub open spec fn has_room_behind(self, len: int) -> bool {
        let most = len + TIMELINE_RESET_NS / NANOS * self.rate;
        &&& self.output + self.mic.len() + self.system.len() + most <= usize::MAX
        &&& self.seams.mic_received + len <= u64::MAX
        &&& self.seams.system_received + len <= u64::MAX
        &&& self.seams.mic_inserted + most <= u64::MAX
        &&& self.seams.system_inserted + most <= u64::MAX
        &&& self.seams.mic_fills < u64::MAX
        &&& self.seams.system_fills < u64::MAX
        &&& self.seams.dropped + self.mic.len() + self.system.len() + most <= u64::MAX
    }
}

/// Accumulates samples of the microphone and system streams until there are
/// aligned windows of both.
pub struct AudioMixerRingBuffer<T> {
    pub mic_buffer: VecDeque<T>,
    pub system_buffer: VecDeque<T>,
    pub window_size_samples: usize,
    pub max_buffer_size: usize,
    pub mic_enabled: bool,
    pub system_enabled: bool,
    pub sample_rate: u32,
    /// The sample that stands for silence.
    pub silence: T,
    pub timeline_origin: Option<i128>,
    pub output_samples: usize,
    pub mic_timeline: SourceTimeline,
    pub system_timeline: SourceTimeline,
    pub padded_mic_windows: u64,
    pub padded_system_windows: u64,
    pub dropped_samples: u64,
    /// Samples each device actually handed over.
    pub mic_received_samples: u64,
    pub system_received_samples: u64,
    pub mic_inserted_samples: u64,
    pub system_inserted_samples: u64,
    /// How many separate fills the inserted samples were spread across.
    pub mic_fill_events: u64,
    pub system_fill_events: u64,
    pub timeline_resets: u64,
}

impl<T> View for AudioMixerRingBuffer<T> {
    type V = RingModel<T>;

    open spec fn view(&self) -> RingModel<T> {
        RingModel {
            mic: self.mic_buffer@,
            system: self.system_buffer@,
            mic_enabled: self.mic_enabled,
            system_enabled: self.system_enabled,
            rate: self.sample_rate as int,
            window: self.window_size_samples as int,
            cap: self.max_buffer_size as int,
            silence: self.silence,
            origin: match self.timeline_origin {
                Some(origin) => Some(origin as int),
                None => None,
            },
            output: self.output_samples as int,
            mic_line: self.mic_timeline@,
            system_line: self.system_timeline@,
            seams: SeamModel {
                mic_received: self.mic_received_samples as int,
                system_received: self.system_received_samples as int,
                mic_inserted: self.mic_inserted_samples as int,
                system_inserted: self.system_inserted_samples as int,
                mic_fills: self.mic_fill_events as int,
                system_fills: self.system_fill_events as int,
                padded_mic: self.padded_mic_windows as int,
                padded_system: self.padded_system_windows as int,
                dropped: self.dropped_samples as int,
                resets: self.timeline_resets as int,
            },
        }
    }
}

/// A ring that has seen nothing.
pub open spec fn empty_ring<T>(
    sample_rate: int,
    mic_enabled: bool,
    system_enabled: bool,
    window_ms: int,
    silence: T,
) -> RingModel<T> {
    RingModel {
        mic: Seq::empty(),
        system: Seq::empty(),
        mic_enabled,
        system_enabled,
        rate: sample_rate,
        window: window_samples(sample_rate, window_ms),
        cap: window_samples(sample_rate, window_ms) * MAX_WINDOWS,
        silence,
        origin: None,
        output: 0,
        mic_line: LineModel::fresh(),
        system_line: LineModel::fresh(),
        seams: SeamModel {
            mic_received: 0,
            system_received: 0,
            mic_inserted: 0,
            system_inserted: 0,
            mic_fills: 0,
            system_fills: 0,
            padded_mic: 0,
            padded_system: 0,
            dropped: 0,
            resets: 0,
        },
    }
}

/// Puts `count` samples of silence at the end of `buffer`.
fn push_silence<T: Copy>(buffer: &mut VecDeque<T>, silence: T, count: usize)
    requires
        old(buffer)@.len() + count <= usize::MAX,
    ensures
        final(buffer)@ == old(buffer)@ + quiet(silence, count as int),
{
    let mut done: usize = 0;
    let ghost before = buffer@;
    assert(before + quiet(silence, 0) =~= before);
    while done < count
        invariant
            done <= count,
            buffer@ == before + quiet(silence, done as int),
        decreases count - done,
    {
        buffer.push_back(silence);
        done += 1;
        assert(buffer@ =~= before + quiet(silence, done as int));
    }
}

/// Puts `samples` at the end of `buffer`.
pub(crate) fn push_samples<T: Copy>(buffer: &mut VecDeque<T>, samples: &Vec<T>)
    ensures
        final(buffer)@ == old(buffer)@ + samples@,
{
    let mut done: usize = 0;
    let ghost before = buffer@;
    assert(before + samples@.take(0) =~= before);
    while done < samples.len()
        invariant
            done <= samples@.len(),
            buffer@ == before + samples@.take(done as int),
        decreases samples@.len() - done,
    {
        buffer.push_back(samples[done]);
        done += 1;
        assert(buffer@ =~= before + samples@.take(done as int));
    }
    assert(samples@.take(samples@.len() as int) =~= samples@);
}

/// Drops the oldest samples of `buffer` until `cap` are left, and says how many
/// went.
pub(crate) fn drop_oldest<T>(buffer: &mut VecDeque<T>, cap: usize) -> (lost: usize)
    ensures
        final(buffer)@ == newest(old(buffer)@, cap as int),
        lost == non_negative(old(buffer)@.len() - cap),
{
    let ghost before = buffer@;
    let all: usize = buffer.len();
    let mut lost: usize = 0;
    assert(before.skip(0) =~= before);
    while buffer.len() > cap
        invariant
            lost <= before.len(),
            before.len() == all,
            buffer@ == before.skip(lost as int),
            lost > 0 ==> buffer@.len() >= cap,
        decreases buffer@.len(),
    {
        let _ = buffer.pop_front();
        lost += 1;
        assert(buffer@ =~= before.skip(lost as int));
    }
    lost
}

/// Takes the first `len` samples out of `buffer`, with silence for what is not
/// there.
pub(crate) fn take_padded<T: Copy>(buffer: &mut VecDeque<T>, len: usize, silence: T) -> (taken: Vec<T>)
    ensures
        taken@ == padded_to(old(buffer)@, len as int, silence),
        final(buffer)@ == left_after(old(buffer)@, len as int),
{
    let ghost before = buffer@;
    let mut taken: Vec<T> = Vec::new();
    assert(before.take(0) =~= Seq::<T>::empty());
    assert(before.skip(0) =~= before);
    while taken.len() < len && buffer.len() > 0
        invariant
            taken@.len() <= len,
            taken@.len() <= before.len(),
            taken@ == before.take(taken@.len() as int),
            buffer@ == before.skip(taken@.len() as int),
        decreases buffer@.len(),
    {
        let ghost n = taken@.len() as int;
        let next = buffer.pop_front();
        match next {
            Some(sample) => {
                taken.push(sample);
            },
            None => {},
        }
        assert(taken@ =~= before.take(n + 1));
        assert(buffer@ =~= before.skip(n + 1));
    }
    let ghost captured = taken@;
    assert(before.len() < len ==> captured =~= before);
    assert(before.len() < len ==> buffer@ =~= Seq::<T>::empty());
    while taken.len() < len
        invariant
            captured.len() <= taken@.len() <= len,
            taken@ =~= captured + quiet(silence, taken@.len() - captured.len()),
        decreases len - taken@.len(),
    {
        taken.push(silence);
    }
    assert(taken@ =~= padded_to(before, len as int, silence));
    taken
}

/// Where a block of `len` samples that ended at `clock` began.
fn block_start(clock: u64, sample_rate: u32, len: usize) -> (start: i128)
    ensures
        start == non_negative(clock * sample_rate - len * NANOS),
        start <= u64::MAX * u32::MAX,
{
    assert(0 <= clock * sample_rate <= u64::MAX * u32::MAX) by (nonlinear_arith)
        requires
            0 <= clock <= u64::MAX,
            0 <= sample_rate <= u32::MAX,
    ;
    let end: i128 = clock as i128 * sample_rate as i128;
    let length: i128 = len as i128 * NANOS as i128;
    if end < length {
        0
    } else {
        end - length
    }
}

/// A shortfall to the nearest sample.
fn nearest_sample(gap: i128, sample_rate: u32) -> (samples: usize)
    requires
        0 <= gap < TIMELINE_RESET_NS * sample_rate,
        TIMELINE_RESET_NS / NANOS * sample_rate <= usize::MAX,
    ensures
        samples == (gap + NANOS / 2) / (NANOS as int),
        samples <= TIMELINE_RESET_NS / NANOS * sample_rate,
{
    assert(TIMELINE_RESET_NS / NANOS == 5);
    let rounded: u128 = (gap as u128 + 500_000_000) / 1_000_000_000;
    assert(gap < 5_000_000_000 * sample_rate);
    assert(rounded <= 5 * sample_rate);
    rounded as usize
}

impl<T: Copy> AudioMixerRingBuffer<T> {
    /// A ring with the production window. `silence` is the sample that is filled
    /// in where a source has none.
    pub fn new(
        sample_rate: u32,
        mic_enabled: bool,
        system_enabled: bool,
        silence: T,
    ) -> (ring: AudioMixerRingBuffer<T>)
        requires
            sample_rate > 0,
        ensures
            ring@ == empty_ring(
                sample_rate as int,
                mic_enabled,
                system_enabled,
                MIXING_WINDOW_MS as int,
                silence,
            ),
            ring@.valid(),
    {
        Self::with_window_ms(sample_rate, mic_enabled, system_enabled, MIXING_WINDOW_MS, silence)
    }

    /// A ring with a window of whole milliseconds.
    pub fn with_window_ms(
        sample_rate: u32,
        mic_enabled: bool,
        system_enabled: bool,
        window_ms: u32,
        silence: T,
    ) -> (ring: AudioMixerRingBuffer<T>)
        requires
            sample_rate > 0,
            window_samples(sample_rate as int, window_ms as int) * MAX_WINDOWS <= usize::MAX,
        ensures
            ring@ == empty_ring(
                sample_rate as int,
                mic_enabled,
                system_enabled,
                window_ms as int,
                silence,
            ),
            ring@.valid(),
    {
        assert(0 <= sample_rate * window_ms <= u32::MAX * u32::MAX) by (nonlinear_arith)
            requires
                0 <= sample_rate <= u32::MAX,
                0 <= window_ms <= u32::MAX,
        ;
        let whole: u64 = sample_rate as u64 * window_ms as u64 / 1000;
        let window: usize = if whole < 1 {
            1
        } else {
            whole as usize
        };
        let cap: usize = window * MAX_WINDOWS;
        let ring = AudioMixerRingBuffer {
            mic_buffer: VecDeque::with_capacity(cap),
            system_buffer: VecDeque::with_capacity(cap),
            window_size_samples: window,
            max_buffer_size: cap,
            mic_enabled,
            system_enabled,
            sample_rate,
            silence,
            timeline_origin: None,
            output_samples: 0,
            mic_timeline: SourceTimeline::new(),
            system_timeline: SourceTimeline::new(),
            padded_mic_windows: 0,
            padded_system_windows: 0,
            dropped_samples: 0,
            mic_received_samples: 0,
            system_received_samples: 0,
            mic_inserted_samples: 0,
            system_inserted_samples: 0,
            mic_fill_events: 0,
            system_fill_events: 0,
            timeline_resets: 0,
        };
        assert(ring.mic_buffer@ =~= Seq::<T>::empty());
        assert(ring.system_buffer@ =~= Seq::<T>::empty());
        ring
    }

    /// Whether the counters can take another block of `len` samples.
    pub fn has_room(&self, len: usize) -> (room: bool)
        ensures
            room == self@.has_room(len as int),
    {
        let held: u128 = self.output_samples as u128 + self.mic_buffer.len() as u128
            + self.system_buffer.len() as u128;
        let waiting: u128 = self.mic_buffer.len() as u128 + self.system_buffer.len() as u128;
        assert(TIMELINE_RESET_NS / NANOS == 5);
        let most: u128 = len as u128 + 5 * self.sample_rate as u128;
        let limit: u128 = u64::MAX as u128;
        held + most <= usize::MAX as u128 && self.mic_received_samples as u128 + len as u128 <= limit
            && self.system_received_samples as u128 + len as u128 <= limit
            && self.mic_inserted_samples as u128 + most <= limit
            && self.system_inserted_samples as u128 + most <= limit && self.mic_fill_events
            < u64::MAX && self.system_fill_events < u64::MAX && self.dropped_samples as u128
            + waiting + most <= limit && self.timeline_resets < u64::MAX
    }

    pub fn set_enabled(&mut self, mic_enabled: bool, system_enabled: bool)
        ensures
            final(self)@ == (RingModel { mic_enabled, system_enabled, ..old(self)@ }),
    {
        self.mic_enabled = mic_enabled;
        self.system_enabled = system_enabled;
    }

    /// Takes a block that ended at `clock`. When the stream broke, the timelines
    /// start over with this block and its start is returned, in billionths of a
    /// sample of the recording clock.
    pub fn add_samples(
        &mut self,
        device_type: DeviceType,
        samples: Vec<T>,
        clock: u64,
    ) -> (discontinuity: Option<i128>)
        requires
            old(self)@.valid(),
            old(self)@.has_room(samples@.len() as int),
        ensures
            final(self)@ == old(self)@.with_block(device_type, samples@, clock),
            final(self)@.valid(),
            match discontinuity {
                Some(start) => {
                    &&& !(device_type is Mixed)
                    &&& old(self)@.breaks(device_type, samples@.len() as int, clock)
                    &&& start == old(self)@.start_of(samples@.len() as int, clock as int)
                },
                None => device_type is Mixed || !old(self)@.breaks(
                    device_type,
                    samples@.len() as int,
                    clock,
                ),
            },
    {
        match device_type {
            DeviceType::Mixed => {
                return None;
            },
            _ => {},
        }
        let (start, broke, fill) = self.place_block(device_type, samples.len(), clock);
        self.append_block(device_type, &samples, fill);
        if broke {
            Some(start)
        } else {
            None
        }
    }

    /// Moves the timelines to where a block of `len` samples belongs. Returns the
    /// block's start, whether the stream broke, and the silence that comes first.
    fn place_block(&mut self, device_type: DeviceType, len: usize, clock: u64) -> (placement: (
        i128,
        bool,
        usize,
    ))
        requires
            old(self)@.valid(),
            old(self)@.has_room(len as int),
            !(device_type is Mixed),
        ensures
            final(self)@ == old(self)@.placed(device_type, len as int, clock),
            final(self)@.valid(),
            final(self)@.has_room_behind(len as int),
            placement.0 == old(self)@.start_of(len as int, clock as int),
            placement.1 == old(self)@.breaks(device_type, len as int, clock),
            placement.2 == old(self)@.fill(device_type, len as int, clock),
            placement.2 <= TIMELINE_RESET_NS / NANOS * old(self)@.rate,
    {
        let ghost before = self@;
        let is_mic = match device_type {
            DeviceType::Microphone => true,
            _ => false,
        };
        let start: i128 = block_start(clock, self.sample_rate, len);
        let origin: i128 = match self.timeline_origin {
            Some(origin) => origin,
            None => start,
        };
        self.timeline_origin = Some(origin);
        let chunk_start: i128 = if start < origin {
            0
        } else {
            start - origin
        };
        let buffered_end: usize = self.output_samples + if is_mic {
            self.mic_buffer.len()
        } else {
            self.system_buffer.len()
        };
        let lag: i128 = chunk_start - buffered_end as i128 * NANOS as i128;
        assert(lag == before.lag(device_type, len as int, clock as int));
        let already_running = if is_mic {
            self.mic_timeline.started
        } else {
            self.system_timeline.started
        };
        let rate: u32 = self.sample_rate;
        let gap: i128 = if already_running {
            if is_mic {
                self.mic_timeline.sustained_gap(clock, lag, rate)
            } else {
                self.system_timeline.sustained_gap(clock, lag, rate)
            }
        } else {
            if is_mic {
                self.mic_timeline.started = true;
            } else {
                self.system_timeline.started = true;
            }
            if lag < 0 {
                0
            } else {
                lag
            }
        };
        assert(gap == before.judged(device_type, len as int, clock).1);

        let broke = gap >= TIMELINE_RESET_NS as i128 * rate as i128;
        if broke {
            self.timeline_resets += 1;
            self.mic_buffer.clear();
            self.system_buffer.clear();
            self.mic_timeline.reset();
            self.system_timeline.reset();
            self.timeline_origin = Some(start);
            self.output_samples = 0;
            assert(self.mic_buffer@ =~= Seq::<T>::empty());
            assert(self.system_buffer@ =~= Seq::<T>::empty());
        }
        assert(self@ =~= before.placed(device_type, len as int, clock));
        let fill: usize = if broke || already_running {
            0
        } else {
            nearest_sample(gap, rate)
        };
        (start, broke, fill)
    }

    /// Puts silence and then the block at the end of the source's buffer, and
    /// drops what is too old.
    fn append_block(&mut self, device_type: DeviceType, samples: &Vec<T>, fill: usize)
        requires
            old(self)@.valid(),
            old(self)@.has_room_behind(samples@.len() as int),
            fill <= TIMELINE_RESET_NS / NANOS * old(self)@.rate,
            !(device_type is Mixed),
        ensures
            final(self)@ == old(self)@.appended(device_type, samples@, fill as int),
            final(self)@.valid(),
    {
        let ghost placed = self@;
        let ghost added = quiet(self.silence, fill as int) + samples@;
        match device_type {
            DeviceType::Microphone => {
                self.mic_inserted_samples += fill as u64;
                self.mic_received_samples += samples.len() as u64;
                if fill > 0 {
                    self.mic_fill_events += 1;
                }
                push_silence(&mut self.mic_buffer, self.silence, fill);
                push_samples(&mut self.mic_buffer, samples);
                assert(self.mic_buffer@ =~= placed.mic + added);
            },
            _ => {
                self.system_inserted_samples += fill as u64;
                self.system_received_samples += samples.len() as u64;
                if fill > 0 {
                    self.system_fill_events += 1;
                }
                push_silence(&mut self.system_buffer, self.silence, fill);
                push_samples(&mut self.system_buffer, samples);
                assert(self.system_buffer@ =~= placed.system + added);
            },
        }
        let cap: usize = self.max_buffer_size;
        let lost_mic: usize = drop_oldest(&mut self.mic_buffer, cap);
        let lost_system: usize = drop_oldest(&mut self.system_buffer, cap);
        self.dropped_samples += lost_mic as u64;
        self.dropped_samples += lost_system as u64;
        assert(self@ =~= placed.appended(device_type, samples@, fill as int));
    }

    pub fn can_mix(&self) -> (ready: bool)
        requires
            self@.valid(),
        ensures
            ready == self@.can_mix(),
    {
        let all_ready = (!self.mic_enabled || self.mic_buffer.len() >= self.window_size_samples)
            && (!self.system_enabled || self.system_buffer.len() >= self.window_size_samples) && (
        self.mic_enabled || self.system_enabled);
        let ahead: usize = if self.mic_buffer.len() < self.system_buffer.len() {
            self.system_buffer.len()
        } else {
            self.mic_buffer.len()
        };
        all_ready || ahead >= self.window_size_samples * PATIENCE_WINDOWS
    }

    /// A window of both sources, once [`Self::can_mix`] holds: silence where a
    /// source has nothing.
    pub fn extract_window(&mut self) -> (windows: Option<(Vec<T>, Vec<T>)>)
        requires
            old(self)@.valid(),
            old(self)@.seams.padded_mic < u64::MAX,
            old(self)@.seams.padded_system < u64::MAX,
        ensures
            final(self)@.valid(),
            match windows {
                Some((mic, system)) => old(self)@.window_taken() == Some(
                    (mic@, system@, final(self)@),
                ),
                None => old(self)@.window_taken() is None && final(self)@ == old(self)@,
            },
    {
        if !self.can_mix() {
            return None;
        }
        let ghost before = self@;
        let window: usize = self.window_size_samples;
        if self.mic_buffer.len() < window {
            self.padded_mic_windows += 1;
        }
        let mic = take_padded(&mut self.mic_buffer, window, self.silence);
        if self.system_buffer.len() < window {
            self.padded_system_windows += 1;
        }
        let system = take_padded(&mut self.system_buffer, window, self.silence);
        self.output_samples += window;
        assert(Some((mic@, system@, self@)) == before.window_taken());
        Some((mic, system))
    }

    /// Up to a window of what is left of both sources, equally long.
    pub fn extract_remaining(&mut self) -> (windows: Option<(Vec<T>, Vec<T>)>)
        requires
            old(self)@.valid(),
        ensures
            final(self)@.valid(),
            match windows {
                Some((mic, system)) => old(self)@.tail_taken() == Some(
                    (mic@, system@, final(self)@),
                ),
                None => old(self)@.tail_taken() is None && final(self)@ == old(self)@,
            },
    {
        let ghost before = self@;
        let longer: usize = if self.mic_buffer.len() < self.system_buffer.len() {
            self.system_buffer.len()
        } else {
            self.mic_buffer.len()
        };
        let len: usize = if longer < self.window_size_samples {
            longer
        } else {
            self.window_size_samples
        };
        if len == 0 {
            return None;
        }
        let mic = take_padded(&mut self.mic_buffer, len, self.silence);
        let system = take_padded(&mut self.system_buffer, len, self.silence);
        self.output_samples += len;
        assert(Some((mic@, system@, self@)) == before.tail_taken());
        Some((mic, system))
    }
}

proof fn lemma_least_lag_is_least(readings: Seq<Reading>, index: int)
    requires
        0 <= index < readings.len(),
    ensures
        least_lag(readings) <= readings[index].1,
    decreases readings.len(),
{
    if readings.len() > 1 && index < readings.len() - 1 {
        lemma_least_lag_is_least(readings.drop_last(), index);
    }
}

/// A shortfall is never more than the newest reading of it: one block that is on
/// time ends every suspicion.
pub proof fn sustained_gap_is_at_most_the_newest_reading(
    line: LineModel,
    clock: u64,
    lag: i128,
    rate: int,
)
    requires
        rate > 0,
    ensures
        line.after_reading(clock, lag, rate).1 <= non_negative(lag as int),
        line.after_reading(clock, lag, rate).1 >= 0,
        lag < TIMELINE_GAP_NS * rate ==> line.after_reading(clock, lag, rate).1 == 0,
{
    let pushed = line.readings.push((clock, lag));
    lemma_observed_is_suffix(pushed, clock as int);
    let kept = observed(pushed, clock as int);
    lemma_least_lag_is_least(kept, kept.len() - 1);
    assert(TIMELINE_GAP_NS * rate >= 0) by (nonlinear_arith)
        requires
            rate > 0,
    ;
}

/// A running source that is less than five seconds behind is taken as it came:
/// no silence is spliced in, nothing is trimmed, the other source is not touched.
/// Only the limit of the buffer can cost samples, and then the oldest ones.
pub proof fn running_stream_is_appended_whole<T>(
    ring: RingModel<T>,
    device: DeviceType,
    samples: Seq<T>,
    clock: u64,
)
    requires
        ring.valid(),
        ring.has_room(samples.len() as int),
        !(device is Mixed),
        ring.line(device).started,
        ring.lag(device, samples.len() as int, clock as int) < TIMELINE_RESET_NS * ring.rate,
        ring.rate <= u32::MAX,
    ensures
        ring.with_block(device, samples, clock).buffer(device) == newest(
            ring.buffer(device) + samples,
            ring.cap,
        ),
        device is Microphone ==> ring.with_block(device, samples, clock).system == ring.system,
        device is System ==> ring.with_block(device, samples, clock).mic == ring.mic,
        ring.with_block(device, samples, clock).line(device).started,
        ring.with_block(device, samples, clock).seams.mic_inserted == ring.seams.mic_inserted,
        ring.with_block(device, samples, clock).seams.system_inserted == ring.seams.system_inserted,
        ring.with_block(device, samples, clock).seams.resets == ring.seams.resets,
{
    let len = samples.len() as int;
    let lag = ring.lag(device, len, clock as int);
    lemma_lag_fits(ring, device, len, clock);
    sustained_gap_is_at_most_the_newest_reading(ring.line(device), clock, lag as i128, ring.rate);
    assert(TIMELINE_RESET_NS * ring.rate > 0) by (nonlinear_arith)
        requires
            ring.rate > 0,
    ;
    assert(!ring.breaks(device, len, clock));
    assert(quiet(ring.silence, 0) + samples =~= samples);
}

proof fn lemma_lag_fits<T>(ring: RingModel<T>, device: DeviceType, len: int, clock: u64)
    requires
        ring.valid(),
        ring.has_room(len),
        len >= 0,
        ring.rate <= u32::MAX,
    ensures
        i128::MIN <= ring.lag(device, len, clock as int) <= i128::MAX,
{
    assert(0 <= clock * ring.rate <= u64::MAX * u32::MAX) by (nonlinear_arith)
        requires
            0 <= clock <= u64::MAX,
            0 <= ring.rate <= u32::MAX,
    ;
    assert(ring.output + ring.buffer(device).len() <= usize::MAX) by {
        assert(TIMELINE_RESET_NS / NANOS * ring.rate >= 0) by (nonlinear_arith)
            requires
                ring.rate >= 0,
        ;
    }
}

/// A break picks the stream up again from the block that showed it: nothing is
/// inserted, and that block is all that the buffers then hold.
pub proof fn reset_inserts_nothing<T>(
    ring: RingModel<T>,
    device: DeviceType,
    samples: Seq<T>,
    clock: u64,
)
    requires
        ring.valid(),
        !(device is Mixed),
        ring.breaks(device, samples.len() as int, clock),
    ensures
        ring.with_block(device, samples, clock).buffer(device) == newest(samples, ring.cap),
        device is Microphone ==> ring.with_block(device, samples, clock).system.len() == 0,
        device is System ==> ring.with_block(device, samples, clock).mic.len() == 0,
        ring.with_block(device, samples, clock).seams.resets == ring.seams.resets + 1,
        ring.with_block(device, samples, clock).seams.mic_inserted == ring.seams.mic_inserted,
        ring.with_block(device, samples, clock).seams.system_inserted == ring.seams.system_inserted,
{
    assert(Seq::<T>::empty() + (quiet(ring.silence, 0) + samples) =~= samples);
}

/// While the partner of a source is waited for, the limit costs nothing: a block
/// of up to eight windows always still fits.
pub proof fn waiting_never_overflows<T>(ring: RingModel<T>, device: DeviceType, more: int)
    requires
        ring.valid(),
        !ring.can_mix(),
        0 <= more <= ring.window * (MAX_WINDOWS - PATIENCE_WINDOWS),
    ensures
        ring.buffer(device).len() + more <= ring.cap,
{
    assert(ring.window * (MAX_WINDOWS - PATIENCE_WINDOWS) + ring.window * PATIENCE_WINDOWS
        == ring.window * MAX_WINDOWS) by (nonlinear_arith);
}

/// The two windows that come out together are equally long, while recording and
/// at the tail.
pub proof fn windows_are_equally_long<T>(ring: RingModel<T>)
    requires
        ring.valid(),
    ensures
        ring.window_taken() matches Some((mic, system, _)) ==> mic.len() == ring.window
            && system.len() == ring.window,
        ring.tail_taken() matches Some((mic, system, _)) ==> mic.len() == ring.tail_len()
            && system.len() == ring.tail_len() && ring.tail_len() <= ring.window,
{
}

/// A window that was not padded is the source's own samples, and what it handed
/// out and what stays make up what there was.
pub proof fn unpadded_window_is_the_stream<T>(ring: RingModel<T>)
    requires
        ring.valid(),
    ensures
        ring.window_taken() matches Some((mic, system, after)) ==> {
            &&& after.seams.padded_mic == ring.seams.padded_mic ==> mic + after.mic == ring.mic
            &&& after.seams.padded_system == ring.seams.padded_system ==> system + after.system
                == ring.system
        },
{
    assert(ring.mic.take(ring.window) + ring.mic.skip(ring.window) =~= ring.mic
        || ring.mic.len() < ring.window);
    assert(ring.system.take(ring.window) + ring.system.skip(ring.window) =~= ring.system
        || ring.system.len() < ring.window);
}

/// Every window that can be handed out, in order: the microphone's samples, and
/// the ring when no window is left.
pub open spec fn windows_drained<T>(ring: RingModel<T>) -> (Seq<T>, RingModel<T>)
    decreases ring.mic.len() + ring.system.len(),
{
    match ring.window_taken() {
        Some((mic, _, after)) => if after.mic.len() + after.system.len() < ring.mic.len()
            + ring.system.len() {
            let (rest, end) = windows_drained(after);
            (mic + rest, end)
        } else {
            (mic, after)
        },
        None => (Seq::empty(), ring),
    }
}

/// Everything that the tail hands out, window after window, of the microphone and of the
/// system.
pub open spec fn tails_drained<T>(ring: RingModel<T>) -> (Seq<T>, Seq<T>)
    decreases ring.mic.len() + ring.system.len(),
{
    match ring.tail_taken() {
        Some((mic, system, after)) => if after.mic.len() + after.system.len() < ring.mic.len()
            + ring.system.len() {
            let (mic_rest, system_rest) = tails_drained(after);
            (mic + mic_rest, system + system_rest)
        } else {
            (mic, system)
        },
        None => (Seq::empty(), Seq::empty()),
    }
}

/// The tail hands out all that is held of both sources, in order; the shorter one is
/// followed by silence until it is as long as the other.
pub proof fn tail_is_all_that_is_held<T>(ring: RingModel<T>)
    requires
        ring.window >= 1,
    ensures
        ({
            let longer = larger(ring.mic.len() as int, ring.system.len() as int);
            &&& tails_drained(ring).0 == padded_to(ring.mic, longer, ring.silence)
            &&& tails_drained(ring).1 == padded_to(ring.system, longer, ring.silence)
        }),
    decreases ring.mic.len() + ring.system.len(),
{
    let longer = larger(ring.mic.len() as int, ring.system.len() as int);
    let len = ring.tail_len();
    if len == 0 {
        assert(padded_to(ring.mic, longer, ring.silence) =~= Seq::<T>::empty());
        assert(padded_to(ring.system, longer, ring.silence) =~= Seq::<T>::empty());
    } else {
        let (mic, system, after) = ring.tail_taken().unwrap();
        tail_is_all_that_is_held(after);
        assert(mic + padded_to(after.mic, longer - len, ring.silence) =~= padded_to(
            ring.mic,
            longer,
            ring.silence,
        ));
        assert(system + padded_to(after.system, longer - len, ring.silence) =~= padded_to(
            ring.system,
            longer,
            ring.silence,
        ));
    }
}

/// Feeds microphone blocks one after the other, handing out every window that is
/// ready after each.
pub open spec fn fed<T>(ring: RingModel<T>, blocks: Seq<(Seq<T>, u64)>) -> (Seq<T>, RingModel<T>)
    decreases blocks.len(),
{
    if blocks.len() == 0 {
        (Seq::empty(), ring)
    } else {
        let (before, held) = fed(ring, blocks.drop_last());
        let (samples, clock) = blocks.last();
        let (now, end) = windows_drained(
            held.with_block(DeviceType::Microphone, samples, clock),
        );
        (before + now, end)
    }
}

/// The samples of all blocks, in order.
pub open spec fn sent<T>(blocks: Seq<(Seq<T>, u64)>) -> Seq<T>
    decreases blocks.len(),
{
    if blocks.len() == 0 {
        Seq::empty()
    } else {
        sent(blocks.drop_last()) + blocks.last().0
    }
}

/// Every block reaches the ring less than five seconds after where the stream
/// stands, fits beside what is held, and finds room in the counters.
pub open spec fn punctual<T>(ring: RingModel<T>, blocks: Seq<(Seq<T>, u64)>) -> bool
    decreases blocks.len(),
{
    blocks.len() == 0 || {
        let held = fed(ring, blocks.drop_last()).1;
        let (samples, clock) = blocks.last();
        &&& punctual(ring, blocks.drop_last())
        &&& held.lag(DeviceType::Microphone, samples.len() as int, clock as int) < TIMELINE_RESET_NS
            * ring.rate
        &&& held.mic.len() + samples.len() <= ring.cap
        &&& held.has_room(samples.len() as int)
    }
}

/// A ring that takes the microphone alone and has either just begun or is running.
pub open spec fn microphone_alone<T>(ring: RingModel<T>) -> bool {
    &&& ring.valid()
    &&& ring.rate <= u32::MAX
    &&& ring.mic_enabled
    &&& !ring.system_enabled
    &&& ring.system.len() == 0
    &&& ring.mic_line.started || (ring.origin is None && ring.output == 0 && ring.mic.len() == 0)
}

proof fn lemma_drained_windows_are_the_stream<T>(ring: RingModel<T>)
    requires
        microphone_alone(ring),
    ensures
        ({
            let (out, end) = windows_drained(ring);
            &&& out + end.mic == ring.mic
            &&& microphone_alone(end)
            &&& !end.can_mix()
            &&& end.mic_line == ring.mic_line
            &&& end.rate == ring.rate
            &&& end.window == ring.window
            &&& end.cap == ring.cap
        }),
    decreases ring.mic.len() + ring.system.len(),
{
    if ring.can_mix() {
        assert(ring.mic.len() >= ring.window) by {
            assert(ring.window * PATIENCE_WINDOWS >= ring.window) by (nonlinear_arith)
                requires
                    ring.window >= 1,
            ;
        }
        let (mic, system, after) = ring.window_taken().unwrap();
        unpadded_window_is_the_stream(ring);
        assert(after.system =~= Seq::<T>::empty());
        assert(ring.mic_line.started) by {
            assert(ring.mic.len() > 0);
        }
        lemma_drained_windows_are_the_stream(after);
        let (rest, end) = windows_drained(after);
        assert(mic + rest + end.mic =~= mic + (rest + end.mic));
    } else {
        assert(Seq::<T>::empty() + ring.mic =~= ring.mic);
    }
}

/// The stream comes out exactly as it went in: what was handed out and what is
/// still held are the samples that were sent, with no silence spliced in and
/// nothing trimmed away, whatever the arrival times, as long as no block is five
/// seconds late. What is still held is what the tail then hands out.
pub proof fn stream_comes_out_as_it_went_in<T>(ring: RingModel<T>, blocks: Seq<(Seq<T>, u64)>)
    requires
        microphone_alone(ring),
        !ring.can_mix(),
        punctual(ring, blocks),
    ensures
        ({
            let (out, end) = fed(ring, blocks);
            &&& out + end.mic == ring.mic + sent(blocks)
            &&& out + tails_drained(end).0 == ring.mic + sent(blocks)
        }),
{
    lemma_fed_is_the_stream(ring, blocks);
    let end = fed(ring, blocks).1;
    tail_is_all_that_is_held(end);
    assert(padded_to(end.mic, end.mic.len() as int, end.silence) =~= end.mic);
}

proof fn lemma_fed_is_the_stream<T>(ring: RingModel<T>, blocks: Seq<(Seq<T>, u64)>)
    requires
        microphone_alone(ring),
        !ring.can_mix(),
        punctual(ring, blocks),
    ensures
        ({
            let (out, end) = fed(ring, blocks);
            &&& out + end.mic == ring.mic + sent(blocks)
            &&& microphone_alone(end)
            &&& !end.can_mix()
            &&& end.rate == ring.rate
            &&& end.window == ring.window
            &&& end.cap == ring.cap
        }),
    decreases blocks.len(),
{
    if blocks.len() == 0 {
        assert(Seq::<T>::empty() + ring.mic =~= ring.mic + sent(blocks));
    } else {
        lemma_fed_is_the_stream(ring, blocks.drop_last());
        let (before, held) = fed(ring, blocks.drop_last());
        let (samples, clock) = blocks.last();
        let mic = DeviceType::Microphone;
        let len = samples.len() as int;
        let next = held.with_block(mic, samples, clock);
        if held.mic_line.started {
            running_stream_is_appended_whole(held, mic, samples, clock);
        } else {
            assert(held.lag(mic, len, clock as int) == 0);
            assert(TIMELINE_RESET_NS * held.rate > 0) by (nonlinear_arith)
                requires
                    held.rate > 0,
            ;
            assert(held.fill(mic, len, clock) == 0);
            assert(quiet(held.silence, 0) + samples =~= samples);
        }
        assert(next.mic == held.mic + samples);
        assert(next.valid());
        lemma_drained_windows_are_the_stream(next);
        let (now, end) = windows_drained(next);
        assert(before + now + end.mic =~= before + (now + end.mic));
        assert(before + (held.mic + samples) =~= (before + held.mic) + samples);
        assert(ring.mic + sent(blocks.drop_last()) + samples =~= ring.mic + sent(blocks));
    }
}

/// The first block of a source is where the two streams are lined up: it begins at the sample
/// nearest to where the clock puts its start, counted from where the timelines begin. What is
/// put before it is silence, and none is where the source is already there. Nothing else
/// moves.
pub proof fn first_block_lands_at_its_moment<T>(
    ring: RingModel<T>,
    device: DeviceType,
    samples: Seq<T>,
    clock: u64,
)
    requires
        ring.rate > 0,
        ring.cap == 20 * ring.window,
        ring.mic.len() <= ring.cap,
        ring.system.len() <= ring.cap,
        device is Microphone || device is System,
        device is Microphone ==> !ring.mic_line.started,
        device is System ==> !ring.system_line.started,
    ensures
        ({
            let length = samples.len() * 1_000_000_000;
            let start = if clock * ring.rate > length {
                clock * ring.rate - length
            } else {
                0
            };
            let origin = match ring.origin {
                Some(begun) => begun,
                None => start,
            };
            let place = if start > origin {
                start - origin
            } else {
                0
            };
            let is_mic = device is Microphone;
            let after = ring.with_block(device, samples, clock);
            let before = if is_mic { ring.mic } else { ring.system };
            let held = if is_mic { after.mic } else { after.system };
            let inserted = if is_mic {
                after.seams.mic_inserted - ring.seams.mic_inserted
            } else {
                after.seams.system_inserted - ring.seams.system_inserted
            };
            let there = ring.output + before.len();
            let whole = before + Seq::new(inserted as nat, |i: int| ring.silence) + samples;
            place - there * 1_000_000_000 < 5_000_000_000 * ring.rate ==> {
                &&& place <= there * 1_000_000_000 ==> inserted == 0
                &&& place > there * 1_000_000_000 ==> inserted >= 0 && -500_000_000 < (there
                    + inserted) * 1_000_000_000 - place <= 500_000_000
                &&& whole.len() <= 20 * ring.window ==> held == whole
                &&& whole.len() > 20 * ring.window ==> held == whole.skip(
                    whole.len() - 20 * ring.window,
                )
                &&& is_mic ==> after.system == ring.system && after.mic_line.started
                &&& !is_mic ==> after.mic == ring.mic && after.system_line.started
                &&& after.output == ring.output
                &&& after.origin == Some(origin)
                &&& after.seams.resets == ring.seams.resets
            }
        }),
{
    let len = samples.len() as int;
    let is_mic = device is Microphone;
    let gap = ring.judged(device, len, clock).1;
    assert(TIMELINE_RESET_NS * ring.rate == 5_000_000_000 * ring.rate);
    assert(5_000_000_000 * ring.rate > 0);
    let fill = ring.fill(device, len, clock);
    let silent = Seq::new(fill as nat, |i: int| ring.silence);
    assert(!ring.breaks(device, len, clock) ==> quiet(ring.silence, fill) =~= silent);
    let before = if is_mic { ring.mic } else { ring.system };
    assert(before + (silent + samples) =~= before + silent + samples);
}

/// A source that opens late is lined up with the one that runs: where the running source is
/// on time at a sample of its own, the late one's first block that began at the same moment
/// comes to stand beside it, in the same place behind what was handed out.
pub proof fn late_source_lines_up<T>(
    ring: RingModel<T>,
    device: DeviceType,
    samples: Seq<T>,
    clock: u64,
    place: int,
)
    requires
        ring.rate > 0,
        ring.cap == 20 * ring.window,
        ring.mic.len() <= ring.cap,
        ring.system.len() <= ring.cap,
        device is Microphone || device is System,
        device is Microphone ==> !ring.mic_line.started,
        device is System ==> !ring.system_line.started,
        ring.origin matches Some(origin) && clock * ring.rate - samples.len() * 1_000_000_000
            - origin == place * 1_000_000_000 && origin >= 0,
        device is Microphone ==> 0 <= place - ring.output - ring.mic.len() < 5 * ring.rate,
        device is System ==> 0 <= place - ring.output - ring.system.len() < 5 * ring.rate,
        ring.output >= 0,
        place - ring.output + samples.len() <= 20 * ring.window,
    ensures
        ({
            let after = ring.with_block(device, samples, clock);
            let held = if device is Microphone { after.mic } else { after.system };
            let at = place - after.output;
            &&& held.len() == at + samples.len()
            &&& held.skip(at) == samples
            &&& forall|i: int|
                0 <= i < at && i >= (if device is Microphone { ring.mic } else { ring.system }).len()
                    ==> #[trigger] held[i] == ring.silence
        }),
{
    first_block_lands_at_its_moment(ring, device, samples, clock);
    let after = ring.with_block(device, samples, clock);
    let is_mic = device is Microphone;
    let before = if is_mic { ring.mic } else { ring.system };
    let held = if is_mic { after.mic } else { after.system };
    let inserted = if is_mic {
        after.seams.mic_inserted - ring.seams.mic_inserted
    } else {
        after.seams.system_inserted - ring.seams.system_inserted
    };
    let whole = before + Seq::new(inserted as nat, |i: int| ring.silence) + samples;
    assert(inserted == place - ring.output - before.len());
    assert(held == whole);
    assert(held.skip(place - ring.output) =~= samples);
}

/// Sources that begin at the same moment come out together: whichever of the two first blocks
/// arrives first, both begin at the same place behind what was handed out, so that they stand
/// at the same index of the same window.
pub proof fn sources_that_begin_together_come_out_together<T>(
    ring: RingModel<T>,
    mic: Seq<T>,
    mic_clock: u64,
    system: Seq<T>,
    system_clock: u64,
    start: int,
)
    requires
        ring.rate > 0,
        ring.cap == 20 * ring.window,
        !ring.mic_line.started,
        !ring.system_line.started,
        start >= 0,
        mic_clock * ring.rate - mic.len() * 1_000_000_000 == start,
        system_clock * ring.rate - system.len() * 1_000_000_000 == start,
        ring.origin is None || 0 <= ring.origin.unwrap() <= start,
        ring.output >= 0,
        ({
            let place = match ring.origin {
                Some(origin) => start - origin,
                None => 0,
            };
            &&& (ring.output + ring.mic.len()) * 1_000_000_000 <= place
            &&& (ring.output + ring.system.len()) * 1_000_000_000 <= place
            &&& place - (ring.output + ring.mic.len()) * 1_000_000_000 < 5_000_000_000 * ring.rate
            &&& place - (ring.output + ring.system.len()) * 1_000_000_000 < 5_000_000_000
                * ring.rate
            &&& place + (mic.len() + 1 - ring.output) * 1_000_000_000 <= 20 * ring.window
                * 1_000_000_000
            &&& place + (system.len() + 1 - ring.output) * 1_000_000_000 <= 20 * ring.window
                * 1_000_000_000
        }),
    ensures
        ({
            let one = ring.with_block(DeviceType::Microphone, mic, mic_clock).with_block(
                DeviceType::System,
                system,
                system_clock,
            );
            let other = ring.with_block(DeviceType::System, system, system_clock).with_block(
                DeviceType::Microphone,
                mic,
                mic_clock,
            );
            let at = one.mic.len() - mic.len();
            &&& one.system.len() - system.len() == at
            &&& at >= 0
            &&& one.mic.skip(at) == mic
            &&& one.system.skip(at) == system
            &&& other.mic == one.mic
            &&& other.system == one.system
            &&& other.output == one.output
        }),
{
    let m = DeviceType::Microphone;
    let s = DeviceType::System;
    first_block_lands_at_its_moment(ring, m, mic, mic_clock);
    first_block_lands_at_its_moment(ring, s, system, system_clock);
    let after_mic = ring.with_block(m, mic, mic_clock);
    let after_system = ring.with_block(s, system, system_clock);
    assert(!after_mic.system_line.started && after_mic.rate == ring.rate && after_mic.cap
        == ring.cap && after_mic.window == ring.window);
    assert(!after_system.mic_line.started && after_system.rate == ring.rate && after_system.cap
        == ring.cap && after_system.window == ring.window);
    assert(ring.mic.len() <= ring.cap && ring.system.len() <= ring.cap);
    first_block_lands_at_its_moment(after_mic, s, system, system_clock);
    first_block_lands_at_its_moment(after_system, m, mic, mic_clock);
    let one = after_mic.with_block(s, system, system_clock);
    let other = after_system.with_block(m, mic, mic_clock);
    let at = one.mic.len() - mic.len();
    assert(one.mic.skip(at) =~= mic);
    assert(one.system.skip(at) =~= system);
    assert(other.mic =~= one.mic);
    assert(other.system =~= one.system);
}

/// A source that runs is taken as it comes: behind what is held of it come its samples and
/// nothing else, and the other source is not touched. Only the limit of twenty windows costs
/// samples, and then the oldest ones. A break is the one exception, and it takes a shortfall
/// of five seconds that has lasted.
pub proof fn running_block_comes_behind_what_is_held<T>(
    ring: RingModel<T>,
    device: DeviceType,
    samples: Seq<T>,
    clock: u64,
)
    requires
        ring.rate > 0,
        ring.cap == 20 * ring.window,
        ring.mic.len() <= ring.cap,
        ring.system.len() <= ring.cap,
        device is Microphone || device is System,
        device is Microphone ==> ring.mic_line.started,
        device is System ==> ring.system_line.started,
    ensures
        ({
            let length = samples.len() * 1_000_000_000;
            let start = if clock * ring.rate > length {
                clock * ring.rate - length
            } else {
                0
            };
            let origin = match ring.origin {
                Some(begun) => begun,
                None => start,
            };
            let place = if start > origin {
                start - origin
            } else {
                0
            };
            let is_mic = device is Microphone;
            let before = if is_mic { ring.mic } else { ring.system };
            let line = if is_mic { ring.mic_line } else { ring.system_line };
            let lag = place - (ring.output + before.len()) * 1_000_000_000;
            let lasting = line.after_reading(clock, lag as i128, ring.rate).1;
            let after = ring.with_block(device, samples, clock);
            let held = if is_mic { after.mic } else { after.system };
            let other = if is_mic { after.system } else { after.mic };
            let whole = before + samples;
            &&& after.seams.mic_inserted == ring.seams.mic_inserted
            &&& after.seams.system_inserted == ring.seams.system_inserted
            &&& if lasting < 5_000_000_000 * ring.rate {
                &&& whole.len() <= 20 * ring.window ==> held == whole
                &&& whole.len() > 20 * ring.window ==> held == whole.skip(
                    whole.len() - 20 * ring.window,
                )
                &&& other == if is_mic { ring.system } else { ring.mic }
                &&& after.output == ring.output
                &&& after.seams.resets == ring.seams.resets
                &&& after.origin == Some(origin)
            } else {
                &&& samples.len() <= 20 * ring.window ==> held == samples
                &&& samples.len() > 20 * ring.window ==> held == samples.skip(
                    samples.len() - 20 * ring.window,
                )
                &&& other.len() == 0
                &&& after.output == 0
                &&& after.origin == Some(start)
                &&& !after.mic_line.started
                &&& !after.system_line.started
                &&& after.seams.resets == ring.seams.resets + 1
            }
        }),
{
    let before = if device is Microphone { ring.mic } else { ring.system };
    assert(before + (quiet(ring.silence, 0) + samples) =~= before + samples);
    assert(Seq::<T>::empty() + (quiet(ring.silence, 0) + samples) =~= samples);
    assert(TIMELINE_RESET_NS * ring.rate == 5_000_000_000 * ring.rate);
}

proof fn lemma_observed_is_skip(readings: Seq<Reading>, clock: int) -> (gone: int)
    requires
        readings.len() > 0,
    ensures
        0 <= gone < readings.len(),
        observed(readings, clock) == readings.skip(gone),
        forall|i: int| 1 <= i <= gone ==> clock - (#[trigger] readings[i]).0 >= 2_000_000_000,
        gone + 1 < readings.len() ==> clock - readings[gone + 1].0 < 2_000_000_000,
    decreases readings.len(),
{
    if readings.len() >= 2 && clock - readings[1].0 >= TIMELINE_OBSERVATION_NS {
        let rest = readings.drop_first();
        let gone = lemma_observed_is_skip(rest, clock);
        assert(rest.skip(gone) =~= readings.skip(gone + 1));
        assert forall|i: int| 1 <= i <= gone + 1 implies clock - (#[trigger] readings[i]).0
            >= 2_000_000_000 by {
            if i > 1 {
                assert(rest[i - 1] == readings[i]);
            }
        }
        if gone + 2 < readings.len() {
            assert(rest[gone + 1] == readings[gone + 2]);
        }
        gone + 1
    } else {
        assert(readings.skip(0) =~= readings);
        0
    }
}

proof fn lemma_least_lag_is_one_of_them(readings: Seq<Reading>) -> (index: int)
    requires
        readings.len() > 0,
    ensures
        0 <= index < readings.len(),
        least_lag(readings) == readings[index].1,
    decreases readings.len(),
{
    if readings.len() <= 1 {
        0
    } else {
        let before = lemma_least_lag_is_one_of_them(readings.drop_last());
        if readings.last().1 < least_lag(readings.drop_last()) {
            readings.len() - 1
        } else {
            before
        }
    }
}

/// A shortfall is what every reading of the last two seconds agrees on. It is reported only
/// when the readings reach back that far and each of them is at least three tenths of a
/// second; then it is the least of them, and the readings begin anew. Otherwise nothing is
/// reported, and only readings that are older than another one from beyond two seconds go.
pub proof fn shortfall_is_what_all_readings_agree_on(
    line: LineModel,
    clock: u64,
    lag: i128,
    rate: int,
)
    requires
        rate > 0,
    ensures
        ({
            let all = line.readings.push((clock, lag));
            let (after, gap) = line.after_reading(clock, lag, rate);
            &&& after.started == line.started
            &&& exists|gone: int| #[trigger]
                all.skip(gone).len() > 0 && 0 <= gone < all.len() && {
                    let kept = all.skip(gone);
                    let lasting = clock - kept[0].0 >= 2_000_000_000 && forall|i: int|
                        0 <= i < kept.len() ==> (#[trigger] kept[i]).1 >= 300_000_000 * rate;
                    &&& forall|i: int|
                        1 <= i <= gone ==> clock - (#[trigger] all[i]).0 >= 2_000_000_000
                    &&& gone + 1 < all.len() ==> clock - all[gone + 1].0 < 2_000_000_000
                    &&& lasting ==> after.readings.len() == 0
                    &&& lasting ==> forall|i: int| 0 <= i < kept.len() ==> gap <= (#[trigger] kept[i]).1
                    &&& lasting ==> exists|i: int| 0 <= i < kept.len() && gap == (#[trigger] kept[i]).1
                    &&& !lasting ==> gap == 0 && after.readings == kept
                }
        }),
{
    let all = line.readings.push((clock, lag));
    let gone = lemma_observed_is_skip(all, clock as int);
    let kept = all.skip(gone);
    let least = least_lag(kept);
    let at = lemma_least_lag_is_one_of_them(kept);
    assert forall|i: int| 0 <= i < kept.len() implies least <= (#[trigger] kept[i]).1 by {
        lemma_least_lag_is_least(kept, i);
    }
    assert(TIMELINE_GAP_NS * rate == 300_000_000 * rate);
    assert(kept[at].1 == least);
    assert(all.skip(gone).len() > 0);
}

/// What comes out together was in the same place: both windows are as long as the ring's
/// window and hold, sample by sample, the oldest of each source, with silence only behind the
/// last one. What is behind them stays, and is all that stays.
pub proof fn windows_hold_what_was_side_by_side<T>(ring: RingModel<T>)
    requires
        ring.window >= 1,
        ring.window_taken() is Some,
    ensures
        ({
            let (mic, system, after) = ring.window_taken().unwrap();
            &&& mic.len() == ring.window
            &&& system.len() == ring.window
            &&& forall|i: int|
                0 <= i < ring.window ==> #[trigger] mic[i] == if i < ring.mic.len() {
                    ring.mic[i]
                } else {
                    ring.silence
                }
            &&& forall|i: int|
                0 <= i < ring.window ==> #[trigger] system[i] == if i < ring.system.len() {
                    ring.system[i]
                } else {
                    ring.silence
                }
            &&& ring.mic.len() >= ring.window ==> after.mic == ring.mic.skip(ring.window)
            &&& ring.mic.len() < ring.window ==> after.mic.len() == 0
            &&& ring.system.len() >= ring.window ==> after.system == ring.system.skip(ring.window)
            &&& ring.system.len() < ring.window ==> after.system.len() == 0
            &&& after.output == ring.output + ring.window
            &&& after.origin == ring.origin
            &&& after.mic_line == ring.mic_line
            &&& after.system_line == ring.system_line
        }),
{
}

/// A window is handed out as soon as every source that is captured has one, and otherwise only
/// when a source is twelve windows ahead: one that is merely late is waited for.
pub proof fn late_source_is_waited_for<T>(ring: RingModel<T>)
    requires
        ring.window >= 1,
    ensures
        ring.mic_enabled && ring.system_enabled && ring.mic.len() >= ring.window
            && ring.system.len() >= ring.window ==> ring.window_taken() is Some,
        ring.mic_enabled && !ring.system_enabled && ring.mic.len() >= ring.window
            ==> ring.window_taken() is Some,
        !ring.mic_enabled && ring.system_enabled && ring.system.len() >= ring.window
            ==> ring.window_taken() is Some,
        ring.mic.len() >= 12 * ring.window ==> ring.window_taken() is Some,
        ring.system.len() >= 12 * ring.window ==> ring.window_taken() is Some,
        ring.mic.len() < 12 * ring.window && ring.system.len() < 12 * ring.window && (
        ring.mic_enabled && ring.mic.len() < ring.window || ring.system_enabled && ring.system.len()
            < ring.window || !ring.mic_enabled && !ring.system_enabled)
            ==> ring.window_taken() is None,
{
    assert(ring.window * PATIENCE_WINDOWS == 12 * ring.window);
}

/// The tail hands out what is left of both, up to a window at a time and equally long: sample
/// by sample what is held, with silence behind the end of the shorter one.
pub proof fn tail_holds_what_was_side_by_side<T>(ring: RingModel<T>)
    requires
        ring.window >= 1,
    ensures
        ring.tail_taken() is None <==> ring.mic.len() == 0 && ring.system.len() == 0,
        ring.tail_taken() matches Some((mic, system, after)) ==> {
            let len = mic.len() as int;
            &&& system.len() == len
            &&& 0 < len <= ring.window
            &&& len == ring.window || len == ring.mic.len() || len == ring.system.len()
            &&& len < ring.window ==> len >= ring.mic.len() && len >= ring.system.len()
            &&& forall|i: int|
                0 <= i < len ==> #[trigger] mic[i] == if i < ring.mic.len() {
                    ring.mic[i]
                } else {
                    ring.silence
                }
            &&& forall|i: int|
                0 <= i < len ==> #[trigger] system[i] == if i < ring.system.len() {
                    ring.system[i]
                } else {
                    ring.silence
                }
            &&& ring.mic.len() >= len ==> after.mic == ring.mic.skip(len)
            &&& ring.mic.len() < len ==> after.mic.len() == 0
            &&& ring.system.len() >= len ==> after.system == ring.system.skip(len)
            &&& ring.system.len() < len ==> after.system.len() == 0
        },
{
}

/// A ring begins empty and unplaced, with a window of as many samples as so many milliseconds
/// hold and room for twenty of them.
pub proof fn ring_begins_empty<T>(rate: int, mic: bool, system: bool, window_ms: int, silence: T)
    requires
        rate > 0,
        window_ms > 0,
    ensures
        ({
            let ring = empty_ring(rate, mic, system, window_ms, silence);
            &&& ring.mic.len() == 0 && ring.system.len() == 0
            &&& ring.mic_enabled == mic && ring.system_enabled == system
            &&& ring.rate == rate && ring.silence == silence
            &&& ring.window * 1000 <= rate * window_ms || ring.window == 1
            &&& rate * window_ms < (ring.window + 1) * 1000
            &&& ring.window >= 1
            &&& ring.cap == 20 * ring.window
            &&& ring.origin is None && ring.output == 0
            &&& !ring.mic_line.started && !ring.system_line.started
            &&& ring.mic_line.readings.len() == 0 && ring.system_line.readings.len() == 0
        }),
{
    let whole = rate * window_ms / 1000;
    assert(whole * 1000 <= rate * window_ms < (whole + 1) * 1000);
}

} // verus!
